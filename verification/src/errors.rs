//! The errors that the library reports.
use vstd::prelude::*;

verus! {

/// What went wrong, as the command line reports it.
#[derive(Debug)]
pub enum CliError {
    /// No stored authentication.
    AuthMissing,
    /// A problem with the configuration or with what the user typed.
    Config(String),
    /// A remote service answered with an error.
    Api { code: &'static str, message: String },
    /// A download could not be completed.
    Download(String),
}

/// The content of a [`CliError`] as plain text.
pub enum ErrorModel {
    AuthMissing,
    Config(Seq<char>),
    Api { code: Seq<char>, message: Seq<char> },
    Download(Seq<char>),
}

impl View for CliError {
    type V = ErrorModel;

    open spec fn view(&self) -> ErrorModel {
        match self {
            CliError::AuthMissing => ErrorModel::AuthMissing,
            CliError::Config(m) => ErrorModel::Config(m@),
            CliError::Api { code, message } => ErrorModel::Api { code: code@, message: message@ },
            CliError::Download(m) => ErrorModel::Download(m@),
        }
    }
}

impl ErrorModel {
    /// The text that the error carries; empty where it carries none.
    pub open spec fn text(self) -> Seq<char> {
        match self {
            ErrorModel::AuthMissing => Seq::<char>::empty(),
            ErrorModel::Config(m) => m,
            ErrorModel::Api { code, message } => message,
            ErrorModel::Download(m) => m,
        }
    }
}

impl CliError {
    /// The text that the error carries; empty where it carries none.
    pub fn message(&self) -> (r: String)
        ensures
            r@ == self@.text(),
    {
        match self {
            CliError::AuthMissing => String::new(),
            CliError::Config(m) => m.clone(),
            CliError::Api { code: _, message } => message.clone(),
            CliError::Download(m) => m.clone(),
        }
    }
}

/// The text of an error is the one that it was made with, whole.
pub proof fn message_is_whole(e: CliError, r: String)
    requires
        r@ == e@.text(),
    ensures
        match e {
            CliError::AuthMissing => r@.len() == 0,
            CliError::Config(m) => r@ == m@,
            CliError::Api { code: _, message } => r@ == message@,
            CliError::Download(m) => r@ == m@,
        },
{
}

} // verus!
