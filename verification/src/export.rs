//! Asking for the export of a clip: the endpoint answers without an address
//! until the file is rendered, so it is polled until one shows up or the time
//! is over.
use vstd::prelude::*;

use crate::cookies;
use crate::errors::{CliError, ErrorModel};
use crate::text;

verus! {

/// How many seconds an export may take.
pub const EXPORT_TIMEOUT_SECONDS: u64 = 180;

/// How many seconds to wait between two questions.
pub const EXPORT_POLL_SECONDS: u64 = 3;

/// The nanoseconds of a second.
pub const NANOS_PER_SECOND: u128 = 1_000_000_000;

/// The path that an export is asked for at.
pub fn export_path(clip_id: &str) -> (r: String)
    ensures
        r@ == "/api/download/clip/"@ + clip_id@ + "?format=mp3"@,
{
    let mut out = "/api/download/clip/".to_owned();
    out.append(clip_id);
    out.append("?format=mp3");
    out
}

/// An answer of the export endpoint.
#[derive(Debug)]
pub struct ExportReply {
    pub download_url: Option<String>,
    pub status: Option<String>,
}

/// What to do after an answer.
#[derive(Debug)]
pub enum ExportStep {
    /// The file is ready at this address.
    Ready(String),
    /// The time is over.
    TimedOut(CliError),
    /// Show the notice, if there is one, wait, and ask again.
    Wait { notice: Option<String>, seconds: u64 },
}

/// The content of an [`ExportStep`] as plain values.
pub enum ExportStepModel {
    Ready(Seq<char>),
    TimedOut(ErrorModel),
    Wait { notice: Option<Seq<char>>, seconds: u64 },
}

impl View for ExportStep {
    type V = ExportStepModel;

    open spec fn view(&self) -> ExportStepModel {
        match self {
            ExportStep::Ready(url) => ExportStepModel::Ready(url@),
            ExportStep::TimedOut(e) => ExportStepModel::TimedOut(e@),
            ExportStep::Wait { notice, seconds } => ExportStepModel::Wait {
                notice: cookies::text_of(*notice),
                seconds: *seconds,
            },
        }
    }
}

/// The error for an export that took too long.
pub open spec fn timeout_text(clip_id: Seq<char>, status: Option<Seq<char>>) -> Seq<char> {
    "Suno did not finish preparing the export for "@ + clip_id + " within "@ + text::decimal(
        EXPORT_TIMEOUT_SECONDS as nat,
    ) + "s (status: "@ + (match status {
        Some(s) => s,
        None => "unknown"@,
    }) + ")"@
}

/// The notice that an export is under way.
pub open spec fn notice_text(clip_id: Seq<char>) -> Seq<char> {
    "Suno is preparing the export for "@ + clip_id + "..."@
}

/// What to do after an answer that came `elapsed` nanoseconds after the start.
pub open spec fn export_step(
    clip_id: Seq<char>,
    announced: bool,
    download_url: Option<Seq<char>>,
    status: Option<Seq<char>>,
    elapsed: u128,
) -> ExportStepModel {
    match download_url {
        Some(url) => ExportStepModel::Ready(url),
        None => if elapsed >= EXPORT_TIMEOUT_SECONDS * NANOS_PER_SECOND {
            ExportStepModel::TimedOut(ErrorModel::Download(timeout_text(clip_id, status)))
        } else {
            ExportStepModel::Wait {
                notice: if announced {
                    None
                } else {
                    Some(notice_text(clip_id))
                },
                seconds: EXPORT_POLL_SECONDS,
            }
        },
    }
}

/// The waiting for one export.
pub struct ExportPoll {
    announced: bool,
}

impl ExportPoll {
    /// Whether the notice has been shown.
    pub closed spec fn has_announced(self) -> bool {
        self.announced
    }

    /// Starts to wait.
    pub fn new() -> (r: Self)
        ensures
            !r.has_announced(),
    {
        ExportPoll { announced: false }
    }

    /// Decides what to do after an answer that came `elapsed` nanoseconds after
    /// the start.
    pub fn on_reply(&mut self, clip_id: &str, reply: ExportReply, elapsed: u128) -> (r: ExportStep)
        ensures
            r@ == export_step(
                clip_id@,
                old(self).has_announced(),
                cookies::text_of(reply.download_url),
                cookies::text_of(reply.status),
                elapsed,
            ),
            final(self).has_announced() == (old(self).has_announced() || r is Wait),
    {
        if let Some(url) = reply.download_url {
            return ExportStep::Ready(url);
        }
        if elapsed >= EXPORT_TIMEOUT_SECONDS as u128 * NANOS_PER_SECOND {
            let mut m = "Suno did not finish preparing the export for ".to_owned();
            m.append(clip_id);
            m.append(" within ");
            m.append(text::to_decimal(EXPORT_TIMEOUT_SECONDS as u128).as_str());
            m.append("s (status: ");
            match reply.status {
                Some(s) => m.append(s.as_str()),
                None => m.append("unknown"),
            }
            m.append(")");
            return ExportStep::TimedOut(CliError::Download(m));
        }
        let notice = if self.announced {
            None
        } else {
            let mut m = "Suno is preparing the export for ".to_owned();
            m.append(clip_id);
            m.append("...");
            Some(m)
        };
        self.announced = true;
        ExportStep::Wait { notice, seconds: EXPORT_POLL_SECONDS }
    }
}

/// The steps after the given answers, each with the time that it came at, to a
/// question for one clip.
pub open spec fn export_run(
    clip_id: Seq<char>,
    replies: Seq<(Option<Seq<char>>, Option<Seq<char>>, u128)>,
) -> Seq<ExportStepModel>
    decreases replies.len(),
{
    if replies.len() == 0 {
        Seq::<ExportStepModel>::empty()
    } else {
        let before = export_run(clip_id, replies.drop_last());
        let last = replies.last();
        before.push(export_step(clip_id, has_waited(before), last.0, last.1, last.2))
    }
}

/// Whether one of the steps is to wait.
pub open spec fn has_waited(steps: Seq<ExportStepModel>) -> bool {
    exists|i: int| 0 <= i < steps.len() && (#[trigger] steps[i]) is Wait
}

/// Whether a step shows the notice.
pub open spec fn shows_notice(step: ExportStepModel) -> bool {
    step matches ExportStepModel::Wait { notice, seconds } && notice is Some
}

/// However long an export takes, the notice is shown once at most, and it is
/// shown with the first wait.
pub proof fn notice_is_shown_once(
    clip_id: Seq<char>,
    replies: Seq<(Option<Seq<char>>, Option<Seq<char>>, u128)>,
    i: int,
)
    requires
        0 <= i < replies.len(),
    ensures
        export_run(clip_id, replies).len() == replies.len(),
        shows_notice(export_run(clip_id, replies)[i]) <==> export_run(clip_id, replies)[i] is Wait
            && forall|j: int| 0 <= j < i ==> (#[trigger] export_run(clip_id, replies)[j]) !is Wait,
    decreases replies.len(),
{
    lemma_run_len(clip_id, replies);
    let less = replies.drop_last();
    lemma_run_len(clip_id, less);
    let before = export_run(clip_id, less);
    let steps = export_run(clip_id, replies);
    assert(forall|j: int| 0 <= j < before.len() ==> #[trigger] steps[j] == before[j]);
    if i < less.len() {
        notice_is_shown_once(clip_id, less, i);
        assert(steps[i] == before[i]);
        assert forall|j: int| 0 <= j < i implies (#[trigger] steps[j]) == before[j] by {}
        if forall|j: int| 0 <= j < i ==> (#[trigger] steps[j]) !is Wait {
            assert forall|j: int| 0 <= j < i implies (#[trigger] before[j]) !is Wait by {
                assert(steps[j] == before[j]);
            }
        }
    } else {
        if has_waited(before) {
            let j = choose|j: int| 0 <= j < before.len() && (#[trigger] before[j]) is Wait;
            assert(steps[j] is Wait);
        } else {
            assert forall|j: int| 0 <= j < i implies (#[trigger] steps[j]) !is Wait by {
                assert(steps[j] == before[j]);
            }
        }
    }
}

proof fn lemma_run_len(
    clip_id: Seq<char>,
    replies: Seq<(Option<Seq<char>>, Option<Seq<char>>, u128)>,
)
    ensures
        export_run(clip_id, replies).len() == replies.len(),
    decreases replies.len(),
{
    if replies.len() > 0 {
        lemma_run_len(clip_id, replies.drop_last());
    }
}

/// An address that came ends the wait, at any time, and is given whole. Without
/// one the wait is over when 180 seconds have passed, with an error that names
/// the clip and the status; before that there is a wait of three seconds, with a
/// notice that names the clip the first time only.
pub proof fn reply_decides_the_step(
    clip_id: &str,
    announced: bool,
    reply: ExportReply,
    elapsed: u128,
    r: ExportStep,
)
    requires
        r@ == export_step(
            clip_id@,
            announced,
            cookies::text_of(reply.download_url),
            cookies::text_of(reply.status),
            elapsed,
        ),
    ensures
        reply.download_url matches Some(url) ==> (r matches ExportStep::Ready(u) && u@ == url@),
        reply.download_url is None && elapsed >= 180_000_000_000 ==> (
        r matches ExportStep::TimedOut(e) && (e matches CliError::Download(m) && m@
            == "Suno did not finish preparing the export for "@ + clip_id@ + " within "@ + "180"@
            + "s (status: "@ + (match reply.status {
            Some(s) => s@,
            None => "unknown"@,
        }) + ")"@)),
        reply.download_url is None && elapsed < 180_000_000_000 ==> (r matches ExportStep::Wait {
            notice,
            seconds,
        } && seconds == 3 && (announced <==> notice is None) && (notice matches Some(n) ==> n@
            == "Suno is preparing the export for "@ + clip_id@ + "..."@)),
{
    assert(text::decimal(180) =~= "180"@) by {
        reveal_with_fuel(text::decimal, 4);
        reveal_strlit("180");
    }
}

} // verus!
