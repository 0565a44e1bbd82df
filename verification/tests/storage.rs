use suno_core::errors::CliError;
use suno_core::storage::{
    corrupt_auth_file, require_auth_file, save_plan, SaveStep, AUTH_FILE, AUTH_FILE_MODE,
    AUTH_TEMP_EXTENSION,
};

#[test]
fn saving_writes_aside_and_renames() {
    assert_eq!(
        save_plan(true, true),
        vec![
            SaveStep::CreateDirectory,
            SaveStep::Encode,
            SaveStep::CreateTemp { mode: 0o600 },
            SaveStep::Write,
            SaveStep::Sync,
            SaveStep::Rename,
        ]
    );
    assert_eq!(
        save_plan(false, false),
        vec![SaveStep::Encode, SaveStep::WriteTemp, SaveStep::Rename]
    );
    assert_eq!(AUTH_FILE, "auth.json");
    assert_eq!(AUTH_TEMP_EXTENSION, "json.tmp");
    assert_eq!(AUTH_FILE_MODE, 0o600);
}

#[test]
fn loading_needs_a_file_that_can_be_read() {
    assert!(require_auth_file(true).is_ok());
    assert!(matches!(require_auth_file(false), Err(CliError::AuthMissing)));
    assert_eq!(require_auth_file(false).unwrap_err().message(), "");
    match corrupt_auth_file("eof") {
        CliError::Config(m) => assert_eq!(m, "corrupt auth file: eof"),
        other => panic!("{:?}", other),
    }
}
