use suno_core::errors::CliError;
use suno_core::export::{export_path, ExportPoll, ExportReply, ExportStep};

fn reply(url: Option<&str>, status: Option<&str>) -> ExportReply {
    ExportReply {
        download_url: url.map(String::from),
        status: status.map(String::from),
    }
}

const SECOND: u128 = 1_000_000_000;

#[test]
fn export_is_asked_for_by_id() {
    assert_eq!(export_path("abc"), "/api/download/clip/abc?format=mp3");
}

#[test]
fn notice_is_shown_with_the_first_wait_only() {
    let mut poll = ExportPoll::new();
    match poll.on_reply("abc", reply(None, Some("processing")), 0) {
        ExportStep::Wait { notice, seconds } => {
            assert_eq!(notice.as_deref(), Some("Suno is preparing the export for abc..."));
            assert_eq!(seconds, 3);
        }
        other => panic!("{:?}", other),
    }
    match poll.on_reply("abc", reply(None, None), 179 * SECOND + 999_999_999) {
        ExportStep::Wait { notice, seconds } => {
            assert_eq!(notice, None);
            assert_eq!(seconds, 3);
        }
        other => panic!("{:?}", other),
    }
}

#[test]
fn address_ends_the_wait_even_late() {
    let mut poll = ExportPoll::new();
    match poll.on_reply("abc", reply(Some("https://s3"), None), 500 * SECOND) {
        ExportStep::Ready(url) => assert_eq!(url, "https://s3"),
        other => panic!("{:?}", other),
    }
}

#[test]
fn wait_is_over_after_the_time_limit() {
    let mut poll = ExportPoll::new();
    match poll.on_reply("abc", reply(None, Some("processing")), 180 * SECOND) {
        ExportStep::TimedOut(CliError::Download(m)) => assert_eq!(
            m,
            "Suno did not finish preparing the export for abc within 180s (status: processing)"
        ),
        other => panic!("{:?}", other),
    }
    match poll.on_reply("abc", reply(None, None), 181 * SECOND) {
        ExportStep::TimedOut(e) => assert_eq!(
            e.message(),
            "Suno did not finish preparing the export for abc within 180s (status: unknown)"
        ),
        other => panic!("{:?}", other),
    }
}
