use suno_core::download::{
    asks_for_export, check_transfer, download_urls, extension, no_audio_url, part_extension, usable_url, AfterFetch,
    Clip, Download, Transfer,
};
use suno_core::errors::CliError;
use suno_core::filename::{clip_filename, slug};

#[test]
fn redacted_and_empty_urls_are_not_usable() {
    // The sentinel Suno returns instead of the CDN link.
    assert_eq!(
        usable_url(Some("https://studio-api.prod.suno.com/api/forbidden")),
        None
    );
    // The feed sends "" for video on audio-only clips.
    assert_eq!(usable_url(Some("")), None);
    assert_eq!(usable_url(Some("   ")), None);
    assert_eq!(usable_url(None), None);
    assert_eq!(
        usable_url(Some("https://cdn1.suno.ai/abc.mp3")),
        Some("https://cdn1.suno.ai/abc.mp3")
    );
}

#[test]
fn usable_urls_are_trimmed() {
    assert_eq!(usable_url(Some(" https://x/y \n")), Some("https://x/y"));
    assert_eq!(usable_url(Some(" /api/forbidden ")), None);
    assert_eq!(usable_url(Some("/api/forbidden/")), Some("/api/forbidden/"));
}

#[test]
fn filename_collapses_separator_runs() {
    assert_eq!(
        clip_filename("Hello, World!", "0123456789abcdef", "mp3"),
        "hello-world-01234567.mp3"
    );
    // 3+ char symbol run.
    assert_eq!(
        clip_filename("a — b", "0123456789abcdef", "mp3"),
        "a-b-01234567.mp3"
    );
}

#[test]
fn filename_handles_empty_and_symbol_only_titles() {
    // No leading dash when the title slugs away to nothing.
    assert_eq!(clip_filename("", "0123456789abcdef", "mp3"), "01234567.mp3");
    assert_eq!(
        clip_filename("!!!", "0123456789abcdef", "mp4"),
        "01234567.mp4"
    );
}

#[test]
fn filename_keeps_unicode_titles() {
    assert_eq!(
        clip_filename("夜の歌 Remix", "0123456789abcdef", "mp3"),
        "夜の歌-remix-01234567.mp3"
    );
    assert_eq!(clip_filename("short", "abc", "mp3"), "short-abc.mp3");
}

#[test]
fn filename_lowers_letters_by_unicode() {
    assert_eq!(clip_filename("ÄÖÜ ΑΣ", "12345678", "mp3"), "äöü-ας-12345678.mp3");
    assert_eq!(clip_filename("--A--B--", "", "mp3"), "a-b-.mp3");
    assert_eq!(clip_filename("a/b.c", "éééé-rest", "mp3"), "a-b-c-éééé.mp3");
}

#[test]
fn padding_of_a_title_changes_nothing() {
    for (p, q) in [("", ""), ("  ", "!"), ("--", "..."), ("(", ")"), ("\t[", "] -")] {
        for t in ["Hello World", "a--B", "x", "", "!?", "42nd"] {
            let padded = format!("{}{}{}", p, t, q);
            assert_eq!(
                clip_filename(&padded, "0123456789", "mp3"),
                clip_filename(t, "0123456789", "mp3")
            );
        }
    }
}

#[test]
fn ascii_titles_are_lowered() {
    for u in 0..128_u8 {
        let c = u as char;
        let expected = if c.is_ascii_alphanumeric() {
            format!("{}-1.mp3", c.to_ascii_lowercase())
        } else {
            "1.mp3".to_string()
        };
        assert_eq!(clip_filename(&c.to_string(), "1", "mp3"), expected);
    }
}

#[test]
fn slug_of_marked_characters() {
    let marked = vec![('(', false), ('a', true), ('?', false), ('!', false), ('b', true), (')', false)];
    assert_eq!(slug(&marked), "a-b");
    assert_eq!(slug(&vec![]), "");
    assert_eq!(slug(&vec![('x', false)]), "");
    assert_eq!(slug(&vec![('-', true), ('.', false), ('a', true)]), "-a");
}

fn clip(audio: Option<&str>, video: Option<&str>) -> Clip {
    Clip {
        id: "id-1".to_string(),
        title: "t".to_string(),
        audio_url: audio.map(String::from),
        video_url: video.map(String::from),
    }
}

#[test]
fn audio_comes_from_export_then_feed_then_id() {
    let by_id = "https://audiopipe.suno.ai/?item_id=id-1".to_string();
    assert_eq!(
        download_urls(&clip(Some(" https://feed "), None), false, Some("https://export".to_string()))
            .unwrap(),
        vec!["https://export".to_string(), "https://feed".to_string(), by_id.clone()]
    );
    assert_eq!(
        download_urls(&clip(Some("https://x/api/forbidden"), None), false, None).unwrap(),
        vec![by_id.clone()]
    );
    assert_eq!(download_urls(&clip(None, Some("v")), false, None).unwrap(), vec![by_id]);
}

#[test]
fn video_comes_from_the_feed_or_not_at_all() {
    assert_eq!(
        download_urls(&clip(None, Some("https://v")), true, None).unwrap(),
        vec!["https://v".to_string()]
    );
    match download_urls(&clip(Some("https://a"), Some("")), true, Some("e".to_string())) {
        Err(CliError::Download(m)) => assert_eq!(m, "no video URL available"),
        other => panic!("{:?}", other),
    }
}

#[test]
fn only_audio_is_exported() {
    assert!(asks_for_export(false));
    assert!(!asks_for_export(true));
    let c = clip(None, Some("v"));
    assert_eq!(
        download_urls(&c, true, Some("e".to_string())).unwrap(),
        download_urls(&c, true, None).unwrap()
    );
}

#[test]
fn extensions() {
    assert_eq!(extension(true), "mp4");
    assert_eq!(extension(false), "mp3");
    assert_eq!(part_extension(true), "mp4.part");
    assert_eq!(part_extension(false), "mp3.part");
}

#[test]
fn each_candidate_is_tried_three_times() {
    let mut walk: Download<u32> = Download::new(vec!["a".to_string(), "b".to_string()]);
    let mut log: Vec<(String, AfterFetch)> = Vec::new();
    let mut n = 0;
    while let Some(url) = walk.next_url() {
        let url = url.clone();
        n += 1;
        let then = walk.fetch_ended(Err(n));
        log.push((url, then));
    }
    let expected: Vec<(String, AfterFetch)> = vec![
        ("a".to_string(), AfterFetch::Retry { seconds: 2 }),
        ("a".to_string(), AfterFetch::Retry { seconds: 4 }),
        ("a".to_string(), AfterFetch::Next),
        ("b".to_string(), AfterFetch::Retry { seconds: 2 }),
        ("b".to_string(), AfterFetch::Retry { seconds: 4 }),
        ("b".to_string(), AfterFetch::Next),
    ];
    assert_eq!(log, expected);
    assert_eq!(walk.into_error(None, 99), 6);
}

#[test]
fn only_a_complete_file_is_saved() {
    let mut walk: Download<u32> = Download::new(vec!["a".to_string(), "b".to_string()]);
    assert_eq!(walk.fetch_ended(Err(1)), AfterFetch::Retry { seconds: 2 });
    assert_eq!(walk.fetch_ended(Ok(10)), AfterFetch::Save);
}

#[test]
fn export_error_goes_before_the_last_one() {
    let mut walk: Download<u32> = Download::new(vec!["a".to_string()]);
    walk.fetch_ended(Err(1));
    assert_eq!(walk.into_error(Some(7), 99), 7);
    let idle: Download<u32> = Download::new(vec![]);
    assert_eq!(idle.next_url(), None);
    assert_eq!(idle.into_error(None, 99), 99);
    assert_eq!(no_audio_url("x").message(), "no audio URL available for x");
}

#[test]
fn transfers_are_checked() {
    assert_eq!(check_transfer(10, Some(10), "u").unwrap(), 10);
    assert_eq!(check_transfer(10, None, "u").unwrap(), 10);
    assert_eq!(check_transfer(10, Some(0), "u").unwrap(), 10);
    assert_eq!(
        check_transfer(0, None, "http://u").unwrap_err().message(),
        "empty response from http://u"
    );
    assert_eq!(
        check_transfer(0, Some(5), "http://u").unwrap_err().message(),
        "empty response from http://u"
    );
    assert_eq!(
        check_transfer(1200, Some(340000), "http://u").unwrap_err().message(),
        "incomplete download: received 1200 of 340000 bytes from http://u"
    );
    assert!(matches!(check_transfer(2, Some(1), "u"), Err(CliError::Download(_))));
}

#[test]
fn transfer_counts_its_chunks() {
    let mut t = Transfer::new();
    assert_eq!(t.written(), 0);
    t.record(3);
    t.record(4);
    assert_eq!(t.written(), 7);
}
