use id3::TagLike;
use suno_core::lyrics::{embed_lyrics, placed, tag_write_error, TimedWord};

fn word(text: &str, start_ms: u32, success: bool) -> TimedWord {
    TimedWord {
        word: text.to_string(),
        start_ms,
        success,
    }
}

#[test]
fn title_and_lyrics_are_embedded() {
    let mut tag = id3::Tag::new();
    tag.set_artist("someone");
    tag.set_title("old");
    let words = vec![word("la", 10, true), word("lo", 20, false), word("li", 30, true)];
    embed_lyrics(&mut tag, "new", None, Some("la lo li"), Some(&words));
    assert_eq!(tag.title(), Some("new"));
    assert_eq!(tag.artist(), Some("someone"));
    let plain: Vec<&id3::frame::Lyrics> = tag.lyrics().collect();
    assert_eq!(plain.len(), 1);
    assert_eq!(plain[0].lang, "eng");
    assert_eq!(plain[0].description, "");
    assert_eq!(plain[0].text, "la lo li");
    let timed: Vec<&id3::frame::SynchronisedLyrics> = tag.synchronised_lyrics().collect();
    assert_eq!(timed.len(), 1);
    assert_eq!(timed[0].lang, "eng");
    assert_eq!(timed[0].timestamp_format, id3::frame::TimestampFormat::Ms);
    assert_eq!(timed[0].content_type, id3::frame::SynchronisedLyricsType::Lyrics);
    assert_eq!(timed[0].description, "");
    assert_eq!(timed[0].content, vec![(10, "la".to_string()), (30, "li".to_string())]);
    let ids: Vec<&str> = tag.frames().map(|f| f.id()).collect();
    assert_eq!(ids, vec!["TPE1", "TIT2", "USLT", "SYLT"]);
}

#[test]
fn artist_is_embedded() {
    let mut tag = id3::Tag::new();
    tag.set_artist("before");
    tag.set_album("album");
    embed_lyrics(&mut tag, "t", Some("someone"), None, None);
    assert_eq!(tag.artist(), Some("someone"));
    let ids: Vec<&str> = tag.frames().map(|f| f.id()).collect();
    assert_eq!(ids, vec!["TALB", "TIT2", "TPE1"]);
    let mut bare = id3::Tag::new();
    embed_lyrics(&mut bare, "t", None, None, None);
    assert_eq!(bare.artist(), None);
}

#[test]
fn embedding_again_replaces() {
    let mut tag = id3::Tag::new();
    let words = vec![word("la", 10, true)];
    embed_lyrics(&mut tag, "one", Some("x"), Some("first"), Some(&words));
    let words = vec![word("lu", 40, true)];
    embed_lyrics(&mut tag, "two", Some("y"), Some("second"), Some(&words));
    assert_eq!(tag.frames().count(), 4);
    assert_eq!(tag.title(), Some("two"));
    assert_eq!(tag.artist(), Some("y"));
    assert_eq!(tag.lyrics().next().map(|l| l.text.as_str()), Some("second"));
    assert_eq!(
        tag.synchronised_lyrics().next().map(|l| l.content.clone()),
        Some(vec![(40, "lu".to_string())])
    );
}

#[test]
fn nothing_is_embedded_without_placed_words() {
    let mut tag = id3::Tag::new();
    let words = vec![word("la", 10, false)];
    embed_lyrics(&mut tag, "t", None, None, Some(&words));
    let ids: Vec<&str> = tag.frames().map(|f| f.id()).collect();
    assert_eq!(ids, vec!["TIT2"]);
    embed_lyrics(&mut tag, "u", None, None, None);
    assert_eq!(tag.title(), Some("u"));
    assert_eq!(tag.frames().count(), 1);
}

#[test]
fn other_lyrics_stay() {
    let mut tag = id3::Tag::new();
    tag.add_frame(id3::frame::Lyrics {
        lang: "deu".to_string(),
        description: String::new(),
        text: "x".to_string(),
    });
    embed_lyrics(&mut tag, "t", None, Some("y"), None);
    assert_eq!(tag.lyrics().count(), 2);
}

#[test]
fn placed_words_keep_their_order() {
    assert_eq!(
        placed(&vec![word("a", 5, true), word("b", 1, false), word("c", 3, true)]),
        vec![(5, "a".to_string()), (3, "c".to_string())]
    );
}

#[test]
fn write_errors_are_download_errors() {
    assert_eq!(tag_write_error("disk full").message(), "failed to write ID3 tags: disk full");
}
