//! The title, the artist and the lyrics that are written into a downloaded file.
use id3::TagLike;
use vstd::prelude::*;

use crate::download;
use crate::errors::{CliError, ErrorModel};

verus! {

/// An ID3 tag of the `id3` crate.
#[verifier::external_type_specification]
#[verifier::external_body]
pub struct ExTag(id3::Tag);

/// A frame of the `id3` crate.
#[verifier::external_type_specification]
#[verifier::external_body]
pub struct ExFrame(id3::Frame);

/// The unit of the times in synchronised lyrics.
#[derive(Debug, Clone, Copy, PartialEq, Eq, Structural)]
pub enum TimestampUnit {
    MpegFrames,
    Milliseconds,
}

/// What the text of synchronised lyrics is.
#[derive(Debug, Clone, Copy, PartialEq, Eq, Structural)]
pub enum SynchronisedKind {
    Other,
    Lyrics,
    Transcription,
    PartName,
    Event,
    Chord,
    Trivia,
}

impl SynchronisedKind {
    /// The name by which the `id3` crate tells the kinds apart.
    pub open spec fn name(self) -> Seq<char> {
        match self {
            SynchronisedKind::Other => "Other"@,
            SynchronisedKind::Lyrics => "Lyrics"@,
            SynchronisedKind::Transcription => "Transcription"@,
            SynchronisedKind::PartName => "Part name"@,
            SynchronisedKind::Event => "Event"@,
            SynchronisedKind::Chord => "Chord"@,
            SynchronisedKind::Trivia => "Trivia"@,
        }
    }
}

/// What a frame holds.
pub enum FrameContent {
    /// A text.
    Text(Seq<char>),
    /// Lyrics without times.
    Lyrics { language: Seq<char>, description: Seq<char>, text: Seq<char> },
    /// Lyrics with the time of each word.
    Synchronised {
        language: Seq<char>,
        unit: TimestampUnit,
        kind: SynchronisedKind,
        description: Seq<char>,
        words: Seq<(u32, Seq<char>)>,
    },
    /// Anything else.
    Other(id3::Frame),
}

/// What tells apart the frames of one identifier.
pub enum FrameKey {
    /// Nothing: there is one such frame.
    Single,
    /// The given fields.
    Fields(Seq<Seq<u8>>),
    /// Every frame is another one.
    Distinct,
}

/// A frame of a tag.
pub struct FrameModel {
    pub id: Seq<char>,
    pub key: FrameKey,
    pub content: FrameContent,
}

impl FrameModel {
    /// Whether the frame gives way when `new` is added.
    pub open spec fn gives_way_to(self, new: FrameModel) -> bool {
        self.id == new.id && match (self.key, new.key) {
            (FrameKey::Single, FrameKey::Single) => true,
            (FrameKey::Fields(a), FrameKey::Fields(b)) => a == b,
            _ => false,
        }
    }
}

/// The frames of a tag, in order.
pub uninterp spec fn tag_frames(tag: id3::Tag) -> Seq<FrameModel>;

/// The position of the first frame that gives way to `new`, or the number of
/// frames.
pub open spec fn place_of(frames: Seq<FrameModel>, new: FrameModel) -> int
    decreases frames.len(),
{
    if frames.len() == 0 || frames[0].gives_way_to(new) {
        0
    } else {
        1 + place_of(frames.drop_first(), new)
    }
}

/// The frames after `new` has been added: the first frame that gives way to it
/// is taken out, and it goes to the end.
pub open spec fn with_frame(frames: Seq<FrameModel>, new: FrameModel) -> Seq<FrameModel> {
    let at = place_of(frames, new);
    if at < frames.len() {
        frames.remove(at).push(new)
    } else {
        frames.push(new)
    }
}

/// The frame of a title.
pub open spec fn title_frame(title: Seq<char>) -> FrameModel {
    FrameModel { id: "TIT2"@, key: FrameKey::Single, content: FrameContent::Text(title) }
}

/// The frame of an artist.
pub open spec fn artist_frame(artist: Seq<char>) -> FrameModel {
    FrameModel { id: "TPE1"@, key: FrameKey::Single, content: FrameContent::Text(artist) }
}

/// The frame of lyrics without times.
pub open spec fn lyrics_frame(
    language: Seq<char>,
    description: Seq<char>,
    text: Seq<char>,
) -> FrameModel {
    FrameModel {
        id: "USLT"@,
        key: FrameKey::Fields(
            seq![vstd::utf8::encode_utf8(language), vstd::utf8::encode_utf8(description)],
        ),
        content: FrameContent::Lyrics { language, description, text },
    }
}

/// The frame of lyrics with times.
pub open spec fn synchronised_frame(
    language: Seq<char>,
    unit: TimestampUnit,
    kind: SynchronisedKind,
    description: Seq<char>,
    words: Seq<(u32, Seq<char>)>,
) -> FrameModel {
    FrameModel {
        id: "SYLT"@,
        key: FrameKey::Fields(
            seq![vstd::utf8::encode_utf8(language), vstd::utf8::encode_utf8(kind.name())],
        ),
        content: FrameContent::Synchronised { language, unit, kind, description, words },
    }
}

/// The texts of timed words.
pub open spec fn timed_texts(words: Seq<(u32, String)>) -> Seq<(u32, Seq<char>)> {
    words.map_values(|w: (u32, String)| (w.0, w.1@))
}

/// `TagLike::set_title` of `id3`: adds a text frame `TIT2`, which takes the
/// place of the first text frame `TIT2` that is there.
#[verifier::external_body]
fn set_title(tag: &mut id3::Tag, title: &str)
    ensures
        tag_frames(*final(tag)) == with_frame(tag_frames(*old(tag)), title_frame(title@)),
{
    tag.set_title(title);
}

/// `TagLike::set_artist` of `id3`: adds a text frame `TPE1`, which takes the
/// place of the first text frame `TPE1` that is there.
#[verifier::external_body]
fn set_artist(tag: &mut id3::Tag, artist: &str)
    ensures
        tag_frames(*final(tag)) == with_frame(tag_frames(*old(tag)), artist_frame(artist@)),
{
    tag.set_artist(artist);
}

/// `TagLike::add_frame` of `id3` with lyrics: adds a frame `USLT`, which takes
/// the place of the first one that is there with its language and description.
#[verifier::external_body]
fn add_lyrics(tag: &mut id3::Tag, lang: String, description: String, text: String)
    ensures
        tag_frames(*final(tag)) == with_frame(
            tag_frames(*old(tag)),
            lyrics_frame(lang@, description@, text@),
        ),
{
    tag.add_frame(id3::frame::Lyrics { lang, description, text });
}

/// `TagLike::add_frame` of `id3` with synchronised lyrics: adds a frame `SYLT`,
/// which takes the place of the first one that is there with its language and
/// kind.
#[verifier::external_body]
fn add_synchronised(
    tag: &mut id3::Tag,
    lang: String,
    unit: TimestampUnit,
    kind: SynchronisedKind,
    description: String,
    content: Vec<(u32, String)>,
)
    ensures
        tag_frames(*final(tag)) == with_frame(
            tag_frames(*old(tag)),
            synchronised_frame(lang@, unit, kind, description@, timed_texts(content@)),
        ),
{
    let timestamp_format = match unit {
        TimestampUnit::MpegFrames => id3::frame::TimestampFormat::Mpeg,
        TimestampUnit::Milliseconds => id3::frame::TimestampFormat::Ms,
    };
    let content_type = match kind {
        SynchronisedKind::Other => id3::frame::SynchronisedLyricsType::Other,
        SynchronisedKind::Lyrics => id3::frame::SynchronisedLyricsType::Lyrics,
        SynchronisedKind::Transcription => id3::frame::SynchronisedLyricsType::Transcription,
        SynchronisedKind::PartName => id3::frame::SynchronisedLyricsType::PartName,
        SynchronisedKind::Event => id3::frame::SynchronisedLyricsType::Event,
        SynchronisedKind::Chord => id3::frame::SynchronisedLyricsType::Chord,
        SynchronisedKind::Trivia => id3::frame::SynchronisedLyricsType::Trivia,
    };
    tag.add_frame(id3::frame::SynchronisedLyrics { lang, timestamp_format, content_type, description, content });
}

/// A word of a song, with its time in the recording.
#[derive(Debug)]
pub struct TimedWord {
    pub word: String,
    pub start_ms: u32,
    /// Whether the word could be placed in the recording.
    pub success: bool,
}

/// The content of a [`TimedWord`].
pub struct TimedWordModel {
    pub word: Seq<char>,
    pub start_ms: u32,
    pub success: bool,
}

impl View for TimedWord {
    type V = TimedWordModel;

    open spec fn view(&self) -> TimedWordModel {
        TimedWordModel { word: self.word@, start_ms: self.start_ms, success: self.success }
    }
}

/// The contents of optional timed words.
pub open spec fn word_models(words: Option<&Vec<TimedWord>>) -> Option<Seq<TimedWordModel>> {
    match words {
        Some(w) => Some(w@.map_values(|x: TimedWord| x@)),
        None => None,
    }
}

/// The words that could be placed, in order, each with its time.
pub open spec fn placed_words(words: Seq<TimedWordModel>) -> Seq<(u32, Seq<char>)>
    decreases words.len(),
{
    if words.len() == 0 {
        Seq::<(u32, Seq<char>)>::empty()
    } else {
        let before = placed_words(words.drop_last());
        if words.last().success {
            before.push((words.last().start_ms, words.last().word))
        } else {
            before
        }
    }
}

/// The frames after an artist has been embedded.
pub open spec fn with_artist(frames: Seq<FrameModel>, artist: Option<Seq<char>>) -> Seq<FrameModel> {
    match artist {
        Some(a) => with_frame(frames, artist_frame(a)),
        None => frames,
    }
}

/// The frames after lyrics without times have been embedded.
pub open spec fn with_plain(frames: Seq<FrameModel>, plain: Option<Seq<char>>) -> Seq<FrameModel> {
    match plain {
        Some(t) => with_frame(frames, lyrics_frame("eng"@, Seq::<char>::empty(), t)),
        None => frames,
    }
}

/// The frames after timed words have been embedded; nothing is embedded where
/// no word could be placed.
pub open spec fn with_words(
    frames: Seq<FrameModel>,
    words: Option<Seq<TimedWordModel>>,
) -> Seq<FrameModel> {
    match words {
        Some(w) => if placed_words(w).len() > 0 {
            with_frame(
                frames,
                synchronised_frame(
                    "eng"@,
                    TimestampUnit::Milliseconds,
                    SynchronisedKind::Lyrics,
                    Seq::<char>::empty(),
                    placed_words(w),
                ),
            )
        } else {
            frames
        },
        None => frames,
    }
}

/// The frames of a tag after a title, an artist and lyrics have been embedded.
pub open spec fn embedded(
    frames: Seq<FrameModel>,
    title: Seq<char>,
    artist: Option<Seq<char>>,
    plain: Option<Seq<char>>,
    words: Option<Seq<TimedWordModel>>,
) -> Seq<FrameModel> {
    with_words(
        with_plain(with_artist(with_frame(frames, title_frame(title)), artist), plain),
        words,
    )
}

/// The words that could be placed, in order, each with its time.
pub fn placed(words: &Vec<TimedWord>) -> (r: Vec<(u32, String)>)
    ensures
        timed_texts(r@) == placed_words(words@.map_values(|x: TimedWord| x@)),
{
    let n: usize = words.len();
    let ghost all = words@.map_values(|x: TimedWord| x@);
    let mut out: Vec<(u32, String)> = Vec::new();
    assert(timed_texts(out@) =~= placed_words(all.take(0)));
    for i in 0..n
        invariant
            n == words@.len(),
            all == words@.map_values(|x: TimedWord| x@),
            timed_texts(out@) == placed_words(all.take(i as int)),
    {
        let ghost before = out@;
        assert(all.take(i + 1).drop_last() =~= all.take(i as int));
        assert(all.take(i + 1).last() == words@[i as int]@);
        if words[i].success {
            let word = words[i].word.clone();
            let ghost added = (words@[i as int].start_ms, word@);
            out.push((words[i].start_ms, word));
            assert(timed_texts(out@) =~= timed_texts(before).push(added));
        }
    }
    assert(all.take(n as int) =~= all);
    out
}

/// Embeds a title, an artist and lyrics into a tag: the lyrics as plain text,
/// which most players show, and word by word with times. Where no artist is
/// given, the tag keeps the one that it has, or has none.
pub fn embed_lyrics(
    tag: &mut id3::Tag,
    title: &str,
    artist: Option<&str>,
    plain_lyrics: Option<&str>,
    aligned_words: Option<&Vec<TimedWord>>,
)
    ensures
        tag_frames(*final(tag)) == embedded(
            tag_frames(*old(tag)),
            title@,
            download::slice_text(artist),
            download::slice_text(plain_lyrics),
            word_models(aligned_words),
        ),
{
    set_title(tag, title);
    if let Some(name) = artist {
        set_artist(tag, name);
    }
    if let Some(lyrics) = plain_lyrics {
        add_lyrics(tag, "eng".to_owned(), String::new(), lyrics.to_owned());
    }
    if let Some(words) = aligned_words {
        let content = placed(words);
        assert(timed_texts(content@).len() == content@.len());
        if content.len() > 0 {
            add_synchronised(
                tag,
                "eng".to_owned(),
                TimestampUnit::Milliseconds,
                SynchronisedKind::Lyrics,
                String::new(),
                content,
            );
        }
    }
}

/// The error for a tag that could not be written.
pub fn tag_write_error(detail: &str) -> (r: CliError)
    ensures
        r@ == ErrorModel::Download("failed to write ID3 tags: "@ + detail@),
{
    let mut m = "failed to write ID3 tags: ".to_owned();
    m.append(detail);
    CliError::Download(m)
}

proof fn lemma_place(frames: Seq<FrameModel>, new: FrameModel)
    ensures
        0 <= place_of(frames, new) <= frames.len(),
        place_of(frames, new) < frames.len() ==> frames[place_of(frames, new)].gives_way_to(new),
    decreases frames.len(),
{
    if frames.len() > 0 && !frames[0].gives_way_to(new) {
        lemma_place(frames.drop_first(), new);
    }
}

proof fn lemma_filter_push(frames: Seq<FrameModel>, new: FrameModel, keep: spec_fn(FrameModel) -> bool)
    ensures
        frames.push(new).filter(keep) == if keep(new) {
            frames.filter(keep).push(new)
        } else {
            frames.filter(keep)
        },
{
    reveal(Seq::filter);
    assert(frames.push(new).drop_last() =~= frames);
}

proof fn lemma_filter_remove(frames: Seq<FrameModel>, at: int, keep: spec_fn(FrameModel) -> bool)
    requires
        0 <= at < frames.len(),
        !keep(frames[at]),
    ensures
        frames.remove(at).filter(keep) == frames.filter(keep),
    decreases frames.len(),
{
    reveal(Seq::filter);
    if at == frames.len() - 1 {
        assert(frames.remove(at) =~= frames.drop_last());
    } else {
        lemma_filter_remove(frames.drop_last(), at, keep);
        assert(frames.remove(at).drop_last() =~= frames.drop_last().remove(at));
        assert(frames.remove(at).last() == frames.last());
    }
}

/// Adding a frame changes no frame that `keep` tells apart from it and from
/// all frames with its identifier.
proof fn lemma_add_keeps(frames: Seq<FrameModel>, new: FrameModel, keep: spec_fn(FrameModel) -> bool)
    requires
        forall|f: FrameModel| f.id == new.id ==> !#[trigger] keep(f),
    ensures
        with_frame(frames, new).filter(keep) == frames.filter(keep),
{
    lemma_place(frames, new);
    let at = place_of(frames, new);
    if at < frames.len() {
        lemma_filter_remove(frames, at, keep);
        lemma_filter_push(frames.remove(at), new, keep);
    } else {
        lemma_filter_push(frames, new, keep);
    }
}

/// Whether a frame is none of those that embedding writes.
pub open spec fn is_foreign(f: FrameModel) -> bool {
    f.id != "TIT2"@ && f.id != "TPE1"@ && f.id != "USLT"@ && f.id != "SYLT"@
}

/// Embedding leaves every other frame of the tag as it is, and in its order.
pub proof fn embedding_keeps_other_frames(
    frames: Seq<FrameModel>,
    title: Seq<char>,
    artist: Option<Seq<char>>,
    plain: Option<Seq<char>>,
    words: Option<Seq<TimedWordModel>>,
)
    ensures
        embedded(frames, title, artist, plain, words).filter(|f: FrameModel| is_foreign(f))
            == frames.filter(|f: FrameModel| is_foreign(f)),
{
    let keep = |f: FrameModel| is_foreign(f);
    let one = with_frame(frames, title_frame(title));
    lemma_add_keeps(frames, title_frame(title), keep);
    let two = with_artist(one, artist);
    if let Some(a) = artist {
        lemma_add_keeps(one, artist_frame(a), keep);
    }
    let three = with_plain(two, plain);
    if let Some(t) = plain {
        lemma_add_keeps(two, lyrics_frame("eng"@, Seq::<char>::empty(), t), keep);
    }
    if let Some(w) = words {
        lemma_add_keeps(
            three,
            synchronised_frame(
                "eng"@,
                TimestampUnit::Milliseconds,
                SynchronisedKind::Lyrics,
                Seq::<char>::empty(),
                placed_words(w),
            ),
            keep,
        );
    }
}

proof fn lemma_add_contains(frames: Seq<FrameModel>, new: FrameModel, f: FrameModel)
    requires
        f == new || (frames.contains(f) && f.id != new.id),
    ensures
        with_frame(frames, new).contains(f),
{
    lemma_place(frames, new);
    let after = with_frame(frames, new);
    if f == new {
        assert(after[after.len() - 1] == new);
    } else {
        let i = choose|i: int| 0 <= i < frames.len() && frames[i] == f;
        let at = place_of(frames, new);
        if at < frames.len() && i > at {
            assert(after[i - 1] == f);
        } else {
            assert(after[i] == f);
        }
    }
}

proof fn lemma_frame_ids()
    ensures
        "TIT2"@ != "TPE1"@,
        "TIT2"@ != "USLT"@,
        "TIT2"@ != "SYLT"@,
        "TPE1"@ != "USLT"@,
        "TPE1"@ != "SYLT"@,
        "USLT"@ != "SYLT"@,
{
    reveal_strlit("TIT2");
    reveal_strlit("TPE1");
    reveal_strlit("USLT");
    reveal_strlit("SYLT");
    assert("TIT2"@[1] != "TPE1"@[1]);
    assert("TIT2"@[0] != "USLT"@[0]);
    assert("TIT2"@[0] != "SYLT"@[0]);
    assert("TPE1"@[0] != "USLT"@[0]);
    assert("TPE1"@[0] != "SYLT"@[0]);
    assert("USLT"@[0] != "SYLT"@[0]);
}

proof fn lemma_later_keep(
    frames: Seq<FrameModel>,
    plain: Option<Seq<char>>,
    words: Option<Seq<TimedWordModel>>,
    f: FrameModel,
)
    requires
        frames.contains(f),
        f.id != "USLT"@,
        f.id != "SYLT"@,
    ensures
        with_words(with_plain(frames, plain), words).contains(f),
{
    let next = with_plain(frames, plain);
    if let Some(t) = plain {
        lemma_add_contains(frames, lyrics_frame("eng"@, Seq::<char>::empty(), t), f);
    }
    lemma_words_keep(next, words, f);
}

proof fn lemma_words_keep(
    frames: Seq<FrameModel>,
    words: Option<Seq<TimedWordModel>>,
    f: FrameModel,
)
    requires
        frames.contains(f),
        f.id != "SYLT"@,
    ensures
        with_words(frames, words).contains(f),
{
    if let Some(w) = words {
        lemma_add_contains(
            frames,
            synchronised_frame(
                "eng"@,
                TimestampUnit::Milliseconds,
                SynchronisedKind::Lyrics,
                Seq::<char>::empty(),
                placed_words(w),
            ),
            f,
        );
    }
}

/// After embedding, the tag holds the title, the artist where there is one, the
/// plain lyrics where there are any, and the placed words where there are any.
pub proof fn embedding_holds_frames(
    frames: Seq<FrameModel>,
    title: Seq<char>,
    artist: Option<Seq<char>>,
    plain: Option<Seq<char>>,
    words: Option<Seq<TimedWordModel>>,
)
    ensures
        embedded(frames, title, artist, plain, words).contains(title_frame(title)),
        artist matches Some(a) ==> embedded(frames, title, artist, plain, words).contains(
            artist_frame(a),
        ),
        plain matches Some(t) ==> embedded(frames, title, artist, plain, words).contains(
            lyrics_frame("eng"@, Seq::<char>::empty(), t),
        ),
        words matches Some(w) ==> placed_words(w).len() > 0 ==> embedded(
            frames,
            title,
            artist,
            plain,
            words,
        ).contains(
            synchronised_frame(
                "eng"@,
                TimestampUnit::Milliseconds,
                SynchronisedKind::Lyrics,
                Seq::<char>::empty(),
                placed_words(w),
            ),
        ),
{
    lemma_frame_ids();
    let t0 = title_frame(title);
    let one = with_frame(frames, t0);
    lemma_add_contains(frames, t0, t0);
    let two = with_artist(one, artist);
    if let Some(a) = artist {
        lemma_add_contains(one, artist_frame(a), t0);
        lemma_add_contains(one, artist_frame(a), artist_frame(a));
        lemma_later_keep(two, plain, words, artist_frame(a));
    }
    lemma_later_keep(two, plain, words, t0);
    let three = with_plain(two, plain);
    if let Some(t) = plain {
        let l = lyrics_frame("eng"@, Seq::<char>::empty(), t);
        lemma_add_contains(two, l, l);
        lemma_words_keep(three, words, l);
    }
    if let Some(w) = words {
        let s = synchronised_frame(
            "eng"@,
            TimestampUnit::Milliseconds,
            SynchronisedKind::Lyrics,
            Seq::<char>::empty(),
            placed_words(w),
        );
        lemma_add_contains(three, s, s);
    }
}

proof fn lemma_placed_order(words: Seq<TimedWordModel>) -> (order: Seq<int>)
    ensures
        forall|k: int| 0 <= k < order.len() ==> 0 <= #[trigger] order[k] < words.len(),
        forall|k: int, l: int|
            0 <= k < l < order.len() ==> #[trigger] order[k] < #[trigger] order[l],
        forall|i: int| #[trigger]
            order.contains(i) <==> 0 <= i < words.len() && words[i].success,
        placed_words(words).len() == order.len(),
        forall|k: int|
            0 <= k < order.len() ==> #[trigger] placed_words(words)[k] == (
                words[order[k]].start_ms,
                words[order[k]].word,
            ),
    decreases words.len(),
{
    if words.len() == 0 {
        Seq::<int>::empty()
    } else {
        let less = words.drop_last();
        let last = words.len() - 1;
        let before = lemma_placed_order(less);
        let order = if words.last().success {
            before.push(last)
        } else {
            before
        };
        assert forall|i: int| #[trigger] order.contains(i) <==> 0 <= i < words.len()
            && words[i].success by {
            if order.contains(i) {
                let k = choose|k: int| 0 <= k < order.len() && order[k] == i;
                if k < before.len() {
                    assert(before[k] == i);
                    assert(before.contains(i));
                }
            }
            if 0 <= i < words.len() && words[i].success {
                if i < last {
                    assert(less[i] == words[i]);
                    assert(before.contains(i));
                    let k = choose|k: int| 0 <= k < before.len() && before[k] == i;
                    assert(order[k] == i);
                } else {
                    assert(order[before.len() as int] == i);
                }
            }
        }
        assert forall|k: int| 0 <= k < order.len() implies #[trigger] placed_words(words)[k] == (
            words[order[k]].start_ms,
            words[order[k]].word,
        ) by {
            if k < before.len() {
                assert(placed_words(words)[k] == placed_words(less)[k]);
                assert(less[before[k]] == words[order[k]]);
            }
        }
        order
    }
}

/// The placed words are those with success, in order and as many as there are,
/// each with its own text and its own time, both unchanged. Gives their places
/// among the words.
pub proof fn placed_words_keep_text_and_time(
    words: Seq<TimedWord>,
    r: Seq<(u32, String)>,
) -> (order: Seq<int>)
    requires
        timed_texts(r) == placed_words(words.map_values(|x: TimedWord| x@)),
    ensures
        forall|k: int| 0 <= k < order.len() ==> 0 <= #[trigger] order[k] < words.len(),
        forall|k: int, l: int|
            0 <= k < l < order.len() ==> #[trigger] order[k] < #[trigger] order[l],
        forall|i: int| #[trigger]
            order.contains(i) <==> 0 <= i < words.len() && words[i].success,
        r.len() == order.len(),
        forall|k: int|
            0 <= k < order.len() ==> (#[trigger] r[k]).0 == words[order[k]].start_ms && r[k].1@
                == words[order[k]].word@,
{
    let models = words.map_values(|x: TimedWord| x@);
    let order = lemma_placed_order(models);
    let texts = timed_texts(r);
    assert(texts.len() == r.len());
    assert forall|i: int| #[trigger] order.contains(i) <==> 0 <= i < words.len()
        && words[i].success by {
        if 0 <= i < words.len() {
            assert(models[i] == words[i]@);
        }
    }
    assert forall|k: int| 0 <= k < order.len() implies (#[trigger] r[k]).0
        == words[order[k]].start_ms && r[k].1@ == words[order[k]].word@ by {
        assert(texts[k] == (r[k].0, r[k].1@));
        assert(placed_words(models)[k] == (models[order[k]].start_ms, models[order[k]].word));
        assert(models[order[k]] == words[order[k]]@);
    }
    order
}

/// A frame that is added goes to the end. It takes the place of the first frame
/// that gives way to it, which is taken out; all others stay in their order.
pub proof fn added_frame_goes_to_the_end(frames: Seq<FrameModel>, new: FrameModel, i: int)
    requires
        0 <= i <= frames.len(),
        forall|j: int| 0 <= j < i ==> !(#[trigger] frames[j]).gives_way_to(new),
        i < frames.len() ==> frames[i].gives_way_to(new),
    ensures
        with_frame(frames, new) == if i < frames.len() {
            frames.take(i) + frames.skip(i + 1) + seq![new]
        } else {
            frames + seq![new]
        },
{
    lemma_place_is(frames, new, i);
    if i < frames.len() {
        assert(frames.remove(i).push(new) =~= frames.take(i) + frames.skip(i + 1) + seq![new]);
    } else {
        assert(frames.push(new) =~= frames + seq![new]);
    }
}

proof fn lemma_place_is(frames: Seq<FrameModel>, new: FrameModel, i: int)
    requires
        0 <= i <= frames.len(),
        forall|j: int| 0 <= j < i ==> !(#[trigger] frames[j]).gives_way_to(new),
        i < frames.len() ==> frames[i].gives_way_to(new),
    ensures
        place_of(frames, new) == i,
    decreases frames.len(),
{
    if i > 0 {
        let rest = frames.drop_first();
        assert(!frames[0].gives_way_to(new));
        assert forall|j: int| 0 <= j < i - 1 implies !(#[trigger] rest[j]).gives_way_to(new) by {
            assert(rest[j] == frames[j + 1]);
        }
        if i < frames.len() {
            assert(rest[i - 1] == frames[i]);
        }
        lemma_place_is(rest, new, i - 1);
    }
}

/// A tag without frames holds, after embedding, just what was given, in this
/// order: the title; the artist; the lyrics as they are, in English and without
/// a description; and the placed words with their times in milliseconds, in
/// English and without a description.
pub proof fn empty_tag_holds_what_was_given(
    title: Seq<char>,
    artist: Option<Seq<char>>,
    plain: Option<Seq<char>>,
    words: Option<Seq<TimedWordModel>>,
)
    ensures
        ({
            let none = Seq::<FrameModel>::empty();
            let no_text = Seq::<char>::empty();
            let english = vstd::utf8::encode_utf8("eng"@);
            embedded(none, title, artist, plain, words) == seq![
                FrameModel {
                    id: "TIT2"@,
                    key: FrameKey::Single,
                    content: FrameContent::Text(title),
                },
            ] + (match artist {
                Some(a) => seq![
                    FrameModel {
                        id: "TPE1"@,
                        key: FrameKey::Single,
                        content: FrameContent::Text(a),
                    },
                ],
                None => none,
            }) + (match plain {
                Some(t) => seq![
                    FrameModel {
                        id: "USLT"@,
                        key: FrameKey::Fields(
                            seq![english, vstd::utf8::encode_utf8(no_text)],
                        ),
                        content: FrameContent::Lyrics {
                            language: "eng"@,
                            description: no_text,
                            text: t,
                        },
                    },
                ],
                None => none,
            }) + (match words {
                Some(w) => if placed_words(w).len() > 0 {
                    seq![
                        FrameModel {
                            id: "SYLT"@,
                            key: FrameKey::Fields(
                                seq![english, vstd::utf8::encode_utf8("Lyrics"@)],
                            ),
                            content: FrameContent::Synchronised {
                                language: "eng"@,
                                unit: TimestampUnit::Milliseconds,
                                kind: SynchronisedKind::Lyrics,
                                description: no_text,
                                words: placed_words(w),
                            },
                        },
                    ]
                } else {
                    none
                },
                None => none,
            })
        }),
{
    lemma_frame_ids();
    let none = Seq::<FrameModel>::empty();
    let t0 = title_frame(title);
    let one = with_frame(none, t0);
    added_frame_goes_to_the_end(none, t0, 0);
    assert(one =~= seq![t0]);
    let two = with_artist(one, artist);
    if let Some(a) = artist {
        added_frame_goes_to_the_end(one, artist_frame(a), 1);
        assert(two =~= seq![t0, artist_frame(a)]);
    }
    let three = with_plain(two, plain);
    if let Some(t) = plain {
        let l = lyrics_frame("eng"@, Seq::<char>::empty(), t);
        added_frame_goes_to_the_end(two, l, two.len() as int);
    }
    if let Some(w) = words {
        let s = synchronised_frame(
            "eng"@,
            TimestampUnit::Milliseconds,
            SynchronisedKind::Lyrics,
            Seq::<char>::empty(),
            placed_words(w),
        );
        if placed_words(w).len() > 0 {
            added_frame_goes_to_the_end(three, s, three.len() as int);
        }
    }
}

/// Embedding adds these frames in turn to those that are there, each as it was
/// given, and no others.
pub proof fn frames_are_added_in_turn(
    frames: Seq<FrameModel>,
    title: Seq<char>,
    artist: Option<Seq<char>>,
    plain: Option<Seq<char>>,
    words: Option<Seq<TimedWordModel>>,
)
    ensures
        ({
            let title_text = FrameModel {
                id: "TIT2"@,
                key: FrameKey::Single,
                content: FrameContent::Text(title),
            };
            let start = with_frame(frames, title_text);
            &&& embedded(frames, title, None, None, None) == start
            &&& artist matches Some(a) ==> embedded(frames, title, artist, None, None)
                == with_frame(
                start,
                FrameModel {
                    id: "TPE1"@,
                    key: FrameKey::Single,
                    content: FrameContent::Text(a),
                },
            )
            &&& plain matches Some(t) ==> embedded(frames, title, artist, plain, None)
                == with_frame(
                embedded(frames, title, artist, None, None),
                lyrics_frame("eng"@, Seq::<char>::empty(), t),
            )
            &&& words matches Some(w) ==> placed_words(w).len() > 0 ==> embedded(
                frames,
                title,
                artist,
                plain,
                words,
            ) == with_frame(
                embedded(frames, title, artist, plain, None),
                synchronised_frame(
                    "eng"@,
                    TimestampUnit::Milliseconds,
                    SynchronisedKind::Lyrics,
                    Seq::<char>::empty(),
                    placed_words(w),
                ),
            )
            &&& words matches Some(w) ==> placed_words(w).len() == 0 ==> embedded(
                frames,
                title,
                artist,
                plain,
                words,
            ) == embedded(frames, title, artist, plain, None)
        }),
{
}

/// The words of a song are taken as they are given.
pub proof fn given_words_are_whole(words: &Vec<TimedWord>, i: int)
    requires
        0 <= i < words@.len(),
    ensures
        word_models(None) is None,
        word_models(Some(words)) matches Some(models) && models.len() == words@.len() && models[i]
            == (TimedWordModel {
            word: words@[i].word@,
            start_ms: words@[i].start_ms,
            success: words@[i].success,
        }),
{
}

} // verus!
