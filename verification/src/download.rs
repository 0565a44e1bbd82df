//! Where a clip is fetched from, how often, and when a transfer counts as
//! complete.
use vstd::prelude::*;

use crate::cookies;
use crate::errors::{CliError, ErrorModel};
use crate::text;

verus! {

/// The endpoint that serves audio by clip id. It usually answers with an empty
/// body by now, so it comes last.
pub const AUDIO_BY_ID: &'static str = "https://audiopipe.suno.ai/?item_id=";

/// How many times each candidate URL is tried before the next one.
pub const ATTEMPTS_PER_URL: u64 = 3;

/// The parts of a clip that a download reads.
#[derive(Debug)]
pub struct Clip {
    pub id: String,
    pub title: String,
    pub audio_url: Option<String>,
    pub video_url: Option<String>,
}

/// The text of an optional string slice.
pub open spec fn slice_text(o: Option<&str>) -> Option<Seq<char>> {
    match o {
        Some(s) => Some(s@),
        None => None,
    }
}

/// What a URL of the feed is good for: the URL without white space around it,
/// or nothing if it is missing, empty or withheld.
pub open spec fn usable(url: Option<Seq<char>>) -> Option<Seq<char>> {
    match url {
        Some(u) => {
            let t = text::trimmed(u);
            if t.len() == 0 || text::has_suffix(t, "/api/forbidden"@) {
                None
            } else {
                Some(t)
            }
        },
        None => None,
    }
}

/// A URL of the feed, if it can be fetched. The feed sends an empty text for a
/// missing URL, and an address ending in `/api/forbidden` for one that it does
/// not release.
pub fn usable_url(url: Option<&str>) -> (r: Option<&str>)
    ensures
        slice_text(r) == usable(slice_text(url)),
{
    match url {
        Some(u) => {
            let t = text::trim(u);
            if t.is_empty() || text::ends_with(t, "/api/forbidden") {
                None
            } else {
                Some(t)
            }
        },
        None => None,
    }
}

/// The texts of an optional text: one or none.
pub open spec fn if_any(o: Option<Seq<char>>) -> Seq<Seq<char>> {
    match o {
        Some(t) => seq![t],
        None => Seq::<Seq<char>>::empty(),
    }
}

/// Whether the export of a clip is asked for before it is fetched: for audio.
/// There is no export of video.
pub fn asks_for_export(video: bool) -> (r: bool)
    ensures
        r == !video,
{
    !video
}

/// Where a clip can be fetched from, best first.
pub open spec fn candidates(
    id: Seq<char>,
    audio_url: Option<Seq<char>>,
    video_url: Option<Seq<char>>,
    video: bool,
    exported: Option<Seq<char>>,
) -> Result<Seq<Seq<char>>, ErrorModel> {
    if video {
        match usable(video_url) {
            Some(u) => Ok(seq![u]),
            None => Err(ErrorModel::Download("no video URL available"@)),
        }
    } else {
        Ok(if_any(exported) + if_any(usable(audio_url)) + seq![AUDIO_BY_ID@ + id])
    }
}

/// The content of a list of URLs, or of the error in its place.
pub open spec fn urls_of(r: Result<Vec<String>, CliError>) -> Result<Seq<Seq<char>>, ErrorModel> {
    match r {
        Ok(urls) => Ok(text::texts(urls@)),
        Err(e) => Err(e@),
    }
}

fn option_slice(o: &Option<String>) -> (r: Option<&str>)
    ensures
        slice_text(r) == cookies::text_of(*o),
{
    match o {
        Some(s) => Some(s.as_str()),
        None => None,
    }
}

/// Where to fetch a clip from, best first. Audio comes from the exported file
/// if there is one, then from what the feed offers, then from the endpoint that
/// serves it by id. Video comes from the feed alone.
pub fn download_urls(clip: &Clip, video: bool, exported: Option<String>) -> (r: Result<
    Vec<String>,
    CliError,
>)
    ensures
        urls_of(r) == candidates(
            clip.id@,
            cookies::text_of(clip.audio_url),
            cookies::text_of(clip.video_url),
            video,
            cookies::text_of(exported),
        ),
{
    let mut urls: Vec<String> = Vec::new();
    if video {
        match usable_url(option_slice(&clip.video_url)) {
            Some(u) => {
                urls.push(u.to_owned());
                assert(text::texts(urls@) =~= seq![u@]);
                Ok(urls)
            },
            None => Err(CliError::Download("no video URL available".to_owned())),
        }
    } else {
        let ghost first = if_any(cookies::text_of(exported));
        if let Some(u) = exported {
            urls.push(u);
        }
        assert(text::texts(urls@) =~= first);
        let ghost second = if_any(usable(cookies::text_of(clip.audio_url)));
        if let Some(u) = usable_url(option_slice(&clip.audio_url)) {
            urls.push(u.to_owned());
        }
        assert(text::texts(urls@) =~= first + second);
        let mut by_id = AUDIO_BY_ID.to_owned();
        by_id.append(clip.id.as_str());
        urls.push(by_id);
        assert(text::texts(urls@) =~= first + second + seq![AUDIO_BY_ID@ + clip.id@]);
        Ok(urls)
    }
}

/// The extension of the file that a clip is saved to.
pub open spec fn extension_of(video: bool) -> Seq<char> {
    if video {
        "mp4"@
    } else {
        "mp3"@
    }
}

/// The extension of the file that a clip is saved to.
pub fn extension(video: bool) -> (r: &'static str)
    ensures
        r@ == extension_of(video),
{
    if video {
        "mp4"
    } else {
        "mp3"
    }
}

/// The extension of the file that a transfer writes to until it is complete.
pub fn part_extension(video: bool) -> (r: String)
    ensures
        r@ == extension_of(video) + ".part"@,
{
    let mut out = extension(video).to_owned();
    out.append(".part");
    out
}

/// The candidate that is fetched after so many failures.
pub open spec fn candidate_after(failures: nat) -> int {
    (failures / ATTEMPTS_PER_URL as nat) as int
}

/// The seconds to wait after so many failures, where the same candidate is
/// tried again.
pub open spec fn wait_after(failures: nat) -> Option<u64> {
    let attempts = failures % ATTEMPTS_PER_URL as nat;
    if attempts == 0 {
        None
    } else {
        Some((2 * attempts) as u64)
    }
}

/// What to do with the partial file after an attempt has ended.
#[derive(Debug, Clone, Copy, PartialEq, Eq, Structural)]
pub enum AfterFetch {
    /// Let it, which is complete, become the finished one; remove it where that
    /// fails. The download is over.
    Save,
    /// Remove it, wait, and fetch the same URL again.
    Retry { seconds: u64 },
    /// Remove it, and go on with the next URL.
    Next,
}

/// What to do after an attempt that was preceded by so many failures.
pub open spec fn after_fetch(fetched: bool, failures: nat) -> AfterFetch {
    if fetched {
        AfterFetch::Save
    } else {
        match wait_after(failures + 1) {
            Some(seconds) => AfterFetch::Retry { seconds },
            None => AfterFetch::Next,
        }
    }
}

/// A download: a walk over candidate URLs in which each is tried a fixed number
/// of times, until one of them has been fetched.
pub struct Download<E> {
    urls: Vec<String>,
    url: usize,
    attempt: u64,
    last_error: Option<E>,
}

impl<E> Download<E> {
    /// Whether the walk is at a candidate and an attempt that exist, or past
    /// the last candidate.
    pub closed spec fn inv(self) -> bool {
        &&& 1 <= self.attempt <= ATTEMPTS_PER_URL
        &&& self.url <= self.urls@.len()
        &&& self.url == self.urls@.len() ==> self.attempt == 1
        &&& self.last_error is None ==> self.url == 0 && self.attempt == 1
    }

    /// The candidate URLs, best first.
    pub closed spec fn candidates(self) -> Seq<String> {
        self.urls@
    }

    /// How many attempts have failed.
    pub closed spec fn failures(self) -> nat {
        (self.url * ATTEMPTS_PER_URL + (self.attempt - 1)) as nat
    }

    /// The error of the last failed attempt.
    pub closed spec fn error(self) -> Option<E> {
        self.last_error
    }

    /// How many attempts there may be in all.
    pub open spec fn limit(self) -> int {
        self.candidates().len() * ATTEMPTS_PER_URL
    }

    /// Starts a download from the given candidates.
    pub fn new(urls: Vec<String>) -> (r: Self)
        ensures
            r.inv(),
            r.candidates() == urls@,
            r.failures() == 0,
            r.error() is None,
    {
        Download { urls, url: 0, attempt: 1, last_error: None }
    }

    /// The URL to fetch next; `None` once every candidate has failed as often as
    /// it may.
    pub fn next_url(&self) -> (r: Option<&String>)
        requires
            self.inv(),
        ensures
            match r {
                Some(u) => self.failures() < self.limit() && *u
                    == self.candidates()[candidate_after(self.failures())],
                None => self.failures() == self.limit(),
            },
    {
        if self.url < self.urls.len() {
            Some(&self.urls[self.url])
        } else {
            None
        }
    }

    /// Takes note of how fetching the URL ended, with the size of what is
    /// complete or with an error, and says what to do with the partial file.
    /// Before a URL is fetched again there is a wait of twice as many seconds as
    /// attempts were made at it.
    pub fn fetch_ended(&mut self, outcome: Result<u64, E>) -> (r: AfterFetch)
        requires
            old(self).inv(),
            old(self).failures() < old(self).limit(),
        ensures
            final(self).inv(),
            final(self).candidates() == old(self).candidates(),
            r == after_fetch(outcome is Ok, old(self).failures()),
            match outcome {
                Ok(_) => *final(self) == *old(self),
                Err(e) => final(self).failures() == old(self).failures() + 1 && final(self).error()
                    == Some(e),
            },
    {
        let n: usize = self.urls.len();
        assert(self.url < n);
        match outcome {
            Ok(_) => AfterFetch::Save,
            Err(e) => {
                self.last_error = Some(e);
                if self.attempt < ATTEMPTS_PER_URL {
                    let seconds: u64 = 2 * self.attempt;
                    self.attempt = self.attempt + 1;
                    AfterFetch::Retry { seconds }
                } else {
                    self.url = self.url + 1;
                    self.attempt = 1;
                    AfterFetch::Next
                }
            },
        }
    }

    /// The error to report when every attempt has failed: that of the export,
    /// else that of the last attempt, else `fallback`, which is needed only
    /// where nothing was tried.
    pub fn into_error(self, export_error: Option<E>, fallback: E) -> (r: E)
        requires
            self.inv(),
        ensures
            r == match export_error {
                Some(e) => e,
                None => match self.error() {
                    Some(e) => e,
                    None => fallback,
                },
            },
            self.error() is None ==> self.failures() == 0,
    {
        match export_error {
            Some(e) => e,
            None => match self.last_error {
                Some(e) => e,
                None => fallback,
            },
        }
    }
}

/// The error for a clip without any candidate.
pub fn no_audio_url(id: &str) -> (r: CliError)
    ensures
        r@ == ErrorModel::Download("no audio URL available for "@ + id@),
{
    let mut m = "no audio URL available for ".to_owned();
    m.append(id);
    CliError::Download(m)
}

/// The announced size of a transfer; 0 where none was announced.
pub open spec fn total_of(announced: Option<u64>) -> u64 {
    match announced {
        Some(n) => n,
        None => 0,
    }
}

/// What a transfer of `written` bytes from `url` comes to, where a size was
/// announced or not.
pub open spec fn transfer_outcome(written: u64, announced: Option<u64>, url: Seq<char>) -> Result<
    u64,
    ErrorModel,
> {
    let total = total_of(announced);
    if written == 0 {
        Err(ErrorModel::Download("empty response from "@ + url))
    } else if total > 0 && written != total {
        Err(
            ErrorModel::Download(
                "incomplete download: received "@ + text::decimal(written as nat) + " of "@
                    + text::decimal(total as nat) + " bytes from "@ + url,
            ),
        )
    } else {
        Ok(written)
    }
}

/// A transfer in progress.
pub struct Transfer {
    written: u64,
}

impl Transfer {
    /// The bytes written so far.
    pub closed spec fn bytes(self) -> nat {
        self.written as nat
    }

    /// A transfer that has written nothing yet.
    pub fn new() -> (r: Self)
        ensures
            r.bytes() == 0,
    {
        Transfer { written: 0 }
    }

    /// Takes note of a chunk that has been written.
    pub fn record(&mut self, chunk_len: u64)
        requires
            old(self).bytes() + chunk_len <= u64::MAX,
        ensures
            final(self).bytes() == old(self).bytes() + chunk_len,
    {
        self.written = self.written + chunk_len;
    }

    /// The bytes written so far.
    pub fn written(&self) -> (r: u64)
        ensures
            r == self.bytes(),
    {
        self.written
    }
}

/// Decides whether a finished transfer is complete. An empty body is a failure
/// even where no size was announced, and so is any other size than the
/// announced one.
pub fn check_transfer(written: u64, announced: Option<u64>, url: &str) -> (r: Result<u64, CliError>)
    ensures
        match r {
            Ok(n) => transfer_outcome(written, announced, url@) == Ok::<u64, ErrorModel>(n),
            Err(e) => transfer_outcome(written, announced, url@) == Err::<u64, ErrorModel>(e@),
        },
{
    let total: u64 = match announced {
        Some(n) => n,
        None => 0,
    };
    if written == 0 {
        let mut m = "empty response from ".to_owned();
        m.append(url);
        return Err(CliError::Download(m));
    }
    if total > 0 && written != total {
        let mut m = "incomplete download: received ".to_owned();
        m.append(text::to_decimal(written as u128).as_str());
        m.append(" of ");
        m.append(text::to_decimal(total as u128).as_str());
        m.append(" bytes from ");
        m.append(url);
        return Err(CliError::Download(m));
    }
    Ok(written)
}

/// There is always a candidate for audio, and the last one is the endpoint that
/// serves it by id; an exported file comes first.
pub proof fn audio_has_candidates(
    id: Seq<char>,
    audio_url: Option<Seq<char>>,
    video_url: Option<Seq<char>>,
    exported: Option<Seq<char>>,
)
    ensures
        candidates(id, audio_url, video_url, false, exported) matches Ok(urls) && {
            &&& urls.len() > 0
            &&& urls.last() == AUDIO_BY_ID@ + id
            &&& exported matches Some(u) ==> urls[0] == u
        },
{
}

/// For video an export would make no difference: it comes from the feed alone.
pub proof fn video_needs_no_export(
    id: Seq<char>,
    audio_url: Option<Seq<char>>,
    video_url: Option<Seq<char>>,
    exported: Option<Seq<char>>,
)
    ensures
        candidates(id, audio_url, video_url, true, exported) == candidates(
            id,
            audio_url,
            video_url,
            true,
            None,
        ),
        candidates(id, audio_url, video_url, true, exported) is Ok <==> usable(video_url) is Some,
        candidates(id, audio_url, video_url, true, exported) matches Ok(urls) ==> urls
            == if_any(usable(video_url)),
{
}

/// Each candidate is fetched until it has failed as often as it may, and then
/// the next one; there is a wait between two attempts at one candidate, and none
/// before the next.
pub proof fn candidates_take_turns(failures: nat, i: nat)
    ensures
        candidate_after(failures) == i <==> i * ATTEMPTS_PER_URL <= failures < (i + 1)
            * ATTEMPTS_PER_URL,
        wait_after(failures + 1) is Some <==> candidate_after(failures + 1) == candidate_after(
            failures,
        ),
{
}

/// The files of a download, where they exist: the partial and the finished one,
/// each with whether it is complete.
pub struct ClipFiles {
    pub part: Option<bool>,
    pub saved: Option<bool>,
}

/// An attempt as it went: whether the URL was fetched, whether a failure left a
/// partial file, and whether that could be renamed where it was to be.
pub struct Attempt {
    pub fetched: bool,
    pub left: bool,
    pub renamed: bool,
}

/// The files after an attempt that was preceded by so many failures, when what
/// [`after_fetch`] says has been done.
pub open spec fn files_after(files: ClipFiles, attempt: Attempt, failures: nat) -> ClipFiles {
    let part = if attempt.fetched {
        Some(true)
    } else if attempt.left {
        Some(false)
    } else {
        None
    };
    match after_fetch(attempt.fetched, failures) {
        AfterFetch::Save => ClipFiles {
            part: None,
            saved: if attempt.renamed {
                part
            } else {
                files.saved
            },
        },
        _ => ClipFiles { part: None, saved: files.saved },
    }
}

/// The files after the given attempts, one after the other.
pub open spec fn files_after_all(files: ClipFiles, attempts: Seq<Attempt>) -> ClipFiles
    decreases attempts.len(),
{
    if attempts.len() == 0 {
        files
    } else {
        files_after(
            files_after_all(files, attempts.drop_last()),
            attempts.last(),
            (attempts.len() - 1) as nat,
        )
    }
}

/// However the attempts go, no partial file is left, and the finished file is
/// the one from before until a complete one takes its place.
pub proof fn only_complete_files_are_saved(files: ClipFiles, attempts: Seq<Attempt>)
    requires
        files.part is None,
    ensures
        files_after_all(files, attempts).part is None,
        files_after_all(files, attempts).saved == Some(true) || files_after_all(
            files,
            attempts,
        ).saved == files.saved,
        files_after_all(files, attempts).saved != files.saved ==> exists|i: int|
            0 <= i < attempts.len() && (#[trigger] attempts[i]).fetched && attempts[i].renamed,
    decreases attempts.len(),
{
    if attempts.len() > 0 {
        let less = attempts.drop_last();
        only_complete_files_are_saved(files, less);
        if files_after_all(files, less).saved != files.saved {
            let i = choose|i: int|
                0 <= i < less.len() && (#[trigger] less[i]).fetched && less[i].renamed;
            assert(attempts[i] == less[i]);
        }
        assert(attempts[attempts.len() - 1] == attempts.last());
    }
}

/// A URL that counts as usable is not empty, has no white space at its ends and
/// is not a withheld one.
pub proof fn usable_is_clean(url: Option<Seq<char>>)
    ensures
        usable(url) matches Some(u) ==> u.len() > 0 && text::trimmed(u) == u && !text::has_suffix(
            u,
            "/api/forbidden"@,
        ),
        usable(usable(url)) == usable(url),
{
    if let Some(u) = url {
        text::trimming_twice(u, text::Edge::Space);
    }
}

/// A transfer that counts as complete has brought something, and all that was
/// announced.
pub proof fn complete_transfer_is_whole(written: u64, announced: Option<u64>, url: Seq<char>)
    ensures
        transfer_outcome(written, announced, url) is Ok <==> written > 0 && (total_of(announced)
            == 0 || written == total_of(announced)),
        transfer_outcome(written, announced, url) matches Ok(n) ==> n == written,
{
}

/// A URL is usable exactly where something that does not end in
/// `/api/forbidden` is left of it without white space around it; it is then
/// that, whole.
pub proof fn usable_url_is_whole(url: Option<&str>, r: Option<&str>)
    requires
        slice_text(r) == usable(slice_text(url)),
    ensures
        url is None ==> r is None,
        url matches Some(u) ==> (r is None <==> text::trimmed(u@).len() == 0 || text::has_suffix(
            text::trimmed(u@),
            "/api/forbidden"@,
        )),
        url matches Some(u) ==> (r matches Some(v) ==> v@ == text::trimmed(u@)),
{
}

/// Whether the feed gives a URL that can be fetched.
pub open spec fn feed_offers(url: Option<String>) -> bool {
    url matches Some(u) && text::trimmed(u@).len() > 0 && !text::has_suffix(
        text::trimmed(u@),
        "/api/forbidden"@,
    )
}

/// The candidates for audio: the exported file, if there is one, comes first;
/// the URL of the feed, if it can be fetched, comes right before the last one,
/// whether there is an export or not; the endpoint that serves audio by id comes
/// last; and there are no others.
pub proof fn audio_candidates_are_all_tried(
    clip: Clip,
    exported: Option<String>,
    r: Result<Vec<String>, CliError>,
)
    requires
        urls_of(r) == candidates(
            clip.id@,
            cookies::text_of(clip.audio_url),
            cookies::text_of(clip.video_url),
            false,
            cookies::text_of(exported),
        ),
    ensures
        r matches Ok(urls) && {
            let n = urls@.len();
            &&& n == 1 + (if exported is Some {
                1int
            } else {
                0int
            }) + (if feed_offers(clip.audio_url) {
                1int
            } else {
                0int
            })
            &&& urls@[n - 1]@ == "https://audiopipe.suno.ai/?item_id="@ + clip.id@
            &&& feed_offers(clip.audio_url) ==> urls@[n - 2]@ == text::trimmed(
                clip.audio_url->0@,
            )
            &&& exported matches Some(e) ==> urls@[0]@ == e@
        },
{
    if let Ok(urls) = r {
        let list = text::texts(urls@);
        assert(list.len() == urls@.len());
        assert(forall|i: int| 0 <= i < list.len() ==> #[trigger] list[i] == urls@[i]@);
        let n = urls@.len();
        assert(list[n - 1] == urls@[n - 1]@);
        assert(list[0] == urls@[0]@);
        if n > 1 {
            assert(list[n - 2] == urls@[n - 2]@);
        }
    }
}

/// The only candidate for video is the URL of the feed; where that cannot be
/// fetched there is an error that says so.
pub proof fn video_comes_from_feed(
    clip: Clip,
    exported: Option<String>,
    r: Result<Vec<String>, CliError>,
)
    requires
        urls_of(r) == candidates(
            clip.id@,
            cookies::text_of(clip.audio_url),
            cookies::text_of(clip.video_url),
            true,
            cookies::text_of(exported),
        ),
    ensures
        feed_offers(clip.video_url) ==> (r matches Ok(urls) && urls@.len() == 1 && urls@[0]@
            == text::trimmed(clip.video_url->0@)),
        !feed_offers(clip.video_url) ==> (r matches Err(e) && (e matches CliError::Download(m)
            && m@ == "no video URL available"@)),
{
    if let Ok(urls) = r {
        let list = text::texts(urls@);
        assert(list.len() == urls@.len());
        assert(list[0] == urls@[0]@);
    }
}

/// Each candidate is fetched three times at most, with a wait of two seconds
/// after the first failure and of four after the second; after the third the
/// next one is fetched at once. What was fetched is saved, and only that.
pub proof fn attempts_back_off(candidate: nat, attempt: nat)
    requires
        attempt < 3,
    ensures
        candidate_after(3 * candidate + attempt) == candidate,
        after_fetch(true, 3 * candidate + attempt) == AfterFetch::Save,
        after_fetch(false, 3 * candidate + attempt) == if attempt == 0 {
            AfterFetch::Retry { seconds: 2 }
        } else if attempt == 1 {
            AfterFetch::Retry { seconds: 4 }
        } else {
            AfterFetch::Next
        },
{
}

/// A transfer is taken exactly where something was written and, if a size other
/// than zero was announced, just as much. Else the error names the URL, and the
/// two sizes where they differ.
pub proof fn transfers_are_judged_by_size(
    written: u64,
    announced: Option<u64>,
    url: &str,
    r: Result<u64, CliError>,
)
    requires
        match r {
            Ok(n) => transfer_outcome(written, announced, url@) == Ok::<u64, ErrorModel>(n),
            Err(e) => transfer_outcome(written, announced, url@) == Err::<u64, ErrorModel>(e@),
        },
    ensures
        r is Ok <==> written > 0 && (announced matches Some(n) ==> n == 0 || n == written),
        r matches Ok(n) ==> n == written,
        written == 0 ==> (r matches Err(e) && (e matches CliError::Download(m) && m@
            == "empty response from "@ + url@)),
        written > 0 ==> (r matches Err(e) ==> (e matches CliError::Download(m) && exists|
            a: Seq<char>,
            b: Seq<char>,
        |
            m@ == #[trigger] ("incomplete download: received "@ + a + " of "@ + b + " bytes from "@
                + url@) && text::is_numeral(a) && text::is_numeral(b) && text::numeral_value(a)
                == written && text::numeral_value(b) == announced->0)),
{
    text::numerals_read_back(written as nat);
    if let Some(n) = announced {
        text::numerals_read_back(n as nat);
    }
    if let Err(e) = r {
        if written > 0 {
            let a = text::decimal(written as nat);
            let b = text::decimal(announced->0 as nat);
            assert(e@.text() == "incomplete download: received "@ + a + " of "@ + b
                + " bytes from "@ + url@);
        }
    }
}

} // verus!
