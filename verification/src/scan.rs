//! The search for a session in the browsers: which profile is read next, when
//! the search is over, and what is said if it found nothing.
use vstd::prelude::*;

use crate::cookies::{BrowserAuth, BrowserAuthModel};
use crate::errors::{CliError, ErrorModel};
use crate::jar;
use crate::jar::{browser_auth_from_cookies, Cookie};
use crate::profiles::CHROMIUM_BROWSERS;
use crate::text;

verus! {

/// The domains whose cookies are asked for.
pub const COOKIE_DOMAINS: [&'static str; 3] = ["suno.com", "auth.suno.com", ".suno.com"];

/// The browsers that keep one store for all profiles, in the order in which they
/// are read. The last one is on macOS only.
pub const STORES: [&'static str; 2] = ["Firefox", "Safari"];

/// How many of [`STORES`] there are.
pub open spec fn store_count(macos: bool) -> usize {
    if macos {
        2
    } else {
        1
    }
}

/// What the search does next.
#[derive(Debug, Clone, Copy, PartialEq, Eq, Structural)]
pub enum ScanStep {
    /// List the cookie databases of the browser at this place in
    /// [`CHROMIUM_BROWSERS`].
    ListProfiles(usize),
    /// Read a database of the browser at the first place: the one at the
    /// second place in its list.
    ReadProfile(usize, usize),
    /// Read the store of the browser at this place in [`STORES`].
    ReadStore(usize),
    /// Report that there is no session.
    Report,
}

/// The step after the last profile of a browser.
pub open spec fn after_browser(browser: usize) -> ScanStep {
    if browser + 1 < 7 {
        ScanStep::ListProfiles((browser + 1) as usize)
    } else {
        ScanStep::ReadStore(0)
    }
}

/// The step after a browser has been found to have `count` profiles.
pub open spec fn after_list(browser: usize, count: usize) -> ScanStep {
    if count > 0 {
        ScanStep::ReadProfile(browser, 0)
    } else {
        after_browser(browser)
    }
}

/// The step after a profile, one of `count`, has been read without success.
pub open spec fn after_read(browser: usize, profile: usize, count: usize) -> ScanStep {
    if profile + 1 < count {
        ScanStep::ReadProfile(browser, (profile + 1) as usize)
    } else {
        after_browser(browser)
    }
}

/// The step after a store, one of `count`, has been read without success.
pub open spec fn after_store(store: usize, count: usize) -> ScanStep {
    if store + 1 < count {
        ScanStep::ReadStore((store + 1) as usize)
    } else {
        ScanStep::Report
    }
}

/// The name of a profile of a browser.
pub open spec fn profile_source(browser: usize, profile: Seq<char>) -> Seq<char> {
    CHROMIUM_BROWSERS@[browser as int].1@ + " ("@ + profile + ")"@
}

/// The session that a reading of cookies gives.
pub open spec fn session_read(read: Result<Vec<Cookie>, String>) -> Option<
    BrowserAuthModel,
> {
    match read {
        Ok(cookies) => jar::session_in(jar::contents(cookies@)),
        Err(_) => None,
    }
}

/// The sources that held no session, after a source has been read.
pub open spec fn scanned_after(
    scanned: Seq<Seq<char>>,
    source: Seq<char>,
    read: Result<Vec<Cookie>, String>,
) -> Seq<Seq<char>> {
    if read is Ok && session_read(read) is None {
        scanned.push(source)
    } else {
        scanned
    }
}

/// The sources that could not be read, with the reason, after a source has been
/// read.
pub open spec fn failures_after(
    failures: Seq<Seq<char>>,
    source: Seq<char>,
    read: Result<Vec<Cookie>, String>,
) -> Seq<Seq<char>> {
    match read {
        Ok(_) => failures,
        Err(e) => failures.push(source + ": "@ + e@),
    }
}

/// The part of the report that lists the sources without a session.
pub open spec fn scanned_text(scanned: Seq<Seq<char>>) -> Seq<char> {
    if scanned.len() > 0 {
        "\n  Scanned, no Suno cookies: "@ + text::joined(scanned, ", "@)
    } else {
        Seq::<char>::empty()
    }
}

/// The part of the report that lists the sources that could not be read.
pub open spec fn failures_text(failures: Seq<Seq<char>>) -> Seq<char> {
    if failures.len() > 0 {
        "\n  Could not read: "@ + text::joined(failures, "; "@)
    } else {
        Seq::<char>::empty()
    }
}

/// The report of a search without success.
pub open spec fn report_text(scanned: Seq<Seq<char>>, failures: Seq<Seq<char>>) -> Seq<char> {
    "No Suno session found in any browser. Log into suno.com first, then retry."@ + scanned_text(
        scanned,
    ) + failures_text(failures)
        + "\n  Manual fallback: copy the Cookie header from suno.com in DevTools, then run `suno auth --cookie '<cookie header>'`"@
}

/// A search for a session.
pub struct BrowserScan {
    step: ScanStep,
    count: usize,
    store_count: usize,
    scanned: Vec<String>,
    failures: Vec<String>,
}

impl BrowserScan {
    /// Whether the next step names a browser and a profile that exist, or a
    /// store that exists.
    pub closed spec fn inv(self) -> bool {
        &&& 0 < self.store_count <= 2
        &&& match self.step {
            ScanStep::ListProfiles(b) => b < 7,
            ScanStep::ReadProfile(b, p) => b < 7 && p < self.count,
            ScanStep::ReadStore(s) => s < self.store_count,
            ScanStep::Report => true,
        }
    }

    /// The next step.
    pub closed spec fn next(self) -> ScanStep {
        self.step
    }

    /// How many profiles the browser that is being read has.
    pub closed spec fn profiles(self) -> usize {
        self.count
    }

    /// How many stores are read.
    pub closed spec fn stores(self) -> usize {
        self.store_count
    }

    /// The sources that held no session.
    pub closed spec fn without_session(self) -> Seq<Seq<char>> {
        text::texts(self.scanned@)
    }

    /// The sources that could not be read, with the reason.
    pub closed spec fn unreadable(self) -> Seq<Seq<char>> {
        text::texts(self.failures@)
    }

    /// Whether the search stands where `search` stands among the given browsers.
    pub open spec fn follows(self, browsers: Browsers, search: Search) -> bool {
        &&& self.inv()
        &&& self.next() == search.step
        &&& self.stores() == store_count(browsers.macos)
        &&& self.without_session() == search.scanned
        &&& self.unreadable() == search.failures
        &&& search.step matches ScanStep::ReadProfile(b, _) ==> self.profiles() == browsers.count(b)
    }

    /// Starts a search, on macOS or elsewhere.
    pub fn new(macos: bool) -> (r: Self)
        ensures
            forall|browsers: Browsers|
                browsers.macos == macos ==> #[trigger] r.follows(browsers, Search::start()),
            r.inv(),
            r.next() == ScanStep::ListProfiles(0),
            r.stores() == store_count(macos),
            r.without_session() == Seq::<Seq<char>>::empty(),
            r.unreadable() == Seq::<Seq<char>>::empty(),
    {
        let r = BrowserScan {
            step: ScanStep::ListProfiles(0),
            count: 0,
            store_count: if macos {
                2
            } else {
                1
            },
            scanned: Vec::new(),
            failures: Vec::new(),
        };
        assert(r.without_session() =~= Seq::<Seq<char>>::empty());
        assert(r.unreadable() =~= Seq::<Seq<char>>::empty());
        r
    }

    /// The next step.
    pub fn next_step(&self) -> (r: ScanStep)
        requires
            self.inv(),
        ensures
            r == self.next(),
            match r {
                ScanStep::ListProfiles(b) => b < 7,
                ScanStep::ReadProfile(b, p) => b < 7 && p < self.profiles(),
                ScanStep::ReadStore(s) => s < self.stores() && s < 2,
                ScanStep::Report => true,
            },
    {
        self.step
    }

    fn leave_browser(&mut self, browser: usize)
        requires
            old(self).inv(),
            browser < 7,
        ensures
            final(self).inv(),
            final(self).next() == after_browser(browser),
            final(self).stores() == old(self).stores(),
            final(self).without_session() == old(self).without_session(),
            final(self).unreadable() == old(self).unreadable(),
    {
        self.step = if browser + 1 < 7 {
            ScanStep::ListProfiles(browser + 1)
        } else {
            ScanStep::ReadStore(0)
        };
    }

    /// Takes note of how many profiles the browser has that was to be listed.
    pub fn profiles_listed(&mut self, count: usize)
        requires
            old(self).inv(),
            old(self).next() is ListProfiles,
        ensures
            final(self).inv(),
            final(self).next() == after_list(old(self).next()->ListProfiles_0, count),
            count > 0 ==> final(self).profiles() == count,
            final(self).stores() == old(self).stores(),
            forall|browsers: Browsers, search: Search| #[trigger]
                old(self).follows(browsers, search) && search.found is None && count
                    == browsers.count(old(self).next()->ListProfiles_0) ==> final(self).follows(
                    browsers,
                    search.advance(browsers),
                ),
            final(self).without_session() == old(self).without_session(),
            final(self).unreadable() == old(self).unreadable(),
    {
        if let ScanStep::ListProfiles(browser) = self.step {
            self.count = count;
            if count > 0 {
                self.step = ScanStep::ReadProfile(browser, 0);
            } else {
                self.leave_browser(browser);
            }
        }
    }

    fn note(&mut self, source: String, read: Result<Vec<Cookie>, String>) -> (r: Option<BrowserAuth>)
        ensures
            jar::session_of(r) == session_read(read),
            final(self).next() == old(self).next(),
            final(self).profiles() == old(self).profiles(),
            final(self).stores() == old(self).stores(),
            final(self).without_session() == scanned_after(
                old(self).without_session(),
                source@,
                read,
            ),
            final(self).unreadable() == failures_after(old(self).unreadable(), source@, read),
    {
        let ghost scanned = self.scanned@;
        let ghost failures = self.failures@;
        match read {
            Ok(cookies) => match browser_auth_from_cookies(cookies) {
                Some(auth) => Some(auth),
                None => {
                    let ghost added = source;
                    self.scanned.push(source);
                    assert(text::texts(self.scanned@) =~= text::texts(scanned).push(added@));
                    None
                },
            },
            Err(e) => {
                let mut line = source;
                line.append(": ");
                line.append(e.as_str());
                let ghost added = line;
                self.failures.push(line);
                assert(text::texts(self.failures@) =~= text::texts(failures).push(added@));
                None
            },
        }
    }

    /// Takes note of what came of reading the profile that was to be read.
    /// Gives the session if the profile holds one, which ends the search.
    pub fn profile_read(&mut self, profile: &str, read: Result<Vec<Cookie>, String>) -> (r: Option<
        BrowserAuth,
    >)
        requires
            old(self).inv(),
            old(self).next() is ReadProfile,
        ensures
            final(self).inv(),
            final(self).stores() == old(self).stores(),
            jar::session_of(r) == session_read(read),
            ({
                let browser = old(self).next()->ReadProfile_0;
                let at = old(self).next()->ReadProfile_1;
                let source = profile_source(browser, profile@);
                &&& final(self).next() == if r is Some {
                    old(self).next()
                } else {
                    after_read(browser, at, old(self).profiles())
                }
                &&& final(self).next() is ReadProfile ==> final(self).profiles() == old(
                    self,
                ).profiles()
                &&& final(self).without_session() == scanned_after(
                    old(self).without_session(),
                    source,
                    read,
                )
                &&& final(self).unreadable() == failures_after(
                    old(self).unreadable(),
                    source,
                    read,
                )
            }),
            forall|browsers: Browsers, search: Search| #[trigger]
                old(self).follows(browsers, search) && search.found is None && browsers.source_at(
                    old(self).next(),
                ) == (SourceRead { name: profile_source(old(self).next()->ReadProfile_0, profile@), read }) ==> final(self).follows(
                    browsers,
                    search.advance(browsers),
                ) && search.advance(browsers).found == jar::session_of(r),
    {
        if let ScanStep::ReadProfile(browser, at) = self.step {
            let source = profile_name(browser, profile);
            let r = self.note(source, read);
            if r.is_none() {
                if at + 1 < self.count {
                    self.step = ScanStep::ReadProfile(browser, at + 1);
                } else {
                    self.leave_browser(browser);
                }
            }
            r
        } else {
            None
        }
    }

    /// Takes note of what came of reading the store that was to be read. Gives
    /// the session if the store holds one, which ends the search.
    pub fn store_read(&mut self, read: Result<Vec<Cookie>, String>) -> (r: Option<BrowserAuth>)
        requires
            old(self).inv(),
            old(self).next() is ReadStore,
        ensures
            final(self).inv(),
            final(self).stores() == old(self).stores(),
            jar::session_of(r) == session_read(read),
            ({
                let store = old(self).next()->ReadStore_0;
                let source = STORES@[store as int]@;
                &&& final(self).next() == if r is Some {
                    old(self).next()
                } else {
                    after_store(store, old(self).stores())
                }
                &&& final(self).without_session() == scanned_after(
                    old(self).without_session(),
                    source,
                    read,
                )
                &&& final(self).unreadable() == failures_after(
                    old(self).unreadable(),
                    source,
                    read,
                )
            }),
            forall|browsers: Browsers, search: Search| #[trigger]
                old(self).follows(browsers, search) && search.found is None && browsers.source_at(
                    old(self).next(),
                ) == (SourceRead { name: STORES@[old(self).next()->ReadStore_0 as int]@, read }) ==> final(self).follows(
                    browsers,
                    search.advance(browsers),
                ) && search.advance(browsers).found == jar::session_of(r),
    {
        if let ScanStep::ReadStore(store) = self.step {
            let r = self.note(STORES[store].to_owned(), read);
            if r.is_none() {
                self.step = if store + 1 < self.store_count {
                    ScanStep::ReadStore(store + 1)
                } else {
                    ScanStep::Report
                };
            }
            r
        } else {
            None
        }
    }

    /// The error for a search without success. It names every source that held
    /// no session and every one that could not be read.
    pub fn report(&self) -> (r: CliError)
        ensures
            r@ == ErrorModel::Config(report_text(self.without_session(), self.unreadable())),
    {
        let ghost scanned = self.without_session();
        let ghost failures = self.unreadable();
        assert(scanned.len() == self.scanned@.len());
        assert(failures.len() == self.failures@.len());
        let mut m =
            "No Suno session found in any browser. Log into suno.com first, then retry.".to_owned();
        let ghost head = m@;
        if self.scanned.len() > 0 {
            m.append("\n  Scanned, no Suno cookies: ");
            m.append(text::join(&self.scanned, ", ").as_str());
        }
        assert(m@ =~= head + scanned_text(scanned));
        if self.failures.len() > 0 {
            m.append("\n  Could not read: ");
            m.append(text::join(&self.failures, "; ").as_str());
        }
        assert(m@ =~= head + scanned_text(scanned) + failures_text(failures));
        m.append(
            "\n  Manual fallback: copy the Cookie header from suno.com in DevTools, then run `suno auth --cookie '<cookie header>'`",
        );
        CliError::Config(m)
    }
}

/// The name of a profile of a browser.
pub fn profile_name(browser: usize, profile: &str) -> (r: String)
    requires
        browser < 7,
    ensures
        r@ == profile_source(browser, profile@),
{
    let mut out = CHROMIUM_BROWSERS[browser].1.to_owned();
    out.append(" (");
    out.append(profile);
    out.append(")");
    out
}

/// The browsers that keep one store for all profiles, in the order in which they
/// are read: Firefox, and on macOS Safari.
pub fn store_names(macos: bool) -> (r: Vec<&'static str>)
    ensures
        r@.len() == store_count(macos),
        forall|i: int| 0 <= i < r@.len() ==> (#[trigger] r@[i])@ == STORES@[i]@,
        r@[0]@ == "Firefox"@,
        macos ==> r@[1]@ == "Safari"@,
{
    let mut names: Vec<&'static str> = Vec::new();
    names.push(STORES[0]);
    if macos {
        names.push(STORES[1]);
    }
    names
}

/// The notice that a session was found in the given source.
pub fn found_notice(source: &str) -> (r: String)
    ensures
        r@ == "Found Suno session in "@ + source@,
{
    let mut out = "Found Suno session in ".to_owned();
    out.append(source);
    out
}

/// A source of cookies, a profile or a store, and what comes of reading it.
pub struct SourceRead {
    pub name: Seq<char>,
    pub read: Result<Vec<Cookie>, String>,
}

impl SourceRead {
    /// Whether the source holds a session.
    pub open spec fn has_session(self) -> bool {
        session_read(self.read) is Some
    }
}

/// The browsers of a machine: the profiles of each of [`CHROMIUM_BROWSERS`],
/// named as they are labelled, and what the stores give.
pub struct Browsers {
    pub macos: bool,
    pub profiles: Seq<Seq<SourceRead>>,
    pub stores: Seq<Result<Vec<Cookie>, String>>,
}

impl Browsers {
    /// Whether there are as many browsers and stores as are searched.
    pub open spec fn inv(self) -> bool {
        &&& self.profiles.len() == 7
        &&& forall|b: int| 0 <= b < 7 ==> (#[trigger] self.profiles[b]).len() <= usize::MAX
        &&& self.stores.len() == store_count(self.macos)
    }

    /// How many profiles a browser has.
    pub open spec fn count(self, browser: usize) -> usize {
        self.profiles[browser as int].len() as usize
    }

    /// The source that a step reads.
    pub open spec fn source_at(self, step: ScanStep) -> SourceRead {
        match step {
            ScanStep::ReadProfile(b, p) => SourceRead {
                name: profile_source(b, self.profiles[b as int][p as int].name),
                read: self.profiles[b as int][p as int].read,
            },
            ScanStep::ReadStore(s) => SourceRead {
                name: STORES@[s as int]@,
                read: self.stores[s as int],
            },
            _ => arbitrary(),
        }
    }

    /// Whether a step reads a source that exists.
    pub open spec fn reads_source(self, step: ScanStep) -> bool {
        match step {
            ScanStep::ReadProfile(b, p) => b < 7 && p < self.count(b),
            ScanStep::ReadStore(s) => s < self.stores.len(),
            _ => false,
        }
    }

    /// The first `p` profiles of a browser.
    pub open spec fn profile_sources(self, browser: usize, p: nat) -> Seq<SourceRead> {
        Seq::new(p, |i: int| self.source_at(ScanStep::ReadProfile(browser, i as usize)))
    }

    /// The first `s` stores.
    pub open spec fn store_sources(self, s: nat) -> Seq<SourceRead> {
        Seq::new(s, |i: int| self.source_at(ScanStep::ReadStore(i as usize)))
    }

    /// The profiles of the first `b` browsers, browser by browser.
    pub open spec fn browser_sources(self, b: nat) -> Seq<SourceRead>
        decreases b,
    {
        if b == 0 {
            Seq::<SourceRead>::empty()
        } else {
            self.browser_sources((b - 1) as nat) + self.profile_sources(
                (b - 1) as usize,
                self.count((b - 1) as usize) as nat,
            )
        }
    }

    /// All sources, in the order of preference: the profiles of every browser,
    /// then the stores.
    pub open spec fn sources(self) -> Seq<SourceRead> {
        self.browser_sources(7) + self.store_sources(self.stores.len())
    }
}

/// A search as far as it has come: its next step, the session where one was
/// found, the sources that were read, and what the report lists.
pub struct Search {
    pub step: ScanStep,
    pub found: Option<BrowserAuthModel>,
    pub read: Seq<SourceRead>,
    pub scanned: Seq<Seq<char>>,
    pub failures: Seq<Seq<char>>,
}

impl Search {
    /// A search that has read nothing yet.
    pub open spec fn start() -> Search {
        Search {
            step: ScanStep::ListProfiles(0),
            found: None,
            read: Seq::<SourceRead>::empty(),
            scanned: Seq::<Seq<char>>::empty(),
            failures: Seq::<Seq<char>>::empty(),
        }
    }

    /// The search after a source has been read; it goes on with `next` where
    /// that held no session.
    pub open spec fn after_source(self, source: SourceRead, next: ScanStep) -> Search {
        Search {
            step: if source.has_session() {
                self.step
            } else {
                next
            },
            found: session_read(source.read),
            read: self.read.push(source),
            scanned: scanned_after(self.scanned, source.name, source.read),
            failures: failures_after(self.failures, source.name, source.read),
        }
    }

    /// The search after its next step.
    pub open spec fn advance(self, browsers: Browsers) -> Search {
        if self.found is Some {
            self
        } else {
            match self.step {
                ScanStep::ListProfiles(b) => Search {
                    step: after_list(b, browsers.count(b)),
                    ..self
                },
                ScanStep::ReadProfile(b, p) => self.after_source(
                    browsers.source_at(self.step),
                    after_read(b, p, browsers.count(b)),
                ),
                ScanStep::ReadStore(s) => self.after_source(
                    browsers.source_at(self.step),
                    after_store(s, store_count(browsers.macos)),
                ),
                ScanStep::Report => self,
            }
        }
    }

    /// Whether the search is over.
    pub open spec fn is_over(self) -> bool {
        self.found is Some || self.step is Report
    }
}

/// A search after `n` steps.
pub open spec fn search_at(browsers: Browsers, n: nat) -> Search
    decreases n,
{
    if n == 0 {
        Search::start()
    } else {
        search_at(browsers, (n - 1) as nat).advance(browsers)
    }
}

/// Whether none of the sources holds a session.
pub open spec fn no_session_in(sources: Seq<SourceRead>) -> bool {
    forall|i: int| 0 <= i < sources.len() ==> !(#[trigger] sources[i]).has_session()
}

/// The names of those sources that could be read and held no session, in order.
pub open spec fn scanned_in(sources: Seq<SourceRead>) -> Seq<Seq<char>>
    decreases sources.len(),
{
    if sources.len() == 0 {
        Seq::<Seq<char>>::empty()
    } else {
        scanned_after(
            scanned_in(sources.drop_last()),
            sources.last().name,
            sources.last().read,
        )
    }
}

/// The names of those sources that could not be read, in order, each with the
/// reason.
pub open spec fn failures_in(sources: Seq<SourceRead>) -> Seq<Seq<char>>
    decreases sources.len(),
{
    if sources.len() == 0 {
        Seq::<Seq<char>>::empty()
    } else {
        failures_after(
            failures_in(sources.drop_last()),
            sources.last().name,
            sources.last().read,
        )
    }
}

/// The sources that come before a step.
spec fn read_before(browsers: Browsers, step: ScanStep) -> Seq<SourceRead> {
    match step {
        ScanStep::ListProfiles(b) => browsers.browser_sources(b as nat),
        ScanStep::ReadProfile(b, p) => browsers.browser_sources(b as nat)
            + browsers.profile_sources(b, p as nat),
        ScanStep::ReadStore(s) => browsers.browser_sources(7) + browsers.store_sources(s as nat),
        ScanStep::Report => browsers.sources(),
    }
}

/// What holds of a search after any number of steps.
spec fn search_inv(browsers: Browsers, search: Search) -> bool {
    &&& match search.step {
        ScanStep::ListProfiles(b) => b < 7,
        ScanStep::Report => true,
        _ => browsers.reads_source(search.step),
    }
    &&& search.scanned == scanned_in(search.read)
    &&& search.failures == failures_in(search.read)
    &&& no_session_in(read_before(browsers, search.step))
    &&& match search.found {
        None => search.read == read_before(browsers, search.step),
        Some(auth) => {
            let source = browsers.source_at(search.step);
            &&& browsers.reads_source(search.step)
            &&& search.read == read_before(browsers, search.step).push(source)
            &&& session_read(source.read) == Some(auth)
        },
    }
}

/// How many steps a search without success has left.
spec fn steps_left(browsers: Browsers, step: ScanStep) -> nat {
    match step {
        ScanStep::ListProfiles(b) => steps_from(browsers, b as nat),
        ScanStep::ReadProfile(b, p) => (browsers.count(b) - p + steps_from(
            browsers,
            (b + 1) as nat,
        )) as nat,
        ScanStep::ReadStore(s) => (browsers.stores.len() - s) as nat,
        ScanStep::Report => 0,
    }
}

/// How many steps a search without success has left at the browser `b`.
spec fn steps_from(browsers: Browsers, b: nat) -> nat
    decreases 7 - b,
{
    if b >= 7 {
        browsers.stores.len()
    } else {
        1 + browsers.count(b as usize) as nat + steps_from(browsers, b + 1)
    }
}

proof fn lemma_after_browser(browsers: Browsers, b: usize)
    requires
        browsers.inv(),
        b < 7,
    ensures
        read_before(browsers, after_browser(b)) == browsers.browser_sources(b as nat)
            + browsers.profile_sources(b, browsers.count(b) as nat),
        steps_left(browsers, after_browser(b)) == steps_from(browsers, (b + 1) as nat),
        after_browser(b) matches ScanStep::ReadStore(s) ==> s < browsers.stores.len(),
{
    assert(browsers.store_sources(0) =~= Seq::<SourceRead>::empty());
    assert(browsers.browser_sources((b + 1) as nat) + browsers.store_sources(0)
        =~= browsers.browser_sources((b + 1) as nat));
}

/// The step after a step that finds nothing: it follows directly in the order of
/// the sources.
proof fn lemma_next_step(browsers: Browsers, step: ScanStep, next: ScanStep)
    requires
        browsers.inv(),
        match step {
            ScanStep::ListProfiles(b) => b < 7 && next == after_list(b, browsers.count(b)),
            ScanStep::ReadProfile(b, p) => browsers.reads_source(step) && next == after_read(
                b,
                p,
                browsers.count(b),
            ),
            ScanStep::ReadStore(s) => browsers.reads_source(step) && next == after_store(
                s,
                store_count(browsers.macos),
            ),
            ScanStep::Report => false,
        },
    ensures
        read_before(browsers, next) == if step is ListProfiles {
            read_before(browsers, step)
        } else {
            read_before(browsers, step).push(browsers.source_at(step))
        },
        steps_left(browsers, next) + 1 == steps_left(browsers, step),
        match next {
            ScanStep::ListProfiles(b) => b < 7,
            ScanStep::Report => true,
            _ => browsers.reads_source(next),
        },
{
    match step {
        ScanStep::ListProfiles(b) => {
            lemma_after_browser(browsers, b);
            let start = browsers.browser_sources(b as nat);
            assert(start + browsers.profile_sources(b, 0) =~= start);
        },
        ScanStep::ReadProfile(b, p) => {
            lemma_after_browser(browsers, b);
            let start = browsers.browser_sources(b as nat);
            assert(start + browsers.profile_sources(b, (p + 1) as nat) =~= (start
                + browsers.profile_sources(b, p as nat)).push(browsers.source_at(step)));
        },
        ScanStep::ReadStore(s) => {
            let start = browsers.browser_sources(7);
            assert(start + browsers.store_sources((s + 1) as nat) =~= (start
                + browsers.store_sources(s as nat)).push(browsers.source_at(step)));
        },
        ScanStep::Report => {},
    }
}

proof fn lemma_advance(browsers: Browsers, search: Search)
    requires
        browsers.inv(),
        search_inv(browsers, search),
    ensures
        search_inv(browsers, search.advance(browsers)),
        !search.is_over() ==> search.advance(browsers).found is Some || steps_left(
            browsers,
            search.advance(browsers).step,
        ) + 1 == steps_left(browsers, search.step),
{
    if !search.is_over() {
        let step = search.step;
        let next = match step {
            ScanStep::ListProfiles(b) => after_list(b, browsers.count(b)),
            ScanStep::ReadProfile(b, p) => after_read(b, p, browsers.count(b)),
            ScanStep::ReadStore(s) => after_store(s, store_count(browsers.macos)),
            ScanStep::Report => step,
        };
        lemma_next_step(browsers, step, next);
        if !(step is ListProfiles) {
            let source = browsers.source_at(step);
            let before = read_before(browsers, step);
            let after = before.push(source);
            assert(after.drop_last() =~= before);
            assert(after.last() == source);
            if !source.has_session() {
                assert forall|i: int| 0 <= i < after.len() implies !(
                #[trigger] after[i]).has_session() by {
                    if i < before.len() {
                        assert(after[i] == before[i]);
                    }
                }
            }
        }
    }
}

proof fn lemma_search(browsers: Browsers, n: nat)
    requires
        browsers.inv(),
    ensures
        search_inv(browsers, search_at(browsers, n)),
    decreases n,
{
    if n > 0 {
        lemma_search(browsers, (n - 1) as nat);
        lemma_advance(browsers, search_at(browsers, (n - 1) as nat));
    }
}

proof fn lemma_search_ends(browsers: Browsers, n: nat) -> (m: nat)
    requires
        browsers.inv(),
    ensures
        search_at(browsers, m).is_over(),
    decreases steps_left(browsers, search_at(browsers, n).step),
{
    let search = search_at(browsers, n);
    if search.is_over() {
        n
    } else {
        lemma_search(browsers, n);
        lemma_advance(browsers, search);
        assert(search_at(browsers, n + 1) == search.advance(browsers));
        if search_at(browsers, n + 1).is_over() {
            n + 1
        } else {
            lemma_search_ends(browsers, n + 1)
        }
    }
}

proof fn lemma_browser_prefix(browsers: Browsers, b: nat)
    requires
        b <= 7,
    ensures
        browsers.browser_sources(b).len() <= browsers.sources().len(),
        browsers.sources().take(browsers.browser_sources(b).len() as int)
            == browsers.browser_sources(b),
    decreases 7 - b,
{
    let all = browsers.sources();
    let part = browsers.browser_sources(b);
    if b < 7 {
        lemma_browser_prefix(browsers, b + 1);
        let more = browsers.browser_sources(b + 1);
        assert(more.take(part.len() as int) =~= part);
        assert(all.take(more.len() as int).take(part.len() as int) =~= all.take(part.len() as int));
    } else {
        assert(all.take(part.len() as int) =~= part);
    }
}

/// The source of a step stands among all sources, right behind those that come
/// before the step.
proof fn lemma_source_place(browsers: Browsers, step: ScanStep)
    requires
        browsers.inv(),
        browsers.reads_source(step),
    ensures
        ({
            let before = read_before(browsers, step);
            &&& before.len() < browsers.sources().len()
            &&& browsers.sources().take(before.len() as int) == before
            &&& browsers.sources()[before.len() as int] == browsers.source_at(step)
        }),
{
    let all = browsers.sources();
    let before = read_before(browsers, step);
    match step {
        ScanStep::ReadProfile(b, p) => {
            let start = browsers.browser_sources(b as nat);
            let more = browsers.browser_sources((b + 1) as nat);
            lemma_browser_prefix(browsers, (b + 1) as nat);
            assert(more == start + browsers.profile_sources(b, browsers.count(b) as nat));
            assert(more.take(before.len() as int) =~= before);
            assert(all.take(more.len() as int).take(before.len() as int) =~= all.take(
                before.len() as int,
            ));
            assert(all[before.len() as int] == all.take(more.len() as int)[before.len() as int]);
        },
        ScanStep::ReadStore(s) => {
            assert(all.take(before.len() as int) =~= before);
        },
        _ => {},
    }
}

/// A search that has found a session has found that of the first source that
/// holds one, and has read the sources up to that one and no others.
pub proof fn first_session_is_found(browsers: Browsers, n: nat)
    requires
        browsers.inv(),
        search_at(browsers, n).found is Some,
    ensures
        ({
            let search = search_at(browsers, n);
            let last = search.read.len() - 1;
            &&& 0 <= last < browsers.sources().len()
            &&& search.read == browsers.sources().take(last + 1)
            &&& session_read(browsers.sources()[last].read) == search.found
            &&& no_session_in(browsers.sources().take(last))
        }),
{
    let search = search_at(browsers, n);
    lemma_search(browsers, n);
    lemma_source_place(browsers, search.step);
    let all = browsers.sources();
    let before = read_before(browsers, search.step);
    assert(all.take(before.len() as int + 1) =~= before.push(all[before.len() as int]));
}

/// A search comes to its report only after every profile of every browser and
/// every store has been read, none of which held a session; it then lists each
/// of them.
pub proof fn report_comes_last(browsers: Browsers, n: nat)
    requires
        browsers.inv(),
        search_at(browsers, n).step is Report,
    ensures
        ({
            let search = search_at(browsers, n);
            &&& search.found is None
            &&& search.read == browsers.sources()
            &&& no_session_in(browsers.sources())
            &&& search.scanned == scanned_in(browsers.sources())
            &&& search.failures == failures_in(browsers.sources())
        }),
{
    lemma_search(browsers, n);
}

/// Where a source holds a session, the search ends with that of the first one.
pub proof fn search_gives_first_session(browsers: Browsers, i: int)
    requires
        browsers.inv(),
        0 <= i < browsers.sources().len(),
        browsers.sources()[i].has_session(),
        no_session_in(browsers.sources().take(i)),
    ensures
        exists|n: nat|
            (#[trigger] search_at(browsers, n)).found == session_read(browsers.sources()[i].read),
{
    let n = lemma_search_ends(browsers, 0);
    let all = browsers.sources();
    if search_at(browsers, n).step is Report {
        report_comes_last(browsers, n);
        assert(!all[i].has_session());
    } else {
        first_session_is_found(browsers, n);
        let last = search_at(browsers, n).read.len() - 1;
        if last < i {
            assert(!all.take(i)[last].has_session());
        } else if i < last {
            assert(!all.take(last)[i].has_session());
        }
    }
}

/// Where no source holds a session, the search ends with its report.
pub proof fn search_ends_with_report(browsers: Browsers)
    requires
        browsers.inv(),
        no_session_in(browsers.sources()),
    ensures
        exists|n: nat| (#[trigger] search_at(browsers, n)).step is Report,
{
    let n = lemma_search_ends(browsers, 0);
    if search_at(browsers, n).found is Some {
        first_session_is_found(browsers, n);
        let last = search_at(browsers, n).read.len() - 1;
        assert(!browsers.sources()[last].has_session());
    }
}

/// Every profile of every browser and every store is one of the sources that a
/// search without success reads.
pub proof fn every_source_is_read(browsers: Browsers, step: ScanStep, n: nat)
    requires
        browsers.inv(),
        browsers.reads_source(step),
        search_at(browsers, n).step is Report,
    ensures
        search_at(browsers, n).read.contains(browsers.source_at(step)),
{
    report_comes_last(browsers, n);
    lemma_source_place(browsers, step);
    let at = read_before(browsers, step).len() as int;
    assert(search_at(browsers, n).read[at] == browsers.source_at(step));
}

/// The report of a search without success names every source that held no
/// session, and every one that could not be read.
pub proof fn report_names_sources(scanned: Seq<Seq<char>>, failures: Seq<Seq<char>>, i: int)
    ensures
        0 <= i < scanned.len() ==> text::has_text(report_text(scanned, failures), scanned[i]),
        0 <= i < failures.len() ==> text::has_text(report_text(scanned, failures), failures[i]),
{
    let head = "No Suno session found in any browser. Log into suno.com first, then retry."@;
    let foot =
        "\n  Manual fallback: copy the Cookie header from suno.com in DevTools, then run `suno auth --cookie '<cookie header>'`"@;
    let all = report_text(scanned, failures);
    if 0 <= i < scanned.len() {
        let list = text::joined(scanned, ", "@);
        text::joined_holds_parts(scanned, ", "@, i);
        let before = head + "\n  Scanned, no Suno cookies: "@;
        let after = failures_text(failures) + foot;
        text::lemma_has_text_within(list, before, after, scanned[i]);
        assert(before + list + after =~= all);
    }
    if 0 <= i < failures.len() {
        let list = text::joined(failures, "; "@);
        text::joined_holds_parts(failures, "; "@, i);
        let before = head + scanned_text(scanned) + "\n  Could not read: "@;
        text::lemma_has_text_within(list, before, foot, failures[i]);
        assert(before + list + foot =~= all);
    }
}

/// The search takes the browsers one after the other, each with all its profiles
/// one after the other, and then the stores one after the other; only then comes
/// the report.
pub proof fn steps_follow_in_order(browser: usize, at: usize, count: usize)
    requires
        browser < 7,
        at < count,
    ensures
        after_list(browser, count) == ScanStep::ReadProfile(browser, 0),
        after_list(browser, 0) == if browser == 6 {
            ScanStep::ReadStore(0)
        } else {
            ScanStep::ListProfiles((browser + 1) as usize)
        },
        after_read(browser, at, count) == if at + 1 < count {
            ScanStep::ReadProfile(browser, (at + 1) as usize)
        } else {
            after_list(browser, 0)
        },
        after_store(at, count) == if at + 1 < count {
            ScanStep::ReadStore((at + 1) as usize)
        } else {
            ScanStep::Report
        },
        store_count(true) == 2,
        store_count(false) == 1,
{
}

/// A source is noted exactly once unless it holds a session: by its name, whole,
/// where it could be read, and by its name and the reason, both whole, where it
/// could not. It holds a session exactly if it could be read and its cookies do.
pub proof fn sources_are_noted_once(
    scanned: Seq<Seq<char>>,
    failures: Seq<Seq<char>>,
    source: Seq<char>,
    read: Result<Vec<Cookie>, String>,
)
    ensures
        match read {
            Ok(cookies) => {
                &&& session_read(read) == jar::session_in(jar::contents(cookies@))
                &&& failures_after(failures, source, read) == failures
                &&& scanned_after(scanned, source, read) == if jar::session_in(
                    jar::contents(cookies@),
                ) is Some {
                    scanned
                } else {
                    scanned + seq![source]
                }
            },
            Err(e) => {
                &&& session_read(read) is None
                &&& scanned_after(scanned, source, read) == scanned
                &&& failures_after(failures, source, read) == failures + seq![
                    source + ": "@ + e@,
                ]
            },
        },
{
}

/// A profile is named after its browser and itself, both whole.
pub proof fn profiles_are_named_with_browser(profile: Seq<char>)
    ensures
        profile_source(0, profile) == "Chrome"@ + " ("@ + profile + ")"@,
        profile_source(1, profile) == "Arc"@ + " ("@ + profile + ")"@,
        profile_source(2, profile) == "Brave"@ + " ("@ + profile + ")"@,
        profile_source(3, profile) == "Edge"@ + " ("@ + profile + ")"@,
        profile_source(4, profile) == "Chromium"@ + " ("@ + profile + ")"@,
        profile_source(5, profile) == "Vivaldi"@ + " ("@ + profile + ")"@,
        profile_source(6, profile) == "Opera"@ + " ("@ + profile + ")"@,
        STORES@[0]@ == "Firefox"@,
        STORES@[1]@ == "Safari"@,
{
}

/// The report says that there is no session, lists all sources that held none
/// and all that could not be read, where there are any, and ends with what to do
/// instead; it says nothing else.
pub proof fn report_lists_everything(scanned: Seq<Seq<char>>, failures: Seq<Seq<char>>)
    ensures
        ({
            let head =
                "No Suno session found in any browser. Log into suno.com first, then retry."@;
            let foot =
                "\n  Manual fallback: copy the Cookie header from suno.com in DevTools, then run `suno auth --cookie '<cookie header>'`"@;
            let none = Seq::<Seq<char>>::empty();
            &&& report_text(none, none) == head + foot
            &&& scanned.len() > 0 ==> report_text(scanned, none) == head
                + "\n  Scanned, no Suno cookies: "@ + text::joined(scanned, ", "@) + foot
            &&& failures.len() > 0 ==> report_text(none, failures) == head
                + "\n  Could not read: "@ + text::joined(failures, "; "@) + foot
            &&& scanned.len() > 0 && failures.len() > 0 ==> report_text(scanned, failures) == head
                + "\n  Scanned, no Suno cookies: "@ + text::joined(scanned, ", "@)
                + "\n  Could not read: "@ + text::joined(failures, "; "@) + foot
        }),
{
    let head = "No Suno session found in any browser. Log into suno.com first, then retry."@;
    let foot =
        "\n  Manual fallback: copy the Cookie header from suno.com in DevTools, then run `suno auth --cookie '<cookie header>'`"@;
    let none = Seq::<Seq<char>>::empty();
    let nothing = Seq::<char>::empty();
    assert(report_text(none, none) =~= head + foot);
    assert(report_text(scanned, none) =~= head + scanned_text(scanned) + foot);
    assert(report_text(none, failures) =~= head + failures_text(failures) + foot);
    if scanned.len() > 0 {
        assert(report_text(scanned, none) =~= head + "\n  Scanned, no Suno cookies: "@
            + text::joined(scanned, ", "@) + foot);
    }
    if failures.len() > 0 {
        assert(report_text(none, failures) =~= head + "\n  Could not read: "@ + text::joined(
            failures,
            "; "@,
        ) + foot);
    }
    if scanned.len() > 0 && failures.len() > 0 {
        assert(report_text(scanned, failures) =~= head + "\n  Scanned, no Suno cookies: "@
            + text::joined(scanned, ", "@) + "\n  Could not read: "@ + text::joined(
            failures,
            "; "@,
        ) + foot);
    }
}

/// Each source stands among all sources behind every profile of the browsers
/// before its own and the profiles or stores before it.
pub proof fn sources_stand_in_order(browsers: Browsers, b: usize, p: usize, s: usize)
    requires
        browsers.inv(),
        b < 7,
        p < browsers.profiles[b as int].len(),
        s < browsers.stores.len(),
    ensures
        ({
            let before = browsers.browser_sources(b as nat).len();
            let profiles = browsers.browser_sources(7).len();
            let all = browsers.sources();
            &&& browsers.browser_sources(0).len() == 0
            &&& browsers.browser_sources((b + 1) as nat).len() == before
                + browsers.profiles[b as int].len()
            &&& all.len() == profiles + browsers.stores.len()
            &&& all[before + p].read == browsers.profiles[b as int][p as int].read
            &&& all[before + p].name == profile_source(
                b,
                browsers.profiles[b as int][p as int].name,
            )
            &&& all[profiles + s].read == browsers.stores[s as int]
        }),
{
    lemma_source_place(browsers, ScanStep::ReadProfile(b, p));
    lemma_source_place(browsers, ScanStep::ReadStore(s));
}

/// Cookies are asked for of the site, of the domain that Clerk runs on, and of
/// all of the site's own domains.
pub proof fn all_domains_are_asked_for()
    ensures
        COOKIE_DOMAINS@.len() == 3,
        COOKIE_DOMAINS@[0]@ == "suno.com"@,
        COOKIE_DOMAINS@[1]@ == "auth.suno.com"@,
        COOKIE_DOMAINS@[2]@ == ".suno.com"@,
{
}

} // verus!
