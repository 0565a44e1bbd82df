//! Where browsers keep their cookies: the patterns of the database paths, how
//! they are expanded, and in which order the databases are read.
use vstd::prelude::*;

use crate::cookies;
use crate::download;
use crate::text;

verus! {

/// The Chromium-family browsers that are scanned, in order of preference: the
/// key under which their paths are known, and the name to show.
pub const CHROMIUM_BROWSERS: [(&'static str, &'static str); 7] = [
    ("chrome", "Chrome"),
    ("arc", "Arc"),
    ("brave", "Brave"),
    ("edge", "Edge"),
    ("chromium", "Chromium"),
    ("vivaldi", "Vivaldi"),
    ("opera", "Opera"),
];

/// Whether `key` belongs to one of the scanned browsers.
pub open spec fn is_browser_key(key: Seq<char>) -> bool {
    exists|i: int| 0 <= i < 7 && #[trigger] CHROMIUM_BROWSERS@[i].0@ == key
}

/// What the table of `rookie` holds for a key: the path patterns and the
/// channels, once for each platform.
pub uninterp spec fn config_entries(key: Seq<char>) -> Set<
    (Seq<Seq<char>>, Option<Seq<Seq<char>>>),
>;

/// `rookie::config::get_browser_config`: the path patterns of a browser and the
/// release channels that they are filled with. It gives the entry of the table
/// for that key and the platform it was built for; which platform that is, and
/// what the entry is, is not stated. On each platform there is a pattern, every
/// pattern is for a file `Cookies` in some directory, and a list of channels is
/// not empty. The function panics on a key that the table lacks; it holds the
/// keys of all scanned browsers on every platform.
#[verifier::external_body]
fn browser_config(key: &str) -> (r: (Vec<String>, Option<Vec<String>>))
    requires
        is_browser_key(key@),
    ensures
        config_entries(key@).contains((text::texts(r.0@), list_texts(r.1))),
        r.0@.len() > 0,
        forall|i: int|
            0 <= i < r.0@.len() ==> text::has_suffix((#[trigger] r.0@[i])@, "/Cookies"@),
        r.1 matches Some(channels) ==> channels@.len() > 0,
{
    let config = rookie::config::get_browser_config(key);
    (config.paths.clone(), config.channels.clone())
}

/// The channels to fill patterns with: a single empty one where none are given.
pub open spec fn channels_or_one(channels: Option<Seq<Seq<char>>>) -> Seq<Seq<char>> {
    match channels {
        Some(c) => c,
        None => seq![Seq::<char>::empty()],
    }
}

/// The patterns with each channel in turn, pattern by pattern: the entry for
/// pattern `i` and channel `j` stands at `i * channels.len() + j`.
pub open spec fn filled_patterns(
    paths: Seq<Seq<char>>,
    channels: Seq<Seq<char>>,
) -> Seq<Seq<char>>
    decreases paths.len(),
{
    if paths.len() == 0 {
        Seq::<Seq<char>>::empty()
    } else {
        filled_patterns(paths.drop_last(), channels) + channels.map_values(
            |c: Seq<char>| text::replaced(paths.last(), "{channel}"@, c),
        )
    }
}

/// The texts of an optional list of strings.
pub open spec fn list_texts(o: Option<Vec<String>>) -> Option<Seq<Seq<char>>> {
    match o {
        Some(v) => Some(text::texts(v@)),
        None => None,
    }
}

/// The patterns of the cookie databases: every path with every channel.
pub fn cookie_patterns(paths: &Vec<String>, channels: Option<Vec<String>>) -> (r: Vec<String>)
    ensures
        text::texts(r@) == filled_patterns(
            text::texts(paths@),
            channels_or_one(list_texts(channels)),
        ),
{
    let ghost given = list_texts(channels);
    let fill: Vec<String> = match channels {
        Some(c) => c,
        None => {
            let mut one: Vec<String> = Vec::new();
            one.push(String::new());
            assert(text::texts(one@) =~= seq![Seq::<char>::empty()]);
            one
        },
    };
    let ghost with = text::texts(fill@);
    assert(with == channels_or_one(given));
    let ghost all = text::texts(paths@);
    let n: usize = paths.len();
    let m: usize = fill.len();
    let mut out: Vec<String> = Vec::new();
    assert(text::texts(out@) =~= filled_patterns(all.take(0), with));
    for i in 0..n
        invariant
            n == paths@.len(),
            m == fill@.len(),
            all == text::texts(paths@),
            with == text::texts(fill@),
            text::texts(out@) == filled_patterns(all.take(i as int), with),
    {
        let ghost before = text::texts(out@);
        let ghost pattern = all[i as int];
        let ghost filled = with.map_values(
            |c: Seq<char>| text::replaced(pattern, "{channel}"@, c),
        );
        assert(before + filled.take(0) =~= before);
        for j in 0..m
            invariant
                n == paths@.len(),
                i < n,
                m == fill@.len(),
                all == text::texts(paths@),
                with == text::texts(fill@),
                pattern == all[i as int],
                filled == with.map_values(|c: Seq<char>| text::replaced(pattern, "{channel}"@, c)),
                text::texts(out@) == before + filled.take(j as int),
        {
            proof {
                reveal_strlit("{channel}");
            }
            let ghost was = out@;
            let path = text::replace(paths[i].as_str(), "{channel}", fill[j].as_str());
            let ghost added = path@;
            out.push(path);
            assert(text::texts(out@) =~= text::texts(was).push(added));
            assert(before + filled.take(j + 1) =~= (before + filled.take(j as int)).push(
                filled[j as int],
            ));
        }
        assert(filled.take(m as int) =~= filled);
        assert(all.take(i + 1).drop_last() =~= all.take(i as int));
        assert(all.take(i + 1).last() == pattern);
    }
    assert(all.take(n as int) =~= all);
    out
}

proof fn lemma_filled_len(paths: Seq<Seq<char>>, channels: Seq<Seq<char>>)
    ensures
        filled_patterns(paths, channels).len() == paths.len() * channels.len(),
    decreases paths.len(),
{
    if paths.len() > 0 {
        lemma_filled_len(paths.drop_last(), channels);
        assert((paths.len() - 1) * channels.len() + channels.len() == paths.len() * channels.len())
            by (nonlinear_arith)
            requires
                paths.len() > 0,
        ;
    } else {
        assert(paths.len() * channels.len() == 0) by (nonlinear_arith)
            requires
                paths.len() == 0,
        ;
    }
}

/// There is a pattern for every path and every channel.
pub proof fn pattern_for_each(
    paths: Seq<Seq<char>>,
    channels: Seq<Seq<char>>,
    i: int,
    j: int,
)
    requires
        0 <= i < paths.len(),
        0 <= j < channels.len(),
    ensures
        filled_patterns(paths, channels).len() == paths.len() * channels.len(),
        0 <= i * channels.len() + j < filled_patterns(paths, channels).len(),
        filled_patterns(paths, channels)[i * channels.len() + j] == text::replaced(
            paths[i],
            "{channel}"@,
            channels[j],
        ),
    decreases paths.len(),
{
    let less = paths.drop_last();
    lemma_filled_len(paths, channels);
    lemma_filled_len(less, channels);
    if i < less.len() {
        pattern_for_each(less, channels, i, j);
    } else {
        assert(less.len() * channels.len() == i * channels.len());
    }
    assert(i * channels.len() + j < paths.len() * channels.len()) by (nonlinear_arith)
        requires
            0 <= i < paths.len(),
            0 <= j < channels.len(),
    ;
    assert(0 <= i * channels.len()) by (nonlinear_arith)
        requires
            0 <= i,
    ;
}

/// Filling in channels leaves the last component of every path alone, where
/// that holds no closing brace.
pub proof fn channels_keep_file_name(
    paths: Seq<Seq<char>>,
    channels: Seq<Seq<char>>,
    name: Seq<char>,
    k: int,
)
    requires
        forall|i: int| 0 <= i < paths.len() ==> text::has_suffix(#[trigger] paths[i], name),
        !name.contains('}'),
        0 <= k < filled_patterns(paths, channels).len(),
    ensures
        text::has_suffix(filled_patterns(paths, channels)[k], name),
    decreases paths.len(),
{
    let less = paths.drop_last();
    let before = filled_patterns(less, channels);
    if k < before.len() {
        assert forall|i: int| 0 <= i < less.len() implies text::has_suffix(
            #[trigger] less[i],
            name,
        ) by {
            assert(less[i] == paths[i]);
        }
        channels_keep_file_name(less, channels, name, k);
    } else {
        reveal_strlit("{channel}");
        assert("{channel}"@.last() == '}');
        assert(text::has_suffix(paths[paths.len() - 1], name));
        text::replacing_keeps_suffix(
            paths.last(),
            "{channel}"@,
            channels[k - before.len()],
            name,
        );
    }
}

/// The patterns of the cookie databases of a browser, from the table of this
/// platform: every path with every channel. Each is for a file `Cookies` in some
/// directory.
pub fn browser_patterns(key: &str) -> (r: Vec<String>)
    requires
        is_browser_key(key@),
    ensures
        exists|e: (Seq<Seq<char>>, Option<Seq<Seq<char>>>)| #[trigger]
            config_entries(key@).contains(e) && text::texts(r@) == filled_patterns(
                e.0,
                channels_or_one(e.1),
            ),
        r@.len() > 0,
        forall|k: int|
            0 <= k < r@.len() ==> text::has_suffix((#[trigger] r@[k])@, "/Cookies"@),
{
    let (paths, channels) = browser_config(key);
    let ghost from = text::texts(paths@);
    let ghost entry = (from, list_texts(channels));
    let ghost with = channels_or_one(entry.1);
    let r = cookie_patterns(&paths, channels);
    proof {
        assert(config_entries(key@).contains(entry));
        pattern_for_each(from, with, 0, 0);
        assert(text::texts(r@).len() == r@.len());
        assert(!"/Cookies"@.contains('}')) by {
            reveal_strlit("/Cookies");
        }
        assert forall|i: int| 0 <= i < from.len() implies text::has_suffix(
            #[trigger] from[i],
            "/Cookies"@,
        ) by {
            assert(from[i] == paths@[i]@);
        }
        assert forall|k: int| 0 <= k < r@.len() implies text::has_suffix(
            (#[trigger] r@[k])@,
            "/Cookies"@,
        ) by {
            channels_keep_file_name(from, with, "/Cookies"@, k);
            assert(text::texts(r@)[k] == r@[k]@);
        }
    }
    r
}

/// A pattern with the home directory filled in; as it is where none is set.
pub open spec fn home_expanded(path: Seq<char>, home: Option<Seq<char>>) -> Seq<char> {
    match home {
        Some(h) => text::replaced(text::replaced(path, "$HOME"@, h), seq!['~'], h),
        None => path,
    }
}

/// Expands `$HOME` and `~` in a pattern, as is done on Unix.
pub fn expand_home(path: &str, home: Option<&str>) -> (r: String)
    ensures
        r@ == home_expanded(path@, download::slice_text(home)),
{
    match home {
        Some(h) => {
            proof {
                reveal_strlit("$HOME");
                reveal_strlit("~");
                assert("~"@ =~= seq!['~']);
            }
            let named = text::replace(path, "$HOME", h);
            text::replace(named.as_str(), "~", h)
        },
        None => path.to_owned(),
    }
}

/// What follows the first `%` of `s`.
pub open spec fn behind_percent(s: Seq<char>) -> Seq<char> {
    s.skip(text::first_position(s, '%') + 1)
}

/// Whether `s` starts, after some plain text, with a name between two `%`.
pub open spec fn has_reference(s: Seq<char>) -> bool {
    s.contains('%') && behind_percent(s).contains('%')
}

/// The name between the first two `%` of `s`.
pub open spec fn first_name(s: Seq<char>) -> Seq<char> {
    behind_percent(s).take(text::first_position(behind_percent(s), '%'))
}

/// What follows the second `%` of `s`.
pub open spec fn behind_reference(s: Seq<char>) -> Seq<char> {
    behind_percent(behind_percent(s))
}

proof fn lemma_first_position_at(s: Seq<char>, c: char)
    ensures
        0 <= text::first_position(s, c) <= s.len(),
        s.contains(c) ==> text::first_position(s, c) < s.len() && s[text::first_position(s, c)]
            == c,
        forall|j: int| 0 <= j < text::first_position(s, c) ==> #[trigger] s[j] != c,
    decreases s.len(),
{
    if s.len() > 0 && s[0] != c {
        let rest = s.drop_first();
        lemma_first_position_at(rest, c);
        if s.contains(c) {
            let i = choose|i: int| 0 <= i < s.len() && s[i] == c;
            assert(rest[i - 1] == c);
        }
        assert forall|j: int| 0 <= j < text::first_position(s, c) implies #[trigger] s[j] != c by {
            if j > 0 {
                assert(rest[j - 1] == s[j]);
            }
        }
    }
}

/// The names between `%` signs, in order.
pub open spec fn reference_names(s: Seq<char>) -> Seq<Seq<char>>
    decreases s.len(),
    when true
    via reference_names_shrink
{
    if has_reference(s) {
        seq![first_name(s)] + reference_names(behind_reference(s))
    } else {
        Seq::<Seq<char>>::empty()
    }
}

#[via_fn]
proof fn reference_names_shrink(s: Seq<char>) {
    lemma_reference_shrinks(s);
}

proof fn lemma_reference_shrinks(s: Seq<char>)
    ensures
        has_reference(s) ==> behind_reference(s).len() < s.len(),
{
    if has_reference(s) {
        lemma_first_position_at(s, '%');
        lemma_first_position_at(behind_percent(s), '%');
    }
}

/// `s` with each name between `%` signs replaced by the value in its place in
/// `values`; a name without a value stays as it is, signs and all.
pub open spec fn with_values(s: Seq<char>, values: Seq<Option<Seq<char>>>) -> Seq<char>
    decreases s.len(),
    when true
    via with_values_shrink
{
    if has_reference(s) {
        s.take(text::first_position(s, '%')) + reference_text(first_name(s), values[0])
            + with_values(behind_reference(s), values.drop_first())
    } else {
        s
    }
}

#[via_fn]
proof fn with_values_shrink(s: Seq<char>, values: Seq<Option<Seq<char>>>) {
    lemma_reference_shrinks(s);
}

/// The texts of a list of optional strings.
pub open spec fn value_texts(values: Seq<Option<String>>) -> Seq<Option<Seq<char>>> {
    values.map_values(|v: Option<String>| cookies::text_of(v))
}

/// The positions of the first two `%` of `s`.
fn find_reference(s: &[char]) -> (r: Option<(usize, usize)>)
    ensures
        match r {
            Some(at) => {
                &&& has_reference(s@)
                &&& at.0 == text::first_position(s@, '%')
                &&& at.0 < at.1 < s@.len()
                &&& first_name(s@) == s@.subrange(at.0 + 1, at.1 as int)
                &&& behind_reference(s@) == s@.skip(at.1 + 1)
            },
            None => !has_reference(s@),
        },
{
    let i: usize = text::position(s, '%');
    if i == s.len() {
        return None;
    }
    let after = vstd::slice::slice_subrange(s, i + 1, s.len());
    assert(after@ =~= behind_percent(s@));
    let j: usize = text::position(after, '%');
    if j == after.len() {
        return None;
    }
    assert(first_name(s@) =~= s@.subrange(i + 1, i + 1 + j));
    assert(behind_reference(s@) =~= s@.skip(i + 1 + j + 1));
    Some((i, i + 1 + j))
}

/// The names of the variables that a pattern refers to, in order.
pub fn percent_names(path: &str) -> (r: Vec<String>)
    ensures
        text::texts(r@) == reference_names(path@),
{
    let chars = text::chars_of(path);
    let n: usize = chars.len();
    let mut names: Vec<String> = Vec::new();
    let mut at: usize = 0;
    assert(path@.skip(0) =~= path@);
    assert(text::texts(names@) + reference_names(path@) =~= reference_names(path@));
    loop
        invariant
            chars@ == path@,
            n == path@.len(),
            at <= n,
            text::texts(names@) + reference_names(path@.skip(at as int)) == reference_names(path@),
        ensures
            text::texts(names@) == reference_names(path@),
        decreases n - at,
    {
        let rest = vstd::slice::slice_subrange(chars.as_slice(), at, n);
        let ghost s = path@.skip(at as int);
        assert(rest@ =~= s);
        let ghost was = text::texts(names@);
        match find_reference(rest) {
            Some((i, j)) => {
                let name = text::string_of(vstd::slice::slice_subrange(rest, i + 1, j));
                let ghost added = name@;
                names.push(name);
                assert(text::texts(names@) =~= was.push(added));
                at = at + j + 1;
                assert(path@.skip(at as int) =~= behind_reference(s));
                assert(was + (seq![added] + reference_names(behind_reference(s))) =~= was.push(added)
                    + reference_names(behind_reference(s)));
            },
            None => {
                assert(was + Seq::<Seq<char>>::empty() =~= was);
                break ;
            },
        }
    }
    names
}

/// What stands for a reference: its value, or itself where it has none.
pub open spec fn reference_text(name: Seq<char>, value: Option<Seq<char>>) -> Seq<char> {
    match value {
        Some(v) => v,
        None => seq!['%'] + name + seq!['%'],
    }
}

fn append_reference(out: &mut String, name: &str, value: &Option<String>)
    ensures
        final(out)@ == old(out)@ + reference_text(name@, cookies::text_of(*value)),
{
    let ghost start = out@;
    match value {
        Some(v) => {
            out.append(v.as_str());
        },
        None => {
            out.push('%');
            out.append(name);
            out.push('%');
            assert(out@ =~= start + (seq!['%'] + name@ + seq!['%']));
        },
    }
}

/// Expands the names between `%` signs in a pattern, as is done on Windows.
/// `values` holds, in order, what each of [`percent_names`] is set to; a name
/// that is not set stays as it is.
pub fn expand_percent(path: &str, values: &Vec<Option<String>>) -> (r: String)
    requires
        values@.len() == reference_names(path@).len(),
    ensures
        r@ == with_values(path@, value_texts(values@)),
{
    let chars = text::chars_of(path);
    let n: usize = chars.len();
    let mut out = String::new();
    let mut at: usize = 0;
    let mut k: usize = 0;
    let total: usize = values.len();
    let ghost given = value_texts(values@);
    assert(path@.skip(0) =~= path@);
    assert(given.skip(0) =~= given);
    assert(out@ + with_values(path@, given) =~= with_values(path@, given));
    loop
        invariant
            chars@ == path@,
            n == path@.len(),
            at <= n,
            k <= total,
            total == values@.len(),
            given == value_texts(values@),
            total - k == reference_names(path@.skip(at as int)).len(),
            out@ + with_values(path@.skip(at as int), given.skip(k as int)) == with_values(
                path@,
                given,
            ),
        ensures
            at <= n,
            out@ + path@.skip(at as int) == with_values(path@, given),
        decreases n - at,
    {
        let rest = vstd::slice::slice_subrange(chars.as_slice(), at, n);
        let ghost s = path@.skip(at as int);
        let ghost left = given.skip(k as int);
        assert(rest@ =~= s);
        match find_reference(rest) {
            Some((i, j)) => {
                let before = text::string_of(vstd::slice::slice_subrange(rest, 0, i));
                let name = text::string_of(vstd::slice::slice_subrange(rest, i + 1, j));
                assert(before@ =~= s.take(i as int));
                let ghost was = out@;
                let ghost mid = reference_text(name@, left[0]);
                let ghost tail = with_values(behind_reference(s), left.drop_first());
                assert(with_values(s, left) == before@ + mid + tail);
                assert(reference_names(s).len() == 1 + reference_names(behind_reference(s)).len());
                assert(left[0] == cookies::text_of(values@[k as int]));
                out.append(before.as_str());
                append_reference(&mut out, name.as_str(), &values[k]);
                assert(was + (before@ + mid + tail) =~= out@ + tail);
                at = at + j + 1;
                k = k + 1;
                assert(path@.skip(at as int) =~= behind_reference(s));
                assert(left.drop_first() =~= given.skip(k as int));
            },
            None => {
                break ;
            },
        }
    }
    let tail = path.substring_char(at, n);
    assert(tail@ =~= path@.skip(at as int));
    out.append(tail);
    out
}

/// Where no variable is set, a pattern is left as it is.
pub proof fn unset_names_stay(s: Seq<char>, values: Seq<Option<Seq<char>>>)
    requires
        values.len() == reference_names(s).len(),
        forall|i: int| 0 <= i < values.len() ==> (#[trigger] values[i]) is None,
    ensures
        with_values(s, values) == s,
    decreases s.len(),
{
    if has_reference(s) {
        lemma_reference_shrinks(s);
        let rest = values.drop_first();
        assert forall|i: int| 0 <= i < rest.len() implies (#[trigger] rest[i]) is None by {
            assert(rest[i] == values[i + 1]);
        }
        unset_names_stay(behind_reference(s), rest);
        assert(values[0] is None);
        lemma_first_position_at(s, '%');
        lemma_first_position_at(behind_percent(s), '%');
        let i = text::first_position(s, '%');
        let j = text::first_position(behind_percent(s), '%');
        assert(s =~= s.take(i) + (seq!['%'] + first_name(s) + seq!['%']) + behind_reference(s));
    }
}

/// `s` with each name between `%` signs replaced by what it is set to; a name
/// that is not set stays as it is, signs and all.
pub open spec fn expanded_by(
    s: Seq<char>,
    variables: Map<Seq<char>, Seq<char>>,
) -> Seq<char>
    decreases s.len(),
    when true
    via expanded_by_shrink
{
    if has_reference(s) {
        s.take(text::first_position(s, '%')) + reference_text(
            first_name(s),
            lookup(variables, first_name(s)),
        ) + expanded_by(behind_reference(s), variables)
    } else {
        s
    }
}

#[via_fn]
proof fn expanded_by_shrink(s: Seq<char>, variables: Map<Seq<char>, Seq<char>>) {
    lemma_reference_shrinks(s);
}

/// What a variable is set to.
pub open spec fn lookup(variables: Map<Seq<char>, Seq<char>>, name: Seq<char>) -> Option<Seq<char>> {
    if variables.contains_key(name) {
        Some(variables[name])
    } else {
        None
    }
}

/// Looking up each name of a pattern and filling in the values expands the
/// pattern by the variables that are set.
pub proof fn lookups_expand(s: Seq<char>, variables: Map<Seq<char>, Seq<char>>)
    ensures
        with_values(s, reference_names(s).map_values(|n: Seq<char>| lookup(variables, n)))
            == expanded_by(s, variables),
    decreases s.len(),
{
    if has_reference(s) {
        lemma_reference_shrinks(s);
        let rest = behind_reference(s);
        lookups_expand(rest, variables);
        let f = |n: Seq<char>| lookup(variables, n);
        let values = reference_names(s).map_values(f);
        assert(reference_names(s)[0] == first_name(s));
        assert(values[0] == lookup(variables, first_name(s)));
        assert(values.drop_first() =~= reference_names(rest).map_values(f));
    }
}

/// The names of the directories above a cookie database, and the whole path as
/// it is shown.
#[derive(Debug)]
pub struct DbPlace {
    /// The name of the directory that the database is in.
    pub parent: Option<String>,
    /// The name of the directory above that one.
    pub grandparent: Option<String>,
    /// The whole path.
    pub shown: String,
}

/// The name of the profile of a cookie database: that of the directory it is
/// in, or of the one above if that is `Network`; the whole path where there is
/// no such name.
pub open spec fn label_of(
    parent: Option<Seq<char>>,
    grandparent: Option<Seq<char>>,
    shown: Seq<char>,
) -> Seq<char> {
    let dir = if parent == Some("Network"@) {
        grandparent
    } else {
        parent
    };
    match dir {
        Some(name) => name,
        None => shown,
    }
}

/// The name to show for the profile of a cookie database.
pub fn profile_label(db: &DbPlace) -> (r: String)
    ensures
        r@ == label_of(cookies::text_of(db.parent), cookies::text_of(db.grandparent), db.shown@),
{
    let dir = match &db.parent {
        Some(p) => {
            if text::same(p.as_str(), "Network") {
                &db.grandparent
            } else {
                &db.parent
            }
        },
        None => &db.parent,
    };
    match dir {
        Some(name) => name.clone(),
        None => db.shown.clone(),
    }
}

/// A database in the directory `Network` of a profile is named after the
/// profile, as one in the directory of the profile itself is.
pub proof fn network_directory_is_skipped(
    profile: Seq<char>,
    above: Option<Seq<char>>,
    shown: Seq<char>,
)
    requires
        profile != "Network"@,
    ensures
        label_of(Some("Network"@), Some(profile), shown) == profile,
        label_of(Some(profile), above, shown) == profile,
{
}

/// A path that a pattern matched: its components, and whether a regular file is
/// there.
#[derive(Debug)]
pub struct FoundPath {
    pub components: Vec<Vec<u8>>,
    pub is_file: bool,
}

/// The content of a [`FoundPath`].
pub struct FoundPathModel {
    pub components: Seq<Seq<u8>>,
    pub is_file: bool,
}

impl View for FoundPath {
    type V = FoundPathModel;

    open spec fn view(&self) -> FoundPathModel {
        FoundPathModel {
            components: self.components@.map_values(|c: Vec<u8>| c@),
            is_file: self.is_file,
        }
    }
}

/// The contents of a sequence of found paths.
pub open spec fn found_models(found: Seq<FoundPath>) -> Seq<FoundPathModel> {
    found.map_values(|f: FoundPath| f@)
}

/// Whether one of the files at the given positions has the path of `f`.
pub open spec fn among(found: Seq<FoundPathModel>, kept: Seq<usize>, f: FoundPathModel) -> bool {
    exists|k: int|
        0 <= k < kept.len() && found[(#[trigger] kept[k]) as int].components == f.components
}

/// The positions of the files among the found paths, in order, each path once.
pub open spec fn distinct_file_positions(found: Seq<FoundPathModel>) -> Seq<usize>
    decreases found.len(),
{
    if found.len() == 0 {
        Seq::<usize>::empty()
    } else {
        let before = distinct_file_positions(found.drop_last());
        if found.last().is_file && !among(found, before, found.last()) {
            before.push((found.len() - 1) as usize)
        } else {
            before
        }
    }
}

fn same_components(a: &Vec<Vec<u8>>, b: &Vec<Vec<u8>>) -> (r: bool)
    ensures
        r == (a@.map_values(|c: Vec<u8>| c@) == b@.map_values(|c: Vec<u8>| c@)),
{
    let ghost left = a@.map_values(|c: Vec<u8>| c@);
    let ghost right = b@.map_values(|c: Vec<u8>| c@);
    let n: usize = a.len();
    if n != b.len() {
        assert(left.len() != right.len());
        return false;
    }
    for i in 0..n
        invariant
            n == a@.len(),
            n == b@.len(),
            left == a@.map_values(|c: Vec<u8>| c@),
            right == b@.map_values(|c: Vec<u8>| c@),
            forall|j: int| 0 <= j < i ==> left[j] == right[j],
    {
        let m: usize = a[i].len();
        if m != b[i].len() {
            assert(left[i as int] != right[i as int]);
            return false;
        }
        for k in 0..m
            invariant
                i < n,
                n == a@.len(),
                n == b@.len(),
                left == a@.map_values(|c: Vec<u8>| c@),
                right == b@.map_values(|c: Vec<u8>| c@),
                m == a@[i as int]@.len(),
                m == b@[i as int]@.len(),
                forall|j: int| 0 <= j < k ==> a@[i as int]@[j] == b@[i as int]@[j],
        {
            if a[i][k] != b[i][k] {
                assert(left[i as int][k as int] != right[i as int][k as int]);
                return false;
            }
        }
        assert(left[i as int] =~= right[i as int]);
    }
    assert(left =~= right);
    true
}

proof fn lemma_positions_bounded(found: Seq<FoundPathModel>)
    requires
        found.len() <= usize::MAX,
    ensures
        forall|k: int|
            0 <= k < distinct_file_positions(found).len() ==> (#[trigger] distinct_file_positions(
                found,
            )[k]) < found.len(),
    decreases found.len(),
{
    if found.len() > 0 {
        let less = found.drop_last();
        lemma_positions_bounded(less);
        let before = distinct_file_positions(less);
        let after = distinct_file_positions(found);
        assert forall|k: int| 0 <= k < after.len() implies (#[trigger] after[k]) < found.len() by {
            if k < before.len() {
                assert(after[k] == before[k]);
            }
        }
    }
}

/// The positions of the cookie databases among the found paths: those of
/// regular files, in order, each path once.
pub fn distinct_files(found: &Vec<FoundPath>) -> (r: Vec<usize>)
    ensures
        r@ == distinct_file_positions(found_models(found@)),
{
    let n: usize = found.len();
    let ghost all = found_models(found@);
    let mut kept: Vec<usize> = Vec::new();
    assert(all.take(0) =~= Seq::<FoundPathModel>::empty());
    for i in 0..n
        invariant
            n == found@.len(),
            all == found_models(found@),
            kept@ == distinct_file_positions(all.take(i as int)),
    {
        let ghost part = all.take(i + 1);
        assert(part.drop_last() =~= all.take(i as int));
        proof {
            lemma_positions_bounded(all.take(i as int));
        }
        let m: usize = kept.len();
        let mut new = found[i].is_file;
        if new {
            for k in 0..m
                invariant
                    i < n,
                    n == found@.len(),
                    all == found_models(found@),
                    part == all.take(i + 1),
                    m == kept@.len(),
                    forall|j: int| 0 <= j < kept@.len() ==> (#[trigger] kept@[j]) < i,
                    new == forall|j: int|
                        0 <= j < k ==> part[(#[trigger] kept@[j]) as int].components
                            != part.last().components,
            {
                let at: usize = kept[k];
                if same_components(&found[at].components, &found[i].components) {
                    assert(part[kept@[k as int] as int].components == part.last().components);
                    new = false;
                } else {
                    assert(part[kept@[k as int] as int].components != part.last().components);
                }
            }
        }
        if new {
            kept.push(i);
        }
    }
    assert(all.take(n as int) =~= all);
    kept
}

/// Whether `order` lists the positions of `modified` from the latest time to
/// the earliest, those of one time in their own order.
pub open spec fn newest_first_order(modified: Seq<i128>, order: Seq<usize>) -> bool {
    &&& order.len() == modified.len()
    &&& forall|a: int| 0 <= a < order.len() ==> (#[trigger] order[a]) < modified.len()
    &&& forall|i: usize| i < modified.len() ==> #[trigger] order.contains(i)
    &&& forall|a: int, b: int|
        0 <= a < b < order.len() ==> {
            let x = #[trigger] order[a];
            let y = #[trigger] order[b];
            modified[x as int] > modified[y as int] || (modified[x as int] == modified[y as int] && x
                < y)
        }
}

/// The order in which to read files that were last written at the given times:
/// the latest first, those of one time in their own order. The profile that the
/// user browses with is the one that was written last.
pub fn newest_first(modified: &Vec<i128>) -> (r: Vec<usize>)
    ensures
        newest_first_order(modified@, r@),
{
    let n: usize = modified.len();
    let mut order: Vec<usize> = Vec::new();
    for i in 0..n
        invariant
            n == modified@.len(),
            newest_first_order(modified@.take(i as int), order@),
    {
        let ghost before = order@;
        let ghost part = modified@.take(i as int);
        let mut at: usize = 0;
        while at < order.len() && modified[order[at]] >= modified[i]
            invariant
                i < n,
                n == modified@.len(),
                part == modified@.take(i as int),
                order@ == before,
                newest_first_order(part, order@),
                at <= order@.len(),
                forall|a: int|
                    0 <= a < at ==> modified@[(#[trigger] order@[a]) as int] >= modified@[i as int],
            decreases order@.len() - at,
        {
            at = at + 1;
        }
        order.insert(at, i);
        let ghost more = modified@.take(i + 1);
        assert(order@ =~= before.insert(at as int, i));
        assert(forall|k: int| 0 <= k < i ==> part[k] == more[k]);
        assert forall|k: usize| k < more.len() implies #[trigger] order@.contains(k) by {
            if k == i {
                assert(order@[at as int] == i);
            } else {
                assert(before.contains(k));
                let a = choose|a: int| 0 <= a < before.len() && before[a] == k;
                if a < at {
                    assert(order@[a] == k);
                } else {
                    assert(order@[a + 1] == k);
                }
            }
        }
        assert forall|a: int, b: int| 0 <= a < b < order@.len() implies ({
            let x = #[trigger] order@[a];
            let y = #[trigger] order@[b];
            more[x as int] > more[y as int] || (more[x as int] == more[y as int] && x < y)
        }) by {
            let a0 = if a < at {
                a
            } else {
                a - 1
            };
            let b0 = if b < at {
                b
            } else {
                b - 1
            };
            if a != at {
                assert(order@[a] == before[a0]);
            }
            if b != at {
                assert(order@[b] == before[b0]);
            }
            if a != at && b != at {
                assert(a0 < b0);
            } else if a == at {
                assert(before[b0] == before[b - 1]);
                if b - 1 > at {
                    assert(part[before[at as int] as int] >= part[before[b - 1] as int]);
                }
            }
        }
    }
    assert(modified@.take(n as int) =~= modified@);
    order
}

/// Where the file with the key of a Windows cookie database may be, seen from
/// the directory of the database, in the order in which they are tried.
pub const KEY_CANDIDATES: [&'static str; 3] = [
    "../../Local State",
    "../Local State",
    "Local State",
];

/// The message where none of [`KEY_CANDIDATES`] exists.
pub const NO_KEY_FILE: &'static str = "no Local State file beside the cookie database";

/// The first of [`KEY_CANDIDATES`] that exists.
pub open spec fn first_existing(exists_at: Seq<bool>) -> Option<int>
    decreases exists_at.len(),
{
    if exists_at.len() == 0 {
        None
    } else if first_existing(exists_at.drop_last()) is Some {
        first_existing(exists_at.drop_last())
    } else if exists_at.last() {
        Some(exists_at.len() - 1)
    } else {
        None
    }
}

/// The file with the key of a Windows cookie database, seen from the directory
/// of the database, where `exists_at` says which of [`KEY_CANDIDATES`] exist.
pub fn chromium_key_path(exists_at: [bool; 3]) -> (r: Option<&'static str>)
    ensures
        match first_existing(exists_at@) {
            Some(i) => r is Some && r->0@ == KEY_CANDIDATES@[i]@,
            None => r is None,
        },
{
    proof {
        reveal_with_fuel(first_existing, 4);
    }
    if exists_at[0] {
        Some(KEY_CANDIDATES[0])
    } else if exists_at[1] {
        Some(KEY_CANDIDATES[1])
    } else if exists_at[2] {
        Some(KEY_CANDIDATES[2])
    } else {
        None
    }
}

/// The found databases are files, in the order in which they were found, no two
/// with one path, and every file that was found is among them by its path.
pub proof fn files_are_distinct(found: Seq<FoundPathModel>)
    requires
        found.len() <= usize::MAX,
    ensures
        ({
            let kept = distinct_file_positions(found);
            &&& forall|k: int|
                0 <= k < kept.len() ==> (#[trigger] kept[k]) < found.len()
                    && found[kept[k] as int].is_file
            &&& forall|k: int, l: int|
                0 <= k < l < kept.len() ==> #[trigger] kept[k] < #[trigger] kept[l]
                    && found[kept[k] as int].components != found[kept[l] as int].components
            &&& forall|i: int|
                0 <= i < found.len() && (#[trigger] found[i]).is_file ==> among(
                    found,
                    kept,
                    found[i],
                )
        }),
    decreases found.len(),
{
    let kept = distinct_file_positions(found);
    if found.len() > 0 {
        let less = found.drop_last();
        files_are_distinct(less);
        let before = distinct_file_positions(less);
        assert forall|i: int| 0 <= i < less.len() implies #[trigger] found[i] == less[i] by {}
        let last = found.len() - 1;
        assert forall|k: int| 0 <= k < kept.len() implies (#[trigger] kept[k]) < found.len()
            && found[kept[k] as int].is_file by {
            if k < before.len() {
                assert(kept[k] == before[k]);
                assert(found[kept[k] as int] == less[before[k] as int]);
            }
        }
        assert forall|k: int, l: int| 0 <= k < l < kept.len() implies #[trigger] kept[k]
            < #[trigger] kept[l] && found[kept[k] as int].components
            != found[kept[l] as int].components by {
            assert(kept[k] == before[k]);
            if l < before.len() {
                assert(kept[l] == before[l]);
                assert(found[kept[k] as int] == less[before[k] as int]);
                assert(found[kept[l] as int] == less[before[l] as int]);
            } else {
                assert(!among(found, before, found.last()));
                assert(found[before[k] as int].components != found.last().components);
            }
        }
        assert forall|i: int| 0 <= i < found.len() && (#[trigger] found[i]).is_file implies among(
            found,
            kept,
            found[i],
        ) by {
            if i < last {
                assert(less[i].is_file);
                assert(among(less, before, less[i]));
                let k = choose|k: int|
                    0 <= k < before.len() && less[(#[trigger] before[k]) as int].components
                        == less[i].components;
                assert(kept[k] == before[k]);
                assert(found[kept[k] as int] == less[before[k] as int]);
            } else if among(found, before, found.last()) {
                let k = choose|k: int|
                    0 <= k < before.len() && found[(#[trigger] before[k]) as int].components
                        == found.last().components;
                assert(kept[k] == before[k]);
            } else {
                assert(kept[kept.len() - 1] == last);
            }
        }
    }
}

/// The patterns are, path by path, each path with every channel in the place of
/// `{channel}`, the channels in their order; where no channels are given, each
/// path with nothing in that place. There are no others.
pub proof fn patterns_are_every_path_with_every_channel(
    paths: Seq<String>,
    channels: Option<Vec<String>>,
    r: Seq<String>,
    i: int,
    j: int,
)
    requires
        text::texts(r) == filled_patterns(
            text::texts(paths),
            channels_or_one(list_texts(channels)),
        ),
        0 <= i < paths.len(),
    ensures
        channels matches Some(c) ==> {
            &&& r.len() == paths.len() * c@.len()
            &&& 0 <= j < c@.len() ==> 0 <= i * c@.len() + j < r.len() && r[i * c@.len() + j]@
                == text::replaced(paths[i]@, "{channel}"@, c@[j]@)
        },
        channels is None ==> {
            &&& r.len() == paths.len()
            &&& r[i]@ == text::replaced(paths[i]@, "{channel}"@, Seq::<char>::empty())
        },
{
    let from = text::texts(paths);
    let with = channels_or_one(list_texts(channels));
    lemma_filled_len(from, with);
    assert(text::texts(r).len() == r.len());
    assert(from[i] == paths[i]@);
    match channels {
        Some(c) => {
            assert(with.len() == c@.len());
            if 0 <= j < c@.len() {
                pattern_for_each(from, with, i, j);
                assert(with[j] == c@[j]@);
                assert(text::texts(r)[i * c@.len() + j] == r[i * c@.len() + j]@);
            }
        },
        None => {
            pattern_for_each(from, with, i, 0);
            assert(with.len() == 1);
            assert(i * 1 + 0 == i);
            assert(from.len() * 1 == from.len());
            assert(text::texts(r)[i] == r[i]@);
        },
    }
}

proof fn lemma_reference_shape(a: Seq<char>, name: Seq<char>, rest: Seq<char>)
    requires
        !a.contains('%'),
        !name.contains('%'),
    ensures
        ({
            let s = a + seq!['%'] + name + seq!['%'] + rest;
            &&& has_reference(s)
            &&& text::first_position(s, '%') == a.len()
            &&& s.take(a.len() as int) == a
            &&& first_name(s) == name
            &&& behind_reference(s) == rest
        }),
{
    let s = a + seq!['%'] + name + seq!['%'] + rest;
    assert forall|j: int| 0 <= j < a.len() implies s[j] != '%' by {
        assert(s[j] == a[j]);
        assert(a.contains(a[j]));
    }
    assert(s[a.len() as int] == '%');
    text::lemma_first_position(s, '%', a.len() as int);
    let after = behind_percent(s);
    assert(after =~= name + seq!['%'] + rest);
    assert forall|j: int| 0 <= j < name.len() implies after[j] != '%' by {
        assert(after[j] == name[j]);
        assert(name.contains(name[j]));
    }
    assert(after[name.len() as int] == '%');
    text::lemma_first_position(after, '%', name.len() as int);
    assert(s.contains('%'));
    assert(after.contains('%'));
    assert(s.take(a.len() as int) =~= a);
    assert(first_name(s) =~= name);
    assert(behind_reference(s) =~= rest);
}

/// The first name between `%` signs is the first that is asked for and the first
/// that is filled in: its value, whole, stands in its place, or it stays with
/// its signs where it has none; what is before it stays, and the same goes for
/// what is behind it.
pub proof fn names_are_filled_in_from_the_left(
    a: Seq<char>,
    name: Seq<char>,
    rest: Seq<char>,
    values: Seq<Option<Seq<char>>>,
)
    requires
        !a.contains('%'),
        !name.contains('%'),
        values.len() > 0,
    ensures
        ({
            let s = a + seq!['%'] + name + seq!['%'] + rest;
            &&& reference_names(s) == seq![name] + reference_names(rest)
            &&& with_values(s, values) == a + (match values[0] {
                Some(v) => v,
                None => seq!['%'] + name + seq!['%'],
            }) + with_values(rest, values.skip(1))
        }),
{
    lemma_reference_shape(a, name, rest);
    assert(values.drop_first() =~= values.skip(1));
}

/// A text with at most one `%` names nothing and stays as it is.
pub proof fn single_percent_stays(a: Seq<char>, b: Seq<char>, values: Seq<Option<Seq<char>>>)
    requires
        !a.contains('%'),
        !b.contains('%'),
    ensures
        reference_names(a) == Seq::<Seq<char>>::empty(),
        with_values(a, values) == a,
        reference_names(a + seq!['%'] + b) == Seq::<Seq<char>>::empty(),
        with_values(a + seq!['%'] + b, values) == a + seq!['%'] + b,
{
    let s = a + seq!['%'] + b;
    assert forall|j: int| 0 <= j < a.len() implies s[j] != '%' by {
        assert(s[j] == a[j]);
        assert(a.contains(a[j]));
    }
    assert(s[a.len() as int] == '%');
    text::lemma_first_position(s, '%', a.len() as int);
    assert(behind_percent(s) =~= b);
}

/// Where the home directory is known, each `$HOME` and then each `~` of a
/// pattern is replaced by it; else the pattern stays as it is.
pub proof fn home_takes_both_places(path: &str, home: Option<&str>, r: String)
    requires
        r@ == home_expanded(path@, download::slice_text(home)),
    ensures
        home is None ==> r@ == path@,
        home matches Some(h) ==> r@ == text::replaced(
            text::replaced(path@, "$HOME"@, h@),
            seq!['~'],
            h@,
        ),
{
}

/// A pattern whose only `~` stands between two texts becomes those two with the
/// home directory between them.
pub proof fn tilde_becomes_home(a: Seq<char>, b: Seq<char>, home: Seq<char>)
    requires
        !a.contains('~'),
        !b.contains('~'),
        !text::has_text(a + seq!['~'] + b, "$HOME"@),
    ensures
        home_expanded(a + seq!['~'] + b, Some(home)) == a + home + b,
{
    let s = a + seq!['~'] + b;
    text::replacing_absent_text(s, "$HOME"@, home);
    let at = a.len() as int;
    assert(s.subrange(at, at + 1) =~= seq!['~']);
    assert forall|j: int| 0 <= j < at implies !text::occurs_at(s, seq!['~'], j) by {
        if text::occurs_at(s, seq!['~'], j) {
            assert(s.subrange(j, j + 1)[0] == s[j]);
            assert(a[j] == '~');
            assert(a.contains('~'));
        }
    }
    text::replacing_goes_from_the_left(s, seq!['~'], home, at);
    assert(s.take(at) =~= a);
    assert(s.skip(at + 1) =~= b);
    assert(!text::has_text(b, seq!['~'])) by {
        if text::has_text(b, seq!['~']) {
            let j = choose|j: int| text::occurs_at(b, seq!['~'], j);
            assert(b.subrange(j, j + 1)[0] == b[j]);
            assert(b.contains('~'));
        }
    }
    text::replacing_absent_text(b, seq!['~'], home);
}

/// A profile is named, whole, after the directory of its database; after the one
/// above it where that is `Network`; and after the whole path where there is no
/// such name.
pub proof fn profile_is_named_after_directory(db: DbPlace, r: String)
    requires
        r@ == label_of(cookies::text_of(db.parent), cookies::text_of(db.grandparent), db.shown@),
    ensures
        db.parent matches Some(p) ==> p@ != "Network"@ ==> r@ == p@,
        db.parent matches Some(p) ==> p@ == "Network"@ ==> r@ == (match db.grandparent {
            Some(g) => g@,
            None => db.shown@,
        }),
        db.parent is None ==> r@ == db.shown@,
{
}

/// The databases are the files that were found, at their first places, each path
/// once: a place counts exactly if a file is there and none with that path was
/// found before.
pub proof fn files_count_where_first_found(found: Seq<FoundPath>, r: Seq<usize>)
    requires
        found.len() <= usize::MAX,
        r == distinct_file_positions(found_models(found)),
    ensures
        forall|k: int, l: int| 0 <= k < l < r.len() ==> #[trigger] r[k] < #[trigger] r[l],
        forall|i: usize| #[trigger]
            r.contains(i) <==> i < found.len() && found[i as int].is_file && forall|j: int|
                0 <= j < i && (#[trigger] found[j]).is_file ==> !same_path(
                    found[j],
                    found[i as int],
                ),
{
    let all = found_models(found);
    files_are_distinct(all);
    lemma_first_found(all);
    assert(forall|i: int| 0 <= i < found.len() ==> #[trigger] all[i] == found[i]@);
    assert forall|i: usize| #[trigger] r.contains(i) <==> i < found.len()
        && found[i as int].is_file && forall|j: int|
        0 <= j < i && (#[trigger] found[j]).is_file ==> !same_path(found[j], found[i as int]) by {
        if i < found.len() {
            assert forall|j: int| 0 <= j < i implies (all[j].components
                == all[i as int].components <==> same_path(found[j], found[i as int])) by {
                lemma_same_path(found[j], found[i as int]);
            }
            assert(all[i as int].is_file == found[i as int].is_file);
        }
        if r.contains(i) {
            assert forall|j: int| 0 <= j < i && (#[trigger] found[j]).is_file implies !same_path(
                found[j],
                found[i as int],
            ) by {
                assert(all[j].is_file);
            }
        }
        if i < found.len() && found[i as int].is_file && forall|j: int|
            0 <= j < i && (#[trigger] found[j]).is_file ==> !same_path(found[j], found[i as int]) {
            assert forall|j: int| 0 <= j < i && (#[trigger] all[j]).is_file implies
                all[j].components != all[i as int].components by {
                assert(found[j].is_file);
            }
        }
    }
}

/// Whether two paths have the same components, byte for byte.
pub open spec fn same_path(a: FoundPath, b: FoundPath) -> bool {
    a.components@.len() == b.components@.len() && forall|i: int|
        0 <= i < a.components@.len() ==> (#[trigger] a.components@[i])@ == b.components@[i]@
}

proof fn lemma_same_path(a: FoundPath, b: FoundPath)
    ensures
        a@.components == b@.components <==> same_path(a, b),
{
    if a@.components == b@.components {
        assert(a@.components.len() == b@.components.len());
        assert forall|i: int| 0 <= i < a.components@.len() implies (#[trigger] a.components@[i])@
            == b.components@[i]@ by {
            assert(a@.components[i] == b@.components[i]);
        }
    }
    if same_path(a, b) {
        assert forall|i: int| 0 <= i < a@.components.len() implies a@.components[i]
            == b@.components[i] by {
            assert(a.components@[i]@ == b.components@[i]@);
        }
        assert(a@.components =~= b@.components);
    }
}

proof fn lemma_first_found(found: Seq<FoundPathModel>)
    requires
        found.len() <= usize::MAX,
    ensures
        forall|i: usize| #[trigger]
            distinct_file_positions(found).contains(i) <==> i < found.len()
                && found[i as int].is_file && forall|j: int|
                0 <= j < i && (#[trigger] found[j]).is_file ==> found[j].components
                    != found[i as int].components,
    decreases found.len(),
{
    let kept = distinct_file_positions(found);
    if found.len() > 0 {
        let less = found.drop_last();
        let last = found.len() - 1;
        let before = distinct_file_positions(less);
        lemma_first_found(less);
        files_are_distinct(less);
        assert(forall|j: int| 0 <= j < last ==> #[trigger] less[j] == found[j]);
        assert forall|i: usize| #[trigger] kept.contains(i) <==> i < found.len()
            && found[i as int].is_file && forall|j: int|
            0 <= j < i && (#[trigger] found[j]).is_file ==> found[j].components
                != found[i as int].components by {
            if kept.contains(i) {
                let k = choose|k: int| 0 <= k < kept.len() && kept[k] == i;
                if k < before.len() {
                    assert(before[k] == i);
                    assert(before.contains(i));
                    assert forall|j: int| 0 <= j < i && (#[trigger] found[j]).is_file implies
                        found[j].components != found[i as int].components by {
                        assert(less[j].is_file);
                    }
                } else {
                    assert forall|j: int| 0 <= j < i && (#[trigger] found[j]).is_file implies
                        found[j].components != found[i as int].components by {
                        assert(less[j].is_file);
                        assert(among(less, before, less[j]));
                        let m = choose|m: int|
                            0 <= m < before.len() && less[(#[trigger] before[m]) as int].components
                                == less[j].components;
                        assert(found[before[m] as int].components != found.last().components);
                    }
                }
            }
            if i < found.len() && found[i as int].is_file && forall|j: int|
                0 <= j < i && (#[trigger] found[j]).is_file ==> found[j].components
                    != found[i as int].components {
                if i < last {
                    assert forall|j: int| 0 <= j < i && (#[trigger] less[j]).is_file implies
                        less[j].components != less[i as int].components by {
                        assert(found[j].is_file);
                    }
                    assert(before.contains(i));
                    let k = choose|k: int| 0 <= k < before.len() && before[k] == i;
                    assert(kept[k] == i);
                } else {
                    if among(found, before, found.last()) {
                        let m = choose|m: int|
                            0 <= m < before.len() && found[(
                            #[trigger] before[m]) as int].components == found.last().components;
                        assert(less[before[m] as int].is_file);
                        assert(found[before[m] as int].is_file);
                    }
                    assert(kept[before.len() as int] == i);
                }
            }
        }
    }
}

/// The order of reading lists every file once: a file comes before another
/// exactly if it was written later, or at the same time and was listed before.
pub proof fn later_files_come_first(modified: Seq<i128>, order: Seq<usize>, a: int, b: int)
    requires
        newest_first_order(modified, order),
        0 <= a < order.len(),
        0 <= b < order.len(),
        a != b,
    ensures
        order.len() == modified.len(),
        order[a] != order[b],
        0 <= order[a] < modified.len(),
        a < b <==> modified[order[a] as int] > modified[order[b] as int] || (
        modified[order[a] as int] == modified[order[b] as int] && order[a] < order[b]),
{
}

/// The file with the key is looked for two directories up, then one up, then
/// beside the database; the first that exists is taken.
pub proof fn key_file_is_first_existing(exists_at: [bool; 3], r: Option<&'static str>)
    requires
        match first_existing(exists_at@) {
            Some(i) => r is Some && r->0@ == KEY_CANDIDATES@[i]@,
            None => r is None,
        },
    ensures
        exists_at@[0] ==> (r matches Some(p) && p@ == "../../Local State"@),
        !exists_at@[0] && exists_at@[1] ==> (r matches Some(p) && p@ == "../Local State"@),
        !exists_at@[0] && !exists_at@[1] && exists_at@[2] ==> (r matches Some(p) && p@
            == "Local State"@),
        !exists_at@[0] && !exists_at@[1] && !exists_at@[2] ==> r is None,
{
    reveal_with_fuel(first_existing, 4);
    let s = exists_at@;
    assert(s.len() == 3);
    let two = s.drop_last();
    let one = two.drop_last();
    assert(one.drop_last().len() == 0);
    assert(one.last() == s[0]);
    assert(two.last() == s[1]);
    assert(s.last() == s[2]);
}

/// The values that are filled in are those that are given, whole and in order.
pub proof fn given_values_are_whole(values: Seq<Option<String>>, i: int)
    requires
        0 <= i < values.len(),
    ensures
        value_texts(values).len() == values.len(),
        values[i] matches Some(v) ==> value_texts(values)[i] == Some(v@),
        values[i] is None ==> value_texts(values)[i] is None,
{
}

/// The browsers are scanned in this order, each by its key.
pub proof fn browsers_are_in_order()
    ensures
        CHROMIUM_BROWSERS@.len() == 7,
        CHROMIUM_BROWSERS@[0].0@ == "chrome"@,
        CHROMIUM_BROWSERS@[1].0@ == "arc"@,
        CHROMIUM_BROWSERS@[2].0@ == "brave"@,
        CHROMIUM_BROWSERS@[3].0@ == "edge"@,
        CHROMIUM_BROWSERS@[4].0@ == "chromium"@,
        CHROMIUM_BROWSERS@[5].0@ == "vivaldi"@,
        CHROMIUM_BROWSERS@[6].0@ == "opera"@,
{
}

} // verus!
