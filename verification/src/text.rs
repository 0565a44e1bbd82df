//! Text handled as sequences of characters: trimming, splitting, searching,
//! replacing and decimal numerals, each with an exact statement of its result.
use vstd::prelude::*;

verus! {

/// The characters with the Unicode `White_Space` property.
pub open spec fn is_space(c: char) -> bool {
    ||| '\u{9}' <= c && c <= '\u{d}'
    ||| c == ' '
    ||| c == '\u{85}'
    ||| c == '\u{a0}'
    ||| c == '\u{1680}'
    ||| '\u{2000}' <= c && c <= '\u{200a}'
    ||| c == '\u{2028}'
    ||| c == '\u{2029}'
    ||| c == '\u{202f}'
    ||| c == '\u{205f}'
    ||| c == '\u{3000}'
}

/// Whether `c` is white space.
pub fn is_whitespace(c: char) -> (r: bool)
    ensures
        r == is_space(c),
{
    ('\u{9}' <= c && c <= '\u{d}') || c == ' ' || c == '\u{85}' || c == '\u{a0}' || c == '\u{1680}'
        || ('\u{2000}' <= c && c <= '\u{200a}') || c == '\u{2028}' || c == '\u{2029}'
        || c == '\u{202f}' || c == '\u{205f}' || c == '\u{3000}'
}

/// What a trimming operation takes away at the ends of a text.
#[derive(Clone, Copy)]
pub enum Edge {
    /// White space.
    Space,
    /// One given character.
    Mark(char),
}

impl Edge {
    /// Whether this edge takes `c` away.
    pub open spec fn covers(self, c: char) -> bool {
        match self {
            Edge::Space => is_space(c),
            Edge::Mark(m) => c == m,
        }
    }

    fn takes(self, c: char) -> (r: bool)
        ensures
            r == self.covers(c),
    {
        match self {
            Edge::Space => is_whitespace(c),
            Edge::Mark(m) => c == m,
        }
    }
}

/// `s` without the leading characters that `edge` covers.
pub open spec fn trim_start(s: Seq<char>, edge: Edge) -> Seq<char>
    decreases s.len(),
{
    if s.len() > 0 && edge.covers(s[0]) {
        trim_start(s.drop_first(), edge)
    } else {
        s
    }
}

/// `s` without the trailing characters that `edge` covers.
pub open spec fn trim_end(s: Seq<char>, edge: Edge) -> Seq<char>
    decreases s.len(),
{
    if s.len() > 0 && edge.covers(s.last()) {
        trim_end(s.drop_last(), edge)
    } else {
        s
    }
}

/// `s` without the characters that `edge` covers at either end.
pub open spec fn trim_edges(s: Seq<char>, edge: Edge) -> Seq<char> {
    trim_end(trim_start(s, edge), edge)
}

/// `s` without white space at either end.
pub open spec fn trimmed(s: Seq<char>) -> Seq<char> {
    trim_edges(s, Edge::Space)
}

/// The characters of a string, in order.
pub fn chars_of(s: &str) -> (r: Vec<char>)
    ensures
        r@ == s@,
{
    let mut out: Vec<char> = Vec::new();
    for c in it: s.chars()
        invariant
            it.seq() == s@,
            out@ == s@.take(it.index() as int),
    {
        out.push(c);
        assert(s@.take(it.index() as int).push(c) =~= s@.take(it.index() as int + 1));
    }
    assert(s@.take(s@.len() as int) =~= s@);
    out
}

/// `String::push`: the given character goes to the end of the string.
pub assume_specification[ String::push ](s: &mut String, c: char)
    ensures
        final(s)@ == old(s)@.push(c),
;

/// The string that holds the given characters, in order.
pub fn string_of(chars: &[char]) -> (r: String)
    ensures
        r@ == chars@,
{
    let mut out = String::new();
    let n: usize = chars.len();
    for i in 0..n
        invariant
            n == chars@.len(),
            out@ == chars@.take(i as int),
    {
        out.push(chars[i]);
        assert(chars@.take(i as int).push(chars@[i as int]) =~= chars@.take(i + 1));
    }
    assert(chars@.take(n as int) =~= chars@);
    out
}

/// The range of `s` that is left when `edge` has been trimmed at both ends.
pub fn trim_bounds(s: &[char], edge: Edge) -> (r: (usize, usize))
    ensures
        r.0 <= r.1 <= s@.len(),
        s@.subrange(r.0 as int, r.1 as int) == trim_edges(s@, edge),
{
    let n: usize = s.len();
    let mut a: usize = 0;
    assert(s@.subrange(0, n as int) =~= s@);
    while a < n && edge.takes(s[a])
        invariant
            n == s@.len(),
            a <= n,
            trim_start(s@.subrange(a as int, n as int), edge) == trim_start(s@, edge),
        decreases n - a,
    {
        assert(s@.subrange(a as int, n as int).drop_first() =~= s@.subrange(a + 1, n as int));
        a = a + 1;
    }
    let mut b: usize = n;
    while b > a && edge.takes(s[b - 1])
        invariant
            n == s@.len(),
            a <= b <= n,
            trim_end(s@.subrange(a as int, b as int), edge) == trim_edges(s@, edge),
        decreases b,
    {
        assert(s@.subrange(a as int, b as int).drop_last() =~= s@.subrange(a as int, b - 1));
        b = b - 1;
    }
    (a, b)
}

/// The part of `s` that is left without white space at either end.
pub fn trim(s: &str) -> (r: &str)
    ensures
        r@ == trimmed(s@),
{
    let chars = chars_of(s);
    let (a, b) = trim_bounds(chars.as_slice(), Edge::Space);
    s.substring_char(a, b)
}

/// Whether `pat` stands in `s` at position `i`.
pub open spec fn occurs_at(s: Seq<char>, pat: Seq<char>, i: int) -> bool {
    0 <= i && i + pat.len() <= s.len() && s.subrange(i, i + pat.len()) == pat
}

/// Whether `pat` stands somewhere in `s`.
pub open spec fn has_text(s: Seq<char>, pat: Seq<char>) -> bool {
    exists|i: int| occurs_at(s, pat, i)
}

/// Whether `s` ends with `pat`.
pub open spec fn has_suffix(s: Seq<char>, pat: Seq<char>) -> bool {
    occurs_at(s, pat, s.len() - pat.len())
}

/// The position of the first `c` in `s`, or the length of `s` if there is none.
pub open spec fn first_position(s: Seq<char>, c: char) -> int
    decreases s.len(),
{
    if s.len() == 0 || s[0] == c {
        0
    } else {
        1 + first_position(s.drop_first(), c)
    }
}

/// The pieces of `s` between the separators `sep`; there is one more piece
/// than there are separators.
pub open spec fn pieces(s: Seq<char>, sep: char) -> Seq<Seq<char>>
    decreases s.len(),
{
    if s.len() == 0 {
        seq![Seq::<char>::empty()]
    } else {
        let before = pieces(s.drop_last(), sep);
        if s.last() == sep {
            before.push(Seq::<char>::empty())
        } else {
            before.drop_last().push(before.last().push(s.last()))
        }
    }
}

/// `s` with every occurrence of `pat` replaced by `to`: occurrences are taken
/// from the left and do not overlap.
pub open spec fn replaced(s: Seq<char>, pat: Seq<char>, to: Seq<char>) -> Seq<char>
    decreases s.len(),
{
    if pat.len() == 0 || s.len() < pat.len() {
        s
    } else if s.take(pat.len() as int) == pat {
        to + replaced(s.skip(pat.len() as int), pat, to)
    } else {
        seq![s[0]] + replaced(s.drop_first(), pat, to)
    }
}

/// The given texts one after the other, with `sep` between neighbours.
pub open spec fn joined(parts: Seq<Seq<char>>, sep: Seq<char>) -> Seq<char>
    decreases parts.len(),
{
    if parts.len() == 0 {
        Seq::<char>::empty()
    } else if parts.len() == 1 {
        parts[0]
    } else {
        joined(parts.drop_last(), sep) + sep + parts.last()
    }
}

/// The texts of a sequence of strings.
pub open spec fn texts(parts: Seq<String>) -> Seq<Seq<char>> {
    parts.map_values(|p: String| p@)
}

/// The decimal digit that stands for `d`.
pub open spec fn digit(d: int) -> char {
    (48 + d) as char
}

/// The decimal numeral of `n`.
pub open spec fn decimal(n: nat) -> Seq<char>
    decreases n,
{
    if n < 10 {
        seq![digit(n as int)]
    } else {
        decimal(n / 10).push(digit((n % 10) as int))
    }
}

/// Whether the two texts are the same.
pub fn same_chars(a: &[char], b: &[char]) -> (r: bool)
    ensures
        r == (a@ == b@),
{
    let n: usize = a.len();
    if n != b.len() {
        return false;
    }
    for i in 0..n
        invariant
            n == a@.len(),
            n == b@.len(),
            forall|j: int| 0 <= j < i ==> a@[j] == b@[j],
    {
        if a[i] != b[i] {
            return false;
        }
    }
    assert(a@ =~= b@);
    true
}

/// Whether the two strings hold the same text.
pub fn same(a: &str, b: &str) -> (r: bool)
    ensures
        r == (a@ == b@),
{
    same_chars(chars_of(a).as_slice(), chars_of(b).as_slice())
}

/// Whether `pat` stands in `s` at position `i`.
pub fn matches_at(s: &[char], pat: &[char], i: usize) -> (r: bool)
    ensures
        r == occurs_at(s@, pat@, i as int),
{
    let n: usize = s.len();
    let m: usize = pat.len();
    if i > n || m > n - i {
        return false;
    }
    for j in 0..m
        invariant
            n == s@.len(),
            m == pat@.len(),
            i + m <= n,
            forall|k: int| 0 <= k < j ==> s@[i + k] == pat@[k],
    {
        if s[i + j] != pat[j] {
            assert(s@.subrange(i as int, i + m)[j as int] == s@[i + j]);
            return false;
        }
    }
    assert(s@.subrange(i as int, i + m) =~= pat@);
    true
}

/// Whether `pat` stands somewhere in `s`.
pub fn contains_text(s: &str, pat: &str) -> (r: bool)
    ensures
        r == has_text(s@, pat@),
{
    let text = chars_of(s);
    let wanted = chars_of(pat);
    let n: usize = text.len();
    for i in 0..n
        invariant
            text@ == s@,
            wanted@ == pat@,
            n == s@.len(),
            forall|j: int| 0 <= j < i ==> !occurs_at(s@, pat@, j),
    {
        if matches_at(text.as_slice(), wanted.as_slice(), i) {
            return true;
        }
    }
    matches_at(text.as_slice(), wanted.as_slice(), n)
}

/// Whether the character `c` stands somewhere in `s`.
pub fn contains_char(s: &str, c: char) -> (r: bool)
    ensures
        r == s@.contains(c),
{
    for d in it: s.chars()
        invariant
            it.seq() == s@,
            forall|j: int| 0 <= j < it.index() ==> s@[j] != c,
    {
        if d == c {
            assert(s@[it.index() as int] == c);
            return true;
        }
    }
    false
}

/// Whether `s` ends with `pat`.
pub fn ends_with(s: &str, pat: &str) -> (r: bool)
    ensures
        r == has_suffix(s@, pat@),
{
    let text = chars_of(s);
    let wanted = chars_of(pat);
    if wanted.len() > text.len() {
        return false;
    }
    matches_at(text.as_slice(), wanted.as_slice(), text.len() - wanted.len())
}

/// `first_position` is the one position that no earlier `c` precedes and that
/// is either the end of the text or holds `c`.
pub proof fn lemma_first_position(s: Seq<char>, c: char, i: int)
    requires
        0 <= i <= s.len(),
        forall|j: int| 0 <= j < i ==> s[j] != c,
        i == s.len() || s[i] == c,
    ensures
        first_position(s, c) == i,
    decreases s.len(),
{
    if i > 0 {
        lemma_first_position(s.drop_first(), c, i - 1);
    }
}

/// The position of the first `c` in `s`, or the length of `s`.
pub fn position(s: &[char], c: char) -> (r: usize)
    ensures
        r == first_position(s@, c),
        r <= s@.len(),
        r < s@.len() <==> s@.contains(c),
{
    let n: usize = s.len();
    for i in 0..n
        invariant
            n == s@.len(),
            forall|j: int| 0 <= j < i ==> s@[j] != c,
    {
        if s[i] == c {
            proof {
                lemma_first_position(s@, c, i as int);
            }
            return i;
        }
    }
    proof {
        lemma_first_position(s@, c, n as int);
    }
    n
}

/// There is always at least one piece.
pub proof fn lemma_pieces_nonempty(s: Seq<char>, sep: char)
    ensures
        pieces(s, sep).len() > 0,
    decreases s.len(),
{
    if s.len() > 0 {
        lemma_pieces_nonempty(s.drop_last(), sep);
    }
}

/// The texts of a sequence of character vectors.
pub open spec fn char_texts(parts: Seq<Vec<char>>) -> Seq<Seq<char>> {
    parts.map_values(|p: Vec<char>| p@)
}

/// The pieces of `s` between the separators `sep`.
pub fn split(s: &[char], sep: char) -> (r: Vec<Vec<char>>)
    ensures
        char_texts(r@) == pieces(s@, sep),
{
    let n: usize = s.len();
    let mut done: Vec<Vec<char>> = Vec::new();
    let mut current: Vec<char> = Vec::new();
    assert(s@.take(0) =~= Seq::<char>::empty());
    assert(char_texts(done@).push(current@) =~= pieces(s@.take(0), sep));
    for i in 0..n
        invariant
            n == s@.len(),
            char_texts(done@).push(current@) == pieces(s@.take(i as int), sep),
    {
        let c = s[i];
        let ghost before = char_texts(done@).push(current@);
        assert(s@.take(i + 1).drop_last() =~= s@.take(i as int));
        assert(s@.take(i + 1).last() == c);
        if c == sep {
            let ghost was = done@;
            let ghost piece = current;
            done.push(current);
            current = Vec::new();
            assert(char_texts(was.push(piece)) =~= char_texts(was).push(piece@));
            assert(char_texts(done@).push(current@) =~= before.push(Seq::<char>::empty()));
        } else {
            let ghost was = current@;
            current.push(c);
            assert(before.drop_last() =~= char_texts(done@));
            assert(before.last() == was);
            assert(char_texts(done@).push(current@) =~= before.drop_last().push(was.push(c)));
        }
    }
    assert(s@.take(n as int) =~= s@);
    let ghost was = done@;
    let ghost piece = current;
    done.push(current);
    assert(char_texts(was.push(piece)) =~= char_texts(was).push(piece@));
    done
}

/// `s` with every occurrence of the non-empty text `pat` replaced by `to`.
pub fn replace(s: &str, pat: &str, to: &str) -> (r: String)
    requires
        pat@.len() > 0,
    ensures
        r@ == replaced(s@, pat@, to@),
{
    let text = chars_of(s);
    let wanted = chars_of(pat);
    let n: usize = text.len();
    let m: usize = wanted.len();
    let mut out = String::new();
    let mut i: usize = 0;
    assert(s@.skip(0) =~= s@);
    assert(out@ + replaced(s@.skip(0), pat@, to@) =~= replaced(s@, pat@, to@));
    while i < n && m <= n - i
        invariant
            text@ == s@,
            wanted@ == pat@,
            n == s@.len(),
            m == pat@.len(),
            m > 0,
            i <= n,
            out@ + replaced(s@.skip(i as int), pat@, to@) == replaced(s@, pat@, to@),
        decreases n - i,
    {
        let ghost rest = s@.skip(i as int);
        let ghost was = out@;
        assert(rest.take(m as int) =~= s@.subrange(i as int, i + m));
        if matches_at(text.as_slice(), wanted.as_slice(), i) {
            out.append(to);
            assert(rest.skip(m as int) =~= s@.skip(i + m));
            assert(was + (to@ + replaced(s@.skip(i + m), pat@, to@)) =~= out@ + replaced(
                s@.skip(i + m),
                pat@,
                to@,
            ));
            i = i + m;
        } else {
            out.push(text[i]);
            assert(rest.drop_first() =~= s@.skip(i + 1));
            assert(was + (seq![rest[0]] + replaced(s@.skip(i + 1), pat@, to@)) =~= out@ + replaced(
                s@.skip(i + 1),
                pat@,
                to@,
            ));
            i = i + 1;
        }
    }
    let ghost was = out@;
    let tail = s.substring_char(i, n);
    out.append(tail);
    assert(s@.skip(i as int) =~= tail@);
    out
}

/// The given strings one after the other, with `sep` between neighbours.
pub fn join(parts: &Vec<String>, sep: &str) -> (r: String)
    ensures
        r@ == joined(texts(parts@), sep@),
{
    let n: usize = parts.len();
    let mut out = String::new();
    let ghost all = texts(parts@);
    for i in 0..n
        invariant
            n == parts@.len(),
            all == texts(parts@),
            out@ == joined(all.take(i as int), sep@),
    {
        if i > 0 {
            out.append(sep);
        }
        out.append(parts[i].as_str());
        assert(all.take(i + 1).drop_last() =~= all.take(i as int));
        assert(all.take(i + 1).last() == parts@[i as int]@);
        assert(out@ =~= joined(all.take(i + 1), sep@));
    }
    assert(all.take(n as int) =~= all);
    out
}

/// The decimal numeral of `n`.
pub fn to_decimal(n: u128) -> (r: String)
    ensures
        r@ == decimal(n as nat),
    decreases n,
{
    if n < 10 {
        let mut out = String::new();
        out.push(digit_char((n % 10) as u8));
        assert(out@ =~= seq![digit(n as int)]);
        out
    } else {
        let mut out = to_decimal(n / 10);
        out.push(digit_char((n % 10) as u8));
        out
    }
}

fn digit_char(d: u8) -> (r: char)
    requires
        d < 10,
    ensures
        r == digit(d as int),
{
    (48 + d) as char
}

proof fn lemma_trim_start(s: Seq<char>, edge: Edge) -> (k: int)
    ensures
        0 <= k <= s.len(),
        trim_start(s, edge) == s.skip(k),
        k < s.len() ==> !edge.covers(s[k]),
    decreases s.len(),
{
    if s.len() > 0 && edge.covers(s[0]) {
        let k = lemma_trim_start(s.drop_first(), edge);
        assert(s.drop_first().skip(k) =~= s.skip(k + 1));
        k + 1
    } else {
        assert(s.skip(0) =~= s);
        0
    }
}

proof fn lemma_trim_end(s: Seq<char>, edge: Edge) -> (k: int)
    ensures
        0 <= k <= s.len(),
        trim_end(s, edge) == s.take(k),
        k > 0 ==> !edge.covers(s[k - 1]),
    decreases s.len(),
{
    if s.len() > 0 && edge.covers(s.last()) {
        let k = lemma_trim_end(s.drop_last(), edge);
        assert(s.drop_last().take(k) =~= s.take(k));
        k
    } else {
        assert(s.take(s.len() as int) =~= s);
        s.len() as int
    }
}

/// A trimmed text is a part of the text that neither starts nor ends with a
/// character that was to be trimmed.
pub proof fn lemma_trim_shape(s: Seq<char>, edge: Edge) -> (r: (int, int))
    ensures
        0 <= r.0 <= r.1 <= s.len(),
        trim_edges(s, edge) == s.subrange(r.0, r.1),
        trim_edges(s, edge).len() > 0 ==> !edge.covers(trim_edges(s, edge)[0]) && !edge.covers(
            trim_edges(s, edge).last(),
        ),
{
    let a = lemma_trim_start(s, edge);
    let rest = s.skip(a);
    let k = lemma_trim_end(rest, edge);
    assert(rest.take(k) =~= s.subrange(a, a + k));
    (a, a + k)
}

/// A text that neither starts nor ends with a character to be trimmed stays as
/// it is.
pub proof fn lemma_trim_fixed(s: Seq<char>, edge: Edge)
    requires
        s.len() > 0 ==> !edge.covers(s[0]) && !edge.covers(s.last()),
    ensures
        trim_edges(s, edge) == s,
{
}

/// Trimming twice is trimming once.
pub proof fn trimming_twice(s: Seq<char>, edge: Edge)
    ensures
        trim_edges(trim_edges(s, edge), edge) == trim_edges(s, edge),
{
    let r = lemma_trim_shape(s, edge);
    lemma_trim_fixed(trim_edges(s, edge), edge);
}

/// A text without the separator is a single piece.
pub proof fn lemma_single_piece(s: Seq<char>, sep: char)
    requires
        !s.contains(sep),
    ensures
        pieces(s, sep) == seq![s],
    decreases s.len(),
{
    if s.len() > 0 {
        let less = s.drop_last();
        assert(!less.contains(sep)) by {
            if less.contains(sep) {
                let i = choose|i: int| 0 <= i < less.len() && less[i] == sep;
                assert(s[i] == sep);
            }
        }
        assert(s[s.len() - 1] != sep);
        lemma_single_piece(less, sep);
        assert(pieces(s, sep) =~= seq![s]) by {
            assert(less.push(s.last()) =~= s);
        }
    } else {
        assert(s =~= Seq::<char>::empty());
    }
}

/// The pieces of a text, joined by the separator, are the text.
pub proof fn pieces_joined(s: Seq<char>, sep: char)
    ensures
        joined(pieces(s, sep), seq![sep]) == s,
    decreases s.len(),
{
    if s.len() > 0 {
        let less = s.drop_last();
        pieces_joined(less, sep);
        lemma_pieces_nonempty(less, sep);
        let before = pieces(less, sep);
        let after = pieces(s, sep);
        if s.last() == sep {
            assert(after.drop_last() =~= before);
            assert(joined(after, seq![sep]) =~= joined(before, seq![sep]).push(sep));
        } else {
            assert(after.drop_last() =~= before.drop_last());
            assert(joined(after, seq![sep]) =~= joined(before, seq![sep]).push(s.last()));
        }
        assert(less.push(s.last()) =~= s);
    } else {
        assert(pieces(s, sep)[0] =~= s);
    }
}

/// Each part of a joined text stands in it.
pub proof fn joined_holds_parts(parts: Seq<Seq<char>>, sep: Seq<char>, i: int)
    requires
        0 <= i < parts.len(),
    ensures
        has_text(joined(parts, sep), parts[i]),
    decreases parts.len(),
{
    let all = joined(parts, sep);
    if i == parts.len() - 1 {
        let at = all.len() - parts[i].len();
        assert(all.subrange(at, at + parts[i].len()) =~= parts[i]);
        assert(occurs_at(all, parts[i], at));
    } else {
        let less = parts.drop_last();
        joined_holds_parts(less, sep, i);
        lemma_has_text_within(joined(less, sep), Seq::<char>::empty(), sep + parts.last(), parts[i]);
        assert(Seq::<char>::empty() + joined(less, sep) + (sep + parts.last()) =~= all);
    }
}

/// What stands in a text stands in every text around it.
pub proof fn lemma_has_text_within(s: Seq<char>, before: Seq<char>, after: Seq<char>, pat: Seq<char>)
    requires
        has_text(s, pat),
    ensures
        has_text(before + s + after, pat),
{
    let i = choose|i: int| occurs_at(s, pat, i);
    let all = before + s + after;
    let at = before.len() + i;
    assert(all.subrange(at, at + pat.len()) =~= s.subrange(i, i + pat.len()));
    assert(occurs_at(all, pat, at));
}

proof fn lemma_replaced_nothing(s: Seq<char>, pat: Seq<char>, to: Seq<char>)
    requires
        pat.len() > 0,
        !s.contains(pat.last()),
    ensures
        replaced(s, pat, to) == s,
    decreases s.len(),
{
    if s.len() >= pat.len() {
        let m = pat.len() as int;
        if s.take(m) == pat {
            assert(s[m - 1] == s.take(m)[m - 1]);
            assert(false);
        }
        let rest = s.drop_first();
        assert(!rest.contains(pat.last())) by {
            if rest.contains(pat.last()) {
                let i = choose|i: int| 0 <= i < rest.len() && rest[i] == pat.last();
                assert(s[i + 1] == pat.last());
            }
        }
        lemma_replaced_nothing(rest, pat, to);
        assert(seq![s[0]] + rest =~= s);
    }
}

/// Replacing leaves the end of a text alone where the last character of what is
/// replaced does not stand in it.
pub proof fn replacing_keeps_suffix(s: Seq<char>, pat: Seq<char>, to: Seq<char>, suffix: Seq<char>)
    requires
        pat.len() > 0,
        has_suffix(s, suffix),
        !suffix.contains(pat.last()),
    ensures
        has_suffix(replaced(s, pat, to), suffix),
    decreases s.len(),
{
    let m = pat.len() as int;
    let k = suffix.len() as int;
    let tail = s.subrange(s.len() - k, s.len() as int);
    assert(tail == suffix);
    if s.len() == k {
        assert(tail =~= s);
        lemma_replaced_nothing(s, pat, to);
    } else if s.len() >= m {
        if s.take(m) == pat {
            if m > s.len() - k {
                let at = m - 1 - (s.len() - k);
                assert(s.take(m)[m - 1] == s[m - 1]);
                assert(tail[at] == s[m - 1]);
                assert(suffix.contains(pat.last()));
            }
            let rest = s.skip(m);
            assert(rest.subrange(rest.len() - k, rest.len() as int) =~= tail);
            replacing_keeps_suffix(rest, pat, to, suffix);
            lemma_suffix_behind(to, replaced(rest, pat, to), suffix);
        } else {
            let rest = s.drop_first();
            assert(rest.subrange(rest.len() - k, rest.len() as int) =~= tail);
            replacing_keeps_suffix(rest, pat, to, suffix);
            lemma_suffix_behind(seq![s[0]], replaced(rest, pat, to), suffix);
        }
    }
}

proof fn lemma_suffix_behind(before: Seq<char>, s: Seq<char>, suffix: Seq<char>)
    requires
        has_suffix(s, suffix),
    ensures
        has_suffix(before + s, suffix),
{
    let all = before + s;
    let k = suffix.len() as int;
    assert(all.subrange(all.len() - k, all.len() as int) =~= s.subrange(
        s.len() - k,
        s.len() as int,
    ));
}

/// Replacing what does not stand in a text changes nothing.
pub proof fn replacing_absent_text(s: Seq<char>, pat: Seq<char>, to: Seq<char>)
    requires
        !has_text(s, pat),
    ensures
        replaced(s, pat, to) == s,
    decreases s.len(),
{
    let m = pat.len() as int;
    if m > 0 && s.len() >= m {
        assert(!occurs_at(s, pat, 0));
        assert(s.subrange(0, m) =~= s.take(m));
        let rest = s.drop_first();
        assert(!has_text(rest, pat)) by {
            if has_text(rest, pat) {
                let i = choose|i: int| occurs_at(rest, pat, i);
                assert(s.subrange(i + 1, i + 1 + m) =~= rest.subrange(i, i + m));
                assert(occurs_at(s, pat, i + 1));
            }
        }
        replacing_absent_text(rest, pat, to);
        assert(seq![s[0]] + rest =~= s);
    }
}

/// Trimming leaves a part of the text.
pub proof fn trimming_leaves_part(s: Seq<char>, edge: Edge)
    ensures
        has_text(s, trim_edges(s, edge)),
{
    let r = lemma_trim_shape(s, edge);
    assert(occurs_at(s, trim_edges(s, edge), r.0));
}

/// A part of a part of a text is a part of it.
pub proof fn part_of_part(s: Seq<char>, part: Seq<char>, inner: Seq<char>)
    requires
        has_text(s, part),
        has_text(part, inner),
    ensures
        has_text(s, inner),
{
    let i = choose|i: int| occurs_at(s, part, i);
    let j = choose|j: int| occurs_at(part, inner, j);
    assert(s.subrange(i + j, i + j + inner.len()) =~= part.subrange(j, j + inner.len()));
    assert(occurs_at(s, inner, i + j));
}

proof fn lemma_trim_start_absorbs(a: Seq<char>, x: Seq<char>, edge: Edge)
    requires
        forall|i: int| 0 <= i < a.len() ==> edge.covers(#[trigger] a[i]),
    ensures
        trim_start(a + x, edge) == trim_start(x, edge),
    decreases a.len(),
{
    if a.len() > 0 {
        let rest = a.drop_first();
        assert forall|i: int| 0 <= i < rest.len() implies edge.covers(#[trigger] rest[i]) by {
            assert(rest[i] == a[i + 1]);
        }
        lemma_trim_start_absorbs(rest, x, edge);
        assert((a + x).drop_first() =~= rest + x);
        assert((a + x)[0] == a[0]);
    } else {
        assert(a + x =~= x);
    }
}

proof fn lemma_trim_end_absorbs(x: Seq<char>, b: Seq<char>, edge: Edge)
    requires
        forall|i: int| 0 <= i < b.len() ==> edge.covers(#[trigger] b[i]),
    ensures
        trim_end(x + b, edge) == trim_end(x, edge),
    decreases b.len(),
{
    if b.len() > 0 {
        let rest = b.drop_last();
        assert forall|i: int| 0 <= i < rest.len() implies edge.covers(#[trigger] rest[i]) by {
            assert(rest[i] == b[i]);
        }
        lemma_trim_end_absorbs(x, rest, edge);
        assert((x + b).drop_last() =~= x + rest);
        assert((x + b).last() == b[b.len() - 1]);
    } else {
        assert(x + b =~= x);
    }
}

/// Of a text in three parts, the outer ones all white space and the middle one
/// with none at its ends, trimming leaves the middle; likewise for a mark.
pub proof fn trimming_keeps_middle(a: Seq<char>, m: Seq<char>, b: Seq<char>, edge: Edge)
    requires
        match edge {
            Edge::Space => {
                &&& forall|i: int| 0 <= i < a.len() ==> is_space(#[trigger] a[i])
                &&& forall|i: int| 0 <= i < b.len() ==> is_space(#[trigger] b[i])
                &&& m.len() > 0 ==> !is_space(m[0]) && !is_space(m.last())
            },
            Edge::Mark(c) => {
                &&& forall|i: int| 0 <= i < a.len() ==> #[trigger] a[i] == c
                &&& forall|i: int| 0 <= i < b.len() ==> #[trigger] b[i] == c
                &&& m.len() > 0 ==> m[0] != c && m.last() != c
            },
        },
    ensures
        trim_edges(a + m + b, edge) == m,
        edge is Space ==> trimmed(a + m + b) == m,
{
    assert forall|i: int| 0 <= i < a.len() implies edge.covers(#[trigger] a[i]) by {}
    assert forall|i: int| 0 <= i < b.len() implies edge.covers(#[trigger] b[i]) by {}
    assert(a + m + b =~= a + (m + b));
    lemma_trim_start_absorbs(a, m + b, edge);
    if m.len() > 0 {
        assert((m + b)[0] == m[0]);
        lemma_trim_end_absorbs(m, b, edge);
    } else {
        let none = Seq::<char>::empty();
        assert(m + b =~= b + none);
        lemma_trim_start_absorbs(b, none, edge);
        assert(m =~= none);
    }
}

/// Every text is in three parts of which trimming leaves the middle one: where
/// it starts and where it ends.
pub proof fn trimming_is_exact(s: Seq<char>, edge: Edge) -> (r: (int, int))
    ensures
        0 <= r.0 <= r.1 <= s.len(),
        trim_edges(s, edge) == s.subrange(r.0, r.1),
        match edge {
            Edge::Space => {
                &&& forall|i: int| 0 <= i < r.0 ==> is_space(#[trigger] s[i])
                &&& forall|i: int| r.1 <= i < s.len() ==> is_space(#[trigger] s[i])
                &&& r.0 < r.1 ==> !is_space(s[r.0]) && !is_space(s[r.1 - 1])
            },
            Edge::Mark(c) => {
                &&& forall|i: int| 0 <= i < r.0 ==> #[trigger] s[i] == c
                &&& forall|i: int| r.1 <= i < s.len() ==> #[trigger] s[i] == c
                &&& r.0 < r.1 ==> s[r.0] != c && s[r.1 - 1] != c
            },
        },
    decreases s.len(),
{
    if s.len() > 0 && edge.covers(s[0]) {
        let rest = s.drop_first();
        let r = trimming_is_exact(rest, edge);
        assert(s =~= seq![s[0]] + rest);
        lemma_trim_start_absorbs(seq![s[0]], rest, edge);
        assert(rest.subrange(r.0, r.1) =~= s.subrange(r.0 + 1, r.1 + 1));
        assert forall|i: int| 0 <= i < r.0 + 1 || r.1 + 1 <= i < s.len() implies edge.covers(
            #[trigger] s[i],
        ) by {
            if i > 0 {
                assert(rest[i - 1] == s[i]);
            }
        }
        (r.0 + 1, r.1 + 1)
    } else if s.len() > 0 && edge.covers(s.last()) {
        let rest = s.drop_last();
        let r = trimming_is_exact(rest, edge);
        assert(s =~= rest + seq![s.last()]);
        lemma_trim_end_absorbs(rest, seq![s.last()], edge);
        assert(trim_start(s, edge) == s);
        assert(rest.len() > 0 ==> rest[0] == s[0]);
        assert(trim_start(rest, edge) == rest);
        assert(rest.subrange(r.0, r.1) =~= s.subrange(r.0, r.1));
        assert forall|i: int| 0 <= i < r.0 || r.1 <= i < s.len() implies edge.covers(
            #[trigger] s[i],
        ) by {
            if i < rest.len() {
                assert(rest[i] == s[i]);
            }
        }
        r
    } else {
        assert(s.subrange(0, s.len() as int) =~= s);
        (0, s.len() as int)
    }
}

/// White space around a text makes no difference to trimming it.
pub proof fn trimming_ignores_space(a: Seq<char>, s: Seq<char>, b: Seq<char>)
    requires
        forall|i: int| 0 <= i < a.len() ==> is_space(#[trigger] a[i]),
        forall|i: int| 0 <= i < b.len() ==> is_space(#[trigger] b[i]),
    ensures
        trimmed(a + s + b) == trimmed(s),
{
    let r = trimming_is_exact(s, Edge::Space);
    let before = a + s.take(r.0);
    let after = s.skip(r.1) + b;
    let middle = s.subrange(r.0, r.1);
    assert(a + s + b =~= before + middle + after);
    assert forall|i: int| 0 <= i < before.len() implies is_space(#[trigger] before[i]) by {
        if i >= a.len() {
            assert(before[i] == s[i - a.len()]);
        }
    }
    assert forall|i: int| 0 <= i < after.len() implies is_space(#[trigger] after[i]) by {
        if i < s.len() - r.1 {
            assert(after[i] == s[i + r.1]);
        }
    }
    trimming_keeps_middle(before, middle, after, Edge::Space);
}

/// A text holds another exactly where it is that one with something before and
/// something behind it.
pub proof fn holding_is_splitting(s: Seq<char>, pat: Seq<char>)
    ensures
        has_text(s, pat) <==> exists|a: Seq<char>, b: Seq<char>| s == #[trigger] (a + pat + b),
        has_suffix(s, pat) <==> exists|a: Seq<char>| s == #[trigger] (a + pat),
{
    let k = pat.len() as int;
    if has_text(s, pat) {
        let i = choose|i: int| occurs_at(s, pat, i);
        let a = s.take(i);
        let b = s.skip(i + k);
        assert(s =~= a + pat + b) by {
            assert(s.subrange(i, i + k) == pat);
            assert(s =~= s.take(i) + s.subrange(i, i + k) + s.skip(i + k));
        }
    }
    if exists|a: Seq<char>, b: Seq<char>| s == #[trigger] (a + pat + b) {
        let (a, b) = choose|a: Seq<char>, b: Seq<char>| s == #[trigger] (a + pat + b);
        assert(s.subrange(a.len() as int, a.len() + k) =~= pat);
        assert(occurs_at(s, pat, a.len() as int));
    }
    if has_suffix(s, pat) {
        let a = s.take(s.len() - k);
        assert(s =~= a + s.subrange(s.len() - k, s.len() as int));
        assert(s == a + pat);
    }
    if exists|a: Seq<char>| s == #[trigger] (a + pat) {
        let a = choose|a: Seq<char>| s == #[trigger] (a + pat);
        assert(s.subrange(s.len() - k, s.len() as int) =~= pat);
    }
}

/// The first position of a character: it stands there and not before; or, where
/// it does not stand in the text, the end.
pub proof fn first_position_is_first(s: Seq<char>, c: char)
    ensures
        0 <= first_position(s, c) <= s.len(),
        forall|j: int| 0 <= j < first_position(s, c) ==> #[trigger] s[j] != c,
        first_position(s, c) < s.len() ==> s[first_position(s, c)] == c,
        s.contains(c) <==> first_position(s, c) < s.len(),
    decreases s.len(),
{
    if s.len() > 0 && s[0] != c {
        let rest = s.drop_first();
        first_position_is_first(rest, c);
        assert forall|j: int| 0 <= j < first_position(s, c) implies #[trigger] s[j] != c by {
            if j > 0 {
                assert(rest[j - 1] == s[j]);
            }
        }
        if s.contains(c) {
            let i = choose|i: int| 0 <= i < s.len() && s[i] == c;
            assert(rest[i - 1] == c);
        }
    }
    if first_position(s, c) < s.len() {
        assert(s.contains(c));
    }
}

proof fn lemma_pieces_behind(a: Seq<char>, x: Seq<char>, sep: char)
    requires
        !x.contains(sep),
    ensures
        pieces(a.push(sep) + x, sep) == pieces(a, sep).push(x),
    decreases x.len(),
{
    let s = a.push(sep) + x;
    if x.len() > 0 {
        let less = x.drop_last();
        assert(!less.contains(sep)) by {
            if less.contains(sep) {
                let i = choose|i: int| 0 <= i < less.len() && less[i] == sep;
                assert(x[i] == sep);
            }
        }
        lemma_pieces_behind(a, less, sep);
        assert(s.drop_last() =~= a.push(sep) + less);
        assert(s.last() == x[x.len() - 1]);
        assert(x.contains(x[x.len() - 1]));
        let before = pieces(a, sep).push(less);
        assert(before.drop_last() =~= pieces(a, sep));
        assert(less.push(x.last()) =~= x);
    } else {
        assert(s =~= a.push(sep));
        assert(s.drop_last() =~= a);
        assert(x =~= Seq::<char>::empty());
    }
}

/// Splitting gives back the texts that were joined with the separator, where
/// none of them holds it.
pub proof fn splitting_undoes_joining(parts: Seq<Seq<char>>, sep: char)
    requires
        parts.len() > 0,
        forall|i: int| 0 <= i < parts.len() ==> !(#[trigger] parts[i]).contains(sep),
    ensures
        pieces(joined(parts, seq![sep]), sep) == parts,
    decreases parts.len(),
{
    if parts.len() == 1 {
        lemma_single_piece(parts[0], sep);
        assert(parts =~= seq![parts[0]]);
    } else {
        let less = parts.drop_last();
        assert forall|i: int| 0 <= i < less.len() implies !(#[trigger] less[i]).contains(
            sep,
        ) by {
            assert(less[i] == parts[i]);
        }
        splitting_undoes_joining(less, sep);
        let a = joined(less, seq![sep]);
        assert(!parts[parts.len() - 1].contains(sep));
        assert(a + seq![sep] + parts.last() =~= a.push(sep) + parts.last());
        lemma_pieces_behind(a, parts.last(), sep);
        assert(less.push(parts.last()) =~= parts);
    }
}

/// No piece of a text holds the separator.
pub proof fn pieces_hold_no_separator(s: Seq<char>, sep: char)
    ensures
        pieces(s, sep).len() > 0,
        forall|i: int| 0 <= i < pieces(s, sep).len() ==> !(#[trigger] pieces(s, sep)[i]).contains(
            sep,
        ),
    decreases s.len(),
{
    lemma_pieces_nonempty(s, sep);
    if s.len() > 0 {
        let less = s.drop_last();
        pieces_hold_no_separator(less, sep);
        lemma_pieces_nonempty(less, sep);
        let before = pieces(less, sep);
        let after = pieces(s, sep);
        assert forall|i: int| 0 <= i < after.len() implies !(#[trigger] after[i]).contains(
            sep,
        ) by {
            if i < before.len() - 1 {
                assert(after[i] == before[i]);
            } else if s.last() != sep {
                assert(!before[before.len() - 1].contains(sep));
                let grown = before.last().push(s.last());
                assert(after[i] == grown);
                if grown.contains(sep) {
                    let j = choose|j: int| 0 <= j < grown.len() && grown[j] == sep;
                    assert(before.last()[j] == sep);
                }
            } else if i == before.len() - 1 {
                assert(after[i] == before[i]);
            }
        }
    } else {
        assert(pieces(s, sep)[0] =~= Seq::<char>::empty());
    }
}

/// Joining two lists is joining each and the two results; a single text is
/// joined to itself.
pub proof fn joining_in_two(a: Seq<Seq<char>>, b: Seq<Seq<char>>, sep: Seq<char>)
    requires
        a.len() > 0,
        b.len() > 0,
    ensures
        joined(a + b, sep) == joined(a, sep) + sep + joined(b, sep),
        a.len() == 1 ==> joined(a, sep) == a[0],
        joined(Seq::<Seq<char>>::empty(), sep) == Seq::<char>::empty(),
    decreases b.len(),
{
    let all = a + b;
    if b.len() == 1 {
        assert(all.drop_last() =~= a);
        assert(all.last() == b[0]);
    } else {
        let less = b.drop_last();
        joining_in_two(a, less, sep);
        assert(all.drop_last() =~= a + less);
        assert(all.last() == b.last());
        assert(joined(a, sep) + sep + joined(b, sep) =~= joined(a, sep) + sep + joined(less, sep)
            + sep + b.last());
    }
}

/// Replacing starts at the first place where the text to replace stands: what is
/// before it stays, and it goes on behind it.
pub proof fn replacing_goes_from_the_left(
    s: Seq<char>,
    pat: Seq<char>,
    to: Seq<char>,
    i: int,
)
    requires
        pat.len() > 0,
        occurs_at(s, pat, i),
        forall|j: int| 0 <= j < i ==> !occurs_at(s, pat, j),
    ensures
        replaced(s, pat, to) == s.take(i) + to + replaced(s.skip(i + pat.len()), pat, to),
    decreases s.len(),
{
    let m = pat.len() as int;
    let tail = s.skip(i + m);
    if i == 0 {
        assert(s.subrange(0, m) =~= s.take(m));
        assert(s.take(0) + to =~= to);
    } else {
        assert(!occurs_at(s, pat, 0));
        assert(s.subrange(0, m) =~= s.take(m));
        let rest = s.drop_first();
        assert(rest.subrange(i - 1, i - 1 + m) =~= s.subrange(i, i + m));
        assert forall|j: int| 0 <= j < i - 1 implies !occurs_at(rest, pat, j) by {
            assert(!occurs_at(s, pat, j + 1));
            assert(rest.subrange(j, j + m) =~= s.subrange(j + 1, j + 1 + m));
        }
        replacing_goes_from_the_left(rest, pat, to, i - 1);
        assert(rest.skip(i - 1 + m) =~= tail);
        assert(seq![s[0]] + (rest.take(i - 1) + to + replaced(tail, pat, to)) =~= s.take(i) + to
            + replaced(tail, pat, to));
    }
}

/// The number that a numeral stands for, digit by digit.
pub open spec fn numeral_value(s: Seq<char>) -> int
    decreases s.len(),
{
    if s.len() == 0 {
        0
    } else {
        numeral_value(s.drop_last()) * 10 + (s.last() as int - '0' as int)
    }
}

/// Whether a text is a numeral: digits, of which the first is no zero unless it
/// is the only one.
pub open spec fn is_numeral(s: Seq<char>) -> bool {
    &&& s.len() > 0
    &&& forall|i: int| 0 <= i < s.len() ==> '0' <= #[trigger] s[i] <= '9'
    &&& s.len() > 1 ==> s[0] != '0'
}

/// A numeral is made of digits, does not start with a zero but for the number
/// zero, and stands for its number.
pub proof fn numerals_read_back(n: nat)
    ensures
        decimal(n).len() > 0,
        forall|i: int| 0 <= i < decimal(n).len() ==> '0' <= #[trigger] decimal(n)[i] <= '9',
        n > 0 ==> decimal(n)[0] != '0',
        n == 0 ==> decimal(n) == seq!['0'],
        is_numeral(decimal(n)),
        numeral_value(decimal(n)) == n,
    decreases n,
{
    let d = decimal(n);
    if n < 10 {
        assert(d.drop_last() =~= Seq::<char>::empty());
        assert(numeral_value(d.drop_last()) == 0);
    } else {
        numerals_read_back(n / 10);
        let before = decimal(n / 10);
        assert(d.drop_last() =~= before);
        assert(d[0] == before[0]);
        assert forall|i: int| 0 <= i < d.len() implies '0' <= #[trigger] d[i] <= '9' by {
            if i < before.len() {
                assert(d[i] == before[i]);
            }
        }
    }
}

/// The texts of strings and of character vectors are those of each, in order.
pub proof fn texts_are_in_order(strings: Seq<String>, vectors: Seq<Vec<char>>, i: int)
    ensures
        texts(strings).len() == strings.len(),
        0 <= i < strings.len() ==> texts(strings)[i] == strings[i]@,
        char_texts(vectors).len() == vectors.len(),
        0 <= i < vectors.len() ==> char_texts(vectors)[i] == vectors[i]@,
{
}

} // verus!
