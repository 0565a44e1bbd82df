//! The names under which clips are saved.
use vstd::prelude::*;

use crate::cookies;
use crate::text;

verus! {

/// What `str::to_lowercase` makes of a text.
pub uninterp spec fn lowercase(s: Seq<char>) -> Seq<char>;

/// What `char::is_alphanumeric` says of a character.
pub uninterp spec fn alphanumeric(c: char) -> bool;

/// Whether all characters of a text are ASCII characters.
pub open spec fn is_ascii_text(s: Seq<char>) -> bool {
    forall|i: int| 0 <= i < s.len() ==> #[trigger] s[i] <= '\u{7f}'
}

/// Whether a character is an ASCII letter or digit.
pub open spec fn ascii_alphanumeric(c: char) -> bool {
    ('0' <= c && c <= '9') || ('A' <= c && c <= 'Z') || ('a' <= c && c <= 'z')
}

/// `s` with ASCII capital letters made small.
pub open spec fn ascii_lowered(s: Seq<char>) -> Seq<char> {
    s.map_values(|c: char| cookies::ascii_lower(c))
}

/// `str::to_lowercase`: the lowercase equivalent of the text by the tables of
/// Unicode. It depends on the text alone. Of an ASCII text it is the text with
/// its capital letters made small; of others what it is, is not stated.
pub assume_specification[ str::to_lowercase ](s: &str) -> (r: String)
    ensures
        r@ == lowercase(s@),
        is_ascii_text(s@) ==> r@ == ascii_lowered(s@),
;

/// `char::is_alphanumeric`: whether Unicode counts the character as a letter
/// or a number. It depends on the character alone. Among the ASCII characters
/// those are the letters and the digits; of the others nothing is stated.
pub assume_specification[ char::is_alphanumeric ](c: char) -> (r: bool)
    ensures
        r == alphanumeric(c),
        c <= '\u{7f}' ==> r == ascii_alphanumeric(c),
;

/// The characters of a text, each with whether a file name keeps it.
pub open spec fn marks(s: Seq<char>) -> Seq<(char, bool)> {
    s.map_values(|c: char| (c, alphanumeric(c)))
}

/// The kept characters, with a `-` for each run of others that follows a kept
/// one.
pub open spec fn dashed(marked: Seq<(char, bool)>) -> Seq<char>
    decreases marked.len(),
{
    if marked.len() == 0 {
        Seq::<char>::empty()
    } else {
        let before = dashed(marked.drop_last());
        if marked.last().1 {
            before.push(marked.last().0)
        } else if before.len() > 0 && before.last() != '-' {
            before.push('-')
        } else {
            before
        }
    }
}

/// The slug of a text whose characters are marked: [`dashed`] without a `-` at
/// its end.
pub open spec fn slug_of(marked: Seq<(char, bool)>) -> Seq<char> {
    let s = dashed(marked);
    if s.len() > 0 && s.last() == '-' {
        s.drop_last()
    } else {
        s
    }
}

/// The runs of neighbouring kept characters, in order.
pub open spec fn runs(marked: Seq<(char, bool)>) -> Seq<Seq<char>>
    decreases marked.len(),
{
    if marked.len() == 0 {
        Seq::<Seq<char>>::empty()
    } else {
        let before = runs(marked.drop_last());
        if !marked.last().1 {
            before
        } else if marked.len() > 1 && marked[marked.len() - 2].1 {
            before.drop_last().push(before.last().push(marked.last().0))
        } else {
            before.push(seq![marked.last().0])
        }
    }
}

/// Whether every `-` of `s` stands alone between two other characters.
pub open spec fn dashes_separate(s: Seq<char>) -> bool {
    forall|i: int|
        0 <= i < s.len() && #[trigger] s[i] == '-' ==> 0 < i < s.len() - 1 && s[i - 1] != '-' && s[i
            + 1] != '-'
}

/// Where no `-` itself is kept.
pub open spec fn keeps_no_dash(marked: Seq<(char, bool)>) -> bool {
    forall|i: int| 0 <= i < marked.len() && (#[trigger] marked[i]).1 ==> marked[i].0 != '-'
}

proof fn lemma_shorter_keeps_no_dash(marked: Seq<(char, bool)>)
    requires
        marked.len() > 0,
        keeps_no_dash(marked),
    ensures
        keeps_no_dash(marked.drop_last()),
{
    let less = marked.drop_last();
    assert forall|i: int| 0 <= i < less.len() && (#[trigger] less[i]).1 implies less[i].0
        != '-' by {
        assert(marked[i] == less[i]);
    }
}

proof fn lemma_dashed_shape(marked: Seq<(char, bool)>)
    requires
        keeps_no_dash(marked),
    ensures
        forall|i: int|
            0 <= i < dashed(marked).len() && #[trigger] dashed(marked)[i] == '-' ==> 0 < i && dashed(
                marked,
            )[i - 1] != '-' && (i < dashed(marked).len() - 1 ==> dashed(marked)[i + 1] != '-'),
    decreases marked.len(),
{
    if marked.len() > 0 {
        let less = marked.drop_last();
        lemma_shorter_keeps_no_dash(marked);
        lemma_dashed_shape(less);
        assert(marked[marked.len() - 1].1 ==> marked.last().0 != '-');
        let s = dashed(marked);
        let p = dashed(less);
        assert forall|i: int| 0 <= i < s.len() && #[trigger] s[i] == '-' implies 0 < i && s[i - 1]
            != '-' && (i < s.len() - 1 ==> s[i + 1] != '-') by {
            if i < p.len() {
                assert(p[i] == '-');
                assert(s[i - 1] == p[i - 1]);
                if i == p.len() - 1 {
                    assert(p.last() == '-');
                } else {
                    assert(s[i + 1] == p[i + 1]);
                }
            } else {
                assert(p.len() > 0 && s[i - 1] == p.last());
            }
        }
    }
}

/// A slug starts and ends with a kept character, and holds no two dashes in a
/// row.
pub proof fn slug_dashes_separate(marked: Seq<(char, bool)>)
    requires
        keeps_no_dash(marked),
    ensures
        dashes_separate(slug_of(marked)),
{
    lemma_dashed_shape(marked);
}

proof fn lemma_dashed_runs(marked: Seq<(char, bool)>)
    requires
        keeps_no_dash(marked),
    ensures
        runs(marked).len() > 0 <==> dashed(marked).len() > 0,
        marked.len() > 0 && marked.last().1 ==> runs(marked).len() > 0,
        forall|k: int| 0 <= k < runs(marked).len() ==> (#[trigger] runs(marked)[k]).len() > 0,
        dashed(marked) == if marked.len() > 0 && !marked.last().1 && runs(marked).len() > 0 {
            text::joined(runs(marked), "-"@).push('-')
        } else {
            text::joined(runs(marked), "-"@)
        },
        runs(marked).len() > 0 ==> text::joined(runs(marked), "-"@).len() > 0 && text::joined(
            runs(marked),
            "-"@,
        ).last() != '-',
    decreases marked.len(),
{
    reveal_strlit("-");
    if marked.len() > 0 {
        let less = marked.drop_last();
        lemma_shorter_keeps_no_dash(marked);
        lemma_dashed_runs(less);
        let c = marked.last().0;
        if marked.last().1 {
            assert(marked[marked.len() - 1].0 != '-');
            let before = runs(less);
            let after = runs(marked);
            if marked.len() > 1 && marked[marked.len() - 2].1 {
                assert(less.last() == marked[marked.len() - 2]);
                assert(after.drop_last() =~= before.drop_last());
                assert(text::joined(after, "-"@) =~= text::joined(before, "-"@).push(c));
            } else {
                assert(after.drop_last() =~= before);
                if before.len() == 0 {
                    assert(text::joined(after, "-"@) =~= seq![c]);
                    assert(text::joined(before, "-"@) =~= Seq::<char>::empty());
                    assert(dashed(marked) =~= seq![c]);
                } else {
                    assert(less.len() > 0);
                    assert(less.last() == marked[marked.len() - 2]);
                    assert(text::joined(after, "-"@) =~= text::joined(before, "-"@).push('-').push(
                        c,
                    ));
                }
            }
        }
    } else {
        assert(text::joined(runs(marked), "-"@) =~= dashed(marked));
    }
}

/// A slug is the runs of kept characters with a single `-` between neighbours.
pub proof fn slug_joins_runs(marked: Seq<(char, bool)>)
    requires
        keeps_no_dash(marked),
    ensures
        slug_of(marked) == text::joined(runs(marked), "-"@),
{
    lemma_dashed_runs(marked);
    if runs(marked).len() == 0 {
        assert(text::joined(runs(marked), "-"@) =~= Seq::<char>::empty());
    } else {
        assert(text::joined(runs(marked), "-"@).push('-').drop_last() =~= text::joined(
            runs(marked),
            "-"@,
        ));
    }
}

/// Where no character is kept.
pub open spec fn keeps_nothing(marked: Seq<(char, bool)>) -> bool {
    forall|i: int| 0 <= i < marked.len() ==> !(#[trigger] marked[i]).1
}

proof fn lemma_shorter_keeps_nothing(marked: Seq<(char, bool)>)
    requires
        marked.len() > 0,
        keeps_nothing(marked),
    ensures
        keeps_nothing(marked.drop_last()),
{
    let less = marked.drop_last();
    assert forall|i: int| 0 <= i < less.len() implies !(#[trigger] less[i]).1 by {
        assert(less[i] == marked[i]);
    }
}

proof fn lemma_dashed_behind(p: Seq<(char, bool)>, m: Seq<(char, bool)>)
    requires
        keeps_nothing(p),
    ensures
        dashed(p + m) == dashed(m),
    decreases p.len() + m.len(),
{
    let all = p + m;
    if m.len() > 0 {
        assert(all.drop_last() =~= p + m.drop_last());
        lemma_dashed_behind(p, m.drop_last());
    } else if p.len() > 0 {
        assert(all =~= p);
        let less = p.drop_last();
        lemma_shorter_keeps_nothing(p);
        lemma_dashed_behind(less, m);
        assert(less + m =~= less);
        assert(!p[p.len() - 1].1);
    } else {
        assert(all =~= m);
    }
}

proof fn lemma_dashed_before(m: Seq<(char, bool)>, q: Seq<(char, bool)>)
    requires
        keeps_nothing(q),
    ensures
        dashed(m + q) == if q.len() > 0 && dashed(m).len() > 0 && dashed(m).last() != '-' {
            dashed(m).push('-')
        } else {
            dashed(m)
        },
    decreases q.len(),
{
    let all = m + q;
    if q.len() > 0 {
        let less = q.drop_last();
        lemma_shorter_keeps_nothing(q);
        lemma_dashed_before(m, less);
        assert(all.drop_last() =~= m + less);
        assert(!q[q.len() - 1].1);
    } else {
        assert(all =~= m);
    }
}

/// Characters around a text that are not kept change nothing of its slug.
pub proof fn slug_ignores_padding(
    p: Seq<(char, bool)>,
    m: Seq<(char, bool)>,
    q: Seq<(char, bool)>,
)
    requires
        keeps_nothing(p),
        keeps_nothing(q),
    ensures
        slug_of(p + m + q) == slug_of(m),
{
    lemma_dashed_before(p + m, q);
    lemma_dashed_behind(p, m);
    assert(dashed(m).push('-').drop_last() =~= dashed(m));
}

/// The characters of an ASCII text in lower case, each with whether a file name
/// keeps it.
pub open spec fn ascii_marks(s: Seq<char>) -> Seq<(char, bool)> {
    s.map_values(|c: char| (cookies::ascii_lower(c), ascii_alphanumeric(c)))
}

/// The slug of an ASCII title.
pub open spec fn ascii_slug(title: Seq<char>) -> Seq<char> {
    slug_of(ascii_marks(title))
}

/// Whether a text holds no ASCII letter or digit.
pub open spec fn no_alphanumeric(s: Seq<char>) -> bool {
    forall|i: int| 0 <= i < s.len() ==> !ascii_alphanumeric(#[trigger] s[i])
}

/// ASCII characters around an ASCII title that are no letters or digits change
/// nothing of its file name.
pub proof fn padding_does_not_matter(
    p: Seq<char>,
    t: Seq<char>,
    q: Seq<char>,
    id: Seq<char>,
    ext: Seq<char>,
)
    requires
        is_ascii_text(p),
        is_ascii_text(t),
        is_ascii_text(q),
        no_alphanumeric(p),
        no_alphanumeric(q),
    ensures
        is_ascii_text(p + t + q),
        ascii_slug(p + t + q) == ascii_slug(t),
        file_name(ascii_slug(p + t + q), id, ext) == file_name(ascii_slug(t), id, ext),
{
    let before = ascii_marks(p);
    let after = ascii_marks(q);
    assert(ascii_marks(p + t + q) =~= before + ascii_marks(t) + after);
    assert forall|i: int| 0 <= i < before.len() implies !(#[trigger] before[i]).1 by {
        assert(!ascii_alphanumeric(p[i]));
    }
    assert forall|i: int| 0 <= i < after.len() implies !(#[trigger] after[i]).1 by {
        assert(!ascii_alphanumeric(q[i]));
    }
    slug_ignores_padding(before, ascii_marks(t), after);
    let all = p + t + q;
    assert forall|i: int| 0 <= i < all.len() implies #[trigger] all[i] <= '\u{7f}' by {
        if i < p.len() {
            assert(all[i] == p[i]);
        } else if i < p.len() + t.len() {
            assert(all[i] == t[i - p.len()]);
        } else {
            assert(all[i] == q[i - p.len() - t.len()]);
        }
    }
}

/// The slug of a text whose characters are marked.
pub fn slug(marked: &Vec<(char, bool)>) -> (r: String)
    ensures
        r@ == slug_of(marked@),
{
    let n: usize = marked.len();
    let mut out: Vec<char> = Vec::new();
    assert(marked@.take(0) =~= Seq::<(char, bool)>::empty());
    for i in 0..n
        invariant
            n == marked@.len(),
            out@ == dashed(marked@.take(i as int)),
    {
        assert(marked@.take(i + 1).drop_last() =~= marked@.take(i as int));
        let (c, keep) = marked[i];
        if keep {
            out.push(c);
        } else if out.len() > 0 && out[out.len() - 1] != '-' {
            out.push('-');
        }
    }
    assert(marked@.take(n as int) =~= marked@);
    let m: usize = out.len();
    if m > 0 && out[m - 1] == '-' {
        out.pop();
        assert(out@ =~= dashed(marked@).drop_last());
    }
    text::string_of(out.as_slice())
}

/// The slug of a title.
pub open spec fn title_slug(title: Seq<char>) -> Seq<char> {
    slug_of(marks(lowercase(title)))
}

/// The smaller of the length of `id` in bytes and eight.
pub open spec fn short_len(id: Seq<char>) -> int {
    let n = vstd::utf8::encode_utf8(id).len() as int;
    if n < 8 {
        n
    } else {
        8
    }
}

/// The first eight bytes of an id, or all of it.
pub open spec fn short_id(id: Seq<char>) -> Seq<char> {
    vstd::utf8::decode_utf8(vstd::utf8::encode_utf8(id).take(short_len(id)))
}

/// The file name for a slug, an id and an extension.
pub open spec fn file_name(slug: Seq<char>, id: Seq<char>, ext: Seq<char>) -> Seq<char> {
    if slug.len() == 0 {
        short_id(id) + "."@ + ext
    } else {
        slug + "-"@ + short_id(id) + "."@ + ext
    }
}

/// Builds `<title-slug>-<id8>.<ext>`. Runs of characters that are neither
/// letters nor numbers become a single `-`, and a title without letters and
/// numbers gives no leading dash.
pub fn clip_filename(title: &str, id: &str, ext: &str) -> (r: String)
    requires
        vstd::utf8::is_char_boundary(vstd::utf8::encode_utf8(id@), short_len(id@)),
    ensures
        r@ == file_name(title_slug(title@), id@, ext@),
        dashes_separate(title_slug(title@)),
        title_slug(title@) == text::joined(runs(marks(lowercase(title@))), "-"@),
        !title_slug(title@).contains('/'),
        !title_slug(title@).contains('.'),
        is_ascii_text(title@) ==> title_slug(title@) == ascii_slug(title@),
{
    let lowered = title.to_lowercase();
    let chars = text::chars_of(lowered.as_str());
    let n: usize = chars.len();
    let mut marked: Vec<(char, bool)> = Vec::new();
    for i in 0..n
        invariant
            n == chars@.len(),
            marked@ == marks(chars@.take(i as int)),
            forall|j: int|
                0 <= j < i && (#[trigger] chars@[j]) <= '\u{7f}' ==> alphanumeric(chars@[j])
                    == ascii_alphanumeric(chars@[j]),
            forall|j: int|
                0 <= j < i && alphanumeric(#[trigger] chars@[j]) ==> chars@[j] != '-' && chars@[j]
                    != '/' && chars@[j] != '.',
    {
        let c = chars[i];
        let keep = c.is_alphanumeric();
        marked.push((c, keep));
        assert(marked@ =~= marks(chars@.take(i + 1)));
    }
    assert(chars@.take(n as int) =~= chars@);
    proof {
        assert forall|i: int| 0 <= i < marked@.len() && (#[trigger] marked@[i]).1 implies marked@[i].0
            != '-' && marked@[i].0 != '/' && marked@[i].0 != '.' by {
            assert(alphanumeric(chars@[i]));
        }
        if is_ascii_text(title@) {
            let low = ascii_marks(title@);
            assert(low.len() == marked@.len());
            assert forall|i: int| 0 <= i < low.len() implies #[trigger] low[i] == marked@[i] by {
                assert(title@[i] <= '\u{7f}');
                assert(chars@[i] == cookies::ascii_lower(title@[i]));
                assert(chars@[i] <= '\u{7f}');
            }
            assert(low =~= marked@);
        }
        slug_dashes_separate(marked@);
        slug_joins_runs(marked@);
        lemma_slug_letters(marked@);
    }
    let name = slug(&marked);
    let bytes: usize = id.as_bytes().len();
    let cut: usize = if bytes < 8 {
        bytes
    } else {
        8
    };
    let (short, _rest) = id.split_at(cut);
    proof {
        vstd::utf8::encode_utf8_decode_utf8(short@);
        let bytes = vstd::utf8::encode_utf8(id@);
        assert(bytes.subrange(0, cut as int) =~= bytes.take(cut as int));
    }
    let mut out = name;
    if !out.as_str().is_empty() {
        out.append("-");
    }
    out.append(short);
    out.append(".");
    out.append(ext);
    proof {
        let s = title_slug(title@);
        assert(Seq::<char>::empty() + short_id(id@) =~= short_id(id@));
        assert(out@ =~= file_name(s, id@, ext@));
    }
    out
}

proof fn lemma_slug_letters(marked: Seq<(char, bool)>)
    ensures
        forall|i: int|
            0 <= i < dashed(marked).len() ==> #[trigger] dashed(marked)[i] == '-' || exists|j: int|
                0 <= j < marked.len() && (#[trigger] marked[j]).1 && marked[j].0 == dashed(marked)[i],
    decreases marked.len(),
{
    if marked.len() > 0 {
        let less = marked.drop_last();
        lemma_slug_letters(less);
        assert forall|i: int| 0 <= i < dashed(marked).len() implies #[trigger] dashed(marked)[i]
            == '-' || exists|j: int|
            0 <= j < marked.len() && (#[trigger] marked[j]).1 && marked[j].0 == dashed(
                marked,
            )[i] by {
            if i < dashed(less).len() {
                assert(dashed(marked)[i] == dashed(less)[i]);
                if dashed(less)[i] != '-' {
                    let j = choose|j: int|
                        0 <= j < less.len() && (#[trigger] less[j]).1 && less[j].0 == dashed(less)[i];
                    assert(marked[j] == less[j]);
                }
            } else {
                assert(marked[marked.len() - 1] == marked.last());
            }
        }
    }
}

proof fn lemma_runs_of_kept(m: Seq<(char, bool)>)
    requires
        m.len() > 0,
        forall|i: int| 0 <= i < m.len() ==> (#[trigger] m[i]).1,
    ensures
        runs(m) == seq![m.map_values(|x: (char, bool)| x.0)],
    decreases m.len(),
{
    let chars = m.map_values(|x: (char, bool)| x.0);
    let less = m.drop_last();
    assert(m[m.len() - 1].1);
    if less.len() == 0 {
        assert(runs(less) =~= Seq::<Seq<char>>::empty());
        assert(chars =~= seq![m.last().0]);
        assert(runs(m) =~= seq![chars]);
    } else {
        assert forall|i: int| 0 <= i < less.len() implies (#[trigger] less[i]).1 by {
            assert(less[i] == m[i]);
        }
        lemma_runs_of_kept(less);
        assert(m[m.len() - 2].1);
        let before = less.map_values(|x: (char, bool)| x.0);
        assert(before.push(m.last().0) =~= chars);
        assert(runs(m) =~= seq![chars]);
    }
}

/// A text of which every character is kept is its own slug.
pub proof fn slug_keeps_every_letter(m: Seq<(char, bool)>)
    requires
        forall|i: int| 0 <= i < m.len() ==> (#[trigger] m[i]).1 && m[i].0 != '-',
    ensures
        slug_of(m) == m.map_values(|x: (char, bool)| x.0),
{
    slug_joins_runs(m);
    if m.len() > 0 {
        lemma_runs_of_kept(m);
    } else {
        assert(text::joined(runs(m), "-"@) =~= Seq::<char>::empty());
        assert(m.map_values(|x: (char, bool)| x.0) =~= Seq::<char>::empty());
    }
}

proof fn lemma_runs_before_gap(a: Seq<(char, bool)>, gap: Seq<(char, bool)>)
    requires
        keeps_nothing(gap),
    ensures
        runs(a + gap) == runs(a),
    decreases gap.len(),
{
    let all = a + gap;
    if gap.len() > 0 {
        lemma_shorter_keeps_nothing(gap);
        lemma_runs_before_gap(a, gap.drop_last());
        assert(all.drop_last() =~= a + gap.drop_last());
        assert(!gap[gap.len() - 1].1);
    } else {
        assert(all =~= a);
    }
}

proof fn lemma_runs_behind_gap(a: Seq<(char, bool)>, gap: Seq<(char, bool)>, b: Seq<(char, bool)>)
    requires
        keeps_nothing(gap),
        gap.len() > 0,
        keeps_no_dash(b),
    ensures
        runs(a + gap + b) == runs(a) + runs(b),
    decreases b.len(),
{
    let all = a + gap + b;
    if b.len() == 0 {
        assert(all =~= a + gap);
        lemma_runs_before_gap(a, gap);
        assert(runs(a) + runs(b) =~= runs(a));
    } else {
        let less = b.drop_last();
        lemma_shorter_keeps_no_dash(b);
        lemma_runs_behind_gap(a, gap, less);
        assert(all.drop_last() =~= a + gap + less);
        assert(all.last() == b.last());
        let before = runs(a) + runs(less);
        if b.last().1 {
            if b.len() > 1 {
                assert(all[all.len() - 2] == b[b.len() - 2]);
                if b[b.len() - 2].1 {
                    lemma_dashed_runs(less);
                    assert(less.last() == b[b.len() - 2]);
                    assert(before.last() == runs(less).last());
                    assert(before.drop_last().push(before.last().push(b.last().0)) =~= runs(a) + (
                    runs(less).drop_last().push(runs(less).last().push(b.last().0))));
                } else {
                    assert(before.push(seq![b.last().0]) =~= runs(a) + runs(less).push(
                        seq![b.last().0],
                    ));
                }
            } else {
                assert(all[all.len() - 2] == gap[gap.len() - 1]);
                assert(before.push(seq![b.last().0]) =~= runs(a) + runs(less).push(
                    seq![b.last().0],
                ));
            }
        }
    }
}

/// The slug of a text in two parts with something between them that is not kept
/// is the slugs of both, whole, with a single `-` between them; or the one of
/// them where the other is empty.
pub proof fn slug_joins_both_sides(
    a: Seq<(char, bool)>,
    gap: Seq<(char, bool)>,
    b: Seq<(char, bool)>,
)
    requires
        gap.len() > 0,
        forall|i: int| 0 <= i < gap.len() ==> !(#[trigger] gap[i]).1,
        forall|i: int| 0 <= i < a.len() && (#[trigger] a[i]).1 ==> a[i].0 != '-',
        forall|i: int| 0 <= i < b.len() && (#[trigger] b[i]).1 ==> b[i].0 != '-',
    ensures
        slug_of(a + gap + b) == if slug_of(a).len() == 0 {
            slug_of(b)
        } else if slug_of(b).len() == 0 {
            slug_of(a)
        } else {
            slug_of(a) + seq!['-'] + slug_of(b)
        },
{
    let all = a + gap + b;
    assert forall|i: int| 0 <= i < all.len() && (#[trigger] all[i]).1 implies all[i].0 != '-' by {
        if i < a.len() {
            assert(all[i] == a[i]);
        } else if i < a.len() + gap.len() {
            assert(all[i] == gap[i - a.len()]);
        } else {
            assert(all[i] == b[i - a.len() - gap.len()]);
        }
    }
    slug_joins_runs(all);
    slug_joins_runs(a);
    slug_joins_runs(b);
    lemma_dashed_runs(a);
    lemma_dashed_runs(b);
    lemma_runs_behind_gap(a, gap, b);
    reveal_strlit("-");
    assert("-"@ =~= seq!['-']);
    if runs(a).len() == 0 {
        assert(runs(a) + runs(b) =~= runs(b));
        assert(text::joined(runs(a), "-"@) =~= Seq::<char>::empty());
    } else if runs(b).len() == 0 {
        assert(runs(a) + runs(b) =~= runs(a));
        assert(text::joined(runs(b), "-"@) =~= Seq::<char>::empty());
    } else {
        text::joining_in_two(runs(a), runs(b), "-"@);
    }
}

/// The name of a file for a clip: the slug of the title by the two laws above,
/// of its lowercase with letters and numbers kept; a `-` unless that is empty;
/// the id or its first eight bytes; a dot; and the extension, whole.
pub proof fn file_is_named_after_title_and_id(
    title: &str,
    id: &str,
    ext: &str,
    r: String,
    short: Seq<char>,
    rest: Seq<char>,
)
    requires
        r@ == file_name(title_slug(title@), id@, ext@),
        id@ == short + rest,
        vstd::utf8::encode_utf8(short).len() == if vstd::utf8::encode_utf8(id@).len() < 8 {
            vstd::utf8::encode_utf8(id@).len()
        } else {
            8
        },
    ensures
        ({
            let slug = slug_of(
                Seq::new(
                    lowercase(title@).len(),
                    |i: int| (lowercase(title@)[i], alphanumeric(lowercase(title@)[i])),
                ),
            );
            r@ == slug + (if slug.len() > 0 {
                seq!['-']
            } else {
                Seq::<char>::empty()
            }) + short + seq!['.'] + ext@
        }),
{
    let low = lowercase(title@);
    let slug = title_slug(title@);
    assert(marks(low) =~= Seq::new(low.len(), |i: int| (low[i], alphanumeric(low[i]))));
    lemma_encode_splits(short, rest);
    let bytes = vstd::utf8::encode_utf8(id@);
    assert(bytes.take(short_len(id@)) =~= vstd::utf8::encode_utf8(short));
    vstd::utf8::encode_utf8_decode_utf8(short);
    reveal_strlit("-");
    reveal_strlit(".");
    assert("-"@ =~= seq!['-']);
    assert("."@ =~= seq!['.']);
    if slug.len() == 0 {
        assert(slug + Seq::<char>::empty() + short =~= short);
    }
}

proof fn lemma_encode_splits(a: Seq<char>, b: Seq<char>)
    ensures
        vstd::utf8::encode_utf8(a + b) == vstd::utf8::encode_utf8(a) + vstd::utf8::encode_utf8(b),
    decreases a.len(),
{
    if a.len() > 0 {
        lemma_encode_splits(a.drop_first(), b);
        assert((a + b).drop_first() =~= a.drop_first() + b);
        assert((a + b)[0] == a[0]);
        reveal_with_fuel(vstd::utf8::encode_utf8, 2);
        assert(vstd::utf8::encode_utf8(a + b) =~= vstd::utf8::encode_utf8(a)
            + vstd::utf8::encode_utf8(b));
    } else {
        assert(a + b =~= b);
        reveal_with_fuel(vstd::utf8::encode_utf8, 2);
        assert(vstd::utf8::encode_utf8(a) =~= Seq::<u8>::empty());
        assert(vstd::utf8::encode_utf8(a) + vstd::utf8::encode_utf8(b)
            =~= vstd::utf8::encode_utf8(b));
    }
}

/// The marks of an ASCII title are those of its characters, one by one.
pub proof fn ascii_titles_are_marked(title: Seq<char>)
    ensures
        ascii_slug(title) == slug_of(
            Seq::new(
                title.len(),
                |i: int|
                    (
                        if 'A' <= title[i] && title[i] <= 'Z' {
                            (title[i] as u32 + 32) as char
                        } else {
                            title[i]
                        },
                        ('0' <= title[i] && title[i] <= '9') || ('A' <= title[i] && title[i] <= 'Z')
                            || ('a' <= title[i] && title[i] <= 'z'),
                    ),
            ),
        ),
{
    assert(ascii_marks(title) =~= Seq::new(
        title.len(),
        |i: int|
            (
                if 'A' <= title[i] && title[i] <= 'Z' {
                    (title[i] as u32 + 32) as char
                } else {
                    title[i]
                },
                ('0' <= title[i] && title[i] <= '9') || ('A' <= title[i] && title[i] <= 'Z') || (
                'a' <= title[i] && title[i] <= 'z'),
            ),
    ));
}

} // verus!
