//! Cookie headers: what the user pastes, turned into the session that Clerk is
//! asked with.
use vstd::hash_map::StringHashMap;
use vstd::prelude::*;

use crate::errors::{CliError, ErrorModel};
use crate::text;

verus! {

/// A Clerk session found in a cookie header or in a browser profile.
#[derive(Debug, Clone)]
pub struct BrowserAuth {
    pub clerk_client_cookie: String,
    pub cookie_header: String,
    pub device_id: Option<String>,
}

/// The content of a [`BrowserAuth`] as plain text.
pub struct BrowserAuthModel {
    pub clerk_client_cookie: Seq<char>,
    pub cookie_header: Seq<char>,
    pub device_id: Option<Seq<char>>,
}

/// The text of an optional string.
pub open spec fn text_of(o: Option<String>) -> Option<Seq<char>> {
    match o {
        Some(s) => Some(s@),
        None => None,
    }
}

impl View for BrowserAuth {
    type V = BrowserAuthModel;

    open spec fn view(&self) -> BrowserAuthModel {
        BrowserAuthModel {
            clerk_client_cookie: self.clerk_client_cookie@,
            cookie_header: self.cookie_header@,
            device_id: text_of(self.device_id),
        }
    }
}

/// `c` with an ASCII capital letter made small.
pub open spec fn ascii_lower(c: char) -> char {
    if 'A' <= c && c <= 'Z' {
        (c as u32 + 32) as char
    } else {
        c
    }
}

fn to_ascii_lower(c: char) -> (r: char)
    ensures
        r == ascii_lower(c),
{
    if 'A' <= c && c <= 'Z' {
        (c as u8 + 32) as char
    } else {
        c
    }
}

/// Whether `s` starts with the field name of a cookie header, in any mix of
/// capital and small letters.
pub open spec fn has_cookie_prefix(s: Seq<char>) -> bool {
    s.len() >= 7 && s.take(7).map_values(|c: char| ascii_lower(c)) == "cookie:"@
}

/// The value of a cookie header: the input without a leading `Cookie:` and
/// without white space at its ends.
pub open spec fn header_value(input: Seq<char>) -> Seq<char> {
    let t = text::trimmed(input);
    if has_cookie_prefix(t) {
        text::trimmed(t.skip(7))
    } else {
        t
    }
}

/// Whether the seventh byte of the trimmed input, if it has that many, ends a
/// character, so that the text can be cut after the length of `cookie:`.
pub open spec fn can_cut_prefix(input: Seq<char>) -> bool {
    let bytes = vstd::utf8::encode_utf8(text::trimmed(input));
    bytes.len() >= 7 ==> vstd::utf8::is_char_boundary(bytes, 7)
}

/// Whether the trimmed input can be cut after the length of `cookie:`.
pub fn prefix_can_be_cut(input: &str) -> (r: bool)
    ensures
        r == can_cut_prefix(input@),
{
    let t = text::trim(input);
    t.as_bytes().len() < 7 || t.is_char_boundary(7)
}

/// Takes a leading `Cookie:` off a pasted header, and the white space around
/// what is left.
pub fn strip_cookie_header_prefix(input: &str) -> (r: &str)
    requires
        can_cut_prefix(input@),
    ensures
        r@ == header_value(input@),
{
    let t = text::trim(input);
    let chars = text::chars_of(t);
    let name = text::chars_of("cookie:");
    let mut matching = chars.len() >= 7;
    if matching {
        let mut i: usize = 0;
        proof {
            reveal_strlit("cookie:");
        }
        while i < 7
            invariant
                name@ == "cookie:"@,
                name@.len() == 7,
                chars@ == t@,
                chars@.len() >= 7,
                i <= 7,
                matching == forall|j: int| 0 <= j < i ==> ascii_lower(t@[j]) == name@[j],
            decreases 7 - i,
        {
            if to_ascii_lower(chars[i]) != name[i] {
                matching = false;
                assert(ascii_lower(t@[i as int]) != name@[i as int]);
            }
            i = i + 1;
        }
        let ghost low = t@.take(7).map_values(|c: char| ascii_lower(c));
        assert(matching ==> low =~= "cookie:"@);
        assert(!matching ==> exists|j: int| 0 <= j < 7 && ascii_lower(t@[j]) != name@[j]);
        assert(forall|j: int| 0 <= j < 7 ==> low[j] == ascii_lower(t@[j]));
    }
    if matching {
        let rest = t.substring_char(7, chars.len());
        assert(rest@ =~= t@.skip(7));
        text::trim(rest)
    } else {
        t
    }
}

/// The name and the value of one part of a cookie header; `None` for a part
/// without `=` or without a name.
pub open spec fn cookie_pair(part: Seq<char>) -> Option<(Seq<char>, Seq<char>)> {
    let p = text::trimmed(part);
    let i = text::first_position(p, '=');
    let name = text::trimmed(p.take(i));
    if p.contains('=') && name.len() > 0 {
        Some((name, text::trimmed(p.skip(i + 1))))
    } else {
        None
    }
}

/// The cookies that the parts of a header set: of two parts with one name the
/// later one counts.
pub open spec fn cookies_in(parts: Seq<Seq<char>>) -> Map<Seq<char>, Seq<char>>
    decreases parts.len(),
{
    if parts.len() == 0 {
        Map::<Seq<char>, Seq<char>>::empty()
    } else {
        let before = cookies_in(parts.drop_last());
        match cookie_pair(parts.last()) {
            Some(pair) => before.insert(pair.0, pair.1),
            None => before,
        }
    }
}

/// The cookies of a pasted header, by name.
pub open spec fn header_cookies(input: Seq<char>) -> Map<Seq<char>, Seq<char>> {
    cookies_in(text::pieces(header_value(input), ';'))
}

/// The texts that a string map holds.
pub open spec fn map_texts(m: Map<Seq<char>, String>) -> Map<Seq<char>, Seq<char>> {
    m.map_values(|v: String| v@)
}

fn parse_pair(part: &[char]) -> (r: Option<(String, String)>)
    ensures
        match r {
            Some(pair) => cookie_pair(part@) == Some((pair.0@, pair.1@)),
            None => cookie_pair(part@) is None,
        },
{
    let (a, b) = text::trim_bounds(part, text::Edge::Space);
    let p = vstd::slice::slice_subrange(part, a, b);
    let i = text::position(p, '=');
    if i == p.len() {
        return None;
    }
    let left = vstd::slice::slice_subrange(p, 0, i);
    let right = vstd::slice::slice_subrange(p, i + 1, p.len());
    assert(left@ =~= p@.take(i as int));
    assert(right@ =~= p@.skip(i + 1));
    let (c, d) = text::trim_bounds(left, text::Edge::Space);
    if c == d {
        return None;
    }
    let (e, f) = text::trim_bounds(right, text::Edge::Space);
    Some(
        (
            text::string_of(vstd::slice::slice_subrange(left, c, d)),
            text::string_of(vstd::slice::slice_subrange(right, e, f)),
        ),
    )
}

/// Reads a cookie header into its cookies, by name.
pub fn parse_cookie_header(input: &str) -> (r: StringHashMap<String>)
    requires
        can_cut_prefix(input@),
    ensures
        map_texts(r@) == header_cookies(input@),
{
    let value = strip_cookie_header_prefix(input);
    let chars = text::chars_of(value);
    let parts = text::split(chars.as_slice(), ';');
    let ghost all = text::pieces(value@, ';');
    let n: usize = parts.len();
    let mut cookies: StringHashMap<String> = StringHashMap::new();
    assert(map_texts(cookies@) =~= cookies_in(all.take(0)));
    for i in 0..n
        invariant
            n == parts@.len(),
            text::char_texts(parts@) == all,
            map_texts(cookies@) == cookies_in(all.take(i as int)),
    {
        let ghost before = cookies@;
        assert(all.take(i + 1).drop_last() =~= all.take(i as int));
        assert(all.take(i + 1).last() == parts@[i as int]@);
        if let Some((name, content)) = parse_pair(parts[i].as_slice()) {
            let ghost key = name@;
            let ghost val = content;
            cookies.insert(name, content);
            assert(map_texts(before.insert(key, val)) =~= map_texts(before).insert(key, val@));
        }
    }
    assert(all.take(n as int) =~= all);
    cookies
}

/// The value of a device id cookie with its quotes written as such.
pub open spec fn unquoted(value: Seq<char>) -> Seq<char> {
    text::replaced(text::trimmed(value), "%22"@, "\""@)
}

/// The device id that a cookie value stands for: the value without white space
/// and quotes around it, be they written as `%22` or not. `None` if nothing is
/// left or if a `;` is in it.
pub open spec fn device_id_of(value: Seq<char>) -> Option<Seq<char>> {
    let id = text::trimmed(
        text::trim_edges(text::trim_edges(unquoted(value), text::Edge::Mark('"')), text::Edge::Mark('\'')),
    );
    if id.len() == 0 || id.contains(';') {
        None
    } else {
        Some(id)
    }
}

/// Cleans the value of a device id cookie.
pub fn sanitize_device_id(value: &str) -> (r: Option<String>)
    ensures
        text_of(r) == device_id_of(value@),
{
    proof {
        reveal_strlit("%22");
    }
    let unquoted = text::replace(text::trim(value), "%22", "\"");
    let chars = text::chars_of(unquoted.as_str());
    let (a, b) = text::trim_bounds(chars.as_slice(), text::Edge::Mark('"'));
    let outer = vstd::slice::slice_subrange(chars.as_slice(), a, b);
    let (c, d) = text::trim_bounds(outer, text::Edge::Mark('\''));
    let inner = vstd::slice::slice_subrange(outer, c, d);
    let (e, f) = text::trim_bounds(inner, text::Edge::Space);
    let id = text::string_of(vstd::slice::slice_subrange(inner, e, f));
    if id.as_str().is_empty() || text::contains_char(id.as_str(), ';') {
        None
    } else {
        Some(id)
    }
}

/// What a pasted cookie header, or a bare `__client` value, stands for.
pub open spec fn cookie_input(input: Seq<char>) -> Result<BrowserAuthModel, ErrorModel> {
    let value = header_value(input);
    let cookies = header_cookies(value);
    if cookies.contains_key("__client"@) && cookies["__client"@].len() > 0 {
        Ok(
            BrowserAuthModel {
                clerk_client_cookie: cookies["__client"@],
                cookie_header: value,
                device_id: if cookies.contains_key("ajs_anonymous_id"@) {
                    device_id_of(cookies["ajs_anonymous_id"@])
                } else {
                    None
                },
            },
        )
    } else if value.contains(';') || value.contains('=') {
        Err(ErrorModel::Config("cookie header did not contain a __client field"@))
    } else if text::trimmed(value).len() == 0 {
        Err(ErrorModel::Config("empty Clerk __client cookie"@))
    } else {
        Ok(
            BrowserAuthModel {
                clerk_client_cookie: text::trimmed(value),
                cookie_header: "__client="@ + text::trimmed(value),
                device_id: None,
            },
        )
    }
}

/// The content of a reading of cookies, or of the error that it gave.
pub open spec fn outcome(r: Result<BrowserAuth, CliError>) -> Result<BrowserAuthModel, ErrorModel> {
    match r {
        Ok(auth) => Ok(auth@),
        Err(e) => Err(e@),
    }
}

/// Reads what the user pasted: a whole cookie header, with or without its
/// field name, or the bare value of the `__client` cookie.
pub fn normalize_cookie_input(input: &str) -> (r: Result<BrowserAuth, CliError>)
    requires
        can_cut_prefix(input@),
        can_cut_prefix(header_value(input@)),
    ensures
        outcome(r) == cookie_input(input@),
{
    let value = strip_cookie_header_prefix(input);
    let cookies = parse_cookie_header(value);
    let ghost found = header_cookies(value@);
    if let Some(client) = cookies.get("__client") {
        assert(map_texts(cookies@)["__client"@] == client@);
        if !client.as_str().is_empty() {
            let device_id = match cookies.get("ajs_anonymous_id") {
                Some(v) => {
                    assert(map_texts(cookies@)["ajs_anonymous_id"@] == v@);
                    sanitize_device_id(v.as_str())
                },
                None => None,
            };
            assert(found.contains_key("ajs_anonymous_id"@) == cookies@.contains_key(
                "ajs_anonymous_id"@,
            ));
            return Ok(
                BrowserAuth {
                    clerk_client_cookie: client.clone(),
                    cookie_header: value.to_owned(),
                    device_id,
                },
            );
        }
    }
    assert(found.contains_key("__client"@) == cookies@.contains_key("__client"@));
    if text::contains_char(value, ';') || text::contains_char(value, '=') {
        return Err(
            CliError::Config("cookie header did not contain a __client field".to_owned()),
        );
    }
    let client = text::trim(value);
    if client.is_empty() {
        return Err(CliError::Config("empty Clerk __client cookie".to_owned()));
    }
    let mut header = "__client=".to_owned();
    header.append(client);
    Ok(
        BrowserAuth {
            clerk_client_cookie: client.to_owned(),
            cookie_header: header,
            device_id: None,
        },
    )
}

spec fn replaced_quotes(s: Seq<char>) -> Seq<char> {
    text::replaced(s, "%22"@, "\""@)
}

proof fn lemma_starts_with_two(s: Seq<char>)
    requires
        replaced_quotes(s).len() > 0,
        replaced_quotes(s)[0] == '2',
    ensures
        s.len() > 0,
        s[0] == '2',
        s.len() > 1 ==> replaced_quotes(s).drop_first() == replaced_quotes(s.drop_first()),
{
    reveal_strlit("%22");
    reveal_strlit("\"");
    if s.len() >= 3 {
        if s.take(3) == "%22"@ {
            assert(replaced_quotes(s)[0] == '"');
        } else {
            let rest = replaced_quotes(s.drop_first());
            assert((seq![s[0]] + rest).drop_first() =~= rest);
        }
    }
}

proof fn lemma_no_encoded_quote(s: Seq<char>)
    ensures
        !text::has_text(replaced_quotes(s), "%22"@),
    decreases s.len(),
{
    reveal_strlit("%22");
    reveal_strlit("\"");
    let r = replaced_quotes(s);
    if text::has_text(r, "%22"@) {
        let i = choose|i: int| text::occurs_at(r, "%22"@, i);
        let at = r.subrange(i, i + 3);
        assert(r[i] == at[0] && r[i + 1] == at[1] && r[i + 2] == at[2]);
        if s.len() >= 3 {
            if s.take(3) == "%22"@ {
                let rest = replaced_quotes(s.skip(3));
                lemma_no_encoded_quote(s.skip(3));
                assert(r == "\""@ + rest);
                assert(i > 0);
                assert(rest.subrange(i - 1, i + 2) =~= at);
                assert(text::occurs_at(rest, "%22"@, i - 1));
            } else {
                let tail = s.drop_first();
                let rest = replaced_quotes(tail);
                lemma_no_encoded_quote(tail);
                assert(r == seq![s[0]] + rest);
                if i > 0 {
                    assert(rest.subrange(i - 1, i + 2) =~= at);
                    assert(text::occurs_at(rest, "%22"@, i - 1));
                } else {
                    assert(rest[0] == r[1] && rest[1] == r[2]);
                    lemma_starts_with_two(tail);
                    let second = replaced_quotes(tail.drop_first());
                    assert(second[0] == rest.drop_first()[0]);
                    lemma_starts_with_two(tail.drop_first());
                    assert(s.take(3) =~= "%22"@);
                }
            }
        } else {
            assert(r == s);
        }
    }
}

/// Whether a value is a device id as it stands: it is not empty, holds neither
/// `;` nor `%22`, and has neither white space nor quotes at its ends.
pub open spec fn is_device_id(value: Seq<char>) -> bool {
    &&& value.len() > 0
    &&& !value.contains(';')
    &&& !text::has_text(value, "%22"@)
    &&& text::trimmed(value) == value
    &&& value[0] != '"' && value[0] != '\''
    &&& value.last() != '"' && value.last() != '\''
}

proof fn lemma_id_is_part(whole: Seq<char>)
    ensures
        text::has_text(
            whole,
            text::trimmed(
                text::trim_edges(
                    text::trim_edges(whole, text::Edge::Mark('"')),
                    text::Edge::Mark('\''),
                ),
            ),
        ),
{
    let outer = text::trim_edges(whole, text::Edge::Mark('"'));
    let inner = text::trim_edges(outer, text::Edge::Mark('\''));
    text::trimming_leaves_part(whole, text::Edge::Mark('"'));
    text::trimming_leaves_part(outer, text::Edge::Mark('\''));
    text::trimming_leaves_part(inner, text::Edge::Space);
    text::part_of_part(whole, outer, inner);
    text::part_of_part(whole, inner, text::trimmed(inner));
}

proof fn lemma_id_stays(value: Seq<char>)
    requires
        is_device_id(value),
    ensures
        device_id_of(value) == Some(value),
{
    text::replacing_absent_text(value, "%22"@, "\""@);
    text::lemma_trim_fixed(value, text::Edge::Mark('"'));
    text::lemma_trim_fixed(value, text::Edge::Mark('\''));
}

/// A device id is not empty, holds neither `;` nor `%22` and has no white space
/// at its ends, so that it can stand in a header; it is a part of the value with
/// its quotes written as such. A value that is a device id as it stands stays.
pub proof fn device_id_is_clean(value: Seq<char>)
    ensures
        device_id_of(value) matches Some(id) ==> {
            &&& id.len() > 0
            &&& !id.contains(';')
            &&& !text::has_text(id, "%22"@)
            &&& text::trimmed(id) == id
            &&& text::has_text(unquoted(value), id)
        },
        is_device_id(value) ==> device_id_of(value) == Some(value),
{
    if is_device_id(value) {
        lemma_id_stays(value);
    }
    if let Some(id) = device_id_of(value) {
        let whole = unquoted(value);
        lemma_id_is_part(whole);
        lemma_no_encoded_quote(text::trimmed(value));
        text::trimming_twice(
            text::trim_edges(
                text::trim_edges(whole, text::Edge::Mark('"')),
                text::Edge::Mark('\''),
            ),
            text::Edge::Space,
        );
        if text::has_text(id, "%22"@) {
            text::part_of_part(whole, id, "%22"@);
        }
    }
}

/// Of the parts of a header that set one name the last one counts.
pub proof fn last_part_counts(parts: Seq<Seq<char>>, i: int, name: Seq<char>, value: Seq<char>)
    requires
        0 <= i < parts.len(),
        cookie_pair(parts[i]) == Some((name, value)),
        forall|j: int|
            i < j < parts.len() ==> (cookie_pair(#[trigger] parts[j]) matches Some(pair) ==> pair.0
                != name),
    ensures
        cookies_in(parts).contains_key(name),
        cookies_in(parts)[name] == value,
    decreases parts.len(),
{
    if i < parts.len() - 1 {
        let less = parts.drop_last();
        assert forall|j: int| i < j < less.len() implies (cookie_pair(#[trigger] less[j]) matches Some(
            pair,
        ) ==> pair.0 != name) by {
            assert(less[j] == parts[j]);
        }
        last_part_counts(less, i, name, value);
        assert(parts[parts.len() - 1] == parts.last());
    }
}

/// A session that was read has a client cookie.
pub proof fn session_has_client(input: Seq<char>)
    ensures
        cookie_input(input) matches Ok(auth) ==> auth.clerk_client_cookie.len() > 0,
{
}

proof fn lemma_bare_value(token: Seq<char>)
    requires
        token.len() > 0,
        text::trimmed(token) == token,
    ensures
        text::trimmed("__client="@ + token) == "__client="@ + token,
        header_value("__client="@ + token) == "__client="@ + token,
{
    let header = "__client="@ + token;
    reveal_strlit("__client=");
    let r = text::lemma_trim_shape(token, text::Edge::Space);
    assert(header[0] == '_');
    assert(header.last() == token.last());
    text::lemma_trim_fixed(header, text::Edge::Space);
    assert(!has_cookie_prefix(header)) by {
        reveal_strlit("cookie:");
        let low = header.take(7).map_values(|c: char| ascii_lower(c));
        assert(low[0] == '_');
        assert("cookie:"@[0] == 'c');
    }
}

proof fn lemma_bare_pair(token: Seq<char>)
    requires
        token.len() > 0,
        text::trimmed(token) == token,
    ensures
        cookie_pair("__client="@ + token) == Some(("__client"@, token)),
{
    let header = "__client="@ + token;
    lemma_bare_value(token);
    reveal_strlit("__client=");
    reveal_strlit("__client");
    assert(header[8] == '=');
    text::lemma_first_position(header, '=', 8);
    assert(header.contains('='));
    assert(header.take(8) =~= "__client"@);
    assert(header.skip(9) =~= token);
    text::lemma_trim_fixed("__client"@, text::Edge::Space);
}

proof fn lemma_bare_header(token: Seq<char>)
    requires
        token.len() > 0,
        text::trimmed(token) == token,
        !token.contains(';'),
    ensures
        header_cookies("__client="@ + token) == Map::<Seq<char>, Seq<char>>::empty().insert(
            "__client"@,
            token,
        ),
{
    let header = "__client="@ + token;
    lemma_bare_value(token);
    lemma_bare_pair(token);
    assert(!header.contains(';')) by {
        reveal_strlit("__client=");
        if header.contains(';') {
            let i = choose|i: int| 0 <= i < header.len() && header[i] == ';';
            assert(i >= 9);
            assert(token[i - 9] == ';');
        }
    }
    text::lemma_single_piece(header, ';');
    let parts = seq![header];
    assert(parts.drop_last() =~= Seq::<Seq<char>>::empty());
    assert(cookies_in(parts) == cookies_in(parts.drop_last()).insert("__client"@, token));
}

/// Reading the cookie header of a session that was read gives that session
/// again, unless the header itself still starts with the field name.
pub proof fn reading_again(input: Seq<char>)
    requires
        cookie_input(input) is Ok,
        !has_cookie_prefix(cookie_input(input)->Ok_0.cookie_header),
    ensures
        cookie_input(cookie_input(input)->Ok_0.cookie_header) == cookie_input(input),
{
    let auth = cookie_input(input)->Ok_0;
    let value = header_value(input);
    let cookies = header_cookies(value);
    text::trimming_twice(input, text::Edge::Space);
    text::trimming_twice(text::trimmed(input).skip(7), text::Edge::Space);
    assert(text::trimmed(value) == value);
    if cookies.contains_key("__client"@) && cookies["__client"@].len() > 0 {
        assert(auth.cookie_header == value);
        assert(header_value(value) == value);
    } else {
        lemma_bare_value(value);
        lemma_bare_header(value);
        reveal_strlit("__client");
        reveal_strlit("ajs_anonymous_id");
        assert("__client"@.len() != "ajs_anonymous_id"@.len());
    }
}

proof fn lemma_lower_letter(c: char, small: char, big: char)
    requires
        'a' <= small && small <= 'z',
        big as int == small as int - 32,
    ensures
        ascii_lower(c) == small <==> c == small || c == big,
{
}

proof fn lemma_prefix_letters(s: Seq<char>)
    ensures
        has_cookie_prefix(s) <==> s.len() >= 7 && forall|i: int|
            0 <= i < 7 ==> #[trigger] s[i] == "cookie:"@[i] || s[i] == "COOKIE:"@[i],
{
    reveal_strlit("cookie:");
    reveal_strlit("COOKIE:");
    let small = "cookie:"@;
    let big = "COOKIE:"@;
    if s.len() >= 7 {
        let low = s.take(7).map_values(|c: char| ascii_lower(c));
        assert forall|i: int| 0 <= i < 7 implies (#[trigger] low[i] == small[i] <==> s[i]
            == small[i] || s[i] == big[i]) by {
            assert(low[i] == ascii_lower(s[i]));
            if i < 6 {
                lemma_lower_letter(s[i], small[i], big[i]);
            }
        }
        if low =~= small {
            assert forall|i: int| 0 <= i < 7 implies #[trigger] s[i] == small[i] || s[i]
                == big[i] by {
                assert(low[i] == small[i]);
            }
        }
        if forall|i: int| 0 <= i < 7 ==> #[trigger] s[i] == small[i] || s[i] == big[i] {
            assert forall|i: int| 0 <= i < 7 implies #[trigger] low[i] == small[i] by {
                assert(s[i] == small[i] || s[i] == big[i]);
            }
            assert(low =~= small);
        }
    }
}

/// A field name in capital or small letters is taken off a header, with the
/// white space on either side of it and behind the value; nothing else is.
pub proof fn field_name_is_taken_off(
    a: Seq<char>,
    name: Seq<char>,
    value: Seq<char>,
    b: Seq<char>,
)
    requires
        forall|i: int| 0 <= i < a.len() ==> text::is_space(#[trigger] a[i]),
        forall|i: int| 0 <= i < b.len() ==> text::is_space(#[trigger] b[i]),
        name.len() == 7,
        forall|i: int|
            0 <= i < 7 ==> #[trigger] name[i] == "cookie:"@[i] || name[i] == "COOKIE:"@[i],
    ensures
        header_value(a + name + value + b) == text::trimmed(value),
{
    reveal_strlit("cookie:");
    reveal_strlit("COOKIE:");
    let r = text::trimming_is_exact(value, text::Edge::Space);
    let none = Seq::<char>::empty();
    let kept = value.take(r.1);
    let behind = value.skip(r.1) + b;
    assert(name[0] == 'c' || name[0] == 'C');
    assert(name[6] == ':');
    if r.0 == r.1 {
        let space = value + b;
        assert(a + name + value + b =~= a + name + space);
        assert forall|i: int| 0 <= i < space.len() implies text::is_space(#[trigger] space[i]) by {
            if i < value.len() {
                assert(space[i] == value[i]);
            }
        }
        text::trimming_keeps_middle(a, name, space, text::Edge::Space);
        lemma_prefix_letters(name);
        assert(name.skip(7) =~= none);
        text::trimming_keeps_middle(none, none, none, text::Edge::Space);
        assert(none + none + none =~= none);
        assert(text::trimmed(value) =~= none);
    } else {
        let middle = name + kept;
        assert(a + name + value + b =~= a + middle + behind);
        assert forall|i: int| 0 <= i < behind.len() implies text::is_space(
            #[trigger] behind[i],
        ) by {
            if i < value.len() - r.1 {
                assert(behind[i] == value[i + r.1]);
            }
        }
        assert(middle.last() == value[r.1 - 1]);
        assert(middle[0] == name[0]);
        text::trimming_keeps_middle(a, middle, behind, text::Edge::Space);
        assert forall|i: int| 0 <= i < 7 implies #[trigger] middle[i] == "cookie:"@[i] || middle[i]
            == "COOKIE:"@[i] by {
            assert(middle[i] == name[i]);
        }
        lemma_prefix_letters(middle);
        assert(middle.skip(7) =~= kept);
        let rest = value.skip(r.1);
        assert forall|i: int| 0 <= i < rest.len() implies text::is_space(#[trigger] rest[i]) by {
            assert(rest[i] == value[i + r.1]);
        }
        text::trimming_ignores_space(none, kept, rest);
        assert(none + kept + rest =~= value);
    }
}

/// A header that does not start with the field name is only trimmed.
pub proof fn other_headers_are_trimmed(input: Seq<char>)
    requires
        ({
            let t = text::trimmed(input);
            t.len() < 7 || exists|i: int|
                0 <= i < 7 && #[trigger] t[i] != "cookie:"@[i] && t[i] != "COOKIE:"@[i]
        }),
    ensures
        header_value(input) == text::trimmed(input),
{
    lemma_prefix_letters(text::trimmed(input));
}

/// A part with a `=` sets what is before its first `=` to what is behind it, each
/// without white space around it and otherwise whole; it sets nothing where the
/// name is empty.
pub proof fn pair_is_split_at_first_equals(name: Seq<char>, value: Seq<char>)
    requires
        !name.contains('='),
    ensures
        cookie_pair(name + seq!['='] + value) == if text::trimmed(name).len() == 0 {
            None
        } else {
            Some((text::trimmed(name), text::trimmed(value)))
        },
{
    let part = name + seq!['='] + value;
    let none = Seq::<char>::empty();
    let n = text::trimming_is_exact(name, text::Edge::Space);
    let v = text::trimming_is_exact(value, text::Edge::Space);
    let cut = if n.0 == n.1 {
        name.len() as int
    } else {
        n.0
    };
    let end = if v.0 == v.1 {
        0
    } else {
        v.1
    };
    let a = name.take(cut);
    let left = name.skip(cut);
    let right = value.take(end);
    let b = value.skip(end);
    assert forall|i: int| 0 <= i < a.len() implies text::is_space(#[trigger] a[i]) by {
        assert(a[i] == name[i]);
    }
    assert forall|i: int| 0 <= i < b.len() implies text::is_space(#[trigger] b[i]) by {
        assert(b[i] == value[i + end]);
    }
    let middle = left + seq!['='] + right;
    assert(part =~= a + middle + b);
    assert(middle.len() > 0);
    assert(!text::is_space(middle[0])) by {
        if left.len() > 0 {
            assert(middle[0] == name[cut]);
        } else {
            assert(middle[0] == '=');
        }
    }
    assert(!text::is_space(middle.last())) by {
        if right.len() > 0 {
            assert(middle.last() == value[end - 1]);
        } else {
            assert(middle.last() == '=');
        }
    }
    text::trimming_keeps_middle(a, middle, b, text::Edge::Space);
    assert forall|j: int| 0 <= j < left.len() implies middle[j] != '=' by {
        assert(middle[j] == name[j + cut]);
        assert(name.contains(name[j + cut]));
    }
    assert(middle[left.len() as int] == '=');
    text::lemma_first_position(middle, '=', left.len() as int);
    assert(middle.contains('='));
    assert(middle.take(left.len() as int) =~= left);
    assert(middle.skip(left.len() as int + 1) =~= right);
    text::trimming_ignores_space(a, left, none);
    assert(a + left + none =~= name);
    text::trimming_ignores_space(none, right, b);
    assert(none + right + b =~= value);
}

/// A part without `=` sets nothing.
pub proof fn part_without_equals_sets_nothing(part: Seq<char>)
    requires
        !part.contains('='),
    ensures
        cookie_pair(part) is None,
{
    let r = text::trimming_is_exact(part, text::Edge::Space);
    let t = text::trimmed(part);
    if t.contains('=') {
        let i = choose|i: int| 0 <= i < t.len() && t[i] == '=';
        assert(part[i + r.0] == '=');
    }
}

/// A name that no part sets is not set.
pub proof fn unset_names_are_absent(parts: Seq<Seq<char>>, name: Seq<char>)
    requires
        forall|j: int|
            0 <= j < parts.len() ==> (cookie_pair(#[trigger] parts[j]) matches Some(pair) ==> pair.0
                != name),
    ensures
        !cookies_in(parts).contains_key(name),
    decreases parts.len(),
{
    if parts.len() > 0 {
        let less = parts.drop_last();
        assert forall|j: int| 0 <= j < less.len() implies (cookie_pair(#[trigger] less[j]) matches Some(
            pair,
        ) ==> pair.0 != name) by {
            assert(less[j] == parts[j]);
        }
        unset_names_are_absent(less, name);
        assert(parts[parts.len() - 1] == parts.last());
    }
}

/// Whether the part at `i` is the last one that sets `name`, and to `value`.
pub open spec fn sets_last(
    parts: Seq<Seq<char>>,
    i: int,
    name: Seq<char>,
    value: Seq<char>,
) -> bool {
    &&& 0 <= i < parts.len()
    &&& cookie_pair(parts[i]) == Some((name, value))
    &&& forall|j: int|
        i < j < parts.len() ==> (cookie_pair(#[trigger] parts[j]) matches Some(pair) ==> pair.0
            != name)
}

/// A header whose last part for `__client` sets it to something is a session:
/// its client cookie is that value, whole, its cookie header is the header, and
/// its device is that of the last part for `ajs_anonymous_id`, if there is one.
pub proof fn client_of_header_is_whole(
    input: Seq<char>,
    r: Result<BrowserAuth, CliError>,
    i: int,
    client: Seq<char>,
)
    requires
        outcome(r) == cookie_input(input),
        sets_last(
            text::pieces(header_value(header_value(input)), ';'),
            i,
            "__client"@,
            client,
        ),
        client.len() > 0,
    ensures
        r matches Ok(auth) && {
            let parts = text::pieces(header_value(header_value(input)), ';');
            &&& auth.clerk_client_cookie@ == client
            &&& auth.cookie_header@ == header_value(input)
            &&& forall|k: int, device: Seq<char>| #[trigger]
                sets_last(parts, k, "ajs_anonymous_id"@, device) ==> match auth.device_id {
                    Some(id) => device_id_of(device) == Some(id@),
                    None => device_id_of(device) is None,
                }
            &&& (forall|k: int|
                0 <= k < parts.len() ==> (cookie_pair(#[trigger] parts[k]) matches Some(pair)
                    ==> pair.0 != "ajs_anonymous_id"@)) ==> auth.device_id is None
        },
{
    let parts = text::pieces(header_value(header_value(input)), ';');
    last_part_counts(parts, i, "__client"@, client);
    assert forall|k: int, device: Seq<char>| #[trigger]
        sets_last(parts, k, "ajs_anonymous_id"@, device) implies cookies_in(parts).contains_key(
        "ajs_anonymous_id"@,
    ) && cookies_in(parts)["ajs_anonymous_id"@] == device by {
        last_part_counts(parts, k, "ajs_anonymous_id"@, device);
    }
    if forall|k: int|
        0 <= k < parts.len() ==> (cookie_pair(#[trigger] parts[k]) matches Some(pair) ==> pair.0
            != "ajs_anonymous_id"@) {
        unset_names_are_absent(parts, "ajs_anonymous_id"@);
    }
}

/// A bare token, with or without white space or the field name before it, is a
/// session: the token is its client cookie, whole, and its cookie header sets
/// just that.
pub proof fn bare_token_is_whole(input: Seq<char>, r: Result<BrowserAuth, CliError>)
    requires
        outcome(r) == cookie_input(input),
        header_value(input).len() > 0,
        !header_value(input).contains(';'),
        !header_value(input).contains('='),
    ensures
        r matches Ok(auth) && {
            &&& auth.clerk_client_cookie@ == header_value(input)
            &&& auth.cookie_header@ == "__client="@ + header_value(input)
            &&& auth.device_id is None
        },
{
    let value = header_value(input);
    text::trimming_twice(input, text::Edge::Space);
    text::trimming_twice(text::trimmed(input).skip(7), text::Edge::Space);
    assert(text::trimmed(value) == value);
    let inner = header_value(value);
    lemma_value_is_part(value);
    let (a, b) = choose|a: int, b: int|
        0 <= a <= b <= value.len() && inner == #[trigger] value.subrange(a, b);
    assert(!inner.contains(';') && !inner.contains('=')) by {
        if inner.contains(';') {
            let i = choose|i: int| 0 <= i < inner.len() && inner[i] == ';';
            assert(value[i + a] == ';');
        }
        if inner.contains('=') {
            let i = choose|i: int| 0 <= i < inner.len() && inner[i] == '=';
            assert(value[i + a] == '=');
        }
    }
    text::lemma_single_piece(inner, ';');
    let parts = text::pieces(inner, ';');
    part_without_equals_sets_nothing(inner);
    unset_names_are_absent(parts, "__client"@);
}

proof fn lemma_value_is_part(input: Seq<char>)
    ensures
        exists|a: int, b: int|
            0 <= a <= b <= input.len() && header_value(input) == #[trigger] input.subrange(a, b),
{
    let t = text::trimmed(input);
    let r = text::trimming_is_exact(input, text::Edge::Space);
    if has_cookie_prefix(t) {
        let q = text::trimming_is_exact(t.skip(7), text::Edge::Space);
        assert(t.skip(7).subrange(q.0, q.1) =~= input.subrange(r.0 + 7 + q.0, r.0 + 7 + q.1));
    } else {
        assert(header_value(input) == input.subrange(r.0, r.1));
    }
}

/// What is neither a header with a client cookie nor a bare token is refused,
/// with a message that says which it is not.
pub proof fn other_input_is_refused(input: Seq<char>, r: Result<BrowserAuth, CliError>)
    requires
        outcome(r) == cookie_input(input),
        forall|i: int, client: Seq<char>| #[trigger]
            sets_last(
                text::pieces(header_value(header_value(input)), ';'),
                i,
                "__client"@,
                client,
            ) ==> client.len() == 0,
    ensures
        header_value(input).contains(';') || header_value(input).contains('=') ==> (r matches Err(
            e,
        ) && (e matches CliError::Config(m) && m@
            == "cookie header did not contain a __client field"@)),
        header_value(input).len() == 0 ==> (r matches Err(e) && (e matches CliError::Config(m)
            && m@ == "empty Clerk __client cookie"@)),
{
    let value = header_value(input);
    let parts = text::pieces(header_value(value), ';');
    text::trimming_twice(input, text::Edge::Space);
    text::trimming_twice(text::trimmed(input).skip(7), text::Edge::Space);
    assert(text::trimmed(value) == value);
    lemma_set_or_not(parts, "__client"@);
    if value.len() == 0 {
        assert(!value.contains(';') && !value.contains('='));
    }
}

proof fn lemma_set_or_not(parts: Seq<Seq<char>>, name: Seq<char>)
    ensures
        cookies_in(parts).contains_key(name) ==> exists|i: int|
            #[trigger] sets_last(parts, i, name, cookies_in(parts)[name]),
    decreases parts.len(),
{
    if parts.len() > 0 && cookies_in(parts).contains_key(name) {
        let less = parts.drop_last();
        let last = parts.len() - 1;
        let value = cookies_in(parts)[name];
        if cookie_pair(parts[last]) matches Some(pair) && pair.0 == name {
            assert(sets_last(parts, last, name, value));
        } else {
            lemma_set_or_not(less, name);
            let i = choose|i: int| #[trigger] sets_last(less, i, name, cookies_in(less)[name]);
            assert forall|j: int| i < j < parts.len() implies (cookie_pair(
                #[trigger] parts[j],
            ) matches Some(pair) ==> pair.0 != name) by {
                if j < less.len() {
                    assert(less[j] == parts[j]);
                }
            }
            assert(less[i] == parts[i]);
            assert(sets_last(parts, i, name, value));
        }
    }
}

/// A value is taken apart into quotes written `"` or `%22`, then `'`, then white
/// space on either side, and a device id, which is all that is between; there is
/// none where that is nothing or holds a `;`.
pub proof fn device_id_is_all_between(
    value: Seq<char>,
    a: (Seq<char>, Seq<char>, Seq<char>),
    id: Seq<char>,
    b: (Seq<char>, Seq<char>, Seq<char>),
)
    requires
        text::replaced(text::trimmed(value), "%22"@, "\""@) == a.0 + (a.1 + (a.2 + id + b.2) + b.1)
            + b.0,
        forall|i: int| 0 <= i < a.0.len() ==> #[trigger] a.0[i] == '"',
        forall|i: int| 0 <= i < b.0.len() ==> #[trigger] b.0[i] == '"',
        forall|i: int| 0 <= i < a.1.len() ==> #[trigger] a.1[i] == '\'',
        forall|i: int| 0 <= i < b.1.len() ==> #[trigger] b.1[i] == '\'',
        forall|i: int| 0 <= i < a.2.len() ==> text::is_space(#[trigger] a.2[i]),
        forall|i: int| 0 <= i < b.2.len() ==> text::is_space(#[trigger] b.2[i]),
        id.len() > 0 ==> !text::is_space(id[0]) && !text::is_space(id.last()),
        ({
            let inner = a.2 + id + b.2;
            let outer = a.1 + inner + b.1;
            &&& inner.len() > 0 ==> inner[0] != '\'' && inner.last() != '\''
            &&& outer.len() > 0 ==> outer[0] != '"' && outer.last() != '"'
        }),
    ensures
        device_id_of(value) == if id.len() == 0 || id.contains(';') {
            None
        } else {
            Some(id)
        },
{
    let inner = a.2 + id + b.2;
    let outer = a.1 + inner + b.1;
    text::trimming_keeps_middle(a.0, outer, b.0, text::Edge::Mark('"'));
    text::trimming_keeps_middle(a.1, inner, b.1, text::Edge::Mark('\''));
    text::trimming_keeps_middle(a.2, id, b.2, text::Edge::Space);
}

/// A session and an error hold what their fields hold.
pub proof fn outcomes_are_faithful(r: Result<BrowserAuth, CliError>)
    ensures
        match (r, outcome(r)) {
            (Ok(auth), Ok(model)) => {
                &&& model.clerk_client_cookie == auth.clerk_client_cookie@
                &&& model.cookie_header == auth.cookie_header@
                &&& match (auth.device_id, model.device_id) {
                    (Some(id), Some(t)) => t == id@,
                    (None, None) => true,
                    _ => false,
                }
            },
            (Err(e), Err(model)) => match (e, model) {
                (CliError::Config(m), ErrorModel::Config(t)) => t == m@,
                (CliError::Download(m), ErrorModel::Download(t)) => t == m@,
                (
                    CliError::Api { code, message },
                    ErrorModel::Api { code: c, message: t },
                ) => c == code@ && t == message@,
                (CliError::AuthMissing, ErrorModel::AuthMissing) => true,
                _ => false,
            },
            _ => false,
        },
{
}

/// The cookies of a header as they are read: under the name that a part sets
/// stands, whole, the value of the last part that sets it, and no other name is
/// there.
pub proof fn read_cookies_are_whole(
    input: Seq<char>,
    r: StringHashMap<String>,
    i: int,
    name: Seq<char>,
    value: Seq<char>,
)
    requires
        map_texts(r@) == header_cookies(input),
    ensures
        sets_last(text::pieces(header_value(input), ';'), i, name, value) ==> r@.contains_key(name)
            && r@[name]@ == value,
        (forall|j: int|
            0 <= j < text::pieces(header_value(input), ';').len() ==> (cookie_pair(
                #[trigger] text::pieces(header_value(input), ';')[j],
            ) matches Some(pair) ==> pair.0 != name)) ==> !r@.contains_key(name),
{
    let parts = text::pieces(header_value(input), ';');
    if sets_last(parts, i, name, value) {
        last_part_counts(parts, i, name, value);
        assert(map_texts(r@).contains_key(name));
        assert(map_texts(r@)[name] == r@[name]@);
    }
    if forall|j: int|
        0 <= j < parts.len() ==> (cookie_pair(#[trigger] parts[j]) matches Some(pair) ==> pair.0
            != name) {
        unset_names_are_absent(parts, name);
        assert(map_texts(r@).contains_key(name) == r@.contains_key(name));
    }
}

/// An optional text is the text of the string, whole, where there is one.
pub proof fn optional_texts_are_whole(o: Option<String>)
    ensures
        match (o, text_of(o)) {
            (Some(s), Some(t)) => t == s@,
            (None, None) => true,
            _ => false,
        },
{
}

} // verus!
