//! The stored authentication and when its token has to be renewed, and the
//! token that stands for the browser.
use vstd::prelude::*;

use crate::clock;
use crate::cookies;
use crate::encoding;
use crate::json;
use crate::text;

verus! {

/// A token with less life left than this many seconds counts as expired.
pub const REFRESH_MARGIN_SECONDS: u64 = 1800;

/// The authentication that is kept between runs.
#[derive(Debug, Clone)]
pub struct AuthState {
    pub jwt: Option<String>,
    pub cookie: Option<String>,
    pub session_id: Option<String>,
    pub device_id: Option<String>,
    /// The `__client` cookie of the Clerk domain, which lives for days.
    pub clerk_client_cookie: Option<String>,
}

impl Default for AuthState {
    fn default() -> (r: Self)
        ensures
            r.jwt is None,
            r.cookie is None,
            r.session_id is None,
            r.device_id is None,
            r.clerk_client_cookie is None,
    {
        AuthState {
            jwt: None,
            cookie: None,
            session_id: None,
            device_id: None,
            clerk_client_cookie: None,
        }
    }
}

/// The claims of a token: the middle one of its three parts.
pub open spec fn claims_part(jwt: Seq<char>) -> Option<Seq<char>> {
    let parts = text::pieces(jwt, '.');
    if parts.len() == 3 {
        Some(parts[1])
    } else {
        None
    }
}

/// The expiry that decoded claims state.
pub open spec fn expiry_of(claims: json::Json) -> Option<u64> {
    match claims.member("exp"@) {
        Some(v) => v.unsigned(),
        None => None,
    }
}

/// The expiry of a token, where it can be read.
pub open spec fn jwt_expiry(jwt: Seq<char>) -> Option<u64> {
    match claims_part(jwt) {
        Some(part) => match encoding::base64url_bytes(part) {
            Some(bytes) => match json::json_text(bytes) {
                Some(claims) => expiry_of(claims),
                None => None,
            },
            None => None,
        },
        None => None,
    }
}

/// Whether an expiry is due for renewal at the given second: it is not known,
/// or it is not further away than the margin.
pub open spec fn is_due(expiry: Option<u64>, now: u64) -> bool {
    match expiry {
        Some(exp) => now + REFRESH_MARGIN_SECONDS >= exp,
        None => true,
    }
}

/// The claims of a token: the middle one of its three parts.
pub fn jwt_claims(jwt: &str) -> (r: Option<String>)
    ensures
        cookies::text_of(r) == claims_part(jwt@),
{
    let chars = text::chars_of(jwt);
    let parts = text::split(chars.as_slice(), '.');
    assert(text::char_texts(parts@).len() == parts@.len());
    if parts.len() != 3 {
        return None;
    }
    assert(text::char_texts(parts@)[1] == parts@[1]@);
    Some(text::string_of(parts[1].as_slice()))
}

/// The expiry that decoded claims state.
pub fn expiry_claim(claims: &serde_json::Value) -> (r: Option<u64>)
    ensures
        r == expiry_of(json::json_of(*claims)),
{
    match json::get(claims, "exp") {
        Some(v) => json::as_u64(v),
        None => None,
    }
}

/// Whether an expiry is due for renewal at the given second.
pub fn needs_renewal(expiry: Option<u64>, now: u64) -> (r: bool)
    ensures
        r == is_due(expiry, now),
{
    match expiry {
        Some(exp) => exp <= REFRESH_MARGIN_SECONDS || now >= exp - REFRESH_MARGIN_SECONDS,
        None => true,
    }
}

impl AuthState {
    /// The expiry of the stored token, where there is one and it can be read.
    pub open spec fn expiry(self) -> Option<u64> {
        match self.jwt {
            Some(jwt) => jwt_expiry(jwt@),
            None => None,
        }
    }

    /// Whether the stored token has to be renewed at the given second.
    pub fn is_jwt_expired_at(&self, now: u64) -> (r: bool)
        ensures
            r == is_due(self.expiry(), now),
    {
        let jwt = match &self.jwt {
            Some(jwt) => jwt,
            None => {
                return true;
            },
        };
        let claims = match jwt_claims(jwt.as_str()) {
            Some(claims) => claims,
            None => {
                return true;
            },
        };
        let decoded = match encoding::decode_url_safe(claims.as_str()) {
            Some(decoded) => decoded,
            None => {
                return true;
            },
        };
        match json::parse(decoded.as_slice()) {
            Some(value) => needs_renewal(expiry_claim(&value), now),
            None => true,
        }
    }

    /// Whether the stored token has to be renewed at the time that the system
    /// clock shows. Tokens are renewed well before they expire: the service
    /// turns down tokens that are half an hour old though they claim to be valid
    /// for an hour.
    pub fn is_jwt_expired(&self) -> (r: bool)
        ensures
            exists|t: std::time::SystemTime, now: u64|
                now == #[trigger] clock::seconds_at(t) && r == #[trigger] is_due(
                    self.expiry(),
                    now,
                ),
    {
        let time = clock::unix_time();
        let now: u64 = clock::seconds_of(&time);
        let r = self.is_jwt_expired_at(now);
        proof {
            let t = choose|t: std::time::SystemTime|
                clock::nanos_of(time) == #[trigger] clock::epoch_nanos(t);
            assert(now == clock::seconds_at(t));
            assert(r == is_due(self.expiry(), now));
        }
        r
    }
}

/// The payload of a browser token: the time in milliseconds.
pub open spec fn timestamp_text(ms: nat) -> Seq<char> {
    "{\"timestamp\":"@ + text::decimal(ms) + "}"@
}

/// The header value that carries an encoded payload.
pub open spec fn token_text(encoded: Seq<char>) -> Seq<char> {
    "{\"token\":\""@ + encoded + "\"}"@
}

/// The payload of a browser token in Base64.
pub open spec fn encoded_timestamp(ms: nat) -> Seq<char> {
    encoding::base64_text(vstd::utf8::encode_utf8(timestamp_text(ms)))
}

/// The browser token of the given millisecond.
pub open spec fn browser_token_text(ms: nat) -> Seq<char> {
    token_text(encoded_timestamp(ms))
}

/// The payload of a browser token: the time in milliseconds.
pub fn timestamp_payload(ms: u128) -> (r: String)
    ensures
        r@ == timestamp_text(ms as nat),
{
    let mut out = "{\"timestamp\":".to_owned();
    out.append(text::to_decimal(ms).as_str());
    out.append("}");
    out
}

/// The header value that carries an encoded payload.
pub fn token_header(encoded: &str) -> (r: String)
    ensures
        r@ == token_text(encoded@),
{
    let mut out = "{\"token\":\"".to_owned();
    out.append(encoded);
    out.append("\"}");
    out
}

/// The browser token of the given millisecond.
pub fn browser_token_at(ms: u128) -> (r: String)
    ensures
        r@ == browser_token_text(ms as nat),
        forall|i: int|
            0 <= i < encoded_timestamp(ms as nat).len() ==> encoding::is_base64_char(
                #[trigger] encoded_timestamp(ms as nat)[i],
            ),
{
    let payload = timestamp_payload(ms);
    let encoded = encoding::encode(payload.as_str().as_bytes());
    token_header(encoded.as_str())
}

/// The value of the browser token header, made from the time that the system
/// clock shows.
pub fn browser_token() -> (r: String)
    ensures
        exists|t: std::time::SystemTime| r@ == browser_token_text(#[trigger] clock::millis_at(t)),
{
    let time = clock::unix_time();
    let ms: u128 = clock::millis_of(&time);
    proof {
        let t = choose|t: std::time::SystemTime|
            clock::nanos_of(time) == #[trigger] clock::epoch_nanos(t);
        assert(ms == clock::millis_at(t));
    }
    browser_token_at(ms)
}

/// A token that has to be renewed stays so until it is.
pub proof fn due_stays_due(expiry: Option<u64>, now: u64, later: u64)
    requires
        is_due(expiry, now),
        now <= later,
    ensures
        is_due(expiry, later),
{
}

/// A token that need not be renewed is valid for longer than the margin.
pub proof fn fresh_token_lasts(expiry: Option<u64>, now: u64)
    requires
        !is_due(expiry, now),
    ensures
        expiry is Some,
        expiry->0 > now + REFRESH_MARGIN_SECONDS,
{
}

/// A text that is not three parts between dots is no token: it has to be
/// renewed at any time.
pub proof fn no_token_is_due(jwt: Seq<char>, now: u64)
    requires
        text::pieces(jwt, '.').len() != 3,
    ensures
        is_due(jwt_expiry(jwt), now),
{
}

/// The claims of a token are the middle one of its three parts, whole.
pub proof fn claims_are_the_middle(
    jwt: &str,
    r: Option<String>,
    head: Seq<char>,
    claims: Seq<char>,
    tail: Seq<char>,
)
    requires
        cookies::text_of(r) == claims_part(jwt@),
        jwt@ == head + seq!['.'] + claims + seq!['.'] + tail,
        !head.contains('.'),
        !claims.contains('.'),
        !tail.contains('.'),
    ensures
        r matches Some(c) && c@ == claims,
{
    lemma_three_parts(head, claims, tail);
}

proof fn lemma_three_parts(head: Seq<char>, claims: Seq<char>, tail: Seq<char>)
    requires
        !head.contains('.'),
        !claims.contains('.'),
        !tail.contains('.'),
    ensures
        text::pieces(head + seq!['.'] + claims + seq!['.'] + tail, '.') == seq![
            head,
            claims,
            tail,
        ],
{
    let parts = seq![head, claims, tail];
    text::splitting_undoes_joining(parts, '.');
    text::joining_in_two(seq![head], seq![claims], seq!['.']);
    text::joining_in_two(seq![claims], seq![tail], seq!['.']);
    text::joining_in_two(seq![tail], seq![tail], seq!['.']);
    text::joining_in_two(seq![head, claims], seq![tail], seq!['.']);
    assert(seq![head] + seq![claims] =~= seq![head, claims]);
    assert(seq![head, claims] + seq![tail] =~= parts);
}

/// Claims that are an object state the integer of their member `exp` as the
/// expiry, whatever other members there are; they state none where that member
/// is missing or is no unsigned integer, and neither do other values.
pub proof fn expiry_is_the_exp_member(claims: serde_json::Value, r: Option<u64>)
    requires
        r == expiry_of(json::json_of(claims)),
    ensures
        match json::json_of(claims) {
            json::Json::Object(members) => {
                &&& members.contains_key("exp"@) ==> r == (match members["exp"@] {
                    json::Json::Number(e) => e,
                    _ => None,
                })
                &&& !members.contains_key("exp"@) ==> r is None
            },
            _ => r is None,
        },
{
}

/// A token in three parts whose claims read as an object with the unsigned
/// integer `e` under `exp` has to be renewed at a second exactly if less than
/// half an hour, or just that, is left until `e`.
pub proof fn token_is_due_by_its_expiry(
    state: AuthState,
    now: u64,
    head: Seq<char>,
    claims: Seq<char>,
    tail: Seq<char>,
    bytes: Seq<u8>,
    members: Map<Seq<char>, json::Json>,
    e: u64,
)
    requires
        state.jwt matches Some(jwt) && jwt@ == head + seq!['.'] + claims + seq!['.'] + tail,
        !head.contains('.'),
        !claims.contains('.'),
        !tail.contains('.'),
        encoding::base64url_bytes(claims) == Some(bytes),
        json::json_text(bytes) == Some(json::Json::Object(members)),
        members.contains_key("exp"@),
        members["exp"@] == json::Json::Number(Some(e)),
    ensures
        is_due(state.expiry(), now) <==> now + 1800 >= e,
{
    lemma_three_parts(head, claims, tail);
}

/// A token that cannot be read has to be renewed at any time: there is none, it
/// is not in three parts, its claims do not decode or are no JSON, or they state
/// no expiry.
pub proof fn unreadable_token_is_due(state: AuthState, now: u64)
    requires
        match state.jwt {
            None => true,
            Some(jwt) => {
                let parts = text::pieces(jwt@, '.');
                ||| parts.len() != 3
                ||| encoding::base64url_bytes(parts[1]) is None
                ||| json::json_text(encoding::base64url_bytes(parts[1])->0) is None
                ||| json::json_text(
                    encoding::base64url_bytes(parts[1])->0,
                )->0 !is Object
                ||| !json::json_text(
                    encoding::base64url_bytes(parts[1])->0,
                )->0->Object_0.contains_key("exp"@)
            },
        },
    ensures
        is_due(state.expiry(), now),
{
}

/// A browser token is a JSON text of one member that holds the Base64 of a JSON
/// text of one member, whose numeral stands for the millisecond.
pub proof fn browser_token_holds_millisecond(ms: nat)
    ensures
        exists|numeral: Seq<char>| #[trigger]
            text::numeral_value(numeral) == ms && text::is_numeral(numeral)
                && browser_token_text(ms) == "{\"token\":\""@
                + encoding::base64_text(
                vstd::utf8::encode_utf8("{\"timestamp\":"@ + numeral + "}"@),
            ) + "\"}"@,
{
    text::numerals_read_back(ms);
    assert(text::numeral_value(text::decimal(ms)) == ms);
}

} // verus!
