//! The talk with Clerk: what is asked, and what its answers mean.
use vstd::prelude::*;

use crate::errors::{CliError, ErrorModel};
use crate::json;
use crate::text;

verus! {

pub const CLERK_BASE: &'static str = "https://auth.suno.com";

pub const CLERK_JS_VERSION: &'static str = "5.117.0";

pub const CLERK_API_VERSION: &'static str = "2025-11-10";

/// How many bytes of an answer an error message shows in full, and how many
/// characters of a longer one.
pub const EXCERPT_MAX: usize = 500;

/// The query that every address of Clerk ends with.
pub open spec fn version_query() -> Seq<char> {
    "?__clerk_api_version="@ + CLERK_API_VERSION@ + "&_clerk_js_version="@ + CLERK_JS_VERSION@
}

/// The address of the client.
pub open spec fn client_url_text() -> Seq<char> {
    CLERK_BASE@ + "/v1/client"@ + version_query()
}

/// The address that tokens of a session are issued at.
pub open spec fn token_url_text(session_id: Seq<char>) -> Seq<char> {
    CLERK_BASE@ + "/v1/client/sessions/"@ + session_id + "/tokens"@ + version_query()
}

fn append_version_query(url: &mut String)
    ensures
        final(url)@ == old(url)@ + version_query(),
{
    let ghost start = url@;
    url.append("?__clerk_api_version=");
    url.append(CLERK_API_VERSION);
    url.append("&_clerk_js_version=");
    url.append(CLERK_JS_VERSION);
    assert(url@ =~= start + version_query());
}

/// The address of the client.
pub fn clerk_client_url() -> (r: String)
    ensures
        r@ == client_url_text(),
{
    let mut url = CLERK_BASE.to_owned();
    url.append("/v1/client");
    append_version_query(&mut url);
    url
}

/// The address that tokens of a session are issued at.
pub fn clerk_token_url(session_id: &str) -> (r: String)
    ensures
        r@ == token_url_text(session_id@),
{
    let mut url = CLERK_BASE.to_owned();
    url.append("/v1/client/sessions/");
    url.append(session_id);
    url.append("/tokens");
    append_version_query(&mut url);
    url
}

/// A request header as plain text: its name and its value.
pub type HeaderModel = (Seq<char>, Seq<char>);

/// The contents of a list of headers.
pub open spec fn header_texts(headers: Seq<(&'static str, String)>) -> Seq<HeaderModel> {
    headers.map_values(|h: (&'static str, String)| (h.0@, h.1@))
}

/// The headers that every request to Clerk carries.
pub open spec fn clerk_header_texts(clerk_cookie: Seq<char>) -> Seq<HeaderModel> {
    seq![
        ("authorization"@, clerk_cookie),
        ("cookie"@, "__client="@ + clerk_cookie),
        ("origin"@, "https://suno.com"@),
        ("referer"@, "https://suno.com/"@),
    ]
}

/// The headers that every request to Clerk carries.
pub fn clerk_headers(clerk_cookie: &str) -> (r: Vec<(&'static str, String)>)
    ensures
        header_texts(r@) == clerk_header_texts(clerk_cookie@),
{
    let mut cookie = "__client=".to_owned();
    cookie.append(clerk_cookie);
    let mut headers: Vec<(&'static str, String)> = Vec::new();
    headers.push(("authorization", clerk_cookie.to_owned()));
    headers.push(("cookie", cookie));
    headers.push(("origin", "https://suno.com".to_owned()));
    headers.push(("referer", "https://suno.com/".to_owned()));
    assert(header_texts(headers@) =~= clerk_header_texts(clerk_cookie@));
    headers
}

/// `body` with every line break turned into a space.
pub open spec fn on_one_line(body: Seq<char>) -> Seq<char> {
    body.map_values(
        |c: char|
            if c == '\n' || c == '\r' {
                ' '
            } else {
                c
            },
    )
}

/// The part of an answer that an error message shows.
pub open spec fn excerpt(body: Seq<char>) -> Seq<char> {
    let line = on_one_line(body);
    if vstd::utf8::encode_utf8(line).len() <= EXCERPT_MAX {
        line
    } else if line.len() <= EXCERPT_MAX {
        line + "..."@
    } else {
        line.take(EXCERPT_MAX as int) + "..."@
    }
}

/// The part of an answer that an error message shows: all of it on one line, or
/// its beginning if it is long.
pub fn response_excerpt(body: &str) -> (r: String)
    ensures
        r@ == excerpt(body@),
{
    let chars = text::chars_of(body);
    let n: usize = chars.len();
    let mut line: Vec<char> = Vec::new();
    for i in 0..n
        invariant
            n == chars@.len(),
            line@ == on_one_line(chars@.take(i as int)),
    {
        let c = chars[i];
        line.push(
            if c == '\n' || c == '\r' {
                ' '
            } else {
                c
            },
        );
        assert(line@ =~= on_one_line(chars@.take(i + 1)));
    }
    assert(chars@.take(n as int) =~= chars@);
    let whole = text::string_of(line.as_slice());
    if whole.as_str().as_bytes().len() <= EXCERPT_MAX {
        return whole;
    }
    let keep: usize = if n <= EXCERPT_MAX {
        n
    } else {
        EXCERPT_MAX
    };
    let mut out = whole.as_str().substring_char(0, keep).to_owned();
    out.append("...");
    assert(whole@.subrange(0, keep as int) =~= whole@.take(keep as int));
    assert(whole@.take(n as int) =~= whole@);
    out
}

/// How a request is sent.
#[derive(Debug, Clone, Copy, PartialEq, Eq, Structural)]
pub enum Method {
    Get,
    Post,
}

/// A request to Clerk.
#[derive(Debug)]
pub struct ClerkRequest {
    pub method: Method,
    pub url: String,
    pub headers: Vec<(&'static str, String)>,
}

/// The content of a [`ClerkRequest`] as plain text.
pub struct ClerkRequestModel {
    pub method: Method,
    pub url: Seq<char>,
    pub headers: Seq<HeaderModel>,
}

impl View for ClerkRequest {
    type V = ClerkRequestModel;

    open spec fn view(&self) -> ClerkRequestModel {
        ClerkRequestModel {
            method: self.method,
            url: self.url@,
            headers: header_texts(self.headers@),
        }
    }
}

/// The question for the client and its sessions.
pub open spec fn client_question(clerk_cookie: Seq<char>) -> ClerkRequestModel {
    ClerkRequestModel {
        method: Method::Get,
        url: client_url_text(),
        headers: clerk_header_texts(clerk_cookie),
    }
}

/// The question for a new token of a session.
pub open spec fn token_question(
    clerk_cookie: Seq<char>,
    session_id: Seq<char>,
) -> ClerkRequestModel {
    ClerkRequestModel {
        method: Method::Post,
        url: token_url_text(session_id),
        headers: clerk_header_texts(clerk_cookie).push(
            ("content-type"@, "application/x-www-form-urlencoded"@),
        ),
    }
}

/// The question for the client and its sessions.
pub fn client_request(clerk_cookie: &str) -> (r: ClerkRequest)
    ensures
        r@ == client_question(clerk_cookie@),
{
    ClerkRequest {
        method: Method::Get,
        url: clerk_client_url(),
        headers: clerk_headers(clerk_cookie),
    }
}

/// The question for a new token of a session.
pub fn token_request(clerk_cookie: &str, session_id: &str) -> (r: ClerkRequest)
    ensures
        r@ == token_question(clerk_cookie@, session_id@),
{
    let mut headers = clerk_headers(clerk_cookie);
    let ghost before = headers@;
    headers.push(("content-type", "application/x-www-form-urlencoded".to_owned()));
    assert(header_texts(headers@) =~= header_texts(before).push(
        ("content-type"@, "application/x-www-form-urlencoded"@),
    ));
    ClerkRequest { method: Method::Post, url: clerk_token_url(session_id), headers }
}

/// An answer of Clerk: one with an error status and the text that came with
/// it, or the JSON value of a successful one.
#[derive(Debug)]
pub enum ClerkReply {
    Refused { status: String, body: String },
    Answered(serde_json::Value),
}

/// The content of a [`ClerkReply`] as plain values.
pub enum ClerkReplyModel {
    Refused { status: Seq<char>, body: Seq<char> },
    Answered(json::Json),
}

impl View for ClerkReply {
    type V = ClerkReplyModel;

    open spec fn view(&self) -> ClerkReplyModel {
        match self {
            ClerkReply::Refused { status, body } => ClerkReplyModel::Refused {
                status: status@,
                body: body@,
            },
            ClerkReply::Answered(value) => ClerkReplyModel::Answered(json::json_of(*value)),
        }
    }
}

/// The text of an optional JSON value.
pub open spec fn member_text(o: Option<json::Json>) -> Option<Seq<char>> {
    match o {
        Some(v) => v.text(),
        None => None,
    }
}

/// The id of the first session that a client lists.
pub open spec fn first_session_id(client: json::Json) -> Option<Seq<char>> {
    match client.member("sessions"@) {
        Some(sessions) => match sessions.items() {
            Some(items) => if items.len() > 0 {
                member_text(items[0].member("id"@))
            } else {
                None
            },
            None => None,
        },
        None => None,
    }
}

/// The session of a client: the one last active, else the first one listed.
pub open spec fn session_id_in(body: json::Json) -> Option<Seq<char>> {
    match body.member("response"@) {
        Some(client) => match member_text(client.member("last_active_session_id"@)) {
            Some(id) => Some(id),
            None => first_session_id(client),
        },
        None => None,
    }
}

/// The session that an answer to [`client_question`] names.
pub open spec fn session_answer(reply: ClerkReplyModel) -> Result<Seq<char>, ErrorModel> {
    match reply {
        ClerkReplyModel::Refused { status, body } => Err(
            ErrorModel::Api {
                code: "clerk_exchange_failed"@,
                message: "Clerk token exchange failed ("@ + status + "): "@ + excerpt(body),
            },
        ),
        ClerkReplyModel::Answered(value) => match session_id_in(value) {
            Some(id) => Ok(id),
            None => Err(
                ErrorModel::Api {
                    code: "no_session"@,
                    message: "No active session found — log into suno.com in your browser first"@,
                },
            ),
        },
    }
}

/// The token that an answer to [`token_question`] gives.
pub open spec fn token_answer(reply: ClerkReplyModel) -> Result<Seq<char>, ErrorModel> {
    match reply {
        ClerkReplyModel::Refused { status, body } => Err(
            ErrorModel::Api {
                code: "clerk_refresh_failed"@,
                message: "Clerk JWT refresh failed ("@ + status + "): "@ + excerpt(body),
            },
        ),
        ClerkReplyModel::Answered(value) => match member_text(value.member("jwt"@)) {
            Some(jwt) => Ok(jwt),
            None => Err(
                ErrorModel::Api {
                    code: "no_jwt"@,
                    message:
                        "Clerk returned no JWT — session may have expired, run `suno auth login` again"@,
                },
            ),
        },
    }
}

/// The content of a text, or of the error in its place.
pub open spec fn text_answer(r: Result<String, CliError>) -> Result<Seq<char>, ErrorModel> {
    match r {
        Ok(s) => Ok(s@),
        Err(e) => Err(e@),
    }
}

fn text_member(value: &serde_json::Value, key: &str) -> (r: Option<String>)
    ensures
        match r {
            Some(s) => member_text(json::json_of(*value).member(key@)) == Some(s@),
            None => member_text(json::json_of(*value).member(key@)) is None,
        },
{
    match json::get(value, key) {
        Some(v) => match json::as_str(v) {
            Some(s) => Some(s.to_owned()),
            None => None,
        },
        None => None,
    }
}

fn refusal(code: &'static str, what: &str, status: &str, body: &str) -> (r: CliError)
    ensures
        r@ == (ErrorModel::Api { code: code@, message: what@ + status@ + "): "@ + excerpt(body@) }),
{
    let mut message = what.to_owned();
    message.append(status);
    message.append("): ");
    message.append(response_excerpt(body).as_str());
    CliError::Api { code, message }
}

fn first_session(client: &serde_json::Value) -> (r: Option<String>)
    ensures
        match r {
            Some(s) => first_session_id(json::json_of(*client)) == Some(s@),
            None => first_session_id(json::json_of(*client)) is None,
        },
{
    match json::get(client, "sessions") {
        Some(sessions) => match json::as_array(sessions) {
            Some(items) => {
                assert(json::json_items(items@).len() == items@.len());
                if items.len() > 0 {
                    assert(json::json_items(items@)[0] == json::json_of(items@[0]));
                    text_member(&items[0], "id")
                } else {
                    None
                }
            },
            None => None,
        },
        None => None,
    }
}

/// The session of a client: the one last active, else the first one listed.
pub fn session_id_of(body: &serde_json::Value) -> (r: Option<String>)
    ensures
        match r {
            Some(s) => session_id_in(json::json_of(*body)) == Some(s@),
            None => session_id_in(json::json_of(*body)) is None,
        },
{
    match json::get(body, "response") {
        Some(client) => match text_member(client, "last_active_session_id") {
            Some(id) => Some(id),
            None => first_session(client),
        },
        None => None,
    }
}

/// Reads the session out of the answer to [`client_request`].
pub fn session_from_reply(reply: ClerkReply) -> (r: Result<String, CliError>)
    ensures
        text_answer(r) == session_answer(reply@),
{
    match reply {
        ClerkReply::Refused { status, body } => Err(
            refusal(
                "clerk_exchange_failed",
                "Clerk token exchange failed (",
                status.as_str(),
                body.as_str(),
            ),
        ),
        ClerkReply::Answered(value) => match session_id_of(&value) {
            Some(id) => Ok(id),
            None => Err(
                CliError::Api {
                    code: "no_session",
                    message:
                        "No active session found — log into suno.com in your browser first".to_owned(),
                },
            ),
        },
    }
}

/// Reads the token out of the answer to [`token_request`].
pub fn jwt_from_reply(reply: ClerkReply) -> (r: Result<String, CliError>)
    ensures
        text_answer(r) == token_answer(reply@),
{
    match reply {
        ClerkReply::Refused { status, body } => Err(
            refusal(
                "clerk_refresh_failed",
                "Clerk JWT refresh failed (",
                status.as_str(),
                body.as_str(),
            ),
        ),
        ClerkReply::Answered(value) => match text_member(&value, "jwt") {
            Some(jwt) => Ok(jwt),
            None => Err(
                CliError::Api {
                    code: "no_jwt",
                    message:
                        "Clerk returned no JWT — session may have expired, run `suno auth login` again".to_owned(),
                },
            ),
        },
    }
}

/// The second step of an exchange: reads the session out of the first answer
/// and asks for a token of it.
pub fn exchange_session(clerk_cookie: &str, reply: ClerkReply) -> (r: Result<
    (String, ClerkRequest),
    CliError,
>)
    ensures
        match r {
            Ok(step) => session_answer(reply@) == Ok::<Seq<char>, ErrorModel>(step.0@) && step.1@
                == token_question(clerk_cookie@, step.0@),
            Err(e) => session_answer(reply@) == Err::<Seq<char>, ErrorModel>(e@),
        },
{
    match session_from_reply(reply) {
        Ok(session_id) => {
            let request = token_request(clerk_cookie, session_id.as_str());
            Ok((session_id, request))
        },
        Err(e) => Err(e),
    }
}

/// What an error message shows of an answer holds no line break, and is at most
/// three characters longer than the limit.
pub proof fn excerpt_is_short(body: Seq<char>)
    ensures
        excerpt(body).len() <= EXCERPT_MAX + 3,
        !excerpt(body).contains('\n'),
        !excerpt(body).contains('\r'),
{
    reveal_strlit("...");
    let line = on_one_line(body);
    lemma_width(line);
    assert forall|i: int| 0 <= i < excerpt(body).len() implies excerpt(body)[i] != '\n'
        && excerpt(body)[i] != '\r' by {
        if i < line.len() {
            assert(line[i] != '\n' && line[i] != '\r');
        }
    }
}

/// A text has at least as many bytes as characters.
proof fn lemma_width(s: Seq<char>)
    ensures
        vstd::utf8::encode_utf8(s).len() >= s.len(),
    decreases s.len(),
{
    if s.len() > 0 {
        lemma_width(s.drop_first());
        vstd::utf8::encode_utf8_first_scalar(s);
    }
}

/// Both questions of an exchange carry the same session cookie, and the second
/// one is for the session that the first answer named.
pub proof fn exchange_stays_in_session(
    clerk_cookie: Seq<char>,
    reply: ClerkReplyModel,
    session_id: Seq<char>,
)
    requires
        session_answer(reply) == Ok::<Seq<char>, ErrorModel>(session_id),
    ensures
        reply matches ClerkReplyModel::Answered(value) && session_id_in(value) == Some(session_id),
        token_question(clerk_cookie, session_id).headers.take(4) == client_question(
            clerk_cookie,
        ).headers,
        text::has_text(token_question(clerk_cookie, session_id).url, session_id),
{
    let first = client_question(clerk_cookie).headers;
    let second = token_question(clerk_cookie, session_id).headers;
    assert(second.take(4) =~= first);
    let before = CLERK_BASE@ + "/v1/client/sessions/"@;
    let after = "/tokens"@ + version_query();
    assert(session_id.subrange(0, session_id.len() as int) =~= session_id);
    assert(text::occurs_at(session_id, session_id, 0));
    text::lemma_has_text_within(session_id, before, after, session_id);
    assert(before + session_id + after =~= token_url_text(session_id));
}

/// Every request goes to Clerk over its address and carries the session cookie,
/// whole, in two headers, and the site it comes from in two more; the one for a
/// token names the session, whole, in its address and is a form.
pub proof fn requests_carry_cookie_and_session(
    clerk_cookie: &str,
    session_id: &str,
    client: ClerkRequest,
    token: ClerkRequest,
)
    requires
        client@ == client_question(clerk_cookie@),
        token@ == token_question(clerk_cookie@, session_id@),
    ensures
        client.method == Method::Get,
        token.method == Method::Post,
        client.url@
            == "https://auth.suno.com/v1/client?__clerk_api_version=2025-11-10&_clerk_js_version=5.117.0"@,
        token.url@ == "https://auth.suno.com/v1/client/sessions/"@ + session_id@
            + "/tokens?__clerk_api_version=2025-11-10&_clerk_js_version=5.117.0"@,
        client.headers@.len() == 4,
        token.headers@.len() == 5,
        token.headers@[4].0@ == "content-type"@,
        token.headers@[4].1@ == "application/x-www-form-urlencoded"@,
        forall|request: ClerkRequest|
            request == client || request == token ==> {
                &&& (#[trigger] request.headers)@[0].0@ == "authorization"@
                &&& request.headers@[0].1@ == clerk_cookie@
                &&& request.headers@[1].0@ == "cookie"@
                &&& request.headers@[1].1@ == "__client="@ + clerk_cookie@
                &&& request.headers@[2].0@ == "origin"@
                &&& request.headers@[2].1@ == "https://suno.com"@
                &&& request.headers@[3].0@ == "referer"@
                &&& request.headers@[3].1@ == "https://suno.com/"@
            },
{
    let c = header_texts(client.headers@);
    let t = header_texts(token.headers@);
    assert(c.len() == client.headers@.len());
    assert(t.len() == token.headers@.len());
    assert forall|i: int| 0 <= i < 4 implies #[trigger] client.headers@[i].0@ == c[i].0
        && client.headers@[i].1@ == c[i].1 by {}
    assert forall|i: int| 0 <= i < 5 implies #[trigger] token.headers@[i].0@ == t[i].0
        && token.headers@[i].1@ == t[i].1 by {}
    assert(t.take(4) =~= c);
    assert(forall|i: int| 0 <= i < 4 ==> #[trigger] t[i] == c[i]);
    lemma_addresses(session_id@);
}

proof fn lemma_addresses(session_id: Seq<char>)
    ensures
        client_url_text()
            == "https://auth.suno.com/v1/client?__clerk_api_version=2025-11-10&_clerk_js_version=5.117.0"@,
        token_url_text(session_id) == "https://auth.suno.com/v1/client/sessions/"@ + session_id
            + "/tokens?__clerk_api_version=2025-11-10&_clerk_js_version=5.117.0"@,
{
    reveal_strlit("https://auth.suno.com");
    reveal_strlit("/v1/client");
    reveal_strlit("/v1/client/sessions/");
    reveal_strlit("/tokens");
    reveal_strlit("?__clerk_api_version=");
    reveal_strlit("2025-11-10");
    reveal_strlit("&_clerk_js_version=");
    reveal_strlit("5.117.0");
    reveal_strlit(
        "https://auth.suno.com/v1/client?__clerk_api_version=2025-11-10&_clerk_js_version=5.117.0",
    );
    reveal_strlit("https://auth.suno.com/v1/client/sessions/");
    reveal_strlit("/tokens?__clerk_api_version=2025-11-10&_clerk_js_version=5.117.0");
    assert(client_url_text()
        =~= "https://auth.suno.com/v1/client?__clerk_api_version=2025-11-10&_clerk_js_version=5.117.0"@);
    assert(CLERK_BASE@ + "/v1/client/sessions/"@ =~= "https://auth.suno.com/v1/client/sessions/"@);
    assert("/tokens"@ + version_query()
        =~= "/tokens?__clerk_api_version=2025-11-10&_clerk_js_version=5.117.0"@);
    assert(token_url_text(session_id) =~= "https://auth.suno.com/v1/client/sessions/"@ + session_id
        + "/tokens?__clerk_api_version=2025-11-10&_clerk_js_version=5.117.0"@);
}

/// The session of an answer: the one last active where it is named as a text,
/// whatever else is listed; else the first one listed, where its id is a text;
/// else there is none.
pub proof fn session_is_last_active_or_first(
    value: serde_json::Value,
    r: Result<String, CliError>,
    body: Map<Seq<char>, json::Json>,
    client: Map<Seq<char>, json::Json>,
)
    requires
        text_answer(r) == session_answer(ClerkReply::Answered(value)@),
        json::json_of(value) == json::Json::Object(body),
        body.contains_key("response"@),
        body["response"@] == json::Json::Object(client),
    ensures
        client.contains_key("last_active_session_id"@) && client["last_active_session_id"@] is Text
            ==> (r matches Ok(s) && s@ == client["last_active_session_id"@]->Text_0),
        !(client.contains_key("last_active_session_id"@)
            && client["last_active_session_id"@] is Text) ==> {
            let listed = client.contains_key("sessions"@) && client["sessions"@] is Array
                && client["sessions"@]->Array_0.len() > 0
                && client["sessions"@]->Array_0[0] is Object
                && client["sessions"@]->Array_0[0]->Object_0.contains_key("id"@)
                && client["sessions"@]->Array_0[0]->Object_0["id"@] is Text;
            &&& listed ==> (r matches Ok(s) && s@
                == client["sessions"@]->Array_0[0]->Object_0["id"@]->Text_0)
            &&& !listed ==> (r matches Err(e) && is_no_session(e))
        },
{
}

/// Whether an error says that there is no session.
pub open spec fn is_no_session(e: CliError) -> bool {
    e matches CliError::Api { code, message } && code@ == "no_session"@ && message@
        == "No active session found — log into suno.com in your browser first"@
}

/// An answer that holds no client names no session.
pub proof fn answer_without_client_has_no_session(
    value: serde_json::Value,
    r: Result<String, CliError>,
)
    requires
        text_answer(r) == session_answer(ClerkReply::Answered(value)@),
        json::json_of(value) matches json::Json::Object(body) ==> !(body.contains_key("response"@)
            && body["response"@] is Object),
    ensures
        r matches Err(e) && is_no_session(e),
{
}

/// A token is the text of the member `jwt`, whole, whatever other members there
/// are; without such a text there is an error that says so.
pub proof fn token_is_the_jwt_member(value: serde_json::Value, r: Result<String, CliError>)
    requires
        text_answer(r) == token_answer(ClerkReply::Answered(value)@),
    ensures
        match json::json_of(value) {
            json::Json::Object(body) => if body.contains_key("jwt"@) && body["jwt"@] is Text {
                r matches Ok(s) && s@ == body["jwt"@]->Text_0
            } else {
                r matches Err(e) && is_no_jwt(e)
            },
            _ => r matches Err(e) && is_no_jwt(e),
        },
{
}

/// Whether an error says that Clerk gave no token.
pub open spec fn is_no_jwt(e: CliError) -> bool {
    e matches CliError::Api { code, message } && code@ == "no_jwt"@ && message@
        == "Clerk returned no JWT — session may have expired, run `suno auth login` again"@
}

/// A refusal gives an error of its own kind for each question, which shows the
/// status, whole, and an excerpt of what came with it.
pub proof fn refusals_are_shown(
    status: String,
    body: String,
    session: Result<String, CliError>,
    token: Result<String, CliError>,
)
    requires
        text_answer(session) == session_answer(ClerkReply::Refused { status, body }@),
        text_answer(token) == token_answer(ClerkReply::Refused { status, body }@),
    ensures
        session matches Err(e) && (e matches CliError::Api { code, message } && code@
            == "clerk_exchange_failed"@ && message@ == "Clerk token exchange failed ("@ + status@
            + "): "@ + excerpt(body@)),
        token matches Err(e) && (e matches CliError::Api { code, message } && code@
            == "clerk_refresh_failed"@ && message@ == "Clerk JWT refresh failed ("@ + status@
            + "): "@ + excerpt(body@)),
{
}

/// An excerpt is the answer character by character, with a space for each line
/// break: all of it where it has 500 bytes or fewer, else its first 500
/// characters, or all where there are no more, and three dots.
pub proof fn excerpt_is_the_beginning(body: Seq<char>, line: Seq<char>)
    requires
        line.len() == body.len(),
        forall|i: int|
            0 <= i < body.len() ==> #[trigger] line[i] == if body[i] == '\n' || body[i] == '\r' {
                ' '
            } else {
                body[i]
            },
    ensures
        vstd::utf8::encode_utf8(line).len() <= 500 ==> excerpt(body) == line,
        vstd::utf8::encode_utf8(line).len() > 500 ==> {
            let kept = if line.len() < 500 {
                line.len() as int
            } else {
                500
            };
            excerpt(body) == line.take(kept) + seq!['.', '.', '.']
        },
{
    reveal_strlit("...");
    assert("..."@ =~= seq!['.', '.', '.']);
    assert(on_one_line(body) =~= line);
    assert(line.take(line.len() as int) =~= line);
}

} // verus!
