//! The cookies of one browser profile, and the session that they hold.
use vstd::prelude::*;

use crate::cookies;
use crate::cookies::{sanitize_device_id, BrowserAuth, BrowserAuthModel};
use crate::text;

verus! {

/// A cookie as a browser profile stores it.
#[derive(Debug, Clone)]
pub struct Cookie {
    pub domain: String,
    pub name: String,
    pub value: String,
}

/// The content of a [`Cookie`] as plain text.
pub struct CookieModel {
    pub domain: Seq<char>,
    pub name: Seq<char>,
    pub value: Seq<char>,
}

impl View for Cookie {
    type V = CookieModel;

    open spec fn view(&self) -> CookieModel {
        CookieModel { domain: self.domain@, name: self.name@, value: self.value@ }
    }
}

/// The contents of a sequence of cookies.
pub open spec fn contents(jar: Seq<Cookie>) -> Seq<CookieModel> {
    jar.map_values(|c: Cookie| c@)
}

impl CookieModel {
    /// Whether the cookie belongs to Suno.
    pub open spec fn is_suno(self) -> bool {
        text::has_text(self.domain, "suno.com"@)
    }

    /// Whether the cookie holds a Clerk session of Suno.
    pub open spec fn is_client(self) -> bool {
        self.is_suno() && self.name == "__client"@ && self.value.len() > 0
    }

    /// Whether the cookie comes from the domain that Clerk runs on.
    pub open spec fn is_auth_domain(self) -> bool {
        text::has_text(self.domain, "auth.suno.com"@)
    }

    /// Whether the cookie has the same name and domain as `other`.
    pub open spec fn same_key(self, other: CookieModel) -> bool {
        self.name == other.name && self.domain == other.domain
    }

    /// The cookie as it stands in a cookie header.
    pub open spec fn assignment(self) -> Seq<char> {
        self.name + "="@ + self.value
    }
}

/// The value of the last session cookie from the authentication domain.
pub open spec fn auth_client(jar: Seq<CookieModel>) -> Option<Seq<char>>
    decreases jar.len(),
{
    if jar.len() == 0 {
        None
    } else if jar.last().is_client() && jar.last().is_auth_domain() {
        Some(jar.last().value)
    } else {
        auth_client(jar.drop_last())
    }
}

/// The value of the first session cookie from another Suno domain.
pub open spec fn other_client(jar: Seq<CookieModel>) -> Option<Seq<char>>
    decreases jar.len(),
{
    if jar.len() == 0 {
        None
    } else if other_client(jar.drop_last()) is Some {
        other_client(jar.drop_last())
    } else if jar.last().is_client() && !jar.last().is_auth_domain() {
        Some(jar.last().value)
    } else {
        None
    }
}

/// The first usable device id.
pub open spec fn jar_device(jar: Seq<CookieModel>) -> Option<Seq<char>>
    decreases jar.len(),
{
    if jar.len() == 0 {
        None
    } else if jar_device(jar.drop_last()) is Some {
        jar_device(jar.drop_last())
    } else if jar.last().is_suno() && jar.last().name == "ajs_anonymous_id"@ {
        cookies::device_id_of(jar.last().value)
    } else {
        None
    }
}

/// Whether a Suno cookie of `jar` has the name and the domain of `c`.
pub open spec fn has_key(jar: Seq<CookieModel>, c: CookieModel) -> bool {
    exists|i: int| 0 <= i < jar.len() && (#[trigger] jar[i]).is_suno() && jar[i].same_key(c)
}

/// The parts of the cookie header: the Suno cookies in order, of those with
/// one name and domain the first.
pub open spec fn header_parts(jar: Seq<CookieModel>) -> Seq<Seq<char>>
    decreases jar.len(),
{
    if jar.len() == 0 {
        Seq::<Seq<char>>::empty()
    } else if jar.last().is_suno() && !has_key(jar.drop_last(), jar.last()) {
        header_parts(jar.drop_last()).push(jar.last().assignment())
    } else {
        header_parts(jar.drop_last())
    }
}

/// The session that a cookie jar holds: a session cookie of the authentication
/// domain goes before one of another domain.
pub open spec fn session_in(jar: Seq<CookieModel>) -> Option<BrowserAuthModel> {
    let client = if auth_client(jar) is Some {
        auth_client(jar)
    } else {
        other_client(jar)
    };
    match client {
        Some(value) => Some(
            BrowserAuthModel {
                clerk_client_cookie: value,
                cookie_header: text::joined(header_parts(jar), "; "@),
                device_id: jar_device(jar),
            },
        ),
        None => None,
    }
}

/// The content of an optional session.
pub open spec fn session_of(o: Option<BrowserAuth>) -> Option<BrowserAuthModel> {
    match o {
        Some(auth) => Some(auth@),
        None => None,
    }
}

fn known_key(jar: &Vec<Cookie>, kept: &Vec<usize>, upto: usize) -> (r: bool)
    requires
        upto < jar@.len(),
        forall|k: int|
            0 <= k < kept@.len() ==> (#[trigger] kept@[k]) < upto && contents(
                jar@,
            )[kept@[k] as int].is_suno(),
        forall|i: int|
            0 <= i < upto && (#[trigger] contents(jar@)[i]).is_suno() ==> exists|k: int|
                0 <= k < kept@.len() && kept@[k] == i,
    ensures
        r == has_key(contents(jar@).take(upto as int), contents(jar@)[upto as int]),
{
    let ghost all = contents(jar@);
    let n: usize = kept.len();
    for k in 0..n
        invariant
            n == kept@.len(),
            upto < jar@.len(),
            all == contents(jar@),
            forall|j: int|
                0 <= j < kept@.len() ==> (#[trigger] kept@[j]) < upto
                    && all[kept@[j] as int].is_suno(),
            forall|j: int|
                0 <= j < k ==> !all[(#[trigger] kept@[j]) as int].same_key(all[upto as int]),
    {
        let i: usize = kept[k];
        if text::same(jar[i].name.as_str(), jar[upto].name.as_str()) && text::same(
            jar[i].domain.as_str(),
            jar[upto].domain.as_str(),
        ) {
            assert(all.take(upto as int)[i as int].same_key(all[upto as int]));
            return true;
        }
    }
    assert forall|i: int| 0 <= i < upto && (#[trigger] all.take(upto as int)[i]).is_suno() implies
        !all.take(upto as int)[i].same_key(all[upto as int]) by {
        assert(all[i].is_suno());
        let k = choose|k: int| 0 <= k < kept@.len() && kept@[k] == i;
        assert(!all[kept@[k] as int].same_key(all[upto as int]));
    }
    false
}

/// Reads the Clerk session out of the cookies of one browser profile. `None`
/// when the profile holds no `__client` cookie of Suno.
pub fn browser_auth_from_cookies(jar: Vec<Cookie>) -> (r: Option<BrowserAuth>)
    ensures
        session_of(r) == session_in(contents(jar@)),
{
    let n: usize = jar.len();
    let ghost all = contents(jar@);
    let mut kept: Vec<usize> = Vec::new();
    let mut parts: Vec<String> = Vec::new();
    let mut client: Option<String> = None;
    let mut auth_domain: Option<String> = None;
    let mut device_id: Option<String> = None;
    assert(text::texts(parts@) =~= header_parts(all.take(0)));
    for i in 0..n
        invariant
            n == jar@.len(),
            all == contents(jar@),
            cookies::text_of(client) == other_client(all.take(i as int)),
            cookies::text_of(auth_domain) == auth_client(all.take(i as int)),
            cookies::text_of(device_id) == jar_device(all.take(i as int)),
            text::texts(parts@) == header_parts(all.take(i as int)),
            forall|k: int|
                0 <= k < kept@.len() ==> (#[trigger] kept@[k]) < i && all[kept@[k] as int].is_suno(),
            forall|j: int|
                0 <= j < i && (#[trigger] all[j]).is_suno() ==> exists|k: int|
                    0 <= k < kept@.len() && kept@[k] == j,
    {
        let cookie = &jar[i];
        let ghost seen = all.take(i + 1);
        assert(seen.drop_last() =~= all.take(i as int));
        assert(seen.last() == all[i as int]);
        if text::contains_text(cookie.domain.as_str(), "suno.com") {
            if text::same(cookie.name.as_str(), "__client") && !cookie.value.as_str().is_empty() {
                if text::contains_text(cookie.domain.as_str(), "auth.suno.com") {
                    auth_domain = Some(cookie.value.clone());
                } else if client.is_none() {
                    client = Some(cookie.value.clone());
                }
            }
            if text::same(cookie.name.as_str(), "ajs_anonymous_id") && device_id.is_none() {
                device_id = sanitize_device_id(cookie.value.as_str());
            }
            let ghost before = parts@;
            let ghost kept_before = kept@;
            if !known_key(&jar, &kept, i) {
                let mut part = cookie.name.clone();
                part.append("=");
                part.append(cookie.value.as_str());
                let ghost added = part;
                parts.push(part);
                assert(text::texts(before.push(added)) =~= text::texts(before).push(added@));
            }
            kept.push(i);
            assert(kept@[kept_before.len() as int] == i);
            assert forall|j: int| 0 <= j < i + 1 && (#[trigger] all[j]).is_suno() implies exists|
                k: int,
            | 0 <= k < kept@.len() && kept@[k] == j by {
                if j < i {
                    let k = choose|k: int| 0 <= k < kept_before.len() && kept_before[k] == j;
                    assert(kept@[k] == j);
                }
            }
        } else {
            assert(!all[i as int].is_suno());
        }
    }
    assert(all.take(n as int) =~= all);
    let value = match auth_domain {
        Some(v) => v,
        None => match client {
            Some(v) => v,
            None => {
                return None;
            },
        },
    };
    Some(
        BrowserAuth {
            clerk_client_cookie: value,
            cookie_header: text::join(&parts, "; "),
            device_id,
        },
    )
}

proof fn lemma_auth_client(jar: Seq<CookieModel>)
    ensures
        auth_client(jar) is Some <==> exists|i: int|
            0 <= i < jar.len() && (#[trigger] jar[i]).is_client() && jar[i].is_auth_domain(),
        auth_client(jar) is Some ==> exists|i: int|
            0 <= i < jar.len() && (#[trigger] jar[i]).is_client() && jar[i].is_auth_domain()
                && auth_client(jar) == Some(jar[i].value) && forall|j: int|
                i < j < jar.len() ==> !((#[trigger] jar[j]).is_client() && jar[j].is_auth_domain()),
    decreases jar.len(),
{
    if jar.len() > 0 {
        let less = jar.drop_last();
        lemma_auth_client(less);
        let last = jar.len() - 1;
        if jar[last].is_client() && jar[last].is_auth_domain() {
            assert(auth_client(jar) == Some(jar[last].value));
        } else {
            if auth_client(less) is Some {
                let i = choose|i: int|
                    0 <= i < less.len() && (#[trigger] less[i]).is_client()
                        && less[i].is_auth_domain() && auth_client(less) == Some(less[i].value)
                        && forall|j: int|
                        i < j < less.len() ==> !((#[trigger] less[j]).is_client()
                            && less[j].is_auth_domain());
                assert(jar[i] == less[i]);
                assert forall|j: int| i < j < jar.len() implies !((#[trigger] jar[j]).is_client()
                    && jar[j].is_auth_domain()) by {
                    if j < less.len() {
                        assert(less[j] == jar[j]);
                    }
                }
            } else {
                assert forall|i: int| 0 <= i < jar.len() implies !((#[trigger] jar[i]).is_client()
                    && jar[i].is_auth_domain()) by {
                    if i < less.len() {
                        assert(less[i] == jar[i]);
                    }
                }
            }
        }
    }
}

proof fn lemma_other_client(jar: Seq<CookieModel>)
    ensures
        other_client(jar) is Some <==> exists|i: int|
            0 <= i < jar.len() && (#[trigger] jar[i]).is_client() && !jar[i].is_auth_domain(),
        other_client(jar) is Some ==> exists|i: int|
            0 <= i < jar.len() && (#[trigger] jar[i]).is_client() && !jar[i].is_auth_domain()
                && other_client(jar) == Some(jar[i].value) && forall|j: int|
                0 <= j < i ==> !((#[trigger] jar[j]).is_client() && !jar[j].is_auth_domain()),
    decreases jar.len(),
{
    if jar.len() > 0 {
        let less = jar.drop_last();
        lemma_other_client(less);
        let last = jar.len() - 1;
        assert forall|i: int| 0 <= i < less.len() implies #[trigger] jar[i] == less[i] by {}
        if other_client(less) is Some {
            let i = choose|i: int|
                0 <= i < less.len() && (#[trigger] less[i]).is_client() && !less[i].is_auth_domain()
                    && other_client(less) == Some(less[i].value) && forall|j: int|
                    0 <= j < i ==> !((#[trigger] less[j]).is_client()
                        && !less[j].is_auth_domain());
            assert(jar[i] == less[i]);
            assert forall|j: int| 0 <= j < i implies !((#[trigger] jar[j]).is_client()
                && !jar[j].is_auth_domain()) by {
                assert(less[j] == jar[j]);
            }
        } else {
            assert forall|j: int| 0 <= j < less.len() implies !((#[trigger] jar[j]).is_client()
                && !jar[j].is_auth_domain()) by {
                assert(less[j] == jar[j]);
            }
            if jar[last].is_client() && !jar[last].is_auth_domain() {
                assert(other_client(jar) == Some(jar[last].value));
            }
        }
    }
}

/// A jar holds a session exactly if it holds a non-empty `__client` cookie of a
/// Suno domain.
pub proof fn session_needs_client(jar: Seq<CookieModel>)
    ensures
        session_in(jar) is Some <==> exists|i: int|
            0 <= i < jar.len() && (#[trigger] jar[i]).is_client(),
{
    lemma_auth_client(jar);
    lemma_other_client(jar);
    if exists|i: int| 0 <= i < jar.len() && (#[trigger] jar[i]).is_client() {
        let i = choose|i: int| 0 <= i < jar.len() && (#[trigger] jar[i]).is_client();
        assert(jar[i].is_auth_domain() || !jar[i].is_auth_domain());
    }
}

/// A session takes its client cookie from the last session cookie of the
/// authentication domain; where there is none, from the first one of another
/// Suno domain.
pub proof fn session_prefers_auth_domain(jar: Seq<CookieModel>, i: int)
    requires
        0 <= i < jar.len(),
        jar[i].is_client(),
        jar[i].is_auth_domain() ==> forall|j: int|
            i < j < jar.len() ==> !((#[trigger] jar[j]).is_client() && jar[j].is_auth_domain()),
        !jar[i].is_auth_domain() ==> (forall|j: int|
            0 <= j < jar.len() && (#[trigger] jar[j]).is_client() ==> !jar[j].is_auth_domain() && i
                <= j),
    ensures
        session_in(jar) is Some,
        session_in(jar)->0.clerk_client_cookie == jar[i].value,
{
    lemma_auth_client(jar);
    lemma_other_client(jar);
    if jar[i].is_auth_domain() {
        let k = choose|k: int|
            0 <= k < jar.len() && (#[trigger] jar[k]).is_client() && jar[k].is_auth_domain()
                && auth_client(jar) == Some(jar[k].value) && forall|j: int|
                k < j < jar.len() ==> !((#[trigger] jar[j]).is_client() && jar[j].is_auth_domain());
        assert(k == i);
    } else {
        assert(auth_client(jar) is None);
        let k = choose|k: int|
            0 <= k < jar.len() && (#[trigger] jar[k]).is_client() && !jar[k].is_auth_domain()
                && other_client(jar) == Some(jar[k].value) && forall|j: int|
                0 <= j < k ==> !((#[trigger] jar[j]).is_client() && !jar[j].is_auth_domain());
        assert(k == i);
    }
}

/// The cookies of a jar that belong to Suno, in order.
pub open spec fn suno_cookies(jar: Seq<CookieModel>) -> Seq<CookieModel>
    decreases jar.len(),
{
    if jar.len() == 0 {
        jar
    } else if jar.last().is_suno() {
        suno_cookies(jar.drop_last()).push(jar.last())
    } else {
        suno_cookies(jar.drop_last())
    }
}

proof fn lemma_suno_key(jar: Seq<CookieModel>, c: CookieModel)
    ensures
        has_key(suno_cookies(jar), c) == has_key(jar, c),
    decreases jar.len(),
{
    if jar.len() > 0 {
        let less = jar.drop_last();
        lemma_suno_key(less, c);
        let some = suno_cookies(less);
        let more = suno_cookies(jar);
        let last = jar.len() - 1;
        if has_key(jar, c) {
            let i = choose|i: int|
                0 <= i < jar.len() && (#[trigger] jar[i]).is_suno() && jar[i].same_key(c);
            if i < last {
                assert(less[i] == jar[i]);
                assert(has_key(less, c));
                let k = choose|k: int|
                    0 <= k < some.len() && (#[trigger] some[k]).is_suno() && some[k].same_key(c);
                assert(more[k] == some[k]);
            } else {
                assert(more[more.len() - 1] == jar[last]);
            }
        }
        if has_key(more, c) {
            let k = choose|k: int|
                0 <= k < more.len() && (#[trigger] more[k]).is_suno() && more[k].same_key(c);
            if k < some.len() {
                assert(some[k] == more[k]);
                assert(has_key(less, c));
                let i = choose|i: int|
                    0 <= i < less.len() && (#[trigger] less[i]).is_suno() && less[i].same_key(c);
                assert(jar[i] == less[i]);
            } else {
                assert(jar[last] == more[k]);
            }
        }
    } else {
        assert(suno_cookies(jar) == jar);
    }
}

/// Cookies of other sites make no difference to the session.
pub proof fn other_sites_do_not_matter(jar: Seq<CookieModel>)
    ensures
        session_in(suno_cookies(jar)) == session_in(jar),
        auth_client(suno_cookies(jar)) == auth_client(jar),
        other_client(suno_cookies(jar)) == other_client(jar),
        jar_device(suno_cookies(jar)) == jar_device(jar),
        header_parts(suno_cookies(jar)) == header_parts(jar),
    decreases jar.len(),
{
    if jar.len() > 0 {
        let less = jar.drop_last();
        other_sites_do_not_matter(less);
        if jar.last().is_suno() {
            let more = suno_cookies(jar);
            assert(more.drop_last() =~= suno_cookies(less));
            assert(more.last() == jar.last());
            lemma_suno_key(less, jar.last());
        }
    }
}

proof fn lemma_header_order(jar: Seq<CookieModel>) -> (order: Seq<int>)
    ensures
        forall|k: int| 0 <= k < order.len() ==> 0 <= #[trigger] order[k] < jar.len(),
        forall|k: int, l: int|
            0 <= k < l < order.len() ==> #[trigger] order[k] < #[trigger] order[l],
        forall|i: int| #[trigger]
            order.contains(i) <==> 0 <= i < jar.len() && jar[i].is_suno() && forall|j: int|
                0 <= j < i && (#[trigger] jar[j]).is_suno() ==> !jar[j].same_key(jar[i]),
        header_parts(jar) == order.map_values(|i: int| jar[i].assignment()),
    decreases jar.len(),
{
    if jar.len() == 0 {
        let order = Seq::<int>::empty();
        assert(header_parts(jar) =~= order.map_values(|i: int| jar[i].assignment()));
        order
    } else {
        let less = jar.drop_last();
        let last = jar.len() - 1;
        let before = lemma_header_order(less);
        let new = jar.last().is_suno() && !has_key(less, jar.last());
        let order = if new {
            before.push(last)
        } else {
            before
        };
        assert(forall|i: int| 0 <= i < last ==> less[i] == jar[i]);
        assert forall|i: int| #[trigger] order.contains(i) <==> 0 <= i < jar.len()
            && jar[i].is_suno() && forall|j: int|
            0 <= j < i && (#[trigger] jar[j]).is_suno() ==> !jar[j].same_key(jar[i]) by {
            if order.contains(i) {
                let k = choose|k: int| 0 <= k < order.len() && order[k] == i;
                if k < before.len() {
                    assert(before[k] == i);
                    assert(before.contains(i));
                    assert forall|j: int| 0 <= j < i && (#[trigger] jar[j]).is_suno() implies
                        !jar[j].same_key(jar[i]) by {
                        assert(less[j] == jar[j]);
                    }
                } else {
                    assert forall|j: int| 0 <= j < i && (#[trigger] jar[j]).is_suno() implies
                        !jar[j].same_key(jar[i]) by {
                        assert(less[j] == jar[j]);
                    }
                }
            }
            if 0 <= i < jar.len() && jar[i].is_suno() && forall|j: int|
                0 <= j < i && (#[trigger] jar[j]).is_suno() ==> !jar[j].same_key(jar[i]) {
                if i < last {
                    assert forall|j: int| 0 <= j < i && (#[trigger] less[j]).is_suno() implies
                        !less[j].same_key(less[i]) by {
                        assert(less[j] == jar[j]);
                    }
                    assert(before.contains(i));
                    let k = choose|k: int| 0 <= k < before.len() && before[k] == i;
                    assert(order[k] == i);
                } else {
                    if has_key(less, jar.last()) {
                        let j = choose|j: int|
                            0 <= j < less.len() && (#[trigger] less[j]).is_suno()
                                && less[j].same_key(jar.last());
                        assert(jar[j].is_suno());
                    }
                    assert(order[before.len() as int] == i);
                }
            }
        }
        let parts = order.map_values(|i: int| jar[i].assignment());
        let old_parts = before.map_values(|i: int| less[i].assignment());
        assert(old_parts =~= before.map_values(|i: int| jar[i].assignment()));
        assert(header_parts(jar) =~= parts);
        order
    }
}

/// The cookie header of a session holds `name=value` of every Suno cookie whose
/// name and domain no earlier Suno cookie has, wherever the session cookies
/// stand, in the order of the jar and with `; ` between neighbours, and nothing
/// else. Gives the places of those cookies in the jar.
pub proof fn header_holds_every_cookie(jar: Seq<Cookie>, r: Option<BrowserAuth>) -> (order: Seq<
    int,
>)
    requires
        session_of(r) == session_in(contents(jar)),
    ensures
        forall|k: int| 0 <= k < order.len() ==> 0 <= #[trigger] order[k] < jar.len(),
        forall|k: int, l: int|
            0 <= k < l < order.len() ==> #[trigger] order[k] < #[trigger] order[l],
        forall|i: int| #[trigger]
            order.contains(i) <==> 0 <= i < jar.len() && text::has_text(
                jar[i].domain@,
                "suno.com"@,
            ) && forall|j: int|
                0 <= j < i && text::has_text((#[trigger] jar[j]).domain@, "suno.com"@) ==> !(
                jar[j].name@ == jar[i].name@ && jar[j].domain@ == jar[i].domain@),
        r matches Some(auth) ==> auth.cookie_header@ == text::joined(
            order.map_values(|i: int| jar[i].name@ + "="@ + jar[i].value@),
            "; "@,
        ),
{
    let all = contents(jar);
    let order = lemma_header_order(all);
    assert(forall|i: int| 0 <= i < jar.len() ==> #[trigger] all[i] == jar[i]@);
    assert forall|i: int| #[trigger] order.contains(i) <==> 0 <= i < jar.len() && text::has_text(
        jar[i].domain@,
        "suno.com"@,
    ) && forall|j: int|
        0 <= j < i && text::has_text((#[trigger] jar[j]).domain@, "suno.com"@) ==> !(jar[j].name@
            == jar[i].name@ && jar[j].domain@ == jar[i].domain@) by {
        if order.contains(i) {
            assert forall|j: int|
                0 <= j < i && text::has_text((#[trigger] jar[j]).domain@, "suno.com"@) implies !(
            jar[j].name@ == jar[i].name@ && jar[j].domain@ == jar[i].domain@) by {
                assert(all[j].is_suno());
            }
        }
        if 0 <= i < jar.len() && text::has_text(jar[i].domain@, "suno.com"@) && forall|j: int|
            0 <= j < i && text::has_text((#[trigger] jar[j]).domain@, "suno.com"@) ==> !(
            jar[j].name@ == jar[i].name@ && jar[j].domain@ == jar[i].domain@) {
            assert forall|j: int| 0 <= j < i && (#[trigger] all[j]).is_suno() implies
                !all[j].same_key(all[i]) by {
                assert(text::has_text(jar[j].domain@, "suno.com"@));
            }
        }
    }
    assert(order.map_values(|i: int| all[i].assignment()) =~= order.map_values(
        |i: int| jar[i].name@ + "="@ + jar[i].value@,
    ));
    order
}

/// Whether a cookie is a session cookie of a Suno domain.
pub open spec fn holds_client(c: Cookie) -> bool {
    text::has_text(c.domain@, "suno.com"@) && c.name@ == "__client"@ && c.value@.len() > 0
}

/// Where a jar holds a session cookie there is a session, and its client cookie
/// is the value, whole, of the last one of the authentication domain, or where
/// there is none of that domain, of the first one. Where there is no session
/// cookie there is no session.
pub proof fn client_of_jar_is_whole(jar: Seq<Cookie>, r: Option<BrowserAuth>, i: int)
    requires
        session_of(r) == session_in(contents(jar)),
    ensures
        (forall|j: int| 0 <= j < jar.len() ==> !holds_client(#[trigger] jar[j])) ==> r is None,
        0 <= i < jar.len() && holds_client(jar[i]) ==> r is Some,
        0 <= i < jar.len() && holds_client(jar[i]) && text::has_text(
            jar[i].domain@,
            "auth.suno.com"@,
        ) && (forall|j: int|
            i < j < jar.len() ==> !(holds_client(#[trigger] jar[j]) && text::has_text(
                jar[j].domain@,
                "auth.suno.com"@,
            ))) ==> r->0.clerk_client_cookie@ == jar[i].value@,
        0 <= i < jar.len() && holds_client(jar[i]) && (forall|j: int|
            0 <= j < jar.len() ==> !(holds_client(#[trigger] jar[j]) && text::has_text(
                jar[j].domain@,
                "auth.suno.com"@,
            ))) && (forall|j: int| 0 <= j < i ==> !holds_client(#[trigger] jar[j]))
            ==> r->0.clerk_client_cookie@ == jar[i].value@,
{
    let all = contents(jar);
    session_needs_client(all);
    assert(forall|j: int| 0 <= j < jar.len() ==> #[trigger] all[j] == jar[j]@);
    assert forall|j: int| 0 <= j < jar.len() implies (#[trigger] all[j]).is_client()
        == holds_client(jar[j]) by {}
    if 0 <= i < jar.len() && holds_client(jar[i]) {
        assert(all[i].is_client());
        if text::has_text(jar[i].domain@, "auth.suno.com"@) {
            if forall|j: int|
                i < j < jar.len() ==> !(holds_client(#[trigger] jar[j]) && text::has_text(
                    jar[j].domain@,
                    "auth.suno.com"@,
                )) {
                assert forall|j: int| i < j < all.len() implies !((#[trigger] all[j]).is_client()
                    && all[j].is_auth_domain()) by {
                    assert(!(holds_client(jar[j]) && text::has_text(
                        jar[j].domain@,
                        "auth.suno.com"@,
                    )));
                }
                session_prefers_auth_domain(all, i);
            }
        } else if (forall|j: int|
            0 <= j < jar.len() ==> !(holds_client(#[trigger] jar[j]) && text::has_text(
                jar[j].domain@,
                "auth.suno.com"@,
            ))) && (forall|j: int| 0 <= j < i ==> !holds_client(#[trigger] jar[j])) {
            assert forall|j: int| 0 <= j < all.len() && (#[trigger] all[j]).is_client() implies
                !all[j].is_auth_domain() && i <= j by {
                assert(holds_client(jar[j]));
            }
            session_prefers_auth_domain(all, i);
        }
    }
    if forall|j: int| 0 <= j < jar.len() ==> !holds_client(#[trigger] jar[j]) {
        assert forall|j: int| 0 <= j < all.len() implies !(#[trigger] all[j]).is_client() by {
            assert(!holds_client(jar[j]));
        }
    }
}

proof fn lemma_jar_device(jar: Seq<CookieModel>)
    ensures
        jar_device(jar) is None <==> forall|j: int|
            0 <= j < jar.len() && (#[trigger] jar[j]).is_suno() && jar[j].name
                == "ajs_anonymous_id"@ ==> cookies::device_id_of(jar[j].value) is None,
        jar_device(jar) is Some ==> exists|i: int|
            0 <= i < jar.len() && (#[trigger] jar[i]).is_suno() && jar[i].name
                == "ajs_anonymous_id"@ && cookies::device_id_of(jar[i].value) == jar_device(jar)
                && forall|j: int|
                0 <= j < i && (#[trigger] jar[j]).is_suno() && jar[j].name == "ajs_anonymous_id"@
                    ==> cookies::device_id_of(jar[j].value) is None,
    decreases jar.len(),
{
    if jar.len() > 0 {
        let less = jar.drop_last();
        let last = jar.len() - 1;
        lemma_jar_device(less);
        assert(forall|j: int| 0 <= j < last ==> #[trigger] less[j] == jar[j]);
        if jar_device(less) is Some {
            let i = choose|i: int|
                0 <= i < less.len() && (#[trigger] less[i]).is_suno() && less[i].name
                    == "ajs_anonymous_id"@ && cookies::device_id_of(less[i].value)
                    == jar_device(less) && forall|j: int|
                    0 <= j < i && (#[trigger] less[j]).is_suno() && less[j].name
                        == "ajs_anonymous_id"@ ==> cookies::device_id_of(less[j].value) is None;
            assert(jar[i] == less[i]);
            assert forall|j: int|
                0 <= j < i && (#[trigger] jar[j]).is_suno() && jar[j].name
                    == "ajs_anonymous_id"@ implies cookies::device_id_of(jar[j].value) is None by {
                assert(less[j] == jar[j]);
            }
        } else {
            assert forall|j: int|
                0 <= j < last && (#[trigger] jar[j]).is_suno() && jar[j].name
                    == "ajs_anonymous_id"@ implies cookies::device_id_of(jar[j].value) is None by {
                assert(less[j] == jar[j]);
            }
            assert(jar[last] == jar.last());
        }
    }
}

/// The device of a session is that of the first Suno cookie `ajs_anonymous_id`
/// that holds one.
pub proof fn first_device_counts(jar: Seq<Cookie>, r: Option<BrowserAuth>, i: int)
    requires
        session_of(r) == session_in(contents(jar)),
        r is Some,
        forall|j: int|
            0 <= j < jar.len() && j < i && text::has_text((#[trigger] jar[j]).domain@, "suno.com"@)
                && jar[j].name@ == "ajs_anonymous_id"@ ==> cookies::device_id_of(
                jar[j].value@,
            ) is None,
    ensures
        0 <= i < jar.len() && text::has_text(jar[i].domain@, "suno.com"@) && jar[i].name@
            == "ajs_anonymous_id"@ ==> (cookies::device_id_of(jar[i].value@) matches Some(id) ==> (
        r->0.device_id matches Some(d) && d@ == id)),
        i >= jar.len() ==> r->0.device_id is None,
{
    let all = contents(jar);
    lemma_jar_device(all);
    assert(forall|j: int| 0 <= j < jar.len() ==> #[trigger] all[j] == jar[j]@);
    if jar_device(all) is Some {
        let k = choose|k: int|
            0 <= k < all.len() && (#[trigger] all[k]).is_suno() && all[k].name
                == "ajs_anonymous_id"@ && cookies::device_id_of(all[k].value) == jar_device(all)
                && forall|j: int|
                0 <= j < k && (#[trigger] all[j]).is_suno() && all[j].name == "ajs_anonymous_id"@
                    ==> cookies::device_id_of(all[j].value) is None;
        assert(jar[k].name@ == "ajs_anonymous_id"@);
        assert(text::has_text(jar[k].domain@, "suno.com"@));
        assert(k >= i);
        if 0 <= i < jar.len() {
            assert(all[i].domain == jar[i].domain@);
        }
    } else if 0 <= i < jar.len() {
        assert(all[i].domain == jar[i].domain@);
    }
}

} // verus!
