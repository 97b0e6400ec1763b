//! The Wilma account model: an instance, its authentication state, and
//! the text-level pieces of the login sequence - the session cookie read
//! off the login answer, the login payload document, and the per-role
//! URL.
//!
//! The HTTP calls around these stay outside the library; they hand in the
//! header lines, the index document and the hub list as plain values.

use vstd::prelude::*;
use crate::bytes_util::push_all;
use crate::ipc::{escape, push_escaped};
use crate::models::{OpenIDProvider, WilmaHubWilma, WilmaIndexJson, WilmaRole, WilmaSchool};

verus! {

/// The first index at or after `from` holding `c`, or the length of `s`.
pub open spec fn find_char(s: Seq<char>, c: char, from: int) -> int
    decreases s.len() - from,
{
    if from < 0 || from >= s.len() {
        s.len() as int
    } else if s[from] == c {
        from
    } else {
        find_char(s, c, from + 1)
    }
}

/// The first index at or after `from` holding `c`, or the length of `s`.
pub fn str_find_char(s: &str, c: char, from: usize) -> (r: usize)
    requires
        from <= s@.len(),
    ensures
        r == find_char(s@, c, from as int),
        from <= r <= s@.len(),
        r < s@.len() ==> s@[r as int] == c,
{
    let n = s.unicode_len();
    let mut i: usize = from;
    while i < n
        invariant
            n == s@.len(),
            from <= i <= n,
            find_char(s@, c, from as int) == find_char(s@, c, i as int),
        decreases n - i,
    {
        if s.get_char(i) == c {
            return i;
        }
        i += 1;
    }
    n
}

/// `p` is a prefix of `s`.
pub open spec fn chars_start_with(s: Seq<char>, p: Seq<char>) -> bool {
    s.len() >= p.len() && s.subrange(0, p.len() as int) == p
}

/// Whether `p` is a prefix of `s`.
pub fn str_has_prefix(s: &str, p: &str) -> (r: bool)
    ensures
        r == chars_start_with(s@, p@),
{
    let n = p.unicode_len();
    if s.unicode_len() < n {
        return false;
    }
    let mut i: usize = 0;
    while i < n
        invariant
            n == p@.len() <= s@.len(),
            0 <= i <= n,
            forall|j: int| 0 <= j < i ==> s@[j] == p@[j],
        decreases n - i,
    {
        if s.get_char(i) != p.get_char(i) {
            assert(s@.subrange(0, p@.len() as int)[i as int] != p@[i as int]);
            return false;
        }
        i += 1;
    }
    assert(s@.subrange(0, p@.len() as int) =~= p@);
    true
}

/// A character matches a lower-case pattern character, the ASCII case
/// folded away for letters.
pub open spec fn matches_lower(a: char, p: char) -> bool {
    a == p || ('a' <= p && p <= 'z' && a as u32 + 32 == p as u32)
}

/// `s` opens with `p`, ASCII letters compared without case.
pub open spec fn ci_prefix(s: Seq<char>, p: Seq<char>) -> bool {
    s.len() >= p.len() && forall|j: int| 0 <= j < p.len() ==> matches_lower(#[trigger] s[j], p[j])
}

/// Whether `s` opens with the lower-case `p`, ASCII letters compared
/// without case.
fn str_has_prefix_ci(s: &str, p: &str) -> (r: bool)
    ensures
        r == ci_prefix(s@, p@),
{
    let n = p.unicode_len();
    if s.unicode_len() < n {
        return false;
    }
    let mut i: usize = 0;
    while i < n
        invariant
            n == p@.len() <= s@.len(),
            0 <= i <= n,
            forall|j: int| 0 <= j < i ==> matches_lower(#[trigger] s@[j], p@[j]),
        decreases n - i,
    {
        let c = s.get_char(i);
        let pc = p.get_char(i);
        if !(c == pc || ('a' <= pc && pc <= 'z' && c as u32 + 32 == pc as u32)) {
            assert(!matches_lower(s@[i as int], p@[i as int]));
            return false;
        }
        i += 1;
    }
    true
}

/// One Wilma instance, with whatever the login sequence has established
/// so far: the session cookie after `openid_login`, the role after
/// `set_role`.
#[derive(Debug, Clone)]
pub struct Wilma {
    pub base_url: String,
    pub name: String,
    sid: Option<String>,
    pub role: Option<WilmaRole>,
}

/// Two schools hold the same data.
pub open spec fn school_like(a: WilmaSchool, b: WilmaSchool) -> bool {
    a.id == b.id && a.caption@ == b.caption@
}

/// Two roles hold the same data.
pub open spec fn role_like(a: WilmaRole, b: WilmaRole) -> bool {
    &&& a.name@ == b.name@
    &&& a.type_ == b.type_
    &&& a.primus_id == b.primus_id
    &&& a.form_key@ == b.form_key@
    &&& a.slug@ == b.slug@
    &&& a.schools@.len() == b.schools@.len()
    &&& forall|j: int| 0 <= j < a.schools@.len() ==> school_like(a.schools@[j], b.schools@[j])
}

/// A fresh copy of a role, field by field.
fn clone_role(role: &WilmaRole) -> (r: WilmaRole)
    ensures
        role_like(r, *role),
{
    let mut schools: Vec<WilmaSchool> = Vec::new();
    let n = role.schools.len();
    let mut i: usize = 0;
    while i < n
        invariant
            n == role.schools@.len(),
            0 <= i <= n,
            schools@.len() == i,
            forall|j: int| 0 <= j < i ==> school_like(schools@[j], role.schools@[j]),
        decreases n - i,
    {
        let s = &role.schools[i];
        schools.push(WilmaSchool { id: s.id, caption: s.caption.clone() });
        i += 1;
    }
    WilmaRole {
        name: role.name.clone(),
        type_: role.type_,
        primus_id: role.primus_id,
        form_key: role.form_key.clone(),
        slug: role.slug.clone(),
        schools,
    }
}

/// The index just past the last `/` of `s`, or zero when `s` has none.
pub open spec fn after_last_slash(s: Seq<char>) -> int
    decreases s.len(),
{
    if s.len() == 0 {
        0
    } else if s[s.len() - 1] == '/' {
        s.len() as int
    } else {
        after_last_slash(s.drop_last())
    }
}

impl Wilma {
    /// An instance known by URL and name, with nothing established yet.
    fn new(base_url: String, name: String) -> (r: Wilma)
        ensures
            r.base_view() == base_url@,
            r.name_view() == name@,
            !r.authenticated(),
            r.role_view() is None,
    {
        Wilma { base_url, name, sid: None, role: None }
    }

    /// An instance known by URL alone.
    pub fn from_url(base_url: String) -> (r: Wilma)
        ensures
            r.base_view() == base_url@,
            r.name_view() == Seq::<char>::empty(),
            !r.authenticated(),
            r.role_view() is None,
    {
        Wilma::new(base_url, String::new())
    }

    /// A session cookie has been established.
    pub closed spec fn authenticated(&self) -> bool {
        self.sid is Some
    }

    /// The instance's base URL.
    pub closed spec fn base_view(&self) -> Seq<char> {
        self.base_url@
    }

    /// The instance's name.
    pub closed spec fn name_view(&self) -> Seq<char> {
        self.name@
    }

    /// The chosen role, if any.
    pub closed spec fn role_view(&self) -> Option<WilmaRole> {
        self.role
    }

    /// The session cookie, when one has been established.
    pub closed spec fn sid_view(&self) -> Option<Seq<char>> {
        match self.sid {
            Some(s) => Some(s@),
            None => None,
        }
    }

    /// Whether a session cookie has been established.
    pub fn is_authenticated(&self) -> (r: bool)
        ensures
            r == self.authenticated(),
    {
        self.sid.is_some()
    }

    /// Whether a session cookie has been established and a role chosen.
    pub fn is_logged_in(&self) -> (r: bool)
        ensures
            r == (self.authenticated() && self.role_view() is Some),
    {
        self.sid.is_some() && self.role.is_some()
    }

    /// Takes up the session cookie that `openid_login` established.
    pub fn set_sid(&mut self, sid: String)
        ensures
            final(self).authenticated(),
            final(self).sid_view() == Some(sid@),
            final(self).base_view() == old(self).base_view(),
            final(self).name_view() == old(self).name_view(),
            final(self).role_view() == old(self).role_view(),
    {
        self.sid = Some(sid);
    }

    /// The session cookie, for the caller that builds request headers:
    /// established exactly when the instance is authenticated.
    pub fn sid(&self) -> (r: Option<&String>)
        ensures
            r is Some <==> self.authenticated(),
            r matches Some(s) ==> self.sid_view() == Some(s@),
    {
        self.sid.as_ref()
    }

    /// Chooses a role.
    pub fn set_role(&mut self, role: &WilmaRole)
        ensures
            final(self).role_view() matches Some(r) && role_like(r, *role),
            final(self).base_view() == old(self).base_view(),
            final(self).name_view() == old(self).name_view(),
            final(self).sid_view() == old(self).sid_view(),
            final(self).authenticated() == old(self).authenticated(),
    {
        self.role = Some(clone_role(role));
    }

    /// The chosen role's root URL: the base URL up to its last `/`, then
    /// the role's slug and a closing `/`. The slug is taken as a relative
    /// segment - Wilma's role slugs carry no leading `/`, and none is
    /// treated specially. `None` until a role is chosen.
    pub fn get_url(&self) -> (r: Option<String>)
        ensures
            match r {
                Some(u) => self.role_view() matches Some(role) && u@ == self.base_view().subrange(
                    0,
                    after_last_slash(self.base_view()),
                ) + role.slug@ + "/"@,
                None => self.role_view() is None,
            },
    {
        let role = match &self.role {
            Some(role) => role,
            None => {
                return None;
            },
        };
        let base = self.base_url.as_str();
        let n = base.unicode_len();
        let mut cut: usize = 0;
        let mut i: usize = 0;
        assert(base@.subrange(0, 0) =~= Seq::<char>::empty());
        while i < n
            invariant
                n == base@.len(),
                0 <= cut <= i <= n,
                cut == after_last_slash(base@.subrange(0, i as int)),
            decreases n - i,
        {
            proof {
                assert(base@.subrange(0, i + 1).drop_last() =~= base@.subrange(0, i as int));
            }
            if base.get_char(i) == '/' {
                cut = i + 1;
            }
            i += 1;
        }
        assert(base@.subrange(0, n as int) =~= base@);
        let prefix = base.substring_char(0, cut);
        let mut out = String::from_str(prefix);
        out.append(role.slug.as_str());
        out.append("/");
        Some(out)
    }
}

/// The providers of an index document, as the login sequence selects
/// from them.
pub fn get_providers(index: WilmaIndexJson) -> (r: Option<Vec<OpenIDProvider>>)
    ensures
        r == index.oidc_providers,
{
    index.oidc_providers
}

/// The session-cookie prefix of a `Set-Cookie` line.
pub open spec fn sid_cookie_prefix() -> Seq<char> {
    "Wilma2SID="@
}

/// The cookie value of one header line that carries the session cookie:
/// what stands between the prefix and the first `;`.
pub open spec fn sid_of_cookie(c: Seq<char>) -> Seq<char> {
    c.subrange(10, find_char(c, ';', 10))
}

/// The session cookie among the `Set-Cookie` lines at or after `i`: the
/// first line opening with the cookie prefix yields it.
pub open spec fn sid_in_cookies(cs: Seq<String>, i: int) -> Option<Seq<char>>
    decreases cs.len() - i,
{
    if i < 0 || i >= cs.len() {
        None
    } else if chars_start_with(cs[i]@, sid_cookie_prefix()) {
        Some(sid_of_cookie(cs[i]@))
    } else {
        sid_in_cookies(cs, i + 1)
    }
}

/// Reads the session cookie out of the answer's `Set-Cookie` lines: the
/// value of the first line opening with `Wilma2SID=`, up to its first
/// `;`. `None` when no line carries it.
pub fn extract_sid(cookies: &Vec<String>) -> (r: Option<String>)
    ensures
        match r {
            Some(s) => sid_in_cookies(cookies@, 0) == Some(s@),
            None => sid_in_cookies(cookies@, 0) is None,
        },
{
    let n = cookies.len();
    let mut i: usize = 0;
    while i < n
        invariant
            n == cookies@.len(),
            0 <= i <= n,
            sid_in_cookies(cookies@, 0) == sid_in_cookies(cookies@, i as int),
        decreases n - i,
    {
        let c = cookies[i].as_str();
        if str_has_prefix(c, "Wilma2SID=") {
            proof {
                reveal_strlit("Wilma2SID=");
            }
            let e = str_find_char(c, ';', 10);
            let v = c.substring_char(10, e);
            return Some(String::from_str(v));
        }
        i += 1;
    }
    None
}

/// The login payload: one JSON object of exactly these five members, in
/// this order, each value escaped as the channel messages are.
pub open spec fn login_payload(configuration: Seq<u8>, client_id: Seq<u8>, access_token: Seq<u8>, session_id: Seq<u8>, id_token: Seq<u8>) -> Seq<u8> {
    crate::bytes_util::lit("{\"configuration\":\"") + escape(configuration)
        + crate::bytes_util::lit("\",\"clientId\":\"") + escape(client_id)
        + crate::bytes_util::lit("\",\"accessToken\":\"") + escape(access_token)
        + crate::bytes_util::lit("\",\"sessionId\":\"") + escape(session_id)
        + crate::bytes_util::lit("\",\"idToken\":\"") + escape(id_token)
        + crate::bytes_util::lit("\"}")
}

/// Lays out the `openid_login` payload document from the provider data,
/// the redeemed tokens and the instance's session id.
pub fn openid_login_payload(configuration: &Vec<u8>, client_id: &Vec<u8>, access_token: &Vec<u8>, session_id: &Vec<u8>, id_token: &Vec<u8>) -> (r: Vec<u8>)
    ensures
        r@ == login_payload(configuration@, client_id@, access_token@, session_id@, id_token@),
{
    let mut out: Vec<u8> = Vec::new();
    let p = crate::bytes_util::bytes_of("{\"configuration\":\"");
    push_all(&mut out, &p);
    push_escaped(&mut out, configuration);
    let p = crate::bytes_util::bytes_of("\",\"clientId\":\"");
    push_all(&mut out, &p);
    push_escaped(&mut out, client_id);
    let p = crate::bytes_util::bytes_of("\",\"accessToken\":\"");
    push_all(&mut out, &p);
    push_escaped(&mut out, access_token);
    let p = crate::bytes_util::bytes_of("\",\"sessionId\":\"");
    push_all(&mut out, &p);
    push_escaped(&mut out, session_id);
    let p = crate::bytes_util::bytes_of("\",\"idToken\":\"");
    push_all(&mut out, &p);
    push_escaped(&mut out, id_token);
    let p = crate::bytes_util::bytes_of("\"}");
    push_all(&mut out, &p);
    out
}

/// A hub entry is kept when its URL opens with an HTTP scheme - the
/// letters in either case, as URL parsers fold them - and names a host.
pub open spec fn keep_entry(u: Seq<char>) -> bool {
    (u.len() > 7 && ci_prefix(u, "http://"@)) || (u.len() > 8 && ci_prefix(u, "https://"@))
}

/// The scheme prefix length of a kept URL.
pub open spec fn scheme_end(u: Seq<char>) -> int {
    if u.len() > 8 && ci_prefix(u, "https://"@) {
        8
    } else {
        7
    }
}

/// A kept URL with a path: when nothing follows the host, a closing `/`
/// is added, so the per-role URL resolves under the host.
pub open spec fn normalize_url(u: Seq<char>) -> Seq<char> {
    if find_char(u, '/', scheme_end(u)) == u.len() {
        u + "/"@
    } else {
        u
    }
}

/// The hub entries that are kept, in order.
pub open spec fn kept_entries(hs: Seq<WilmaHubWilma>) -> Seq<WilmaHubWilma>
    decreases hs.len(),
{
    if hs.len() == 0 {
        Seq::empty()
    } else {
        (if keep_entry(hs[0].url@) {
            seq![hs[0]]
        } else {
            Seq::empty()
        }) + kept_entries(hs.skip(1))
    }
}

/// Turns the hub's instance list into fresh `Wilma` values: entries
/// whose URL carries no HTTP scheme (in either letter case) are
/// dropped, the rest keep their order, with their URLs normalized to
/// end in a path.
pub fn get_wilmas(hub: Vec<WilmaHubWilma>) -> (r: Vec<Wilma>)
    ensures
        r@.len() == kept_entries(hub@).len(),
        forall|j: int| 0 <= j < r@.len() ==> {
            &&& (#[trigger] r@[j]).base_view() == normalize_url(kept_entries(hub@)[j].url@)
            &&& r@[j].name_view() == kept_entries(hub@)[j].name@
            &&& !r@[j].authenticated()
            &&& r@[j].role_view() is None
        },
{
    let n = hub.len();
    let mut out: Vec<Wilma> = Vec::new();
    let ghost mut ks: Seq<WilmaHubWilma> = Seq::empty();
    let mut i: usize = 0;
    assert(hub@.skip(0) == hub@);
    assert(Seq::<WilmaHubWilma>::empty() + kept_entries(hub@) =~= kept_entries(hub@));
    while i < n
        invariant
            n == hub@.len(),
            0 <= i <= n,
            ks + kept_entries(hub@.skip(i as int)) == kept_entries(hub@),
            out@.len() == ks.len(),
            forall|j: int| 0 <= j < out@.len() ==> {
                &&& (#[trigger] out@[j]).base_view() == normalize_url(ks[j].url@)
                &&& out@[j].name_view() == ks[j].name@
                &&& !out@[j].authenticated()
                &&& out@[j].role_view() is None
            },
        decreases n - i,
    {
        let entry = &hub[i];
        proof {
            reveal_strlit("http://");
            reveal_strlit("https://");
            assert(hub@.skip(i as int)[0] == hub@[i as int]);
            assert(hub@.skip(i as int).skip(1) =~= hub@.skip(i + 1));
        }
        let keep = if str_has_prefix_ci(entry.url.as_str(), "https://") {
            entry.url.as_str().unicode_len() > 8
        } else if str_has_prefix_ci(entry.url.as_str(), "http://") {
            entry.url.as_str().unicode_len() > 7
        } else {
            false
        };
        if keep {
            assert(keep_entry(entry.url@));
            let scheme_len: usize = if str_has_prefix_ci(entry.url.as_str(), "https://") {
                8
            } else {
                7
            };
            assert(scheme_len as int == scheme_end(entry.url@));
            let slash = str_find_char(entry.url.as_str(), '/', scheme_len);
            let base = if slash == entry.url.as_str().unicode_len() {
                entry.url.clone().concat("/")
            } else {
                entry.url.clone()
            };
            assert(base@ == normalize_url(entry.url@));
            out.push(Wilma::new(base, entry.name.clone()));
            proof {
                assert(ks + seq![hub@[i as int]] + kept_entries(hub@.skip(i + 1))
                    =~= ks + (seq![hub@[i as int]] + kept_entries(hub@.skip(i + 1))));
                ks = ks + seq![hub@[i as int]];
            }
        } else {
            proof {
                if ci_prefix(entry.url@, "http://"@) {
                    assert(matches_lower(entry.url@[4], "http://"@[4]));
                }
                if ci_prefix(entry.url@, "https://"@) {
                    assert(matches_lower(entry.url@[4], "https://"@[4]));
                }
            }
            assert(!keep_entry(entry.url@));
            proof {
                assert(Seq::<WilmaHubWilma>::empty() + kept_entries(hub@.skip(i + 1))
                    =~= kept_entries(hub@.skip(i + 1)));
            }
        }
        i += 1;
    }
    proof {
        assert(hub@.skip(n as int) =~= Seq::<WilmaHubWilma>::empty());
        assert(ks + Seq::<WilmaHubWilma>::empty() =~= ks);
    }
    out
}

} // verus!
