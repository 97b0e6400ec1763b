//! The authorization flow's decisions: building the authorization URL and
//! the session handoff, validating the redirect that comes back, and
//! turning the handoff into the token-endpoint request.
//!
//! The primary process calls `begin_authorization` and then
//! `complete_session`; the callback process calls `receive_handoff`,
//! `redeem` and, once the token endpoint has answered, the token-response
//! reader. Everything here is a function from plain values to plain
//! values: opening the browser, carrying bytes over the channel and
//! talking HTTP stay outside the library.

use vstd::prelude::*;
use crate::bytes_util::{lit, bytes_of, bytes_eq, subvec, find_byte, find_byte_from, clamp_idx, push_all};
use crate::ipc::{IPCMessage, MessageView, parse_message, parse_message_spec};
use crate::models::{OpenIDProvider, OpenIDConfiguration};
use crate::pkce::{all_alnum, is_challenge_of, generate_code, generate_state};

verus! {

/// Why a session failed. Security failures (a missing or wrong `state`,
/// a missing code) are distinct from protocol failures (a message of the
/// wrong variant, bytes that are no message at all), so the caller can
/// tell "login was not completed correctly" from a version mismatch.
#[derive(Debug, Clone, Copy, PartialEq, Eq, Structural)]
pub enum AuthError {
    /// The redirect URL does not carry the custom scheme.
    InvalidScheme,
    /// The redirect URL has no `state` parameter at all.
    StateMissing,
    /// The redirect URL's `state` differs from the session's.
    StateMismatch,
    /// The redirect URL has no authorization `code`.
    MissingCode,
    /// The channel delivered the variant the other leg should have sent.
    UnexpectedMessage,
    /// The channel delivered bytes that are no message.
    MalformedMessage,
    /// The token endpoint's answer misses a token or is no flat JSON
    /// object.
    MalformedTokenResponse,
}

impl AuthError {
    /// The text shown for this failure.
    pub open spec fn message_view(self) -> Seq<char> {
        match self {
            AuthError::InvalidScheme => "Invalid url scheme"@,
            AuthError::StateMissing => "State missing"@,
            AuthError::StateMismatch => "State mismatch"@,
            AuthError::MissingCode => "Missing code"@,
            AuthError::UnexpectedMessage => "Unexpected message variant"@,
            AuthError::MalformedMessage => "Malformed rendezvous message"@,
            AuthError::MalformedTokenResponse => "Unexpected oauth token response"@,
        }
    }

    /// The text shown for this failure.
    pub fn message(&self) -> (r: String)
        ensures
            r@ == self.message_view(),
    {
        match self {
            AuthError::InvalidScheme => "Invalid url scheme".to_owned(),
            AuthError::StateMissing => "State missing".to_owned(),
            AuthError::StateMismatch => "State mismatch".to_owned(),
            AuthError::MissingCode => "Missing code".to_owned(),
            AuthError::UnexpectedMessage => "Unexpected message variant".to_owned(),
            AuthError::MalformedMessage => "Malformed rendezvous message".to_owned(),
            AuthError::MalformedTokenResponse => "Unexpected oauth token response".to_owned(),
        }
    }
}

/// The redeemed tokens, as handed back by the token endpoint and carried
/// home in the `TokenResponse` message.
#[derive(Debug, Clone, PartialEq, Eq)]
pub struct TokenData {
    pub access_token: Vec<u8>,
    pub id_token: Vec<u8>,
}

/// A byte is a hex digit, either case.
pub open spec fn is_hex_byte(b: u8) -> bool {
    (48 <= b <= 57) || (65 <= b <= 70) || (97 <= b <= 102)
}

/// The value of a hex digit, either case.
pub open spec fn hex_value(b: u8) -> u8 {
    if 48 <= b <= 57 {
        (b - 48) as u8
    } else if 65 <= b <= 70 {
        (b - 55) as u8
    } else {
        (b - 87) as u8
    }
}

/// www-form-urlencoded decoding of one query piece: `+` becomes a space,
/// `%` with two hex digits becomes that byte, and anything else - an
/// incomplete `%` escape included - passes through as it stands.
pub open spec fn pct_decode(s: Seq<u8>) -> Seq<u8>
    decreases s.len(),
{
    if s.len() == 0 {
        Seq::empty()
    } else if s[0] == 43 {
        seq![32u8] + pct_decode(s.skip(1))
    } else if s[0] == 37 && s.len() >= 3 && is_hex_byte(s[1]) && is_hex_byte(s[2]) {
        seq![(hex_value(s[1]) * 16 + hex_value(s[2])) as u8] + pct_decode(s.skip(3))
    } else {
        seq![s[0]] + pct_decode(s.skip(1))
    }
}

/// The value of a hex digit, either case.
pub(crate) fn hex_value_exec(b: u8) -> (r: u8)
    requires
        is_hex_byte(b),
    ensures
        r == hex_value(b),
        r < 16,
{
    if 48 <= b && b <= 57 {
        b - 48
    } else if 65 <= b && b <= 70 {
        b - 55
    } else {
        b - 87
    }
}

/// www-form-urlencoded decoding of one query piece.
fn pct_decode_exec(s: &Vec<u8>) -> (r: Vec<u8>)
    ensures
        r@ == pct_decode(s@),
{
    let n = s.len();
    let mut out: Vec<u8> = Vec::new();
    let mut i: usize = 0;
    assert(s@.skip(0) == s@);
    while i < n
        invariant
            n == s@.len(),
            0 <= i <= n,
            pct_decode(s@) == out@ + pct_decode(s@.skip(i as int)),
        decreases n - i,
    {
        let b = s[i];
        proof {
            assert(s@.skip(i as int)[0] == b);
            assert(s@.skip(i as int).skip(1) =~= s@.skip(i + 1));
        }
        if b == 43 {
            out.push(32);
            i += 1;
        } else if b == 37 && n - i >= 3
            && (48 <= s[i + 1] && s[i + 1] <= 57 || 65 <= s[i + 1] && s[i + 1] <= 70 || 97 <= s[i + 1] && s[i + 1] <= 102)
            && (48 <= s[i + 2] && s[i + 2] <= 57 || 65 <= s[i + 2] && s[i + 2] <= 70 || 97 <= s[i + 2] && s[i + 2] <= 102) {
            proof {
                assert(s@.skip(i as int)[1] == s@[i + 1]);
                assert(s@.skip(i as int)[2] == s@[i + 2]);
                assert(s@.skip(i as int).len() >= 3);
                assert(s@.skip(i as int).skip(3) =~= s@.skip(i + 3));
            }
            let v1 = hex_value_exec(s[i + 1]);
            let v2 = hex_value_exec(s[i + 2]);
            out.push(v1 * 16 + v2);
            i += 3;
        } else {
            out.push(b);
            i += 1;
        }
    }
    assert(s@.skip(n as int) =~= Seq::<u8>::empty());
    assert(out@ + Seq::<u8>::empty() =~= out@);
    out
}

/// The query portion of a URL: what stands between the first `?` and the
/// fragment, or nothing when there is no query.
pub open spec fn query_of(url: Seq<u8>) -> Seq<u8> {
    let q = find_byte(url, 63, 0);
    let h = find_byte(url, 35, 0);
    if q < h {
        url.subrange(q + 1, h)
    } else {
        Seq::empty()
    }
}

/// The query portion of a URL.
pub fn query_of_exec(url: &Vec<u8>) -> (r: Vec<u8>)
    ensures
        r@ == query_of(url@),
{
    let q = find_byte_from(url, 63, 0);
    let h = find_byte_from(url, 35, 0);
    if q < h {
        subvec(url, q + 1, h)
    } else {
        Vec::new()
    }
}

/// The decoded value of one `key=value` piece when its decoded key is
/// `key`; `None` for an empty piece or another key. A piece without `=`
/// has the empty value.
pub open spec fn piece_value(piece: Seq<u8>, key: Seq<u8>) -> Option<Seq<u8>> {
    if piece.len() == 0 {
        None
    } else {
        let e = clamp_idx(find_byte(piece, 61, 0), 0, piece.len() as int);
        let k = pct_decode(piece.subrange(0, e));
        let v = if e < piece.len() {
            pct_decode(piece.subrange(e + 1, piece.len() as int))
        } else {
            Seq::<u8>::empty()
        };
        if k == key {
            Some(v)
        } else {
            None
        }
    }
}

/// The later of two candidate values: what a later pair with the same key
/// yields wins, as it does when the pairs fill a map.
pub open spec fn prefer(a: Option<Seq<u8>>, b: Option<Seq<u8>>) -> Option<Seq<u8>> {
    if a is Some {
        a
    } else {
        b
    }
}

/// The decoded value for `key` among the `&`-separated pieces of `q`
/// at or after `i`, the last matching piece winning.
pub open spec fn query_lookup_at(q: Seq<u8>, key: Seq<u8>, i: int) -> Option<Seq<u8>>
    decreases q.len() - i,
{
    if i < 0 || i >= q.len() {
        None
    } else {
        let e = clamp_idx(find_byte(q, 38, i), i, q.len() as int);
        let head = piece_value(q.subrange(i, e), key);
        let rest = if e < q.len() {
            query_lookup_at(q, key, e + 1)
        } else {
            None
        };
        prefer(rest, head)
    }
}

/// The decoded value for `key` in query `q`, the last pair winning.
pub open spec fn query_lookup(q: Seq<u8>, key: Seq<u8>) -> Option<Seq<u8>> {
    query_lookup_at(q, key, 0)
}

/// The decoded value for `key` in a URL's query.
pub open spec fn url_param(url: Seq<u8>, key: Seq<u8>) -> Option<Seq<u8>> {
    query_lookup(query_of(url), key)
}

/// The view of an optional byte vector.
pub open spec fn opt_view(o: Option<Vec<u8>>) -> Option<Seq<u8>> {
    match o {
        Some(v) => Some(v@),
        None => None,
    }
}

/// The decoded value of one piece when its key is `key`.
fn piece_value_exec(piece: &Vec<u8>, key: &Vec<u8>) -> (r: Option<Vec<u8>>)
    ensures
        opt_view(r) == piece_value(piece@, key@),
{
    if piece.len() == 0 {
        return None;
    }
    let e = find_byte_from(piece, 61, 0);
    assert(e == clamp_idx(find_byte(piece@, 61, 0), 0, piece@.len() as int));
    let raw_k = subvec(piece, 0, e);
    let k = pct_decode_exec(&raw_k);
    let v_raw = if e < piece.len() {
        subvec(piece, e + 1, piece.len())
    } else {
        Vec::new()
    };
    let v = pct_decode_exec(&v_raw);
    if bytes_eq(&k, key) {
        Some(v)
    } else {
        None
    }
}

/// The decoded value for `key` in query `q`, the last pair winning.
pub fn query_lookup_exec(q: &Vec<u8>, key: &Vec<u8>) -> (r: Option<Vec<u8>>)
    ensures
        opt_view(r) == query_lookup(q@, key@),
{
    let n = q.len();
    let mut found: Option<Vec<u8>> = None;
    let mut i: usize = 0;
    while i < n
        invariant
            n == q@.len(),
            0 <= i <= n,
            query_lookup(q@, key@) == prefer(query_lookup_at(q@, key@, i as int), opt_view(found)),
        decreases n - i,
    {
        let e = find_byte_from(q, 38, i);
        assert(e == clamp_idx(find_byte(q@, 38, i as int), i as int, q@.len() as int));
        let piece = subvec(q, i, e);
        let pv = piece_value_exec(&piece, key);
        proof {
            let rest = if e < q@.len() {
                query_lookup_at(q@, key@, e + 1)
            } else {
                None
            };
            assert(query_lookup_at(q@, key@, i as int) == prefer(rest, piece_value(q@.subrange(i as int, e as int), key@)));
            assert(prefer(prefer(rest, piece_value(q@.subrange(i as int, e as int), key@)), opt_view(found))
                == prefer(rest, prefer(piece_value(q@.subrange(i as int, e as int), key@), opt_view(found))));
        }
        if pv.is_some() {
            found = pv;
        }
        if e < n {
            i = e + 1;
        } else {
            assert(query_lookup(q@, key@) == prefer(None, opt_view(found)));
            return found;
        }
    }
    found
}

/// ASCII lower case of one byte.
pub open spec fn lower_byte(b: u8) -> u8 {
    if 65 <= b <= 90 {
        (b + 32) as u8
    } else {
        b
    }
}

/// ASCII lower case, byte by byte.
pub open spec fn lower(s: Seq<u8>) -> Seq<u8> {
    s.map_values(|b: u8| lower_byte(b))
}

/// The scheme of a URL - what stands before the first `:` - compared in
/// lower case against the custom scheme the OS hands this executable.
pub open spec fn scheme_ok(url: Seq<u8>) -> bool {
    let c = find_byte(url, 58, 0);
    c < url.len() && lower(url.subrange(0, c)) == lit("wilma")
}

/// Whether the URL carries the custom scheme.
pub fn scheme_ok_exec(url: &Vec<u8>) -> (r: bool)
    ensures
        r == scheme_ok(url@),
{
    let c = find_byte_from(url, 58, 0);
    if c == url.len() {
        return false;
    }
    let raw = subvec(url, 0, c);
    let n = raw.len();
    let mut low: Vec<u8> = Vec::new();
    let mut i: usize = 0;
    while i < n
        invariant
            n == raw@.len(),
            0 <= i <= n,
            low@.len() == i,
            forall|j: int| 0 <= j < i ==> low@[j] == lower_byte(raw@[j]),
        decreases n - i,
    {
        let b = raw[i];
        if 65 <= b && b <= 90 {
            low.push(b + 32);
        } else {
            low.push(b);
        }
        i += 1;
    }
    assert(low@ =~= lower(raw@));
    let expected = bytes_of("wilma");
    bytes_eq(&low, &expected)
}

/// One field of the token-endpoint form.
#[derive(Debug, Clone, PartialEq, Eq)]
pub struct FormField {
    pub name: Vec<u8>,
    pub value: Vec<u8>,
}

/// The mathematical value of a form: name/value byte pairs in order.
pub open spec fn form_view(fs: Seq<FormField>) -> Seq<(Seq<u8>, Seq<u8>)> {
    fs.map_values(|f: FormField| (f.name@, f.value@))
}

/// The exact form the token endpoint is asked with: these five fields,
/// in this order.
pub open spec fn token_request_form(client_id: Seq<u8>, code: Seq<u8>, code_verifier: Seq<u8>) -> Seq<(Seq<u8>, Seq<u8>)> {
    seq![
        (lit("client_id"), client_id),
        (lit("grant_type"), lit("authorization_code")),
        (lit("redirect_uri"), lit("wilma://oauth")),
        (lit("code"), code),
        (lit("code_verifier"), code_verifier),
    ]
}

/// Reads the authorization code out of the redirect URL and lays out the
/// token-endpoint form. Fails when the URL does not carry the custom
/// scheme, and when it carries no `code`; the `state` comparison has
/// already happened by the time this runs.
pub fn oauth_authenticate(protocol_url: &Vec<u8>, client_id: &Vec<u8>, code_verifier: &Vec<u8>) -> (r: Result<Vec<FormField>, AuthError>)
    ensures
        ({
            if !scheme_ok(protocol_url@) {
                r == Err::<Vec<FormField>, AuthError>(AuthError::InvalidScheme)
            } else {
                match url_param(protocol_url@, lit("code")) {
                    None => r == Err::<Vec<FormField>, AuthError>(AuthError::MissingCode),
                    Some(code) => r matches Ok(form) && form_view(form@) == token_request_form(
                        client_id@,
                        code,
                        code_verifier@,
                    ),
                }
            }
        }),
{
    if !scheme_ok_exec(protocol_url) {
        return Err(AuthError::InvalidScheme);
    }
    let q = query_of_exec(protocol_url);
    let code_key = bytes_of("code");
    let code = match query_lookup_exec(&q, &code_key) {
        Some(c) => c,
        None => {
            return Err(AuthError::MissingCode);
        },
    };
    let mut form: Vec<FormField> = Vec::new();
    form.push(FormField { name: bytes_of("client_id"), value: subvec(client_id, 0, client_id.len()) });
    form.push(FormField { name: bytes_of("grant_type"), value: bytes_of("authorization_code") });
    form.push(FormField { name: bytes_of("redirect_uri"), value: bytes_of("wilma://oauth") });
    form.push(FormField { name: bytes_of("code"), value: code });
    form.push(FormField { name: bytes_of("code_verifier"), value: subvec(code_verifier, 0, code_verifier.len()) });
    proof {
        assert(client_id@.subrange(0, client_id@.len() as int) =~= client_id@);
        assert(code_verifier@.subrange(0, code_verifier@.len() as int) =~= code_verifier@);
        assert(form_view(form@) =~= token_request_form(
            client_id@,
            url_param(protocol_url@, lit("code")).unwrap(),
            code_verifier@,
        ));
    }
    Ok(form)
}

/// Everything the callback process needs for its token-endpoint call.
#[derive(Debug, Clone, PartialEq, Eq)]
pub struct TokenExchange {
    pub token_endpoint: Vec<u8>,
    pub form: Vec<FormField>,
}

/// The callback process's whole decision: given the redirect URL the OS
/// handed over and the handoff message read from the channel, either the
/// token-endpoint call to make, or the exact failure. The `state` of the
/// URL is compared byte for byte against the session's before anything
/// else may go to the network; a missing or differing `state` and a
/// missing `code` are security failures, a handoff of the wrong variant a
/// protocol failure.
pub fn redeem(redirect_url: &Vec<u8>, handoff: &IPCMessage) -> (r: Result<TokenExchange, AuthError>)
    ensures
        ({
            if !scheme_ok(redirect_url@) {
                r == Err::<TokenExchange, AuthError>(AuthError::InvalidScheme)
            } else {
                match handoff@ {
                    MessageView::TokenResponse { access_token, id_token } => r == Err::<
                        TokenExchange,
                        AuthError,
                    >(AuthError::UnexpectedMessage),
                    MessageView::TokenRequest { state, client_id, token_endpoint, code_verifier } => {
                        match url_param(redirect_url@, lit("state")) {
                            None => r == Err::<TokenExchange, AuthError>(AuthError::StateMissing),
                            Some(given) => {
                                if given != state {
                                    r == Err::<TokenExchange, AuthError>(AuthError::StateMismatch)
                                } else {
                                    match url_param(redirect_url@, lit("code")) {
                                        None => r == Err::<TokenExchange, AuthError>(
                                            AuthError::MissingCode,
                                        ),
                                        Some(code) => r matches Ok(x) && x.token_endpoint@
                                            == token_endpoint && form_view(x.form@)
                                            == token_request_form(client_id, code, code_verifier),
                                    }
                                }
                            },
                        }
                    },
                }
            }
        }),
{
    if !scheme_ok_exec(redirect_url) {
        return Err(AuthError::InvalidScheme);
    }
    match handoff {
        IPCMessage::TokenResponse { .. } => Err(AuthError::UnexpectedMessage),
        IPCMessage::TokenRequest { state, client_id, token_endpoint, code_verifier } => {
            let q = query_of_exec(redirect_url);
            let state_key = bytes_of("state");
            let given = match query_lookup_exec(&q, &state_key) {
                Some(g) => g,
                None => {
                    return Err(AuthError::StateMissing);
                },
            };
            if !bytes_eq(&given, state) {
                return Err(AuthError::StateMismatch);
            }
            let form = match oauth_authenticate(redirect_url, client_id, code_verifier) {
                Ok(f) => f,
                Err(e) => {
                    return Err(e);
                },
            };
            Ok(TokenExchange {
                token_endpoint: subvec(token_endpoint, 0, token_endpoint.len()),
                form,
            })
        },
    }
}

/// Reads the handoff off the channel bytes: the primary process's
/// `TokenRequest`, or the exact failure - `MalformedMessage` for bytes
/// that are no message, `UnexpectedMessage` for a `TokenResponse` in the
/// wrong direction.
pub fn receive_handoff(raw: &Vec<u8>) -> (r: Result<IPCMessage, AuthError>)
    ensures
        ({
            match parse_message_spec(raw@) {
                Some(m) => {
                    match m {
                        MessageView::TokenRequest { state, client_id, token_endpoint, code_verifier } => {
                            r matches Ok(h) && h@ == m
                        },
                        MessageView::TokenResponse { access_token, id_token } => r == Err::<
                            IPCMessage,
                            AuthError,
                        >(AuthError::UnexpectedMessage),
                    }
                },
                None => r == Err::<IPCMessage, AuthError>(AuthError::MalformedMessage),
            }
        }),
{
    match parse_message(raw) {
        None => Err(AuthError::MalformedMessage),
        Some(m) => {
            match m {
                IPCMessage::TokenRequest { .. } => Ok(m),
                IPCMessage::TokenResponse { .. } => Err(AuthError::UnexpectedMessage),
            }
        },
    }
}

/// Reads the token result off the channel bytes: the callback process's
/// `TokenResponse`, or the exact failure. A `TokenRequest` here - the
/// variant this leg itself sends - is a protocol error, never accepted.
pub fn complete_session(raw: &Vec<u8>) -> (r: Result<TokenData, AuthError>)
    ensures
        ({
            match parse_message_spec(raw@) {
                Some(m) => {
                    match m {
                        MessageView::TokenResponse { access_token, id_token } => r matches Ok(t)
                            && t.access_token@ == access_token && t.id_token@ == id_token,
                        MessageView::TokenRequest { state, client_id, token_endpoint, code_verifier } => r
                            == Err::<TokenData, AuthError>(AuthError::UnexpectedMessage),
                    }
                },
                None => r == Err::<TokenData, AuthError>(AuthError::MalformedMessage),
            }
        }),
{
    match parse_message(raw) {
        None => Err(AuthError::MalformedMessage),
        Some(m) => {
            match m {
                IPCMessage::TokenRequest { .. } => Err(AuthError::UnexpectedMessage),
                IPCMessage::TokenResponse { access_token, id_token } => Ok(TokenData {
                    access_token,
                    id_token,
                }),
            }
        },
    }
}

/// A session's parameters, held only in process memory. The challenge is
/// derived from the verifier and is the only one of the secrets that
/// leaves for the authorization endpoint; the verifier leaves only over
/// the local channel, inside the handoff.
pub struct AuthorizationSession {
    pub state: Vec<u8>,
    pub code_verifier: Vec<u8>,
    pub code_challenge: Vec<u8>,
    pub client_id: Vec<u8>,
    pub token_endpoint: Vec<u8>,
}

impl AuthorizationSession {
    /// The session invariant: the challenge is the unpadded base64url
    /// SHA-256 of the verifier, and state and verifier are fresh
    /// 64-character alphanumeric draws.
    pub open spec fn wf(&self) -> bool {
        &&& is_challenge_of(self.code_challenge@, self.code_verifier@)
        &&& self.state@.len() == 64
        &&& all_alnum(self.state@)
        &&& self.code_verifier@.len() == 64
        &&& all_alnum(self.code_verifier@)
    }
}

/// A URL up to its query or fragment, whichever comes first.
pub open spec fn endpoint_base(e: Seq<u8>) -> Seq<u8> {
    let q = clamp_idx(find_byte(e, 63, 0), 0, e.len() as int);
    let h = clamp_idx(find_byte(e, 35, 0), 0, e.len() as int);
    e.subrange(0, if q < h { q } else { h })
}

/// The authorization URL, assembled raw: exactly these parameters, in
/// this order, with the scope's space as a literal `+` - a generic
/// encoder would percent-escape it, which the target providers refuse.
pub open spec fn authorize_url(endpoint: Seq<u8>, client_id: Seq<u8>, state: Seq<u8>, challenge: Seq<u8>) -> Seq<u8> {
    endpoint_base(endpoint) + lit("?client_id=") + client_id + lit(
        "&response_type=code&scope=openid+email&redirect_uri=wilma://oauth&state=",
    ) + state + lit("&code_challenge_method=S256&code_challenge=") + challenge
}

/// What `begin_authorization` hands back: the session to keep, the URL
/// to open in the browser, and the handoff to send over the channel.
pub struct AuthorizationStart {
    pub session: AuthorizationSession,
    pub authorize_url: Vec<u8>,
    pub handoff: IPCMessage,
}

/// Starts a session in the primary process: draws the state and the PKCE
/// pair, builds the authorization URL for the provider's endpoint, and
/// lays out the handoff message. The challenge goes only into the URL;
/// the verifier and the state go only into the handoff.
pub fn begin_authorization(provider: &OpenIDProvider, configuration: &OpenIDConfiguration) -> (r: AuthorizationStart)
    ensures
        r.session.wf(),
        r.session.client_id@ == vstd::utf8::encode_utf8(provider.client_id@),
        r.session.token_endpoint@ == vstd::utf8::encode_utf8(configuration.token_endpoint@),
        r.authorize_url@ == authorize_url(
            vstd::utf8::encode_utf8(configuration.authorization_endpoint@),
            r.session.client_id@,
            r.session.state@,
            r.session.code_challenge@,
        ),
        r.handoff@ == (MessageView::TokenRequest {
            state: r.session.state@,
            client_id: r.session.client_id@,
            token_endpoint: r.session.token_endpoint@,
            code_verifier: r.session.code_verifier@,
        }),
{
    let (code_challenge, code_verifier) = generate_code();
    let state = generate_state();
    let client_id = provider.client_id.as_str().as_bytes_vec();
    let token_endpoint = configuration.token_endpoint.as_str().as_bytes_vec();
    let endpoint = configuration.authorization_endpoint.as_str().as_bytes_vec();

    let q = find_byte_from(&endpoint, 63, 0);
    let h = find_byte_from(&endpoint, 35, 0);
    let cut = if q < h {
        q
    } else {
        h
    };
    let mut url = subvec(&endpoint, 0, cut);
    assert(url@ == endpoint_base(endpoint@));
    let p = bytes_of("?client_id=");
    push_all(&mut url, &p);
    push_all(&mut url, &client_id);
    let p = bytes_of("&response_type=code&scope=openid+email&redirect_uri=wilma://oauth&state=");
    push_all(&mut url, &p);
    push_all(&mut url, &state);
    let p = bytes_of("&code_challenge_method=S256&code_challenge=");
    push_all(&mut url, &p);
    push_all(&mut url, &code_challenge);

    let handoff = IPCMessage::TokenRequest {
        state: subvec(&state, 0, state.len()),
        client_id: subvec(&client_id, 0, client_id.len()),
        token_endpoint: subvec(&token_endpoint, 0, token_endpoint.len()),
        code_verifier: subvec(&code_verifier, 0, code_verifier.len()),
    };
    proof {
        assert(state@.subrange(0, state@.len() as int) =~= state@);
        assert(client_id@.subrange(0, client_id@.len() as int) =~= client_id@);
        assert(token_endpoint@.subrange(0, token_endpoint@.len() as int) =~= token_endpoint@);
        assert(code_verifier@.subrange(0, code_verifier@.len() as int) =~= code_verifier@);
    }
    AuthorizationStart {
        session: AuthorizationSession {
            state,
            code_verifier,
            code_challenge,
            client_id,
            token_endpoint,
        },
        authorize_url: url,
        handoff,
    }
}

} // verus!
