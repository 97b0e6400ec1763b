//! The rendezvous channel's message layer.
//!
//! Exactly two messages ever cross the channel: the session handoff
//! (primary to callback) and the token result (callback to primary). Each
//! is one UTF-8 JSON document, tagged by its variant name, sent as a single
//! write and read back as a single read. The codec here pins the wire form
//! byte for byte: `encode_message` produces it and `parse_message` accepts
//! exactly it, so the receiving leg can reject anything else as malformed.

use vstd::prelude::*;
use crate::bytes_util::{lit, starts_with, bytes_of, has_prefix, push_all};

verus! {

/// The two messages of the rendezvous protocol. `TokenRequest` carries the
/// session parameters from the primary process to the callback process;
/// `TokenResponse` carries the redeemed tokens back. No variant is valid
/// in both directions. Field text is held as UTF-8 bytes.
#[derive(Debug, Clone, PartialEq, Eq)]
pub enum IPCMessage {
    TokenRequest {
        state: Vec<u8>,
        client_id: Vec<u8>,
        token_endpoint: Vec<u8>,
        code_verifier: Vec<u8>,
    },
    TokenResponse {
        access_token: Vec<u8>,
        id_token: Vec<u8>,
    },
}

/// The mathematical value of an `IPCMessage`: the same shape over byte
/// sequences.
pub enum MessageView {
    TokenRequest {
        state: Seq<u8>,
        client_id: Seq<u8>,
        token_endpoint: Seq<u8>,
        code_verifier: Seq<u8>,
    },
    TokenResponse {
        access_token: Seq<u8>,
        id_token: Seq<u8>,
    },
}

impl View for IPCMessage {
    type V = MessageView;

    open spec fn view(&self) -> MessageView {
        match self {
            IPCMessage::TokenRequest { state, client_id, token_endpoint, code_verifier } => {
                MessageView::TokenRequest {
                    state: state@,
                    client_id: client_id@,
                    token_endpoint: token_endpoint@,
                    code_verifier: code_verifier@,
                }
            },
            IPCMessage::TokenResponse { access_token, id_token } => {
                MessageView::TokenResponse { access_token: access_token@, id_token: id_token@ }
            },
        }
    }
}

/// The largest message the channel carries: one read of this size is one
/// whole message (token payloads stay a few KB).
pub const MESSAGE_CAPACITY: usize = 4096;

/// Lower-case hex digit for a value below 16.
pub open spec fn hex_digit(v: u8) -> u8 {
    if v < 10 {
        (48 + v) as u8
    } else {
        (87 + v) as u8
    }
}

/// A byte is a lower-case hex digit.
pub open spec fn is_lower_hex(b: u8) -> bool {
    (48 <= b <= 57) || (97 <= b <= 102)
}

/// The value of a lower-case hex digit.
pub open spec fn hex_val(b: u8) -> u8 {
    if 48 <= b <= 57 {
        (b - 48) as u8
    } else {
        (b - 87) as u8
    }
}

/// How one byte appears inside a JSON string on the wire: quote and
/// backslash escaped with a backslash, control bytes as `\u00xx`, and
/// every other byte as itself.
pub open spec fn escape_byte(b: u8) -> Seq<u8> {
    if b == 34 {
        seq![92u8, 34u8]
    } else if b == 92 {
        seq![92u8, 92u8]
    } else if b < 32 {
        seq![92u8, 117u8, 48u8, 48u8, hex_digit(b >> 4), hex_digit(b & 15)]
    } else {
        seq![b]
    }
}

/// A whole field, escaped byte by byte.
pub open spec fn escape(s: Seq<u8>) -> Seq<u8>
    decreases s.len(),
{
    if s.len() == 0 {
        Seq::empty()
    } else {
        escape_byte(s[0]) + escape(s.skip(1))
    }
}

/// Opens the handoff document, up to and including the quote that starts
/// the `state` field.
pub open spec fn req_prefix() -> Seq<u8> {
    lit("{\"TokenRequest\":{\"state\":\"")
}

/// Closes `state` and opens `client_id`.
pub open spec fn sep_client_id() -> Seq<u8> {
    lit("\",\"client_id\":\"")
}

/// Closes `client_id` and opens `token_endpoint`.
pub open spec fn sep_token_endpoint() -> Seq<u8> {
    lit("\",\"token_endpoint\":\"")
}

/// Closes `token_endpoint` and opens `code_verifier`.
pub open spec fn sep_code_verifier() -> Seq<u8> {
    lit("\",\"code_verifier\":\"")
}

/// Opens the token-result document, up to and including the quote that
/// starts the `access_token` field.
pub open spec fn resp_prefix() -> Seq<u8> {
    lit("{\"TokenResponse\":{\"access_token\":\"")
}

/// Closes `access_token` and opens `id_token`.
pub open spec fn sep_id_token() -> Seq<u8> {
    lit("\",\"id_token\":\"")
}

/// Closes the last field and both objects.
pub open spec fn msg_tail() -> Seq<u8> {
    lit("\"}}")
}

/// The wire form of a message, byte for byte.
pub open spec fn encoded_message(m: MessageView) -> Seq<u8> {
    match m {
        MessageView::TokenRequest { state, client_id, token_endpoint, code_verifier } => {
            req_prefix() + escape(state) + sep_client_id() + escape(client_id)
                + sep_token_endpoint() + escape(token_endpoint) + sep_code_verifier()
                + escape(code_verifier) + msg_tail()
        },
        MessageView::TokenResponse { access_token, id_token } => {
            resp_prefix() + escape(access_token) + sep_id_token() + escape(id_token) + msg_tail()
        },
    }
}

/// The literal `p` stands in `s` at index `i`.
pub open spec fn lit_at(s: Seq<u8>, i: int, p: Seq<u8>) -> bool {
    0 <= i && i + p.len() <= s.len() && s.subrange(i, i + p.len() as int) == p
}

/// Reads a JSON string body from index `i` up to its closing quote:
/// the unescaped content and the index of that quote. `None` on a raw
/// control byte, an escape this codec never writes, or a missing quote.
pub open spec fn scan_string(s: Seq<u8>, i: int) -> Option<(Seq<u8>, int)>
    decreases s.len() - i,
{
    if i < 0 || i >= s.len() {
        None
    } else if s[i] == 34 {
        Some((Seq::empty(), i))
    } else if s[i] == 92 {
        if i + 1 < s.len() && (s[i + 1] == 34 || s[i + 1] == 92) {
            match scan_string(s, i + 2) {
                Some((c, j)) => Some((seq![s[i + 1]] + c, j)),
                None => None,
            }
        } else if i + 5 < s.len() && s[i + 1] == 117 && s[i + 2] == 48 && s[i + 3] == 48
            && is_lower_hex(s[i + 4]) && is_lower_hex(s[i + 5]) && hex_val(s[i + 4]) < 2 {
            match scan_string(s, i + 6) {
                Some((c, j)) => Some((seq![(hex_val(s[i + 4]) * 16 + hex_val(s[i + 5])) as u8] + c, j)),
                None => None,
            }
        } else {
            None
        }
    } else if s[i] < 32 {
        None
    } else {
        match scan_string(s, i + 1) {
            Some((c, j)) => Some((seq![s[i]] + c, j)),
            None => None,
        }
    }
}

/// The four handoff fields read from index `i`, when the rest of `s` is
/// exactly their wire form.
pub open spec fn parse_request_at(s: Seq<u8>, i: int) -> Option<(Seq<u8>, Seq<u8>, Seq<u8>, Seq<u8>)> {
    match scan_string(s, i) {
        Some((state, i1)) => {
            if lit_at(s, i1, sep_client_id()) {
                match scan_string(s, i1 + sep_client_id().len()) {
                    Some((client_id, i2)) => {
                        if lit_at(s, i2, sep_token_endpoint()) {
                            match scan_string(s, i2 + sep_token_endpoint().len()) {
                                Some((token_endpoint, i3)) => {
                                    if lit_at(s, i3, sep_code_verifier()) {
                                        match scan_string(s, i3 + sep_code_verifier().len()) {
                                            Some((code_verifier, i4)) => {
                                                if lit_at(s, i4, msg_tail())
                                                    && i4 + msg_tail().len() == s.len() {
                                                    Some((state, client_id, token_endpoint, code_verifier))
                                                } else {
                                                    None
                                                }
                                            },
                                            None => None,
                                        }
                                    } else {
                                        None
                                    }
                                },
                                None => None,
                            }
                        } else {
                            None
                        }
                    },
                    None => None,
                }
            } else {
                None
            }
        },
        None => None,
    }
}

/// The two token-result fields read from index `i`, when the rest of `s`
/// is exactly their wire form.
pub open spec fn parse_response_at(s: Seq<u8>, i: int) -> Option<(Seq<u8>, Seq<u8>)> {
    match scan_string(s, i) {
        Some((access_token, i1)) => {
            if lit_at(s, i1, sep_id_token()) {
                match scan_string(s, i1 + sep_id_token().len()) {
                    Some((id_token, i2)) => {
                        if lit_at(s, i2, msg_tail()) && i2 + msg_tail().len() == s.len() {
                            Some((access_token, id_token))
                        } else {
                            None
                        }
                    },
                    None => None,
                }
            } else {
                None
            }
        },
        None => None,
    }
}

/// The message a byte sequence stands for: the wire form is accepted
/// exactly, anything else is rejected.
pub open spec fn parse_message_spec(s: Seq<u8>) -> Option<MessageView> {
    if starts_with(s, req_prefix()) {
        match parse_request_at(s, req_prefix().len() as int) {
            Some((state, client_id, token_endpoint, code_verifier)) => {
                Some(MessageView::TokenRequest { state, client_id, token_endpoint, code_verifier })
            },
            None => None,
        }
    } else if starts_with(s, resp_prefix()) {
        match parse_response_at(s, resp_prefix().len() as int) {
            Some((access_token, id_token)) => {
                Some(MessageView::TokenResponse { access_token, id_token })
            },
            None => None,
        }
    } else {
        None
    }
}

/// Lower-case hex digit for a value below 16.
fn hex_digit_exec(v: u8) -> (r: u8)
    requires
        v < 16,
    ensures
        r == hex_digit(v),
{
    if v < 10 {
        48 + v
    } else {
        87 + v
    }
}

/// Appends the escaped form of `src` to `out`.
pub(crate) fn push_escaped(out: &mut Vec<u8>, src: &Vec<u8>)
    ensures
        final(out)@ == old(out)@ + escape(src@),
{
    let n = src.len();
    let mut i: usize = 0;
    assert(src@.skip(0) == src@);
    while i < n
        invariant
            n == src@.len(),
            0 <= i <= n,
            old(out)@ + escape(src@) == out@ + escape(src@.skip(i as int)),
        decreases n - i,
    {
        let b = src[i];
        proof {
            assert(src@.skip(i as int)[0] == b);
            assert(src@.skip(i as int).len() > 0);
            assert(src@.skip(i as int).skip(1) =~= src@.skip(i + 1));
        }
        if b == 34 {
            out.push(92);
            out.push(34);
        } else if b == 92 {
            out.push(92);
            out.push(92);
        } else if b < 32 {
            proof {
                assert(b >> 4 < 16 && b & 15 < 16) by (bit_vector);
            }
            out.push(92);
            out.push(117);
            out.push(48);
            out.push(48);
            out.push(hex_digit_exec(b >> 4));
            out.push(hex_digit_exec(b & 15));
        } else {
            out.push(b);
        }
        i += 1;
    }
    assert(src@.skip(n as int) =~= Seq::<u8>::empty());
}

/// The wire bytes of a message: one JSON document, tagged by the variant
/// name, ready to be sent as a single write.
pub fn encode_message(m: &IPCMessage) -> (r: Vec<u8>)
    ensures
        r@ == encoded_message(m@),
{
    let mut out: Vec<u8> = Vec::new();
    match m {
        IPCMessage::TokenRequest { state, client_id, token_endpoint, code_verifier } => {
            let p = bytes_of("{\"TokenRequest\":{\"state\":\"");
            push_all(&mut out, &p);
            push_escaped(&mut out, state);
            let p = bytes_of("\",\"client_id\":\"");
            push_all(&mut out, &p);
            push_escaped(&mut out, client_id);
            let p = bytes_of("\",\"token_endpoint\":\"");
            push_all(&mut out, &p);
            push_escaped(&mut out, token_endpoint);
            let p = bytes_of("\",\"code_verifier\":\"");
            push_all(&mut out, &p);
            push_escaped(&mut out, code_verifier);
            let p = bytes_of("\"}}");
            push_all(&mut out, &p);
        },
        IPCMessage::TokenResponse { access_token, id_token } => {
            let p = bytes_of("{\"TokenResponse\":{\"access_token\":\"");
            push_all(&mut out, &p);
            push_escaped(&mut out, access_token);
            let p = bytes_of("\",\"id_token\":\"");
            push_all(&mut out, &p);
            push_escaped(&mut out, id_token);
            let p = bytes_of("\"}}");
            push_all(&mut out, &p);
        },
    }
    out
}

/// Rearranges a scan result by an accumulated front.
pub open spec fn scan_with_acc(acc: Seq<u8>, r: Option<(Seq<u8>, int)>) -> Option<(Seq<u8>, int)> {
    match r {
        Some((c, j)) => Some((acc + c, j)),
        None => None,
    }
}

/// Reads a JSON string body from `start` up to its closing quote.
fn scan_string_exec(s: &Vec<u8>, start: usize) -> (r: Option<(Vec<u8>, usize)>)
    requires
        start <= s@.len(),
    ensures
        match r {
            Some(cj) => {
                &&& scan_string(s@, start as int) == Some((cj.0@, cj.1 as int))
                &&& start <= cj.1 < s@.len()
            },
            None => scan_string(s@, start as int) is None,
        },
{
    let n = s.len();
    let mut acc: Vec<u8> = Vec::new();
    let mut i: usize = start;
    while i < n
        invariant
            n == s@.len(),
            start <= i <= n,
            scan_string(s@, start as int) == scan_with_acc(acc@, scan_string(s@, i as int)),
        decreases n - i,
    {
        let b = s[i];
        if b == 34 {
            assert(acc@ + Seq::<u8>::empty() =~= acc@);
            return Some((acc, i));
        } else if b == 92 {
            if n - i > 1 && (s[i + 1] == 34 || s[i + 1] == 92) {
                let e = s[i + 1];
                proof {
                    match scan_string(s@, i + 2) {
                        Some((c, j)) => {
                            assert(acc@ + (seq![e] + c) =~= (acc@ + seq![e]) + c);
                        },
                        None => {},
                    }
                }
                acc.push(e);
                i += 2;
            } else if n - i > 5 && s[i + 1] == 117 && s[i + 2] == 48 && s[i + 3] == 48
                && (48 <= s[i + 4] && s[i + 4] <= 57 || 97 <= s[i + 4] && s[i + 4] <= 102)
                && (48 <= s[i + 5] && s[i + 5] <= 57 || 97 <= s[i + 5] && s[i + 5] <= 102)
                && (if s[i + 4] <= 57 { s[i + 4] - 48 } else { s[i + 4] - 87 }) < 2 {
                let h1 = s[i + 4];
                let h2 = s[i + 5];
                let v1: u8 = if h1 <= 57 { h1 - 48 } else { h1 - 87 };
                let v2: u8 = if h2 <= 57 { h2 - 48 } else { h2 - 87 };
                let e: u8 = v1 * 16 + v2;
                proof {
                    assert(v1 == hex_val(h1));
                    assert(v2 == hex_val(h2));
                    match scan_string(s@, i + 6) {
                        Some((c, j)) => {
                            assert(acc@ + (seq![e] + c) =~= (acc@ + seq![e]) + c);
                        },
                        None => {},
                    }
                }
                acc.push(e);
                i += 6;
            } else {
                return None;
            }
        } else if b < 32 {
            return None;
        } else {
            proof {
                match scan_string(s@, i + 1) {
                    Some((c, j)) => {
                        assert(acc@ + (seq![b] + c) =~= (acc@ + seq![b]) + c);
                    },
                    None => {},
                }
            }
            acc.push(b);
            i += 1;
        }
    }
    None
}

/// The literal `p` stands in `s` at index `i`.
fn lit_matches_at(s: &Vec<u8>, i: usize, p: &Vec<u8>) -> (r: bool)
    requires
        i <= s@.len(),
    ensures
        r == lit_at(s@, i as int, p@),
{
    let sn = s.len();
    if sn - i < p.len() {
        return false;
    }
    let n = p.len();
    let mut k: usize = 0;
    while k < n
        invariant
            n == p@.len(),
            sn == s@.len(),
            i + n <= s@.len(),
            0 <= k <= n,
            forall|j: int| 0 <= j < k ==> s@[i + j] == p@[j],
        decreases n - k,
    {
        assert(i + k < sn);
        if s[i + k] != p[k] {
            assert(s@.subrange(i as int, i + p@.len() as int)[k as int] != p@[k as int]);
            return false;
        }
        k += 1;
    }
    assert(s@.subrange(i as int, i + p@.len() as int) =~= p@);
    true
}

/// The message a byte sequence stands for, or `None` when it is not
/// exactly the wire form of one.
pub fn parse_message(s: &Vec<u8>) -> (r: Option<IPCMessage>)
    ensures
        match r {
            Some(m) => parse_message_spec(s@) == Some(m@),
            None => parse_message_spec(s@) is None,
        },
{
    let total = s.len();
    let req_p = bytes_of("{\"TokenRequest\":{\"state\":\"");
    let resp_p = bytes_of("{\"TokenResponse\":{\"access_token\":\"");
    let tail = bytes_of("\"}}");
    assert(total == s@.len());
    if has_prefix(s, &req_p) {
        let sep_cid = bytes_of("\",\"client_id\":\"");
        let sep_te = bytes_of("\",\"token_endpoint\":\"");
        let sep_cv = bytes_of("\",\"code_verifier\":\"");
        let r1 = scan_string_exec(s, req_p.len());
        match r1 {
            Some((state, i1)) => {
                if !lit_matches_at(s, i1, &sep_cid) {
                    return None;
                }
                let r2 = scan_string_exec(s, i1 + sep_cid.len());
                match r2 {
                    Some((client_id, i2)) => {
                        if !lit_matches_at(s, i2, &sep_te) {
                            return None;
                        }
                        let r3 = scan_string_exec(s, i2 + sep_te.len());
                        match r3 {
                            Some((token_endpoint, i3)) => {
                                if !lit_matches_at(s, i3, &sep_cv) {
                                    return None;
                                }
                                let r4 = scan_string_exec(s, i3 + sep_cv.len());
                                match r4 {
                                    Some((code_verifier, i4)) => {
                                        if lit_matches_at(s, i4, &tail) && i4 + tail.len() == s.len() {
                                            Some(IPCMessage::TokenRequest {
                                                state,
                                                client_id,
                                                token_endpoint,
                                                code_verifier,
                                            })
                                        } else {
                                            None
                                        }
                                    },
                                    None => None,
                                }
                            },
                            None => None,
                        }
                    },
                    None => None,
                }
            },
            None => None,
        }
    } else if has_prefix(s, &resp_p) {
        let sep_it = bytes_of("\",\"id_token\":\"");
        let r1 = scan_string_exec(s, resp_p.len());
        match r1 {
            Some((access_token, i1)) => {
                if !lit_matches_at(s, i1, &sep_it) {
                    return None;
                }
                let r2 = scan_string_exec(s, i1 + sep_it.len());
                match r2 {
                    Some((id_token, i2)) => {
                        if lit_matches_at(s, i2, &tail) && i2 + tail.len() == s.len() {
                            Some(IPCMessage::TokenResponse { access_token, id_token })
                        } else {
                            None
                        }
                    },
                    None => None,
                }
            },
            None => None,
        }
    } else {
        None
    }
}



/// A hex digit the escaper writes reads back to its value.
proof fn lemma_hex_digit_val(v: u8)
    requires
        v < 16,
    ensures
        is_lower_hex(hex_digit(v)),
        hex_val(hex_digit(v)) == v,
{
}

/// Scanning the wire form of a field stops exactly at the quote that
/// closes it and yields the field back unchanged.
proof fn lemma_scan_escape(s: Seq<u8>, i: int, x: Seq<u8>)
    requires
        0 <= i,
        i + escape(x).len() < s.len(),
        s.subrange(i, i + escape(x).len()) == escape(x),
        s[i + escape(x).len()] == 34,
    ensures
        scan_string(s, i) == Some((x, i + escape(x).len())),
    decreases x.len(),
{
    let ex = escape(x);
    let j = i + ex.len();
    if x.len() == 0 {
        assert(ex.len() == 0);
    } else {
        let b = x[0];
        let rest = x.skip(1);
        let eb = escape_byte(b);
        assert(ex == eb + escape(rest));
        assert forall|k: int| 0 <= k < eb.len() implies s[i + k] == eb[k] by {
            assert(s.subrange(i, j)[k] == s[i + k]);
            assert((eb + escape(rest))[k] == eb[k]);
        }
        let i2 = i + eb.len();
        assert(s.subrange(i2, j) =~= escape(rest)) by {
            assert forall|k: int| 0 <= k < escape(rest).len() implies s.subrange(i2, j)[k]
                == escape(rest)[k] by {
                assert(s.subrange(i, j)[eb.len() + k] == s[i2 + k]);
                assert((eb + escape(rest))[eb.len() + k] == escape(rest)[k]);
            }
        }
        lemma_scan_escape(s, i2, rest);
        if b == 34 {
            assert(s[i] == 92 && s[i + 1] == 34);
            assert(seq![s[i + 1]] + rest =~= x);
        } else if b == 92 {
            assert(s[i] == 92 && s[i + 1] == 92);
            assert(seq![s[i + 1]] + rest =~= x);
        } else if b < 32 {
            assert(b >> 4 < 16 && (b & 15) < 16 && b >> 4 < 2 && (b >> 4) * 16 + (b & 15) == b)
                by (bit_vector)
                requires b < 32;
            lemma_hex_digit_val(b >> 4);
            lemma_hex_digit_val(b & 15);
            assert(s[i] == 92 && s[i + 1] == 117 && s[i + 2] == 48 && s[i + 3] == 48);
            assert(s[i + 4] == hex_digit(b >> 4) && s[i + 5] == hex_digit(b & 15));
            assert(seq![(hex_val(s[i + 4]) * 16 + hex_val(s[i + 5])) as u8] + rest =~= x);
        } else {
            assert(s[i + 0] == eb[0]);
            assert(s[i] == b);
            assert(seq![s[i]] + rest =~= x);
        }
    }
}

/// The wire literals, pinned byte for byte where the round trip needs
/// them: every separator opens with the quote that closes the field
/// before it, and the two document openings differ.
proof fn lemma_literal_bytes()
    ensures
        req_prefix().len() == 26,
        resp_prefix().len() == 34,
        sep_client_id().len() == 15,
        sep_token_endpoint().len() == 20,
        sep_code_verifier().len() == 19,
        sep_id_token().len() == 14,
        msg_tail().len() == 3,
        req_prefix()[9] == 113,
        resp_prefix()[9] == 115,
        sep_client_id()[0] == 34,
        sep_token_endpoint()[0] == 34,
        sep_code_verifier()[0] == 34,
        sep_id_token()[0] == 34,
        msg_tail()[0] == 34,
{
    reveal_strlit("{\"TokenRequest\":{\"state\":\"");
    reveal_strlit("{\"TokenResponse\":{\"access_token\":\"");
    reveal_strlit("\",\"client_id\":\"");
    reveal_strlit("\",\"token_endpoint\":\"");
    reveal_strlit("\",\"code_verifier\":\"");
    reveal_strlit("\",\"id_token\":\"");
    reveal_strlit("\"}}");
    vstd::utf8::is_ascii_chars_encode_utf8("{\"TokenRequest\":{\"state\":\""@);
    vstd::utf8::is_ascii_chars_encode_utf8("{\"TokenResponse\":{\"access_token\":\""@);
    vstd::utf8::is_ascii_chars_encode_utf8("\",\"client_id\":\""@);
    vstd::utf8::is_ascii_chars_encode_utf8("\",\"token_endpoint\":\""@);
    vstd::utf8::is_ascii_chars_encode_utf8("\",\"code_verifier\":\""@);
    vstd::utf8::is_ascii_chars_encode_utf8("\",\"id_token\":\""@);
    vstd::utf8::is_ascii_chars_encode_utf8("\"}}"@);
}

/// Splits a known concatenation at its seam: when a front part of `s`
/// reads `u + v`, the two halves stand at their own offsets.
proof fn lemma_peel_right(s: Seq<u8>, ln: int, u: Seq<u8>, v: Seq<u8>)
    requires
        0 <= ln <= s.len(),
        ln == u.len() + v.len(),
        s.subrange(0, ln) == u + v,
    ensures
        s.subrange(0, u.len() as int) == u,
        s.subrange(u.len() as int, ln) == v,
{
    assert(s.subrange(0, u.len() as int) =~= u) by {
        assert forall|k: int| 0 <= k < u.len() implies s.subrange(0, u.len() as int)[k] == u[k] by {
            assert(s.subrange(0, ln)[k] == s[k]);
            assert((u + v)[k] == u[k]);
        }
    }
    assert(s.subrange(u.len() as int, ln) =~= v) by {
        assert forall|k: int| 0 <= k < v.len() implies s.subrange(u.len() as int, ln)[k] == v[k] by {
            assert(s.subrange(0, ln)[u.len() + k] == s[u.len() + k]);
            assert((u + v)[u.len() + k] == v[k]);
        }
    }
}

/// The round trip for a handoff message.
#[verifier::rlimit(100)]
proof fn lemma_round_trip_request(m: MessageView)
    requires
        m is TokenRequest,
    ensures
        parse_message_spec(encoded_message(m)) == Some(m),
{
    lemma_literal_bytes();
    let s = encoded_message(m);
    match m {
        MessageView::TokenRequest { state, client_id, token_endpoint, code_verifier } => {
            let p = req_prefix();
            let e1 = escape(state);
            let sep1 = sep_client_id();
            let e2 = escape(client_id);
            let sep2 = sep_token_endpoint();
            let e3 = escape(token_endpoint);
            let sep3 = sep_code_verifier();
            let e4 = escape(code_verifier);
            let tail = msg_tail();
            let i0 = p.len() as int;
            let i1 = i0 + e1.len();
            let a1 = i1 + sep1.len();
            let i2 = a1 + e2.len();
            let a2 = i2 + sep2.len();
            let i3 = a2 + e3.len();
            let a3 = i3 + sep3.len();
            let i4 = a3 + e4.len();
            let n = s.len() as int;
            assert(n == i4 + tail.len());
            assert(s.subrange(0, n) =~= s);
            lemma_peel_right(s, n, p + e1 + sep1 + e2 + sep2 + e3 + sep3 + e4, tail);
            lemma_peel_right(s, i4, p + e1 + sep1 + e2 + sep2 + e3 + sep3, e4);
            lemma_peel_right(s, a3, p + e1 + sep1 + e2 + sep2 + e3, sep3);
            lemma_peel_right(s, i3, p + e1 + sep1 + e2 + sep2, e3);
            lemma_peel_right(s, a2, p + e1 + sep1 + e2, sep2);
            lemma_peel_right(s, i2, p + e1 + sep1, e2);
            lemma_peel_right(s, a1, p + e1, sep1);
            lemma_peel_right(s, i1, p, e1);
            assert(s[i1] == 34) by {
                assert(s.subrange(i1, a1)[0] == s[i1]);
            }
            assert(s[i2] == 34) by {
                assert(s.subrange(i2, a2)[0] == s[i2]);
            }
            assert(s[i3] == 34) by {
                assert(s.subrange(i3, a3)[0] == s[i3]);
            }
            assert(s[i4] == 34) by {
                assert(s.subrange(i4, n)[0] == s[i4]);
            }
            lemma_scan_escape(s, i0, state);
            assert(lit_at(s, i1, sep1));
            lemma_scan_escape(s, a1, client_id);
            assert(lit_at(s, i2, sep2));
            lemma_scan_escape(s, a2, token_endpoint);
            assert(lit_at(s, i3, sep3));
            lemma_scan_escape(s, a3, code_verifier);
            assert(lit_at(s, i4, tail));
            assert(parse_request_at(s, i0) == Some((state, client_id, token_endpoint, code_verifier)));
            assert(starts_with(s, p));
            assert(parse_message_spec(s) == Some(m));
        },
        _ => {},
    }
}

/// The round trip for a token-result message.
#[verifier::rlimit(100)]
proof fn lemma_round_trip_response(m: MessageView)
    requires
        m is TokenResponse,
    ensures
        parse_message_spec(encoded_message(m)) == Some(m),
{
    lemma_literal_bytes();
    let s = encoded_message(m);
    match m {
        MessageView::TokenResponse { access_token, id_token } => {
            let p = resp_prefix();
            let e1 = escape(access_token);
            let sep1 = sep_id_token();
            let e2 = escape(id_token);
            let tail = msg_tail();
            let i0 = p.len() as int;
            let i1 = i0 + e1.len();
            let a1 = i1 + sep1.len();
            let i2 = a1 + e2.len();
            let n = s.len() as int;
            assert(n == i2 + tail.len());
            assert(s.subrange(0, n) =~= s);
            lemma_peel_right(s, n, p + e1 + sep1 + e2, tail);
            lemma_peel_right(s, i2, p + e1 + sep1, e2);
            lemma_peel_right(s, a1, p + e1, sep1);
            lemma_peel_right(s, i1, p, e1);
            assert(s[i1] == 34) by {
                assert(s.subrange(i1, a1)[0] == s[i1]);
            }
            assert(s[i2] == 34) by {
                assert(s.subrange(i2, n)[0] == s[i2]);
            }
            assert(!starts_with(s, req_prefix())) by {
                if starts_with(s, req_prefix()) {
                    assert(s.subrange(0, req_prefix().len() as int)[9] == s[9]);
                    assert(s.subrange(0, i0)[9] == s[9]);
                }
            }
            lemma_scan_escape(s, i0, access_token);
            assert(lit_at(s, i1, sep1));
            lemma_scan_escape(s, a1, id_token);
            assert(lit_at(s, i2, tail));
            assert(parse_response_at(s, i0) == Some((access_token, id_token)));
            assert(starts_with(s, p));
            assert(parse_message_spec(s) == Some(m));
        },
        _ => {},
    }
}

/// What one leg transmits, the other reads back unchanged: parsing the
/// wire form of any message yields exactly that message, so the codec
/// loses nothing and confuses no two messages.
pub proof fn lemma_codec_round_trip(m: MessageView)
    ensures
        parse_message_spec(encoded_message(m)) == Some(m),
{
    match m {
        MessageView::TokenRequest { .. } => lemma_round_trip_request(m),
        MessageView::TokenResponse { .. } => lemma_round_trip_response(m),
    }
}

} // verus!
