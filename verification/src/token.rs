//! Reading the token endpoint's answer.
//!
//! The endpoint answers with one JSON object holding at least
//! `access_token` and `id_token`, both strings. The reader here takes
//! exactly that: whitespace between tokens is fine, members other than
//! the two tokens may carry values of any JSON shape - strings,
//! primitives, nested objects or arrays - and are skipped. String
//! escapes decode to their UTF-8 bytes; of the `\uXXXX` escapes the
//! whole basic plane is read, surrogates are not (an astral character
//! written as an escape pair is rejected). A body missing either token,
//! or of no such shape at all, is one failure: `MalformedTokenResponse`.

use vstd::prelude::*;
use crate::auth::{AuthError, TokenData, is_hex_byte, hex_value, hex_value_exec};
use crate::bytes_util::{lit, bytes_of, bytes_eq, subvec, clamp_idx};

verus! {

/// JSON insignificant whitespace.
pub open spec fn is_ws(b: u8) -> bool {
    b == 32 || b == 9 || b == 10 || b == 13
}

/// The document with insignificant whitespace dropped: outside strings
/// whitespace goes, inside strings - tracked across escapes - every byte
/// stays.
pub open spec fn strip_ws(s: Seq<u8>, in_str: bool, esc: bool) -> Seq<u8>
    decreases s.len(),
{
    if s.len() == 0 {
        Seq::empty()
    } else {
        let b = s[0];
        let rest = s.skip(1);
        if in_str {
            if esc {
                seq![b] + strip_ws(rest, true, false)
            } else if b == 92 {
                seq![b] + strip_ws(rest, true, true)
            } else if b == 34 {
                seq![b] + strip_ws(rest, false, false)
            } else {
                seq![b] + strip_ws(rest, true, false)
            }
        } else {
            if is_ws(b) {
                strip_ws(rest, false, false)
            } else if b == 34 {
                seq![b] + strip_ws(rest, true, false)
            } else {
                seq![b] + strip_ws(rest, false, false)
            }
        }
    }
}

/// Reads a JSON string body from index `i` up to its closing quote: the
/// decoded content and the index of that quote. The eight named escapes
/// decode to one byte; a `\uXXXX` escape of the basic plane decodes to
/// the UTF-8 bytes of its code point; a surrogate escape, an unknown
/// escape and a raw control byte are rejected.
pub open spec fn scan_json_string(s: Seq<u8>, i: int) -> Option<(Seq<u8>, int)>
    decreases s.len() - i,
{
    if i < 0 || i >= s.len() {
        None
    } else if s[i] == 34 {
        Some((Seq::empty(), i))
    } else if s[i] == 92 {
        if i + 1 < s.len() && escape_code(s[i + 1]) is Some {
            match scan_json_string(s, i + 2) {
                Some((c, j)) => Some((seq![escape_code(s[i + 1]).unwrap()] + c, j)),
                None => None,
            }
        } else if i + 5 < s.len() && s[i + 1] == 117 && is_hex_byte(s[i + 2])
            && is_hex_byte(s[i + 3]) && is_hex_byte(s[i + 4]) && is_hex_byte(s[i + 5])
            && !is_surrogate(hex4_val(s[i + 2], s[i + 3], s[i + 4], s[i + 5])) {
            match scan_json_string(s, i + 6) {
                Some((c, j)) => Some((utf8_of_code(hex4_val(s[i + 2], s[i + 3], s[i + 4], s[i + 5])) + c, j)),
                None => None,
            }
        } else {
            None
        }
    } else if s[i] < 32 {
        None
    } else {
        match scan_json_string(s, i + 1) {
            Some((c, j)) => Some((seq![s[i]] + c, j)),
            None => None,
        }
    }
}

/// The byte a one-letter JSON escape stands for.
pub open spec fn escape_code(b: u8) -> Option<u8> {
    if b == 34 {
        Some(34u8)
    } else if b == 92 {
        Some(92u8)
    } else if b == 47 {
        Some(47u8)
    } else if b == 98 {
        Some(8u8)
    } else if b == 102 {
        Some(12u8)
    } else if b == 110 {
        Some(10u8)
    } else if b == 114 {
        Some(13u8)
    } else if b == 116 {
        Some(9u8)
    } else {
        None
    }
}

/// The value of four hex digits, most significant first.
pub open spec fn hex4_val(a: u8, b: u8, c: u8, d: u8) -> u32 {
    (hex_value(a) * 4096 + hex_value(b) * 256 + hex_value(c) * 16 + hex_value(d)) as u32
}

/// A basic-plane code point reserved for surrogate pairs.
pub open spec fn is_surrogate(v: u32) -> bool {
    0xD800 <= v <= 0xDFFF
}

/// The UTF-8 bytes of a basic-plane code point, as a `\uXXXX` escape
/// decodes.
pub open spec fn utf8_of_code(v: u32) -> Seq<u8> {
    if v < 0x80 {
        seq![v as u8]
    } else if v < 0x800 {
        seq![(0xC0 | (v >> 6)) as u8, (0x80 | (v & 0x3F)) as u8]
    } else {
        seq![
            (0xE0 | (v >> 12)) as u8,
            (0x80 | ((v >> 6) & 0x3F)) as u8,
            (0x80 | (v & 0x3F)) as u8,
        ]
    }
}

/// A byte that may stand in an unquoted primitive: digits, sign, dot,
/// exponent letters, and the lower-case letters of `true`, `false` and
/// `null`.
pub open spec fn is_prim_byte(b: u8) -> bool {
    (48 <= b <= 57) || b == 43 || b == 45 || b == 46 || b == 69 || (97 <= b <= 122)
}

/// The end of the primitive starting at `i`: the first index holding no
/// primitive byte.
pub open spec fn prim_end(s: Seq<u8>, i: int) -> int
    decreases s.len() - i,
{
    if i < 0 || i >= s.len() {
        s.len() as int
    } else if is_prim_byte(s[i]) {
        prim_end(s, i + 1)
    } else {
        i
    }
}

/// The index just past a nested object or array starting at `i`:
/// brackets and braces are counted, strings - tracked across escapes -
/// hide what they hold. The shape inside is not checked further; the
/// two token fields never stand inside one.
pub open spec fn skip_nested(s: Seq<u8>, i: int, depth: int, in_str: bool, esc: bool) -> Option<int>
    decreases s.len() - i,
{
    if i < 0 || i >= s.len() {
        None
    } else {
        let b = s[i];
        if in_str {
            if esc {
                skip_nested(s, i + 1, depth, true, false)
            } else if b == 92 {
                skip_nested(s, i + 1, depth, true, true)
            } else if b == 34 {
                skip_nested(s, i + 1, depth, false, false)
            } else {
                skip_nested(s, i + 1, depth, true, false)
            }
        } else {
            if b == 123 || b == 91 {
                skip_nested(s, i + 1, depth + 1, false, false)
            } else if b == 125 || b == 93 {
                if depth == 1 {
                    Some(i + 1)
                } else if depth <= 0 {
                    None
                } else {
                    skip_nested(s, i + 1, depth - 1, false, false)
                }
            } else if b == 34 {
                skip_nested(s, i + 1, depth, true, false)
            } else {
                skip_nested(s, i + 1, depth, false, false)
            }
        }
    }
}

/// One `"key":value` member read from index `i` of the compact document:
/// the key, the value's content when it is a string, and the index of
/// the byte after the member. A nested value yields no content, as a
/// primitive does.
pub open spec fn parse_member(t: Seq<u8>, i: int) -> Option<(Seq<u8>, Option<Seq<u8>>, int)> {
    if 0 <= i < t.len() && t[i] == 34 {
        match scan_json_string(t, i + 1) {
            Some((key, jq)) => {
                if jq + 1 < t.len() && t[jq + 1] == 58 {
                    let vi = jq + 2;
                    if vi < t.len() && t[vi] == 34 {
                        match scan_json_string(t, vi + 1) {
                            Some((v, vq)) => Some((key, Some(v), vq + 1)),
                            None => None,
                        }
                    } else if vi < t.len() && (t[vi] == 123 || t[vi] == 91) {
                        match skip_nested(t, vi, 0, false, false) {
                            Some(e) => Some((key, None, e)),
                            None => None,
                        }
                    } else {
                        let pe = prim_end(t, vi);
                        if pe > vi {
                            Some((key, None, pe))
                        } else {
                            None
                        }
                    }
                } else {
                    None
                }
            },
            None => None,
        }
    } else {
        None
    }
}

/// The two token fields accumulated over the members from index `i` to
/// the closing brace. A wanted key carrying a non-string value fails the
/// whole read; among repeated keys the last wins.
pub open spec fn obj_members(t: Seq<u8>, i: int, at: Option<Seq<u8>>, it: Option<Seq<u8>>) -> Option<(Option<Seq<u8>>, Option<Seq<u8>>)>
    decreases t.len() - i,
{
    if i < 0 || i >= t.len() {
        None
    } else {
        match parse_member(t, i) {
            None => None,
            Some((key, sval, e)) => {
                if (key == lit("access_token") || key == lit("id_token")) && sval is None {
                    None
                } else {
                    let at2 = if key == lit("access_token") {
                        sval
                    } else {
                        at
                    };
                    let it2 = if key == lit("id_token") {
                        sval
                    } else {
                        it
                    };
                    let e2 = clamp_idx(e, i + 1, t.len() as int);
                    if e2 < t.len() && t[e2] == 44 {
                        obj_members(t, e2 + 1, at2, it2)
                    } else if e2 < t.len() && t[e2] == 125 && e2 + 1 == t.len() {
                        Some((at2, it2))
                    } else {
                        None
                    }
                }
            },
        }
    }
}

/// The two tokens a response body stands for, when it is one JSON
/// object holding both as strings, whatever else it holds.
pub open spec fn token_response_spec(s: Seq<u8>) -> Option<(Seq<u8>, Seq<u8>)> {
    let t = strip_ws(s, false, false);
    if t.len() >= 1 && t[0] == 123 {
        match obj_members(t, 1, None, None) {
            Some((at_opt, it_opt)) => {
                match (at_opt, it_opt) {
                    (Some(at), Some(it)) => Some((at, it)),
                    _ => None,
                }
            },
            None => None,
        }
    } else {
        None
    }
}

/// The document with insignificant whitespace dropped.
fn strip_ws_exec(s: &Vec<u8>) -> (r: Vec<u8>)
    ensures
        r@ == strip_ws(s@, false, false),
{
    let n = s.len();
    let mut out: Vec<u8> = Vec::new();
    let mut in_str = false;
    let mut esc = false;
    let mut i: usize = 0;
    assert(s@.skip(0) == s@);
    while i < n
        invariant
            n == s@.len(),
            0 <= i <= n,
            in_str || !esc,
            strip_ws(s@, false, false) == out@ + strip_ws(s@.skip(i as int), in_str, esc),
        decreases n - i,
    {
        let b = s[i];
        proof {
            assert(s@.skip(i as int)[0] == b);
            assert(s@.skip(i as int).skip(1) =~= s@.skip(i + 1));
        }
        if in_str {
            if esc {
                out.push(b);
                esc = false;
            } else if b == 92 {
                out.push(b);
                esc = true;
            } else if b == 34 {
                out.push(b);
                in_str = false;
            } else {
                out.push(b);
            }
        } else {
            if b == 32 || b == 9 || b == 10 || b == 13 {
            } else if b == 34 {
                out.push(b);
                in_str = true;
            } else {
                out.push(b);
            }
        }
        i += 1;
    }
    assert(s@.skip(n as int) =~= Seq::<u8>::empty());
    assert(out@ + Seq::<u8>::empty() =~= out@);
    out
}

/// Rearranges a scan result by an accumulated front.
pub open spec fn scan_json_with_acc(acc: Seq<u8>, r: Option<(Seq<u8>, int)>) -> Option<(Seq<u8>, int)> {
    match r {
        Some((c, j)) => Some((acc + c, j)),
        None => None,
    }
}

/// Reads a JSON string body from `start` up to its closing quote.
fn scan_json_exec(s: &Vec<u8>, start: usize) -> (r: Option<(Vec<u8>, usize)>)
    requires
        start <= s@.len(),
    ensures
        match r {
            Some(cj) => {
                &&& scan_json_string(s@, start as int) == Some((cj.0@, cj.1 as int))
                &&& start <= cj.1 < s@.len()
            },
            None => scan_json_string(s@, start as int) is None,
        },
{
    let n = s.len();
    let mut acc: Vec<u8> = Vec::new();
    let mut i: usize = start;
    while i < n
        invariant
            n == s@.len(),
            start <= i <= n,
            scan_json_string(s@, start as int) == scan_json_with_acc(acc@, scan_json_string(s@, i as int)),
        decreases n - i,
    {
        let b = s[i];
        if b == 34 {
            assert(acc@ + Seq::<u8>::empty() =~= acc@);
            return Some((acc, i));
        } else if b == 92 {
            if n - i > 1 {
                let nb = s[i + 1];
                let code: Option<u8> = if nb == 34 {
                    Some(34)
                } else if nb == 92 {
                    Some(92)
                } else if nb == 47 {
                    Some(47)
                } else if nb == 98 {
                    Some(8)
                } else if nb == 102 {
                    Some(12)
                } else if nb == 110 {
                    Some(10)
                } else if nb == 114 {
                    Some(13)
                } else if nb == 116 {
                    Some(9)
                } else {
                    None
                };
                match code {
                    Some(e) => {
                        assert(escape_code(nb) == Some(e));
                        proof {
                            match scan_json_string(s@, i + 2) {
                                Some((c, j)) => {
                                    assert(acc@ + (seq![e] + c) =~= (acc@ + seq![e]) + c);
                                },
                                None => {},
                            }
                        }
                        acc.push(e);
                        i += 2;
                    },
                    None => {
                        if n - i > 5 && nb == 117
                            && (48 <= s[i + 2] && s[i + 2] <= 57 || 65 <= s[i + 2] && s[i + 2] <= 70
                                || 97 <= s[i + 2] && s[i + 2] <= 102)
                            && (48 <= s[i + 3] && s[i + 3] <= 57 || 65 <= s[i + 3] && s[i + 3] <= 70
                                || 97 <= s[i + 3] && s[i + 3] <= 102)
                            && (48 <= s[i + 4] && s[i + 4] <= 57 || 65 <= s[i + 4] && s[i + 4] <= 70
                                || 97 <= s[i + 4] && s[i + 4] <= 102)
                            && (48 <= s[i + 5] && s[i + 5] <= 57 || 65 <= s[i + 5] && s[i + 5] <= 70
                                || 97 <= s[i + 5] && s[i + 5] <= 102) {
                            let v1 = hex_value_exec(s[i + 2]);
                            let v2 = hex_value_exec(s[i + 3]);
                            let v3 = hex_value_exec(s[i + 4]);
                            let v4 = hex_value_exec(s[i + 5]);
                            let v: u32 = (v1 as u32) * 4096 + (v2 as u32) * 256 + (v3 as u32) * 16
                                + (v4 as u32);
                            assert(v == hex4_val(s@[i + 2], s@[i + 3], s@[i + 4], s@[i + 5]));
                            if 0xD800 <= v && v <= 0xDFFF {
                                return None;
                            }
                            assert(!is_surrogate(v));
                            let ghost ub = utf8_of_code(v);
                            let ghost prev_acc = acc@;
                            proof {
                                match scan_json_string(s@, i + 6) {
                                    Some((c, j)) => {
                                        assert(prev_acc + (ub + c) =~= (prev_acc + ub) + c);
                                    },
                                    None => {},
                                }
                            }
                            if v < 0x80 {
                                acc.push(v as u8);
                                assert(acc@ =~= prev_acc + ub);
                            } else if v < 0x800 {
                                proof {
                                    assert((0xC0 | (v >> 6)) < 256 && (0x80 | (v & 0x3F)) < 256)
                                        by (bit_vector)
                                        requires v < 0x800;
                                }
                                acc.push((0xC0 | (v >> 6)) as u8);
                                acc.push((0x80 | (v & 0x3F)) as u8);
                                assert(acc@ =~= prev_acc + ub);
                            } else {
                                proof {
                                    assert((0xE0 | (v >> 12)) < 256 && (0x80 | ((v >> 6) & 0x3F)) < 256
                                        && (0x80 | (v & 0x3F)) < 256) by (bit_vector)
                                        requires v <= 0xFFFF;
                                }
                                acc.push((0xE0 | (v >> 12)) as u8);
                                acc.push((0x80 | ((v >> 6) & 0x3F)) as u8);
                                acc.push((0x80 | (v & 0x3F)) as u8);
                                assert(acc@ =~= prev_acc + ub);
                            }
                            i += 6;
                        } else {
                            return None;
                        }
                    },
                }
            } else {
                return None;
            }
        } else if b < 32 {
            return None;
        } else {
            proof {
                match scan_json_string(s@, i + 1) {
                    Some((c, j)) => {
                        assert(acc@ + (seq![b] + c) =~= (acc@ + seq![b]) + c);
                    },
                    None => {},
                }
            }
            acc.push(b);
            i += 1;
        }
    }
    None
}

/// The end of the primitive starting at `from`.
fn prim_end_exec(s: &Vec<u8>, from: usize) -> (r: usize)
    requires
        from <= s@.len(),
    ensures
        r == prim_end(s@, from as int),
        from <= r <= s@.len(),
{
    let n = s.len();
    let mut i: usize = from;
    while i < n
        invariant
            n == s@.len(),
            from <= i <= n,
            prim_end(s@, from as int) == prim_end(s@, i as int),
        decreases n - i,
    {
        let b = s[i];
        if (48 <= b && b <= 57) || b == 43 || b == 45 || b == 46 || b == 69 || (97 <= b && b <= 122) {
            i += 1;
        } else {
            return i;
        }
    }
    n
}

/// The index just past the nested object or array starting at `from`.
fn skip_composite_exec(s: &Vec<u8>, from: usize) -> (r: Option<usize>)
    requires
        from <= s@.len(),
    ensures
        match r {
            Some(e) => {
                &&& skip_nested(s@, from as int, 0, false, false) == Some(e as int)
                &&& from < e <= s@.len()
            },
            None => skip_nested(s@, from as int, 0, false, false) is None,
        },
{
    let n = s.len();
    let mut i: usize = from;
    let mut depth: usize = 0;
    let mut in_str = false;
    let mut esc = false;
    while i < n
        invariant
            n == s@.len(),
            from <= i <= n,
            depth <= i - from,
            in_str || !esc,
            skip_nested(s@, from as int, 0, false, false) == skip_nested(
                s@,
                i as int,
                depth as int,
                in_str,
                esc,
            ),
        decreases n - i,
    {
        let b = s[i];
        if in_str {
            if esc {
                esc = false;
            } else if b == 92 {
                esc = true;
            } else if b == 34 {
                in_str = false;
            }
        } else {
            if b == 123 || b == 91 {
                depth += 1;
            } else if b == 125 || b == 93 {
                if depth == 1 {
                    return Some(i + 1);
                } else if depth == 0 {
                    return None;
                } else {
                    depth -= 1;
                }
            } else if b == 34 {
                in_str = true;
            }
        }
        i += 1;
    }
    None
}

/// The view of an optional byte vector.
pub open spec fn tok_opt_view(o: Option<Vec<u8>>) -> Option<Seq<u8>> {
    match o {
        Some(v) => Some(v@),
        None => None,
    }
}

/// Reads the token endpoint's answer: both tokens, or the exact failure.
/// Every answer that is not one JSON object holding `access_token` and
/// `id_token` as strings - whatever other members it holds - comes back
/// as `MalformedTokenResponse`.
pub fn parse_token_response(raw: &Vec<u8>) -> (r: Result<TokenData, AuthError>)
    ensures
        ({
            match token_response_spec(raw@) {
                Some((at, it)) => r matches Ok(t) && t.access_token@ == at && t.id_token@ == it,
                None => r == Err::<TokenData, AuthError>(AuthError::MalformedTokenResponse),
            }
        }),
{
    let t = strip_ws_exec(raw);
    let n = t.len();
    if n == 0 {
        return Err(AuthError::MalformedTokenResponse);
    }
    if t[0] != 123 {
        return Err(AuthError::MalformedTokenResponse);
    }
    let at_key = bytes_of("access_token");
    let it_key = bytes_of("id_token");
    let mut at: Option<Vec<u8>> = None;
    let mut it: Option<Vec<u8>> = None;
    let mut i: usize = 1;
    while i < n
        invariant
            n == t@.len(),
            t@ == strip_ws(raw@, false, false),
            n >= 1 && t@[0] == 123,
            at_key@ == lit("access_token"),
            it_key@ == lit("id_token"),
            1 <= i <= n,
            obj_members(t@, 1, None, None) == obj_members(t@, i as int, tok_opt_view(at), tok_opt_view(it)),
        decreases n - i,
    {
        if t[i] != 34 {
            return Err(AuthError::MalformedTokenResponse);
        }
        let (key, jq) = match scan_json_exec(&t, i + 1) {
            Some(x) => x,
            None => {
                return Err(AuthError::MalformedTokenResponse);
            },
        };
        if !(jq + 1 < n && t[jq + 1] == 58) {
            return Err(AuthError::MalformedTokenResponse);
        }
        let vi = jq + 2;
        let sval: Option<Vec<u8>>;
        let e: usize;
        if vi < n && t[vi] == 34 {
            match scan_json_exec(&t, vi + 1) {
                Some((v, vq)) => {
                    sval = Some(v);
                    e = vq + 1;
                },
                None => {
                    return Err(AuthError::MalformedTokenResponse);
                },
            }
        } else if vi < n && (t[vi] == 123 || t[vi] == 91) {
            match skip_composite_exec(&t, vi) {
                Some(e2) => {
                    sval = None;
                    e = e2;
                },
                None => {
                    return Err(AuthError::MalformedTokenResponse);
                },
            }
        } else {
            let pe = prim_end_exec(&t, vi);
            if pe > vi {
                sval = None;
                e = pe;
            } else {
                return Err(AuthError::MalformedTokenResponse);
            }
        }
        let ghost sv = tok_opt_view(sval);
        let ghost prev_i = i as int;
        let ghost prev_at = tok_opt_view(at);
        let ghost prev_it = tok_opt_view(it);
        assert(parse_member(t@, i as int) == Some((key@, sv, e as int)));
        let wanted_at = bytes_eq(&key, &at_key);
        let wanted_it = bytes_eq(&key, &it_key);
        if (wanted_at || wanted_it) && sval.is_none() {
            return Err(AuthError::MalformedTokenResponse);
        }
        let sval_copy: Option<Vec<u8>> = match &sval {
            Some(v) => Some(subvec(v, 0, v.len())),
            None => None,
        };
        if wanted_at {
            at = sval;
            if wanted_it {
                it = sval_copy;
            }
        } else if wanted_it {
            it = sval;
        }
        proof {
            assert(tok_opt_view(at) == (if key@ == lit("access_token") {
                sv
            } else {
                prev_at
            }));
            assert(tok_opt_view(it) == (if key@ == lit("id_token") {
                sv
            } else {
                prev_it
            }));
            assert(e as int == clamp_idx(e as int, prev_i + 1, n as int));
        }
        if e < n && t[e] == 44 {
            proof {
                assert(obj_members(t@, prev_i, prev_at, prev_it) == obj_members(
                    t@,
                    e + 1,
                    tok_opt_view(at),
                    tok_opt_view(it),
                ));
            }
            i = e + 1;
        } else if e < n && t[e] == 125 && e + 1 == n {
            return match (at, it) {
                (Some(a), Some(b)) => Ok(TokenData { access_token: a, id_token: b }),
                _ => Err(AuthError::MalformedTokenResponse),
            };
        } else {
            return Err(AuthError::MalformedTokenResponse);
        }
    }
    Err(AuthError::MalformedTokenResponse)
}

} // verus!
