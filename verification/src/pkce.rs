//! PKCE generator: verifier/challenge/state triples.
//!
//! The verifier and the state are independent draws of 64 alphanumeric
//! characters; the challenge is the unpadded base64url encoding of the
//! SHA-256 digest of the verifier.

use vstd::prelude::*;
use rand::Rng;
use sha2::Digest;

verus! {

/// A byte is an ASCII letter or digit.
pub open spec fn is_alnum_byte(b: u8) -> bool {
    (48 <= b <= 57) || (65 <= b <= 90) || (97 <= b <= 122)
}

/// Every byte of `s` is an ASCII letter or digit.
pub open spec fn all_alnum(s: Seq<u8>) -> bool {
    forall|i: int| 0 <= i < s.len() ==> is_alnum_byte(#[trigger] s[i])
}

/// What SHA-256 returns on the given input; a fixed function of the input
/// alone, left without a definition here.
pub uninterp spec fn sha256_of(data: Seq<u8>) -> Seq<u8>;

/// Relies on sha2's `Sha256`: the digest is 32 bytes and depends on the
/// input bytes alone.
#[verifier::external_body]
fn sha256(data: &Vec<u8>) -> (r: Vec<u8>)
    ensures
        r@ == sha256_of(data@),
        r@.len() == 32,
{
    sha2::Sha256::digest(data.as_slice()).to_vec()
}

/// Relies on rand's `Alphanumeric` distribution: each draw is an ASCII
/// letter or digit. Nothing is assumed about which bytes come back.
#[verifier::external_body]
fn random_alphanumeric_bytes(len: usize) -> (r: Vec<u8>)
    ensures
        r@.len() == len,
        all_alnum(r@),
{
    rand::thread_rng().sample_iter(&rand::distributions::Alphanumeric).take(len).collect()
}

/// The base64url alphabet: the byte standing for a 6-bit value.
pub open spec fn b64url_byte(v: u8) -> u8 {
    if v < 26 {
        (65 + v) as u8
    } else if v < 52 {
        (97 + (v - 26)) as u8
    } else if v < 62 {
        (48 + (v - 52)) as u8
    } else if v == 62 {
        45
    } else {
        95
    }
}

/// Unpadded base64url encoding: each 3-byte group becomes 4 alphabet bytes;
/// a trailing group of 2 or 1 bytes becomes 3 or 2, with no `=` padding.
pub open spec fn base64url_nopad(s: Seq<u8>) -> Seq<u8>
    decreases s.len(),
{
    if s.len() >= 3 {
        seq![
            b64url_byte(s[0] >> 2),
            b64url_byte((s[0] & 3) << 4 | s[1] >> 4),
            b64url_byte((s[1] & 15) << 2 | s[2] >> 6),
            b64url_byte(s[2] & 63),
        ] + base64url_nopad(s.skip(3))
    } else if s.len() == 2 {
        seq![
            b64url_byte(s[0] >> 2),
            b64url_byte((s[0] & 3) << 4 | s[1] >> 4),
            b64url_byte((s[1] & 15) << 2),
        ]
    } else if s.len() == 1 {
        seq![b64url_byte(s[0] >> 2), b64url_byte((s[0] & 3) << 4)]
    } else {
        Seq::empty()
    }
}

/// The byte standing for a 6-bit value in the base64url alphabet.
fn b64_byte(v: u8) -> (r: u8)
    ensures
        r == b64url_byte(v),
{
    if v < 26 {
        65 + v
    } else if v < 52 {
        97 + (v - 26)
    } else if v < 62 {
        48 + (v - 52)
    } else if v == 62 {
        45
    } else {
        95
    }
}

/// Unpadded base64url encoding of `data`.
pub fn base64url_encode(data: &Vec<u8>) -> (r: Vec<u8>)
    ensures
        r@ == base64url_nopad(data@),
{
    let mut out: Vec<u8> = Vec::new();
    let n = data.len();
    let mut i: usize = 0;
    assert(data@.skip(0) == data@);
    while n - i >= 3
        invariant
            n == data@.len(),
            0 <= i <= n,
            base64url_nopad(data@) == out@ + base64url_nopad(data@.skip(i as int)),
        decreases n - i,
    {
        let b0 = data[i];
        let b1 = data[i + 1];
        let b2 = data[i + 2];
        out.push(b64_byte(b0 >> 2));
        out.push(b64_byte((b0 & 3) << 4 | b1 >> 4));
        out.push(b64_byte((b1 & 15) << 2 | b2 >> 6));
        out.push(b64_byte(b2 & 63));
        proof {
            assert(data@.skip(i as int).len() >= 3);
            assert(data@.skip(i as int)[0] == b0);
            assert(data@.skip(i as int)[1] == b1);
            assert(data@.skip(i as int)[2] == b2);
            assert(data@.skip(i as int).skip(3) =~= data@.skip(i + 3));
        }
        i += 3;
    }
    if n - i == 2 {
        let b0 = data[i];
        let b1 = data[i + 1];
        out.push(b64_byte(b0 >> 2));
        out.push(b64_byte((b0 & 3) << 4 | b1 >> 4));
        out.push(b64_byte((b1 & 15) << 2));
        proof {
            assert(data@.skip(i as int).len() == 2);
            assert(data@.skip(i as int)[0] == b0);
            assert(data@.skip(i as int)[1] == b1);
        }
    } else if n - i == 1 {
        let b0 = data[i];
        out.push(b64_byte(b0 >> 2));
        out.push(b64_byte((b0 & 3) << 4));
        proof {
            assert(data@.skip(i as int).len() == 1);
            assert(data@.skip(i as int)[0] == b0);
        }
    } else {
        assert(data@.skip(i as int).len() == 0);
    }
    out
}

/// A byte of the base64url alphabet.
pub open spec fn is_b64url_byte(b: u8) -> bool {
    (65 <= b <= 90) || (97 <= b <= 122) || (48 <= b <= 57) || b == 45 || b == 95
}

/// Whatever the 6-bit value, the alphabet byte is in the alphabet.
proof fn lemma_b64_byte_in(v: u8)
    ensures
        is_b64url_byte(b64url_byte(v)),
{
}

/// The length of an unpadded base64url encoding: four bytes per full
/// 3-byte group, two or three for a trailing group of one or two.
pub proof fn lemma_base64url_len(s: Seq<u8>)
    ensures
        base64url_nopad(s).len() == (s.len() / 3) * 4 + (if s.len() % 3 == 0 {
            0int
        } else if s.len() % 3 == 1 {
            2int
        } else {
            3int
        }),
    decreases s.len(),
{
    if s.len() >= 3 {
        lemma_base64url_len(s.skip(3));
        assert(s.skip(3).len() == s.len() - 3);
    }
}

/// Every byte of an unpadded base64url encoding is in the alphabet.
pub proof fn lemma_base64url_alphabet(s: Seq<u8>)
    ensures
        forall|i: int| 0 <= i < base64url_nopad(s).len() ==> is_b64url_byte(
            #[trigger] base64url_nopad(s)[i],
        ),
    decreases s.len(),
{
    let e = base64url_nopad(s);
    if s.len() >= 3 {
        lemma_base64url_alphabet(s.skip(3));
        lemma_b64_byte_in(s[0] >> 2);
        lemma_b64_byte_in((s[0] & 3) << 4 | s[1] >> 4);
        lemma_b64_byte_in((s[1] & 15) << 2 | s[2] >> 6);
        lemma_b64_byte_in(s[2] & 63);
        assert forall|i: int| 0 <= i < e.len() implies is_b64url_byte(e[i]) by {
            if i >= 4 {
                assert(e[i] == base64url_nopad(s.skip(3))[i - 4]);
            }
        }
    } else if s.len() == 2 {
        lemma_b64_byte_in(s[0] >> 2);
        lemma_b64_byte_in((s[0] & 3) << 4 | s[1] >> 4);
        lemma_b64_byte_in((s[1] & 15) << 2);
    } else if s.len() == 1 {
        lemma_b64_byte_in(s[0] >> 2);
        lemma_b64_byte_in((s[0] & 3) << 4);
    }
}

/// The challenge is the unpadded base64url encoding of the SHA-256 digest
/// of the verifier.
pub open spec fn is_challenge_of(challenge: Seq<u8>, verifier: Seq<u8>) -> bool {
    challenge == base64url_nopad(sha256_of(verifier))
}

/// The challenge belonging to a given verifier, recomputed from it:
/// the 43 alphabet bytes a 32-byte digest encodes to.
pub fn challenge_of_verifier(verifier: &Vec<u8>) -> (c: Vec<u8>)
    ensures
        is_challenge_of(c@, verifier@),
        c@.len() == 43,
        forall|i: int| 0 <= i < c@.len() ==> is_b64url_byte(#[trigger] c@[i]),
{
    let digest = sha256(verifier);
    proof {
        lemma_base64url_len(digest@);
        lemma_base64url_alphabet(digest@);
    }
    base64url_encode(&digest)
}

/// A fresh PKCE pair: the 43-character challenge first, then the
/// 64-character alphanumeric verifier it was derived from.
pub fn generate_code() -> (r: (Vec<u8>, Vec<u8>))
    ensures
        is_challenge_of(r.0@, r.1@),
        r.0@.len() == 43,
        forall|i: int| 0 <= i < r.0@.len() ==> is_b64url_byte(#[trigger] r.0@[i]),
        r.1@.len() == 64,
        all_alnum(r.1@),
{
    let verifier = random_alphanumeric_bytes(64);
    let challenge = challenge_of_verifier(&verifier);
    (challenge, verifier)
}

/// A fresh anti-CSRF state token: 64 alphanumeric characters, drawn
/// independently of any verifier.
pub fn generate_state() -> (r: Vec<u8>)
    ensures
        r@.len() == 64,
        all_alnum(r@),
{
    random_alphanumeric_bytes(64)
}

} // verus!
