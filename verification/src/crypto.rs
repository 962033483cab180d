//! Trusted doorway to the outside cryptography crates: hashing, base64
//! text, random bytes and identifier text.
//!
//! Each named result stands for what the outside call computes from its
//! arguments alone; the library's own logic is verified against these
//! names.

use vstd::prelude::*;
use sha2::Digest;
use base64::Engine;
use crate::text::hex_char;

verus! {

/// The SHA-256 digest of a byte string, as sha2 computes it.
pub uninterp spec fn sha256_of(data: Seq<u8>) -> Seq<u8>;

/// The standard (padded) base64 text of a byte string, as base64 encodes it.
pub uninterp spec fn b64_std_of(data: Seq<u8>) -> Seq<char>;

/// The URL-safe unpadded base64 text of a byte string, as base64 encodes it.
pub uninterp spec fn b64_url_of(data: Seq<u8>) -> Seq<char>;

/// Which of the 32 hexadecimal digits a character position holds, once
/// the four hyphens are skipped.
pub open spec fn uuid_nibble_index(p: int) -> int {
    if p < 8 {
        p
    } else if p < 13 {
        p - 1
    } else if p < 18 {
        p - 2
    } else if p < 23 {
        p - 3
    } else {
        p - 4
    }
}

/// The hyphenated text of a 128-bit identifier, as uuid renders it: the
/// 32 lower-case hexadecimal digits of the value, most significant first,
/// with hyphens after the eighth, twelfth, sixteenth and twentieth digit.
pub open spec fn uuid_text_of(bits: u128) -> Seq<char> {
    Seq::new(
        36,
        |p: int|
            if p == 8 || p == 13 || p == 18 || p == 23 {
                '-'
            } else {
                hex_char(((bits >> ((124 - 4 * uuid_nibble_index(p)) as u128)) & 0xf) as u32)
            },
    )
}

/// Relies on sha2's `Sha256`: the digest depends on the input bytes alone
/// and is 32 bytes long.
#[verifier::external_body]
pub fn sha256(data: &[u8]) -> (r: Vec<u8>)
    ensures
        r@ == sha256_of(data@),
        r@.len() == 32,
{
    let mut hasher = sha2::Sha256::new();
    hasher.update(data);
    hasher.finalize().to_vec()
}

/// Relies on base64's `STANDARD` engine: four characters for every three
/// bytes, padded; the text depends on the input alone.
#[verifier::external_body]
pub fn b64_encode_std(data: &[u8]) -> (r: String)
    requires
        data@.len() <= 0x1000_0000,
    ensures
        r@ == b64_std_of(data@),
        r@.len() == 4 * ((data@.len() + 2) / 3),
{
    base64::engine::general_purpose::STANDARD.encode(data)
}

/// Relies on base64's `URL_SAFE_NO_PAD` engine: an unpadded encoding whose
/// text depends on the input alone.
#[verifier::external_body]
pub fn b64_encode_url(data: &[u8]) -> (r: String)
    requires
        data@.len() <= 0x1000_0000,
    ensures
        r@ == b64_url_of(data@),
        r@.len() == (4 * data@.len() + 2) / 3,
{
    base64::engine::general_purpose::URL_SAFE_NO_PAD.encode(data)
}

/// Relies on getrandom's `fill`: 32 bytes from the operating system's
/// randomness source. Nothing is promised of the values.
#[verifier::external_body]
pub fn random_bytes_32() -> (r: Result<Vec<u8>, ()>)
    ensures
        match r {
            Ok(b) => b@.len() == 32,
            Err(()) => true,
        },
{
    let mut buf = [0u8; 32];
    match getrandom::fill(&mut buf) {
        Ok(()) => Ok(buf.to_vec()),
        Err(_) => Err(()),
    }
}

/// Relies on uuid's hyphenated formatting: the big-endian bytes of the
/// value as lower-case hexadecimal, in five hyphen-separated groups.
#[verifier::external_body]
pub fn uuid_to_string(bits: u128) -> (r: String)
    ensures
        r@ == uuid_text_of(bits),
        r@.len() == 36,
{
    uuid::Uuid::from_u128(bits).hyphenated().to_string()
}

/// Join two byte strings.
pub fn concat_bytes(a: &[u8], b: &[u8]) -> (r: Vec<u8>)
    ensures
        r@ == a@ + b@,
{
    let mut out: Vec<u8> = Vec::new();
    let na = a.len();
    let mut i: usize = 0;
    while i < na
        invariant
            na == a@.len(),
            0 <= i <= na,
            out@ == a@.take(i as int),
        decreases na - i,
    {
        out.push(a[i]);
        proof {
            assert(a@.take(i + 1 as int) =~= a@.take(i as int).push(a@[i as int]));
        }
        i += 1;
    }
    proof {
        assert(a@.take(na as int) =~= a@);
    }
    let nb = b.len();
    let mut j: usize = 0;
    while j < nb
        invariant
            nb == b@.len(),
            0 <= j <= nb,
            out@ == a@ + b@.take(j as int),
        decreases nb - j,
    {
        out.push(b[j]);
        proof {
            assert(a@ + b@.take(j + 1 as int) =~= (a@ + b@.take(j as int)).push(b@[j as int]));
        }
        j += 1;
    }
    proof {
        assert(a@ + b@.take(nb as int) =~= a@ + b@);
    }
    out
}

} // verus!
