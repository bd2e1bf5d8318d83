use vstd::prelude::*;
use base64::Engine;
use hmac::{Hmac, Mac};
use sha2::{Digest, Sha256};
use crate::text::{hex_char, hex_digit, push_char};

verus! {

/// The SHA-256 digest of a byte string.
pub uninterp spec fn sha256_of(data: Seq<u8>) -> Seq<u8>;

/// The HMAC-SHA256 of `data` under `key`.
pub uninterp spec fn hmac_sha256_of(key: Seq<u8>, data: Seq<u8>) -> Seq<u8>;

/// Calls `sha2::Sha256::digest`; the digest is 32 bytes long.
#[verifier::external_body]
pub(crate) fn sha256_digest(data: &[u8]) -> (r: Vec<u8>)
    ensures
        r@ == sha256_of(data@),
        r@.len() == 32,
{
    Sha256::digest(data).to_vec()
}

/// Calls `hmac::Hmac::<Sha256>` (`new_from_slice`, `update`, `finalize`);
/// HMAC takes keys of any length, so making the MAC never fails.
#[verifier::external_body]
pub(crate) fn hmac_sha256(key: &[u8], data: &[u8]) -> (r: Vec<u8>)
    ensures
        r@ == hmac_sha256_of(key@, data@),
{
    match Hmac::<Sha256>::new_from_slice(key) {
        Ok(mut mac) => {
            mac.update(data);
            mac.finalize().into_bytes().to_vec()
        },
        Err(_) => Vec::new(),
    }
}

/// The character of a six-bit value in the standard base64 alphabet.
pub open spec fn base64_digit(n: int) -> char {
    if n < 26 {
        (65 + n) as char
    } else if n < 52 {
        (97 + n - 26) as char
    } else if n < 62 {
        (48 + n - 52) as char
    } else if n == 62 {
        '+'
    } else {
        '/'
    }
}

/// The standard base64 text (RFC 4648 alphabet, with `=` padding) of bytes:
/// each three bytes give four characters; a last group of one or two bytes
/// gives two or three characters and padding.
pub open spec fn base64_standard(b: Seq<u8>) -> Seq<char>
    decreases b.len(),
{
    if b.len() == 0 {
        Seq::empty()
    } else {
        let x = b[0] as int;
        let y = if b.len() > 1 {
            b[1] as int
        } else {
            0
        };
        let z = if b.len() > 2 {
            b[2] as int
        } else {
            0
        };
        let head = seq![base64_digit(x / 4), base64_digit((x % 4) * 16 + y / 16)];
        if b.len() == 1 {
            head + seq!['=', '=']
        } else if b.len() == 2 {
            head + seq![base64_digit((y % 16) * 4), '=']
        } else {
            head + seq![base64_digit((y % 16) * 4 + z / 64), base64_digit(z % 64)]
                + base64_standard(b.skip(3))
        }
    }
}

/// The bytes that a text reads as in standard base64, or the decoder's
/// complaint.
pub uninterp spec fn base64_standard_decoded(text: Seq<u8>) -> Result<Seq<u8>, Seq<char>>;

/// Calls `base64::engine::general_purpose::STANDARD.encode`: standard
/// base64 with padding, as `base64_standard` states it.
#[verifier::external_body]
pub(crate) fn base64_encode(data: &[u8]) -> (r: String)
    ensures
        r@ == base64_standard(data@),
{
    base64::engine::general_purpose::STANDARD.encode(data)
}

/// Calls `base64::engine::general_purpose::STANDARD.decode`, the error
/// taken by its message.
#[verifier::external_body]
pub(crate) fn base64_decode(text: &[u8]) -> (r: Result<Vec<u8>, String>)
    ensures
        match r {
            Ok(b) => base64_standard_decoded(text@) == Ok::<Seq<u8>, Seq<char>>(b@),
            Err(e) => base64_standard_decoded(text@) == Err::<Seq<u8>, Seq<char>>(e@),
        },
{
    base64::engine::general_purpose::STANDARD.decode(text).map_err(|e| e.to_string())
}

/// Two lowercase hex digits per byte.
pub open spec fn hex_lower(b: Seq<u8>) -> Seq<char>
    decreases b.len(),
{
    if b.len() == 0 {
        Seq::empty()
    } else {
        hex_lower(b.drop_last()) + seq![hex_digit((b.last() / 16) as u32), hex_digit((b.last() % 16) as u32)]
    }
}

/// The bytes as lowercase hex, two digits each.
pub fn hex_encode(b: &[u8]) -> (res: String)
    ensures
        res@ == hex_lower(b@),
{
    let mut out = String::new();
    let mut i: usize = 0;
    assert(b@.take(0) =~= Seq::<u8>::empty());
    while i < b.len()
        invariant
            i <= b@.len(),
            out@ == hex_lower(b@.take(i as int)),
        decreases b.len() - i,
    {
        let byte = b[i];
        push_char(&mut out, hex_char((byte / 16) as u32));
        push_char(&mut out, hex_char((byte % 16) as u32));
        assert(b@.take(i + 1).drop_last() =~= b@.take(i as int));
        i = i + 1;
    }
    assert(b@.take(b@.len() as int) =~= b@);
    out
}

/// The lowercase hex SHA-256 digest of a text's UTF-8 bytes.
pub open spec fn sha256_hex(s: Seq<char>) -> Seq<char> {
    hex_lower(sha256_of(vstd::utf8::encode_utf8(s)))
}

/// The lowercase hex SHA-256 digest of a text's UTF-8 bytes.
pub fn sha256(s: &str) -> (res: String)
    ensures
        res@ == sha256_hex(s@),
{
    let d = sha256_digest(s.as_bytes());
    hex_encode(d.as_slice())
}

} // verus!
