//! Byte codecs the library leans on: base64, SHA-256, a grey 8x8 thumbnail
//! of an encoded image, and lower-case hex.
use vstd::prelude::*;

use base64::Engine;
use sha2::Digest;

verus! {

#[verifier::external_type_specification]
#[verifier::external_body]
pub struct ExDecodeError(base64::DecodeError);

#[verifier::external_type_specification]
#[verifier::external_body]
pub struct ExImageError(image::ImageError);

/// The bytes that standard base64 (with padding) decodes `text` to, or
/// nothing when `text` is not valid standard base64.
pub uninterp spec fn base64_decoded(text: Seq<char>) -> Option<Seq<u8>>;

/// The character of a six-bit value in the standard base64 alphabet.
pub open spec fn b64_char(v: int) -> char {
    if v < 26 {
        (('A' as int) + v) as char
    } else if v < 52 {
        (('a' as int) + v - 26) as char
    } else if v < 62 {
        (('0' as int) + v - 52) as char
    } else if v == 62 {
        '+'
    } else {
        '/'
    }
}

/// The standard base64 text of `data`: each three bytes become four
/// characters of six bits each, and a last group of one or two bytes is
/// padded with `=` to four characters.
pub open spec fn base64_encoded(data: Seq<u8>) -> Seq<char>
    decreases data.len(),
{
    if data.len() == 0 {
        Seq::empty()
    } else {
        let a = data[0] as int;
        let b = if data.len() > 1 { data[1] as int } else { 0 };
        let c = if data.len() > 2 { data[2] as int } else { 0 };
        let head = seq![
            b64_char(a / 4),
            b64_char((a % 4) * 16 + b / 16),
            if data.len() > 1 { b64_char((b % 16) * 4 + c / 64) } else { '=' },
            if data.len() > 2 { b64_char(c % 64) } else { '=' },
        ];
        if data.len() <= 3 {
            head
        } else {
            head + base64_encoded(data.skip(3))
        }
    }
}

/// The SHA-256 digest of `data`.
pub uninterp spec fn sha256_digest(data: Seq<u8>) -> Seq<u8>;

/// The 64 grey levels, row by row, of the image encoded in `data` once it is
/// turned grey and resized to 8x8 with a triangle filter; nothing when
/// `data` does not decode.
pub uninterp spec fn gray_thumbnail(data: Seq<u8>) -> Option<Seq<u8>>;

/// `base64::engine::general_purpose::STANDARD.decode`: the result depends on
/// the input text alone. The engine requires canonical padding and no
/// trailing bits, so it undoes `base64_encoded` exactly: it gives the bytes
/// whose encoding is `text`, and an error when no bytes encode to `text`.
#[verifier::external_body]
pub(crate) fn base64_decode(text: &str) -> (r: Result<Vec<u8>, base64::DecodeError>)
    ensures
        match r {
            Ok(v) => base64_decoded(text@) == Some(v@) && base64_encoded(v@) == text@,
            Err(_) => base64_decoded(text@) is None && forall|b: Seq<u8>| #[trigger] base64_encoded(b) != text@,
        },
{
    base64::engine::general_purpose::STANDARD.decode(text)
}

/// `base64::engine::general_purpose::STANDARD.encode`: the standard
/// alphabet with padding, as `base64_encoded` states it.
#[verifier::external_body]
pub(crate) fn base64_encode(data: &[u8]) -> (r: String)
    ensures
        r@ == base64_encoded(data@),
{
    base64::engine::general_purpose::STANDARD.encode(data)
}

/// `DecodeError`'s `Display` text. Nothing is stated of the text.
#[verifier::external_body]
pub(crate) fn decode_error_text(e: &base64::DecodeError) -> String {
    format!("{}", e)
}

/// `sha2::Sha256::digest`: the 32-byte digest of `data`.
#[verifier::external_body]
pub(crate) fn sha256(data: &[u8]) -> (r: Vec<u8>)
    ensures
        r@ == sha256_digest(data@),
        r@.len() == 32,
{
    sha2::Sha256::digest(data).to_vec()
}

/// `image::load_from_memory`, then `grayscale`, `resize_exact(8, 8, Triangle)`
/// and `to_luma8` on the decoded image: 64 grey levels, row by row. The
/// levels themselves are named, not stated.
#[verifier::external_body]
pub(crate) fn gray_thumbnail_8x8(data: &[u8]) -> (r: Result<Vec<u8>, image::ImageError>)
    ensures
        match r {
            Ok(v) => gray_thumbnail(data@) == Some(v@) && v@.len() == 64,
            Err(_) => gray_thumbnail(data@) is None,
        },
{
    image::load_from_memory(data).map(
        |img| img.grayscale().resize_exact(8, 8, image::imageops::FilterType::Triangle).to_luma8().into_raw(),
    )
}

/// `ImageError`'s `Display` text. Nothing is stated of the text.
#[verifier::external_body]
pub(crate) fn image_error_text(e: &image::ImageError) -> String {
    format!("{}", e)
}

/// The lower-case hex digit for `n < 16`.
pub open spec fn hex_digit(n: int) -> char {
    if n < 10 {
        (('0' as int) + n) as char
    } else {
        (('a' as int) + n - 10) as char
    }
}

/// Two lower-case hex digits per byte, high nibble first.
pub open spec fn hex_lower_spec(b: Seq<u8>) -> Seq<char>
    decreases b.len(),
{
    if b.len() == 0 {
        Seq::empty()
    } else {
        hex_lower_spec(b.drop_last()) + seq![
            hex_digit((b.last() / 16) as int),
            hex_digit((b.last() % 16) as int),
        ]
    }
}

fn nibble_lower(n: u8) -> (c: char)
    requires
        n < 16,
    ensures
        c == hex_digit(n as int),
{
    if n < 10 {
        (n + 48) as char
    } else {
        (n + 87) as char
    }
}

/// The bytes in lower-case hex.
pub fn hex_lower(bytes: &[u8]) -> (s: String)
    ensures
        s@ == hex_lower_spec(bytes@),
{
    let mut out = String::new();
    let mut i: usize = 0;
    while i < bytes.len()
        invariant
            0 <= i <= bytes@.len(),
            out@ == hex_lower_spec(bytes@.take(i as int)),
        decreases bytes@.len() - i,
    {
        let b = bytes[i];
        assert(b >> 4 == b / 16) by (bit_vector);
        assert(b & 0xf == b % 16) by (bit_vector);
        out.push(nibble_lower(b >> 4));
        out.push(nibble_lower(b & 0xf));
        assert(bytes@.take(i + 1).drop_last() =~= bytes@.take(i as int));
        i = i + 1;
    }
    assert(bytes@.take(i as int) =~= bytes@);
    out
}

/// The SHA-256 digest of `bytes` in lower-case hex.
pub fn sha256_hex(bytes: &[u8]) -> (s: String)
    ensures
        s@ == hex_lower_spec(sha256_digest(bytes@)),
        s@.len() == 64,
{
    let digest = sha256(bytes);
    let s = hex_lower(digest.as_slice());
    proof {
        lemma_hex_lower_len(digest@);
    }
    s
}

pub proof fn lemma_hex_lower_len(b: Seq<u8>)
    ensures
        hex_lower_spec(b).len() == 2 * b.len(),
    decreases b.len(),
{
    if b.len() > 0 {
        lemma_hex_lower_len(b.drop_last());
    }
}

/// The last `n` hex digits of `v`, zero-padded, high digit first.
pub open spec fn hex_fixed(v: nat, n: nat) -> Seq<char>
    decreases n,
{
    if n == 0 {
        Seq::empty()
    } else {
        hex_fixed(v / 16, (n - 1) as nat).push(hex_digit((v % 16) as int))
    }
}

/// The last `n` hex digits of `v`, zero-padded.
pub fn hex_fixed_u128(v: u128, n: usize) -> (s: String)
    ensures
        s@ == hex_fixed(v as nat, n as nat),
    decreases n,
{
    if n == 0 {
        String::new()
    } else {
        let mut s = hex_fixed_u128(v / 16, n - 1);
        s.push(nibble_lower((v % 16) as u8));
        s
    }
}

/// A 128-bit id as 32 lower-case hex digits (`{:032x}`).
pub fn id128_hex(value: u128) -> (s: String)
    ensures
        s@ == hex_fixed(value as nat, 32),
{
    hex_fixed_u128(value, 32)
}

} // verus!
