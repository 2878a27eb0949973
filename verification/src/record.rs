//! Record framing shared by the journal and the snapshot store.
//!
//! A record is `len: u32 LE | crc: u32 LE | body`, where `body` is the
//! format version byte followed by the serialized payload and `crc` is the
//! CRC-32 of `body`. Bodies without the version byte (the legacy format) are
//! still read back.
use vstd::prelude::*;

use crate::text::{concat2, concat3, owned, push_seq, u64_to_string};

verus! {

pub const HEADER_BYTES: usize = 8;

pub const FORMAT_VERSION: u8 = 2;

/// Errors of the storage layer.
#[derive(Debug)]
pub enum InfraError {
    Io(String),
    InvalidData(String),
    Codec(String),
}

/// `k` steps of the bitwise CRC-32 register, least significant bit first,
/// with the reflected IEEE polynomial.
pub open spec fn crc_shift(c: u32, k: nat) -> u32
    decreases k,
{
    if k == 0 {
        c
    } else {
        crc_shift(
            if c & 1u32 == 1u32 {
                (c >> 1u32) ^ 0xEDB8_8320u32
            } else {
                c >> 1u32
            },
            (k - 1) as nat,
        )
    }
}

/// The CRC-32 register after `data`, started at all ones.
pub open spec fn crc_register(data: Seq<u8>) -> u32
    decreases data.len(),
{
    if data.len() == 0 {
        0xFFFF_FFFFu32
    } else {
        crc_shift(crc_register(data.drop_last()) ^ (data.last() as u32), 8)
    }
}

/// The CRC-32 (IEEE) checksum of `data`: the register after the bytes,
/// inverted.
#[verifier::opaque]
pub open spec fn crc32_of(data: Seq<u8>) -> u32 {
    !crc_register(data)
}

/// Calls `crc32fast::hash`, which computes the CRC-32 (IEEE) checksum.
#[verifier::external_body]
pub(crate) fn crc32_hash(bytes: &[u8]) -> (c: u32)
    ensures
        c == crc32_of(bytes@),
{
    crc32fast::hash(bytes)
}

/// Little-endian bytes of a `u32`.
pub open spec fn le32(x: u32) -> Seq<u8> {
    seq![(x % 256) as u8, ((x / 256) % 256) as u8, ((x / 65536) % 256) as u8, (x / 16777216) as u8]
}

/// The `u32` stored little-endian at `data[i..i + 4]`.
pub open spec fn read_le32(data: Seq<u8>, i: int) -> u32 {
    (data[i] + data[i + 1] * 256 + data[i + 2] * 65536 + data[i + 3] * 16777216) as u32
}

pub proof fn lemma_le32_roundtrip(x: u32)
    ensures
        read_le32(le32(x), 0) == x,
        le32(x).len() == 4,
{
    let b = le32(x);
    assert(b[0] == x % 256);
    assert(b[1] == (x / 256) % 256);
    assert(b[2] == (x / 65536) % 256);
    assert(b[3] == x / 16777216);
    assert((x % 256) + ((x / 256) % 256) * 256 + ((x / 65536) % 256) * 65536 + (x / 16777216)
        * 16777216 == x) by (nonlinear_arith);
}

/// The record written for `payload` reads back whole: its header gives the
/// body's length and checksum, and after the header comes the version byte
/// and then `payload` itself.
pub proof fn lemma_record_of_reads_back(payload: Seq<u8>)
    requires
        payload.len() + 1 <= u32::MAX,
    ensures
        record_of(payload).len() == HEADER_BYTES + payload.len() + 1,
        read_le32(record_of(payload), 0) == payload.len() + 1,
        read_le32(record_of(payload), 4) == crc32_of(versioned_body(payload)),
        record_of(payload).subrange(HEADER_BYTES as int, record_of(payload).len() as int)
            == versioned_body(payload),
        versioned_body(payload)[0] == FORMAT_VERSION,
        versioned_body(payload).drop_first() == payload,
{
    let body = versioned_body(payload);
    let n = body.len() as u32;
    let c = crc32_of(body);
    lemma_le32_roundtrip(n);
    lemma_le32_roundtrip(c);
    let r = record_of(payload);
    assert(r =~= le32(n) + le32(c) + body);
    assert(r[0] == le32(n)[0]);
    assert(r[1] == le32(n)[1]);
    assert(r[2] == le32(n)[2]);
    assert(r[3] == le32(n)[3]);
    assert(read_le32(r, 0) == read_le32(le32(n), 0));
    assert(r[4] == le32(c)[0]);
    assert(r[5] == le32(c)[1]);
    assert(r[6] == le32(c)[2]);
    assert(r[7] == le32(c)[3]);
    assert(read_le32(r, 4) == read_le32(le32(c), 0));
    assert(r.subrange(HEADER_BYTES as int, r.len() as int) =~= body);
    assert(body.drop_first() =~= payload);
}

pub fn le32_bytes(x: u32) -> (v: Vec<u8>)
    ensures
        v@ == le32(x),
{
    let mut v: Vec<u8> = Vec::new();
    v.push((x % 256) as u8);
    v.push(((x / 256) % 256) as u8);
    v.push(((x / 65536) % 256) as u8);
    v.push((x / 16777216) as u8);
    assert(v@ =~= le32(x));
    v
}

pub fn read_le32_at(data: &[u8], i: usize) -> (x: u32)
    requires
        i + 4 <= data@.len(),
    ensures
        x == read_le32(data@, i as int),
{
    let b0 = data[i] as u32;
    let b1 = data[i + 1] as u32;
    let b2 = data[i + 2] as u32;
    let b3 = data[i + 3] as u32;
    b0 + b1 * 256 + b2 * 65536 + b3 * 16777216
}

/// The versioned body of a payload: the version byte, then the payload.
pub open spec fn versioned_body(payload: Seq<u8>) -> Seq<u8> {
    seq![FORMAT_VERSION] + payload
}

/// A whole record holding `body`.
pub open spec fn frame(body: Seq<u8>) -> Seq<u8> {
    le32(body.len() as u32) + le32(crc32_of(body)) + body
}

/// The record that `encode_serialized_payload` writes for `payload`.
pub open spec fn record_of(payload: Seq<u8>) -> Seq<u8> {
    frame(versioned_body(payload))
}

pub open spec fn is_invalid_data(e: InfraError, msg: Seq<char>) -> bool {
    e matches InfraError::InvalidData(m) && m@ == msg
}

/// The body length for a payload of `payload_len` bytes: one more, for the version byte.
pub fn versioned_body_len(payload_len: usize) -> (r: Result<usize, InfraError>)
    ensures
        match r {
            Ok(n) => n == payload_len + 1,
            Err(e) => payload_len == usize::MAX && is_invalid_data(
                e,
                "record payload too large"@,
            ),
        },
{
    if payload_len == usize::MAX {
        Err(InfraError::InvalidData(owned("record payload too large")))
    } else {
        Ok(payload_len + 1)
    }
}

/// Frames a serialized payload as a versioned record.
pub fn encode_serialized_payload(payload: &[u8]) -> (r: Result<Vec<u8>, InfraError>)
    ensures
        match r {
            Ok(v) => payload@.len() + 1 <= u32::MAX && v@ == record_of(payload@),
            Err(e) => {
                ||| payload@.len() == usize::MAX && is_invalid_data(
                    e,
                    "record payload too large"@,
                )
                ||| payload@.len() < usize::MAX && payload@.len() + 1 > u32::MAX && is_invalid_data(
                    e,
                    "record payload too large: "@ + crate::text::dec((payload@.len() + 1) as nat) + " bytes"@,
                )
            },
        },
{
    let len = match versioned_body_len(payload.len()) {
        Ok(n) => n,
        Err(e) => {
            return Err(e);
        },
    };
    if len > 4294967295usize {
        let n = u64_to_string(len as u64);
        let msg = concat3("record payload too large: ", n.as_str(), " bytes");
        return Err(InfraError::InvalidData(msg));
    }
    let mut body: Vec<u8> = Vec::new();
    body.push(FORMAT_VERSION);
    let mut i: usize = 0;
    while i < payload.len()
        invariant
            0 <= i <= payload@.len(),
            body@ == seq![FORMAT_VERSION] + payload@.take(i as int),
        decreases payload@.len() - i,
    {
        body.push(payload[i]);
        assert(seq![FORMAT_VERSION] + payload@.take(i as int).push(payload@[i as int]) =~= seq![
            FORMAT_VERSION,
        ] + payload@.take(i + 1));
        i = i + 1;
    }
    assert(payload@.take(payload@.len() as int) =~= payload@);
    let crc = crc32_hash(body.as_slice());
    let mut out = le32_bytes(len as u32);
    let mut crc_bytes = le32_bytes(crc);
    out.append(&mut crc_bytes);
    let mut j: usize = 0;
    let ghost head = out@;
    while j < body.len()
        invariant
            0 <= j <= body@.len(),
            out@ == head + body@.take(j as int),
        decreases body@.len() - j,
    {
        out.push(body[j]);
        assert(head + body@.take(j as int).push(body@[j as int]) =~= head + body@.take(j + 1));
        j = j + 1;
    }
    assert(body@.take(body@.len() as int) =~= body@);
    assert(body@ == versioned_body(payload@));
    assert(out@ =~= record_of(payload@));
    Ok(out)
}

/// A decoded record value and whether it was stored in the legacy format.
pub struct DecodedRecord<T> {
    pub value: T,
    pub legacy_format: bool,
}

/// `decode` gives `res` on some bytes equal to `bytes`.
pub open spec fn decodes_to<T, F: Fn(&[u8]) -> Result<T, String>>(
    decode: &F,
    bytes: Seq<u8>,
    res: Result<T, String>,
) -> bool {
    exists|b: &[u8]| b@ == bytes && #[trigger] decode.ensures((b,), res)
}

/// Whether the body starts with the version byte.
pub open spec fn has_version_byte(body: Seq<u8>) -> bool {
    body.len() > 0 && body[0] == FORMAT_VERSION
}

/// The message of a record whose legacy decoding failed too: it quotes the
/// legacy decoder's error, and the versioned decoder's error before it when
/// there was a version byte.
pub open spec fn decode_failure_message<T, F: Fn(&[u8]) -> Result<T, String>>(
    decode: &F,
    body: Seq<u8>,
    m: Seq<char>,
) -> bool {
    exists|le: String|
        {
            &&& #[trigger] decodes_to(decode, body, Err(le))
            &&& if has_version_byte(body) {
                exists|ve: String|
                    #[trigger] decodes_to(decode, body.drop_first(), Err(ve)) && m
                        == "decode failed: versioned="@ + ve@ + ", legacy="@ + le@
            } else {
                m == "decode failed: "@ + le@
            }
        }
}

/// Decodes a record body whose header carried `crc`.
///
/// A body whose checksum differs is refused with `"crc mismatch"`. Otherwise a
/// body that starts with the version byte is first decoded without that byte;
/// when that fails, or when there is no version byte, the whole body is
/// decoded as a legacy record.
pub fn deserialize_body<T, F: Fn(&[u8]) -> Result<T, String>>(
    body: &[u8],
    crc: u32,
    decode: &F,
) -> (r: Result<DecodedRecord<T>, String>)
    requires
        forall|b: &[u8]| #[trigger] decode.requires((b,)),
    ensures
        crc32_of(body@) != crc ==> (r matches Err(m) && m@ == "crc mismatch"@),
        crc32_of(body@) == crc ==> match r {
            Ok(d) => if !d.legacy_format {
                has_version_byte(body@) && decodes_to(decode, body@.drop_first(), Ok(d.value))
            } else {
                &&& decodes_to(decode, body@, Ok(d.value))
                &&& has_version_byte(body@) ==> exists|ve: String|
                    #[trigger] decodes_to(decode, body@.drop_first(), Err(ve))
            },
            Err(m) => decode_failure_message(decode, body@, m@),
        },
{
    let body_crc = crc32_hash(body);
    if body_crc != crc {
        return Err(owned("crc mismatch"));
    }
    let mut versioned_error: Option<String> = None;
    if body.len() > 0 && body[0] == FORMAT_VERSION {
        let payload = &body[1..body.len()];
        assert(payload@ == body@.drop_first());
        let res = decode(payload);
        match res {
            Ok(value) => {
                return Ok(DecodedRecord { value, legacy_format: false });
            },
            Err(err) => {
                assert(decodes_to(decode, body@.drop_first(), Err(err)));
                versioned_error = Some(err);
            },
        }
    }
    assert(versioned_error is Some <==> has_version_byte(body@));
    assert(versioned_error matches Some(ve) ==> decodes_to(decode, body@.drop_first(), Err(ve)));
    let res = decode(body);
    match res {
        Ok(value) => {
            assert(decodes_to(decode, body@, Ok(value)));
            proof {
                if has_version_byte(body@) {
                    let ve = versioned_error->0;
                    assert(decodes_to(decode, body@.drop_first(), Err(ve)));
                }
            }
            Ok(DecodedRecord { value, legacy_format: true })
        },
        Err(err) => {
            assert(decodes_to(decode, body@, Err(err)));
            match versioned_error {
                Some(ve) => {
                    let mut m = concat2("decode failed: versioned=", ve.as_str());
                    push_seq(&mut m, ", legacy=");
                    push_seq(&mut m, err.as_str());
                    assert(m@ =~= "decode failed: versioned="@ + ve@ + ", legacy="@ + err@);
                    assert(has_version_byte(body@));
                    assert(decodes_to(decode, body@.drop_first(), Err(ve)));
                    assert(decode_failure_message(decode, body@, m@)) by {
                        assert(decodes_to(decode, body@, Err(err)));
                    }
                    Err(m)
                },
                None => {
                    let m = concat2("decode failed: ", err.as_str());
                    assert(m@ =~= "decode failed: "@ + err@);
                    assert(decode_failure_message(decode, body@, m@)) by {
                        assert(decodes_to(decode, body@, Err(err)));
                    }
                    Err(m)
                },
            }
        },
    }
}

} // verus!
