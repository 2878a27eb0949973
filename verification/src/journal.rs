//! The journal: numbered segment files of framed records.
//!
//! The library decides what the segment bytes hold and where the next record
//! goes; reading and writing the files is done by the caller.
use vstd::prelude::*;

use crate::record::{deserialize_body, read_le32_at, DecodedRecord, InfraError, HEADER_BYTES};
use crate::text::{concat2, owned, push_seq, u64_to_string};

verus! {

pub const SEGMENT_SUFFIX: &'static str = ".log";

pub const DEFAULT_SEGMENT_BYTES: u64 = 67108864;

pub const DEFAULT_FLUSH_BYTES: usize = 262144;

pub const DEFAULT_FLUSH_INTERVAL_MS: u64 = 50;

pub const MAX_RECORD_BYTES: usize = 16777216;

/// A position in the journal: a segment number and a byte offset in it.
#[derive(Debug, Clone, Copy, PartialEq, Eq, Structural)]
pub struct JournalCursor {
    pub segment: u64,
    pub offset: u64,
}

impl JournalCursor {
    /// The start of the first segment.
    pub fn origin() -> (c: Self)
        ensures
            c == (JournalCursor { segment: 1, offset: 0 }),
    {
        JournalCursor { segment: 1, offset: 0 }
    }
}

/// How the journal writes: segment size limit and flush policy.
#[derive(Debug, Clone)]
pub struct JournalConfig {
    pub segment_size_bytes: u64,
    pub flush_bytes: usize,
    pub flush_interval_ms: u64,
    pub sync_on_flush: bool,
}

impl Default for JournalConfig {
    fn default() -> (c: Self)
        ensures
            c.segment_size_bytes == DEFAULT_SEGMENT_BYTES,
            c.flush_bytes == DEFAULT_FLUSH_BYTES,
            c.flush_interval_ms == DEFAULT_FLUSH_INTERVAL_MS,
            c.sync_on_flush,
    {
        JournalConfig {
            segment_size_bytes: DEFAULT_SEGMENT_BYTES,
            flush_bytes: DEFAULT_FLUSH_BYTES,
            flush_interval_ms: DEFAULT_FLUSH_INTERVAL_MS,
            sync_on_flush: true,
        }
    }
}

/// Where replay stopped on bytes that do not form a record, and why.
#[derive(Debug, Clone)]
pub struct JournalCorruption {
    pub segment: u64,
    pub offset: u64,
    pub reason: String,
}

/// What a replay went through.
#[derive(Debug, Clone)]
pub struct ReplayOutcome {
    pub events: u64,
    pub last_cursor: JournalCursor,
    pub corruption: Option<JournalCorruption>,
    pub legacy_records: u64,
}

// ----------------------------------------------------------------------
// Reading records out of a segment
// ----------------------------------------------------------------------
/// What the bytes at an offset of a segment hold.
pub enum FrameStep {
    End,
    TruncatedHeader,
    TooLarge { len: nat },
    TruncatedPayload,
    Frame { len: nat, crc: u32 },
}

pub open spec fn frame_step(data: Seq<u8>, off: int) -> FrameStep {
    if off >= data.len() {
        FrameStep::End
    } else if off + HEADER_BYTES > data.len() {
        FrameStep::TruncatedHeader
    } else {
        let len = crate::record::read_le32(data, off) as nat;
        let crc = crate::record::read_le32(data, off + 4);
        if len > MAX_RECORD_BYTES {
            FrameStep::TooLarge { len }
        } else if off + HEADER_BYTES + len > data.len() {
            FrameStep::TruncatedPayload
        } else {
            FrameStep::Frame { len, crc }
        }
    }
}

/// The offset reached after `n` whole records starting at `off`, if there are `n` of them.
pub open spec fn walk(data: Seq<u8>, off: int, n: nat) -> Option<int>
    decreases n,
{
    if n == 0 {
        Some(off)
    } else {
        match frame_step(data, off) {
            FrameStep::Frame { len, crc } => walk(data, off + HEADER_BYTES + len, (n - 1) as nat),
            _ => None,
        }
    }
}

/// The body of the record at `off`.
pub open spec fn body_at(data: Seq<u8>, off: int) -> Seq<u8> {
    match frame_step(data, off) {
        FrameStep::Frame { len, crc } => data.subrange(off + HEADER_BYTES, off + HEADER_BYTES + len),
        _ => Seq::empty(),
    }
}

pub open spec fn crc_at(data: Seq<u8>, off: int) -> u32 {
    crate::record::read_le32(data, off + 4)
}

/// `d` is a value that `deserialize_body` can give for `body` under `crc`.
pub open spec fn decoded_from<T, F: Fn(&[u8]) -> Result<T, String>>(
    decode: &F,
    body: Seq<u8>,
    crc: u32,
    d: DecodedRecord<T>,
) -> bool {
    &&& crate::record::crc32_of(body) == crc
    &&& if d.legacy_format {
        &&& crate::record::decodes_to(decode, body, Ok(d.value))
        &&& crate::record::has_version_byte(body) ==> exists|ve: String|
            #[trigger] crate::record::decodes_to(decode, body.drop_first(), Err(ve))
    } else {
        crate::record::has_version_byte(body) && crate::record::decodes_to(
            decode,
            body.drop_first(),
            Ok(d.value),
        )
    }
}

/// `m` is an error that `deserialize_body` can give for `body` under `crc`.
pub open spec fn body_error<T, F: Fn(&[u8]) -> Result<T, String>>(
    decode: &F,
    body: Seq<u8>,
    crc: u32,
    m: Seq<char>,
) -> bool {
    if crate::record::crc32_of(body) != crc {
        m == "crc mismatch"@
    } else {
        crate::record::decode_failure_message(decode, body, m)
    }
}

/// Why a segment cannot be read past `off`, for each kind of bad bytes.
pub open spec fn corruption_reason<T, F: Fn(&[u8]) -> Result<T, String>>(
    decode: &F,
    data: Seq<u8>,
    off: int,
    m: Seq<char>,
) -> bool {
    match frame_step(data, off) {
        FrameStep::End => false,
        FrameStep::TruncatedHeader => m == "truncated header"@,
        FrameStep::TooLarge { len } => m == "record too large: "@ + crate::text::dec(len)
            + " bytes"@,
        FrameStep::TruncatedPayload => m == "truncated payload"@,
        FrameStep::Frame { len, crc } => body_error(decode, body_at(data, off), crc, m),
    }
}

/// What replaying one segment from `start` gave: the records in order, the
/// offset after the last of them, and the corruption that stopped it.
pub struct SegmentReplay<T> {
    pub records: Vec<DecodedRecord<T>>,
    pub end: u64,
    pub corruption: Option<JournalCorruption>,
}

/// `records`, `end` and `corruption` are what replaying `data` from `start` can give.
pub open spec fn segment_replay_ok<T, F: Fn(&[u8]) -> Result<T, String>>(
    decode: &F,
    index: u64,
    data: Seq<u8>,
    start: int,
    records: Seq<DecodedRecord<T>>,
    end: int,
    corruption: Option<JournalCorruption>,
) -> bool {
    &&& start <= end <= data.len()
    &&& walk(data, start, records.len()) == Some(end)
    &&& forall|i: int|
        0 <= i < records.len() ==> {
            let o = walk(data, start, i as nat)->0;
            decoded_from(decode, body_at(data, o), crc_at(data, o), #[trigger] records[i])
        }
    &&& match corruption {
        None => end == data.len(),
        Some(c) => c.segment == index && c.offset == end && corruption_reason(
            decode,
            data,
            end,
            c.reason@,
        ),
    }
}

proof fn lemma_walk_extend(data: Seq<u8>, start: int, n: nat, off: int)
    requires
        walk(data, start, n) == Some(off),
        frame_step(data, off) is Frame,
    ensures
        walk(data, start, n + 1) == Some(off + HEADER_BYTES + frame_step(data, off)->Frame_len),
    decreases n,
{
    reveal_with_fuel(walk, 2);
    if n > 0 {
        let next = start + HEADER_BYTES + frame_step(data, start)->Frame_len;
        lemma_walk_extend(data, next, (n - 1) as nat, off);
    }
}

proof fn lemma_walk_prefix(data: Seq<u8>, start: int, n: nat, m: nat)
    requires
        m <= n,
        walk(data, start, n) is Some,
    ensures
        walk(data, start, m) is Some,
    decreases m,
{
    if m > 0 {
        let next = start + HEADER_BYTES + frame_step(data, start)->Frame_len;
        lemma_walk_prefix(data, next, (n - 1) as nat, (m - 1) as nat);
    }
}

/// Replays the records of one segment, from byte `start` on, until its end or
/// the first bytes that do not decode.
pub fn replay_segment<T, F: Fn(&[u8]) -> Result<T, String>>(
    index: u64,
    data: &[u8],
    start: u64,
    decode: &F,
) -> (r: SegmentReplay<T>)
    requires
        start <= data@.len(),
        forall|b: &[u8]| #[trigger] decode.requires((b,)),
    ensures
        segment_replay_ok(decode, index, data@, start as int, r.records@, r.end as int, r.corruption),
{
    let len = data.len();
    let mut off: usize = start as usize;
    let mut records: Vec<DecodedRecord<T>> = Vec::new();
    while off < len
        invariant
            len == data@.len(),
            start <= off <= len,
            forall|b: &[u8]| #[trigger] decode.requires((b,)),
            walk(data@, start as int, records@.len()) == Some(off as int),
            forall|i: int|
                0 <= i < records@.len() ==> {
                    let o = walk(data@, start as int, i as nat)->0;
                    decoded_from(decode, body_at(data@, o), crc_at(data@, o), #[trigger] records@[i])
                },
        decreases len - off,
    {
        if len - off < HEADER_BYTES {
            let c = JournalCorruption {
                segment: index,
                offset: off as u64,
                reason: owned("truncated header"),
            };
            return SegmentReplay { records, end: off as u64, corruption: Some(c) };
        }
        let rec_len = read_le32_at(data, off);
        let crc = read_le32_at(data, off + 4);
        if rec_len as usize > MAX_RECORD_BYTES {
            let n = u64_to_string(rec_len as u64);
            let mut reason = concat2("record too large: ", n.as_str());
            push_seq(&mut reason, " bytes");
            let c = JournalCorruption { segment: index, offset: off as u64, reason };
            return SegmentReplay { records, end: off as u64, corruption: Some(c) };
        }
        if rec_len as usize > len - off - HEADER_BYTES {
            let c = JournalCorruption {
                segment: index,
                offset: off as u64,
                reason: owned("truncated payload"),
            };
            return SegmentReplay { records, end: off as u64, corruption: Some(c) };
        }
        let next = off + HEADER_BYTES + rec_len as usize;
        let body = &data[off + HEADER_BYTES..next];
        assert(body@ == body_at(data@, off as int));
        let decoded = deserialize_body(body, crc, decode);
        match decoded {
            Ok(d) => {
                proof {
                    lemma_walk_extend(data@, start as int, records@.len(), off as int);
                }
                let ghost old_records = records@;
                records.push(d);
                proof {
                    assert forall|i: int| 0 <= i < records@.len() implies {
                        let o = walk(data@, start as int, i as nat)->0;
                        decoded_from(decode, body_at(data@, o), crc_at(data@, o), #[trigger] records@[i])
                    } by {
                        if i < old_records.len() {
                            assert(records@[i] == old_records[i]);
                        }
                    }
                }
                off = next;
            },
            Err(reason) => {
                let c = JournalCorruption { segment: index, offset: off as u64, reason };
                return SegmentReplay { records, end: off as u64, corruption: Some(c) };
            },
        }
    }
    SegmentReplay { records, end: off as u64, corruption: None }
}

// ----------------------------------------------------------------------
// What appending and replaying have to do with each other
// ----------------------------------------------------------------------
/// The bytes of a segment to which the records of `ps` were appended in order.
pub open spec fn records_of(ps: Seq<Seq<u8>>) -> Seq<u8>
    decreases ps.len(),
{
    if ps.len() == 0 {
        Seq::empty()
    } else {
        records_of(ps.drop_last()) + crate::record::record_of(ps.last())
    }
}

/// Where the record of `ps[i]` starts.
pub open spec fn record_offset(ps: Seq<Seq<u8>>, i: int) -> int {
    records_of(ps.take(i)).len() as int
}

/// Every payload fits in a record.
pub open spec fn payloads_fit(ps: Seq<Seq<u8>>) -> bool {
    forall|i: int| 0 <= i < ps.len() ==> #[trigger] ps[i].len() + 1 <= MAX_RECORD_BYTES
}

proof fn lemma_read_le32_concat(a: Seq<u8>, b: Seq<u8>, off: int)
    requires
        0 <= off,
        off + 4 <= a.len(),
    ensures
        crate::record::read_le32(a + b, off) == crate::record::read_le32(a, off),
{
    assert((a + b)[off] == a[off]);
    assert((a + b)[off + 1] == a[off + 1]);
    assert((a + b)[off + 2] == a[off + 2]);
    assert((a + b)[off + 3] == a[off + 3]);
}

proof fn lemma_frame_step_concat(a: Seq<u8>, b: Seq<u8>, off: int)
    requires
        0 <= off,
        frame_step(a, off) is Frame,
    ensures
        frame_step(a + b, off) == frame_step(a, off),
        body_at(a + b, off) == body_at(a, off),
        crc_at(a + b, off) == crc_at(a, off),
{
    lemma_read_le32_concat(a, b, off);
    lemma_read_le32_concat(a, b, off + 4);
    let len = frame_step(a, off)->Frame_len;
    assert((a + b).subrange(off + HEADER_BYTES, off + HEADER_BYTES + len) =~= a.subrange(
        off + HEADER_BYTES,
        off + HEADER_BYTES + len,
    ));
}

proof fn lemma_walk_concat(a: Seq<u8>, b: Seq<u8>, start: int, n: nat)
    requires
        0 <= start,
        walk(a, start, n) is Some,
    ensures
        walk(a + b, start, n) == walk(a, start, n),
    decreases n,
{
    if n > 0 {
        lemma_frame_step_concat(a, b, start);
        let next = start + HEADER_BYTES + frame_step(a, start)->Frame_len;
        lemma_walk_concat(a, b, next, (n - 1) as nat);
    }
}

proof fn lemma_record_frame(a: Seq<u8>, p: Seq<u8>)
    requires
        p.len() + 1 <= MAX_RECORD_BYTES,
    ensures
        frame_step(a + crate::record::record_of(p), a.len() as int) == (FrameStep::Frame {
            len: p.len() + 1,
            crc: crate::record::crc32_of(crate::record::versioned_body(p)),
        }),
        body_at(a + crate::record::record_of(p), a.len() as int) == crate::record::versioned_body(
            p,
        ),
        crc_at(a + crate::record::record_of(p), a.len() as int) == crate::record::crc32_of(
            crate::record::versioned_body(p),
        ),
        (a + crate::record::record_of(p)).len() == a.len() + HEADER_BYTES + p.len() + 1,
{
    let body = crate::record::versioned_body(p);
    let r = crate::record::record_of(p);
    let d = a + r;
    let n = body.len() as u32;
    let c = crate::record::crc32_of(body);
    crate::record::lemma_le32_roundtrip(n);
    crate::record::lemma_le32_roundtrip(c);
    let off = a.len() as int;
    assert(r =~= crate::record::le32(n) + crate::record::le32(c) + body);
    assert(d.subrange(off, off + 4) =~= crate::record::le32(n));
    assert(d[off] == crate::record::le32(n)[0]);
    assert(d[off + 1] == crate::record::le32(n)[1]);
    assert(d[off + 2] == crate::record::le32(n)[2]);
    assert(d[off + 3] == crate::record::le32(n)[3]);
    assert(crate::record::read_le32(d, off) == crate::record::read_le32(crate::record::le32(n), 0));
    assert(d[off + 4] == crate::record::le32(c)[0]);
    assert(d[off + 5] == crate::record::le32(c)[1]);
    assert(d[off + 6] == crate::record::le32(c)[2]);
    assert(d[off + 7] == crate::record::le32(c)[3]);
    assert(crate::record::read_le32(d, off + 4) == crate::record::read_le32(
        crate::record::le32(c),
        0,
    ));
    assert(d.subrange(off + HEADER_BYTES, off + HEADER_BYTES + body.len()) =~= body);
}

proof fn lemma_records_of_take(ps: Seq<Seq<u8>>, i: int)
    requires
        0 <= i < ps.len(),
    ensures
        records_of(ps.take(i + 1)) == records_of(ps.take(i)) + crate::record::record_of(ps[i]),
{
    assert(ps.take(i + 1).drop_last() =~= ps.take(i));
    assert(ps.take(i + 1).last() == ps[i]);
}

/// Appending the records of `ps` to an empty segment lays them out one after
/// the other: reading from the start finds record `i` at `record_offset(ps, i)`,
/// holding the versioned body of `ps[i]` under its checksum, and after the
/// last record the segment ends.
pub proof fn lemma_appended_records_layout(ps: Seq<Seq<u8>>)
    requires
        payloads_fit(ps),
    ensures
        forall|i: int|
            0 <= i < ps.len() ==> {
                &&& walk(records_of(ps), 0, i as nat) == Some(#[trigger] record_offset(ps, i))
                &&& frame_step(records_of(ps), record_offset(ps, i)) == (FrameStep::Frame {
                    len: ps[i].len() + 1,
                    crc: crate::record::crc32_of(crate::record::versioned_body(ps[i])),
                })
                &&& body_at(records_of(ps), record_offset(ps, i))
                    == crate::record::versioned_body(ps[i])
                &&& crc_at(records_of(ps), record_offset(ps, i)) == crate::record::crc32_of(
                    crate::record::versioned_body(ps[i]),
                )
            },
        walk(records_of(ps), 0, ps.len()) == Some(records_of(ps).len() as int),
        frame_step(records_of(ps), records_of(ps).len() as int) is End,
    decreases ps.len(),
{
    if ps.len() == 0 {
    } else {
        let q = ps.drop_last();
        let p = ps.last();
        let a = records_of(q);
        let n = q.len();
        assert(payloads_fit(q)) by {
            assert forall|i: int| 0 <= i < q.len() implies #[trigger] q[i].len() + 1
                <= MAX_RECORD_BYTES by {
                assert(q[i] == ps[i]);
            }
        }
        lemma_appended_records_layout(q);
        assert(ps[n as int] == p);
        assert(p.len() + 1 <= MAX_RECORD_BYTES);
        let r = crate::record::record_of(p);
        assert(records_of(ps) == a + r);
        lemma_record_frame(a, p);
        assert(ps.take(n as int) =~= q);
        assert forall|i: int| 0 <= i < ps.len() implies {
            &&& walk(records_of(ps), 0, i as nat) == Some(#[trigger] record_offset(ps, i))
            &&& frame_step(records_of(ps), record_offset(ps, i)) == (FrameStep::Frame {
                len: ps[i].len() + 1,
                crc: crate::record::crc32_of(crate::record::versioned_body(ps[i])),
            })
            &&& body_at(records_of(ps), record_offset(ps, i)) == crate::record::versioned_body(
                ps[i],
            )
            &&& crc_at(records_of(ps), record_offset(ps, i)) == crate::record::crc32_of(
                crate::record::versioned_body(ps[i]),
            )
        } by {
            if i < n {
                assert(ps.take(i) =~= q.take(i));
                assert(ps[i] == q[i]);
                assert(record_offset(ps, i) == record_offset(q, i));
                lemma_walk_concat(a, r, 0, i as nat);
                lemma_frame_step_concat(a, r, record_offset(q, i));
            } else {
                assert(i == n);
                assert(record_offset(ps, i) == a.len());
                lemma_walk_concat(a, r, 0, n);
            }
        }
        lemma_walk_concat(a, r, 0, n);
        lemma_walk_extend(records_of(ps), 0, n, a.len() as int);
        assert(ps.len() == n + 1);
    }
}


proof fn lemma_walk_step(data: Seq<u8>, start: int, n: nat)
    ensures
        walk(data, start, n + 1) == match walk(data, start, n) {
            Some(o) => match frame_step(data, o) {
                FrameStep::Frame { len, crc } => Some(o + HEADER_BYTES + len),
                _ => None,
            },
            None => None,
        },
    decreases n,
{
    reveal_with_fuel(walk, 2);
    if n > 0 {
        match frame_step(data, start) {
            FrameStep::Frame { len, crc } => {
                lemma_walk_step(data, start + HEADER_BYTES + len, (n - 1) as nat);
            },
            _ => {},
        }
    }
}

/// Replaying a segment made only of appended records gives back the appended
/// payloads: record `i` is the decoder's value for `ps[i]` (or, in the legacy
/// format, for its whole body when the payload alone did not decode). Replay
/// goes through every record unless the decoder fails on one, and then it stops
/// at that record with the decoder's error as the reason.
pub proof fn lemma_replay_of_appended<T, F: Fn(&[u8]) -> Result<T, String>>(
    decode: &F,
    index: u64,
    ps: Seq<Seq<u8>>,
    records: Seq<DecodedRecord<T>>,
    end: int,
    corruption: Option<JournalCorruption>,
)
    requires
        payloads_fit(ps),
        segment_replay_ok(decode, index, records_of(ps), 0, records, end, corruption),
    ensures
        records.len() <= ps.len(),
        forall|i: int|
            0 <= i < records.len() ==> if (#[trigger] records[i]).legacy_format {
                &&& crate::record::decodes_to(
                    decode,
                    crate::record::versioned_body(ps[i]),
                    Ok(records[i].value),
                )
                &&& exists|ve: String| #[trigger]
                    crate::record::decodes_to(decode, ps[i], Err(ve))
            } else {
                crate::record::decodes_to(decode, ps[i], Ok(records[i].value))
            },
        corruption is None <==> records.len() == ps.len(),
        corruption is None ==> end == records_of(ps).len(),
        corruption matches Some(c) ==> {
            &&& c.segment == index
            &&& c.offset == record_offset(ps, records.len() as int)
            &&& crate::record::decode_failure_message(
                decode,
                crate::record::versioned_body(ps[records.len() as int]),
                c.reason@,
            )
        },
{
    let data = records_of(ps);
    let n = ps.len();
    let k = records.len();
    lemma_appended_records_layout(ps);
    if k > n {
        lemma_walk_prefix(data, 0, k, n + 1);
        lemma_walk_step(data, 0, n);
        assert(false);
    }
    assert forall|i: int| 0 <= i < records.len() implies if (#[trigger] records[i]).legacy_format {
        &&& crate::record::decodes_to(
            decode,
            crate::record::versioned_body(ps[i]),
            Ok(records[i].value),
        )
        &&& exists|ve: String| #[trigger] crate::record::decodes_to(decode, ps[i], Err(ve))
    } else {
        crate::record::decodes_to(decode, ps[i], Ok(records[i].value))
    } by {
        assert(walk(data, 0, i as nat) == Some(record_offset(ps, i)));
        let body = crate::record::versioned_body(ps[i]);
        assert(body.drop_first() =~= ps[i]);
        assert(crate::record::has_version_byte(body));
    }
    if k < n {
        assert(walk(data, 0, k) == Some(record_offset(ps, k as int)));
        assert(frame_step(data, record_offset(ps, k as int)) is Frame);
        let body = crate::record::versioned_body(ps[k as int]);
        assert(body_at(data, end) == body);
        if corruption is None {
            assert(end == data.len());
            assert(false);
        }
    } else {
        assert(k == n);
        assert(end == data.len());
        if corruption is Some {
            assert(frame_step(data, end) is End);
            assert(false);
        }
    }
}


// ----------------------------------------------------------------------
// Replaying the whole journal
// ----------------------------------------------------------------------
/// One segment file: its number and its bytes.
pub struct SegmentData {
    pub index: u64,
    pub bytes: Vec<u8>,
}

/// The records and outcome of a replay.
pub struct JournalReplay<T> {
    pub outcome: ReplayOutcome,
    pub records: Vec<DecodedRecord<T>>,
}

/// Where replay starts: the given cursor, or the start of the first segment.
pub open spec fn start_cursor(segs: Seq<SegmentData>, start: Option<JournalCursor>) -> JournalCursor {
    match start {
        Some(c) => c,
        None => JournalCursor { segment: segs[0].index, offset: 0 },
    }
}

pub open spec fn has_segment(segs: Seq<SegmentData>, index: u64) -> bool {
    exists|i: int| 0 <= i < segs.len() && (#[trigger] segs[i]).index == index
}

/// The offset at which replay enters segment `index`.
pub open spec fn entry_offset(start: JournalCursor, index: u64) -> int {
    if index == start.segment {
        start.offset as int
    } else {
        0
    }
}

/// The records, last cursor and corruption that replaying the first `j`
/// segments from `start` can give, when replay went on past each of the
/// first `j - 1` of them. Segments numbered below the start are skipped.
/// `counts[i]` is how many records the first `i` segments gave and `lasts[i]`
/// the cursor after them.
pub open spec fn replay_upto<T, F: Fn(&[u8]) -> Result<T, String>>(
    decode: &F,
    segs: Seq<SegmentData>,
    start: JournalCursor,
    j: int,
    records: Seq<DecodedRecord<T>>,
    last: JournalCursor,
    corruption: Option<JournalCorruption>,
    counts: Seq<int>,
    lasts: Seq<JournalCursor>,
) -> bool
    decreases j,
{
    if j <= 0 {
        &&& records.len() == 0
        &&& last == start
        &&& corruption is None
        &&& counts == seq![0int]
        &&& lasts == seq![start]
    } else {
        let seg = segs[j - 1];
        let k = counts[j - 1];
        let l0 = lasts[j - 1];
        &&& j <= segs.len()
        &&& counts.len() == j + 1
        &&& lasts.len() == j + 1
        &&& counts[j] == records.len()
        &&& lasts[j] == last
        &&& 0 <= k <= records.len()
        &&& replay_upto(
            decode,
            segs,
            start,
            j - 1,
            records.take(k),
            l0,
            None,
            counts.take(j),
            lasts.take(j),
        )
        &&& if seg.index < start.segment {
            k == records.len() && last == l0 && corruption is None
        } else {
            &&& last.segment == seg.index
            &&& segment_replay_ok(
                decode,
                seg.index,
                seg.bytes@,
                entry_offset(start, seg.index),
                records.skip(k),
                last.offset as int,
                corruption,
            )
        }
    }
}

/// How many of `records` were stored in the legacy format.
pub open spec fn legacy_count<T>(records: Seq<DecodedRecord<T>>) -> nat
    decreases records.len(),
{
    if records.len() == 0 {
        0
    } else {
        legacy_count(records.drop_last()) + if records.last().legacy_format {
            1nat
        } else {
            0nat
        }
    }
}

pub open spec fn not_found_message(index: u64) -> Seq<char> {
    "start segment "@ + crate::text::dec(index as nat) + " not found in journal"@
}

pub open spec fn beyond_message(offset: u64, index: u64, len: nat) -> Seq<char> {
    "cursor offset "@ + crate::text::dec(offset as nat) + " beyond segment "@ + crate::text::dec(
        index as nat,
    ) + " length "@ + crate::text::dec(len)
}

proof fn lemma_legacy_count_push<T>(records: Seq<DecodedRecord<T>>, d: DecodedRecord<T>)
    ensures
        legacy_count(records.push(d)) == legacy_count(records) + if d.legacy_format {
            1nat
        } else {
            0nat
        },
        legacy_count(records) <= records.len(),
    decreases records.len(),
{
    assert(records.push(d).drop_last() =~= records);
    if records.len() > 0 {
        lemma_legacy_count_push(records.drop_last(), records.last());
        assert(records.drop_last().push(records.last()) =~= records);
    }
}

proof fn lemma_legacy_count_concat<T>(a: Seq<DecodedRecord<T>>, b: Seq<DecodedRecord<T>>)
    ensures
        legacy_count(a + b) == legacy_count(a) + legacy_count(b),
    decreases b.len(),
{
    if b.len() == 0 {
        assert(a + b =~= a);
    } else {
        lemma_legacy_count_concat(a, b.drop_last());
        assert((a + b).drop_last() =~= a + b.drop_last());
        assert((a + b).last() == b.last());
    }
}

/// Replays the journal's segments, in the order given, from `start` (or from
/// the start of the first segment).
pub fn replay<T, F: Fn(&[u8]) -> Result<T, String>>(
    segments: &[SegmentData],
    start: Option<JournalCursor>,
    decode: &F,
) -> (r: Result<JournalReplay<T>, InfraError>)
    requires
        forall|b: &[u8]| #[trigger] decode.requires((b,)),
    ensures
        segments@.len() == 0 ==> (r matches Ok(rep) && rep.records@.len() == 0 && rep.outcome.events
            == 0 && rep.outcome.last_cursor == (JournalCursor { segment: 1, offset: 0 }) && rep.outcome.corruption is None
            && rep.outcome.legacy_records == 0),
        segments@.len() > 0 ==> {
            let st = start_cursor(segments@, start);
            match r {
                Ok(rep) => {
                    &&& has_segment(segments@, st.segment)
                    &&& exists|j: int, counts: Seq<int>, lasts: Seq<JournalCursor>|
                        {
                            &&& 0 <= j <= segments@.len()
                            &&& #[trigger] replay_upto(
                                decode,
                                segments@,
                                st,
                                j,
                                rep.records@,
                                rep.outcome.last_cursor,
                                rep.outcome.corruption,
                                counts,
                                lasts,
                            )
                            &&& (rep.outcome.corruption is None ==> j == segments@.len())
                        }
                    &&& rep.outcome.events == rep.records@.len()
                    &&& rep.outcome.legacy_records == legacy_count(rep.records@)
                },
                Err(e) => {
                    ||| !has_segment(segments@, st.segment) && crate::record::is_invalid_data(
                        e,
                        not_found_message(st.segment),
                    )
                    ||| exists|i: int|
                        0 <= i < segments@.len() && (#[trigger] segments@[i]).index == st.segment
                            && st.offset > segments@[i].bytes@.len()
                            && crate::record::is_invalid_data(
                            e,
                            beyond_message(st.offset, st.segment, segments@[i].bytes@.len()),
                        )
                },
            }
        },
{
    if segments.len() == 0 {
        return Ok(
            JournalReplay {
                outcome: ReplayOutcome {
                    events: 0,
                    last_cursor: JournalCursor::origin(),
                    corruption: None,
                    legacy_records: 0,
                },
                records: Vec::new(),
            },
        );
    }
    let st = match start {
        Some(c) => c,
        None => JournalCursor { segment: segments[0].index, offset: 0 },
    };
    let mut found = false;
    let mut p: usize = 0;
    while p < segments.len()
        invariant
            0 <= p <= segments@.len(),
            found <==> exists|i: int| 0 <= i < p && (#[trigger] segments@[i]).index == st.segment,
        decreases segments@.len() - p,
    {
        if segments[p].index == st.segment {
            found = true;
        }
        p = p + 1;
    }
    if !found {
        let n = u64_to_string(st.segment);
        let mut m = concat2("start segment ", n.as_str());
        push_seq(&mut m, " not found in journal");
        return Err(InfraError::InvalidData(m));
    }
    let mut records: Vec<DecodedRecord<T>> = Vec::new();
    let mut last = st;
    let mut corruption: Option<JournalCorruption> = None;
    let mut legacy: u64 = 0;
    let mut j: usize = 0;
    let ghost mut counts: Seq<int> = seq![0int];
    let ghost mut lasts: Seq<JournalCursor> = seq![st];
    while j < segments.len()
        invariant
            0 <= j <= segments@.len(),
            st == start_cursor(segments@, start),
            has_segment(segments@, st.segment),
            forall|b: &[u8]| #[trigger] decode.requires((b,)),
            corruption is None,
            replay_upto(decode, segments@, st, j as int, records@, last, None, counts, lasts),
            legacy as nat == legacy_count(records@),
            legacy_count(records@) <= records@.len(),
        decreases segments@.len() - j,
    {
        let seg = &segments[j];
        if seg.index < st.segment {
            proof {
                let jj = j + 1;
                let c2 = counts.push(records@.len() as int);
                let l2 = lasts.push(last);
                assert(c2.take(j + 1) =~= counts);
                assert(l2.take(j + 1) =~= lasts);
                assert(records@.take(records@.len() as int) =~= records@);
                assert(replay_upto(decode, segments@, st, jj, records@, last, None, c2, l2));
                counts = c2;
                lasts = l2;
            }
            j = j + 1;
            continue;
        }
        let off: u64 = if seg.index == st.segment {
            st.offset
        } else {
            0
        };
        if off > seg.bytes.len() as u64 {
            let a = u64_to_string(off);
            let b = u64_to_string(seg.index);
            let c = u64_to_string(seg.bytes.len() as u64);
            let mut m = concat2("cursor offset ", a.as_str());
            push_seq(&mut m, " beyond segment ");
            push_seq(&mut m, b.as_str());
            push_seq(&mut m, " length ");
            push_seq(&mut m, c.as_str());
            assert(segments@[j as int].index == st.segment);
            return Err(InfraError::InvalidData(m));
        }
        let scan = replay_segment(seg.index, seg.bytes.as_slice(), off, decode);
        let ghost r0 = records@;
        let ghost l0 = last;
        let ghost k = records@.len();
        let mut piece = scan.records;
        let ghost pv = piece@;
        let mut t: usize = 0;
        let mut add: u64 = 0;
        while t < piece.len()
            invariant
                0 <= t <= piece@.len(),
                add as nat == legacy_count(piece@.take(t as int)),
                legacy_count(piece@.take(t as int)) <= t,
            decreases piece@.len() - t,
        {
            proof {
                assert(piece@.take(t + 1) =~= piece@.take(t as int).push(piece@[t as int]));
                lemma_legacy_count_push(piece@.take(t as int), piece@[t as int]);
            }
            if piece[t].legacy_format {
                add = add + 1;
            }
            t = t + 1;
        }
        assert(piece@.take(piece@.len() as int) =~= piece@);
        records.append(&mut piece);
        proof {
            lemma_legacy_count_concat(r0, pv);
            assert(records@ =~= r0 + pv);
            assert(records@.take(k as int) =~= r0);
            assert(records@.skip(k as int) =~= pv);
        }
        assert(records@.len() == records.len());
        legacy = legacy + add;
        last = JournalCursor { segment: seg.index, offset: scan.end };
        proof {
            assert(segments@[j as int].index >= st.segment);
            let jj = j + 1;
            let c2 = counts.push(records@.len() as int);
            let l2 = lasts.push(last);
            assert(c2.take(j + 1) =~= counts);
            assert(l2.take(j + 1) =~= lasts);
            assert(c2[j as int] == k);
            assert(replay_upto(decode, segments@, st, jj, records@, last, scan.corruption, c2, l2));
            counts = c2;
            lasts = l2;

        }
        match scan.corruption {
            Some(c) => {
                assert(replay_upto(
                    decode,
                    segments@,
                    st,
                    (j + 1) as int,
                    records@,
                    last,
                    Some(c),
                    counts,
                    lasts,
                ));
                let rep = JournalReplay {
                    outcome: ReplayOutcome {
                        events: records.len() as u64,
                        last_cursor: last,
                        corruption: Some(c),
                        legacy_records: legacy,
                    },
                    records,
                };
                assert(replay_upto(
                    decode,
                    segments@,
                    st,
                    (j + 1) as int,
                    rep.records@,
                    rep.outcome.last_cursor,
                    rep.outcome.corruption,
                    counts,
                    lasts,
                ));
                return Ok(rep);
            },
            None => {},
        }
        j = j + 1;
    }
    assert(replay_upto(decode, segments@, st, j as int, records@, last, corruption, counts, lasts));
    let rep = JournalReplay {
        outcome: ReplayOutcome {
            events: records.len() as u64,
            last_cursor: last,
            corruption,
            legacy_records: legacy,
        },
        records,
    };
    assert(rep.records@ == records@);
    assert(replay_upto(decode, segments@, st, j as int, rep.records@, rep.outcome.last_cursor, rep.outcome.corruption, counts, lasts));
    Ok(rep)
}


// ----------------------------------------------------------------------
// Segment files
// ----------------------------------------------------------------------
/// `n` zero characters.
pub open spec fn zeros(n: nat) -> Seq<char> {
    Seq::new(n, |i: int| '0')
}

/// Decimal digits of `n`, padded with zeros on the left to at least eight.
pub open spec fn padded8(n: nat) -> Seq<char> {
    let d = crate::text::dec(n);
    if d.len() < 8 {
        zeros((8 - d.len()) as nat) + d
    } else {
        d
    }
}

/// The file name of segment `index`: `format!("{:08}.log", index)`.
pub open spec fn segment_file_name(index: u64) -> Seq<char> {
    padded8(index as nat) + ".log"@
}

/// The segment number that a file name stands for: the name without its
/// `.log` suffix, read as a `u64`.
pub open spec fn segment_index_of(name: Seq<char>) -> Option<u64> {
    if crate::text::ends_with(name, ".log"@) {
        crate::text::parse_u64_spec(name.subrange(0, name.len() - 4))
    } else {
        None
    }
}

pub fn segment_name(index: u64) -> (s: String)
    ensures
        s@ == segment_file_name(index),
{
    let d = u64_to_string(index);
    let mut s = String::new();
    let dv = crate::text::chars_of(d.as_str());
    let mut pad: usize = 0;
    if dv.len() < 8 {
        pad = 8 - dv.len();
    }
    let mut i: usize = 0;
    while i < pad
        invariant
            0 <= i <= pad <= 8,
            s@ == zeros(i as nat),
        decreases pad - i,
    {
        s.push('0');
        assert(zeros(i as nat).push('0') =~= zeros((i + 1) as nat));
        i = i + 1;
    }
    push_seq(&mut s, d.as_str());
    push_seq(&mut s, SEGMENT_SUFFIX);
    proof {
        reveal_strlit(".log");
        if dv@.len() >= 8 {
            assert(zeros(0) =~= Seq::<char>::empty());
            assert(s@ =~= crate::text::dec(index as nat) + ".log"@);
        }
    }
    s
}

/// The segment number of a file name, if it names a segment.
pub fn parse_segment_index(name: &str) -> (r: Option<u64>)
    ensures
        r == segment_index_of(name@),
{
    let v = crate::text::chars_of(name);
    if !crate::text::ends_with_str(&v, SEGMENT_SUFFIX) {
        return None;
    }
    proof {
        reveal_strlit(".log");
    }
    let stem = crate::text::subvec(&v, 0, v.len() - 4);
    crate::text::parse_u64_vec(&stem)
}

proof fn lemma_dec_digits(n: nat)
    ensures
        crate::text::all_digits(crate::text::dec(n)),
        crate::text::digits_value(crate::text::dec(n)) == n,
        crate::text::dec(n).len() > 0,
    decreases n,
{
    if n >= 10 {
        lemma_dec_digits(n / 10);
        let d = crate::text::dec(n / 10);
        let c = crate::text::digit_char((n % 10) as int);
        assert(d.push(c).drop_last() =~= d);
        assert(d.push(c).last() == c);
        assert(c as int == 48 + (n % 10));
        assert(crate::text::digits_value(d.push(c)) == crate::text::digits_value(d) * 10 + (c as int
            - 48));
        assert((n / 10) * 10 + n % 10 == n) by (nonlinear_arith);
        assert forall|i: int| 0 <= i < d.push(c).len() implies crate::text::is_digit(
            #[trigger] d.push(c)[i],
        ) by {
            if i < d.len() {
                assert(d.push(c)[i] == d[i]);
            }
        }
    } else {
        let s = crate::text::dec(n);
        assert(s.drop_last() =~= Seq::<char>::empty());
        assert(crate::text::digit_char(n as int) as int == 48 + n);
        assert(s.last() == crate::text::digit_char(n as int));
        assert(crate::text::digits_value(s) == crate::text::digits_value(s.drop_last()) * 10 + (
        s.last() as int - 48));
    }
}

proof fn lemma_leading_zeros(k: nat, d: Seq<char>)
    requires
        crate::text::all_digits(d),
    ensures
        crate::text::all_digits(zeros(k) + d),
        crate::text::digits_value(zeros(k) + d) == crate::text::digits_value(d),
    decreases d.len(),
{
    let z = zeros(k);
    assert forall|i: int| 0 <= i < (z + d).len() implies crate::text::is_digit(#[trigger] (z + d)[i]) by {
        if i >= z.len() {
            assert((z + d)[i] == d[i - z.len()]);
        }
    }
    if d.len() == 0 {
        assert(z + d =~= z);
        lemma_zeros_value(k);
    } else {
        lemma_leading_zeros(k, d.drop_last());
        assert((z + d).drop_last() =~= z + d.drop_last());
        assert((z + d).last() == d.last());
    }
}

proof fn lemma_zeros_value(k: nat)
    ensures
        crate::text::digits_value(zeros(k)) == 0,
    decreases k,
{
    if k > 0 {
        lemma_zeros_value((k - 1) as nat);
        assert(zeros(k).drop_last() =~= zeros((k - 1) as nat));
    }
}

/// Reading back the name of segment `index` gives `index`.
pub proof fn lemma_segment_name_roundtrip(index: u64)
    ensures
        segment_index_of(segment_file_name(index)) == Some(index),
{
    reveal_strlit(".log");
    let d = crate::text::dec(index as nat);
    lemma_dec_digits(index as nat);
    let p = padded8(index as nat);
    let name = segment_file_name(index);
    assert(name.subrange(name.len() - 4, name.len() as int) =~= ".log"@);
    assert(name.subrange(0, name.len() - 4) =~= p);
    if d.len() < 8 {
        lemma_leading_zeros((8 - d.len()) as nat, d);
    }
    assert(p.len() > 0);
    assert(p[0] != '+') by {
        if d.len() < 8 {
            assert(p[0] == '0');
        } else {
            assert(crate::text::is_digit(d[0]));
        }
    }
}


// ----------------------------------------------------------------------
// Appending
// ----------------------------------------------------------------------
/// The segment being written: its number, the bytes in it, and the bytes
/// written since the last flush.
#[derive(Debug, Clone, Copy, PartialEq, Eq, Structural)]
pub struct WriterState {
    pub index: u64,
    pub offset: u64,
    pub pending_bytes: usize,
}

/// The writer a journal starts with: at the end of its last segment, or at the
/// start of segment 1 when it has none.
pub fn writer_start(last_segment: Option<(u64, u64)>) -> (w: WriterState)
    ensures
        w == match last_segment {
            Some((index, len)) => WriterState { index, offset: len, pending_bytes: 0 },
            None => WriterState { index: 1, offset: 0, pending_bytes: 0 },
        },
{
    match last_segment {
        Some((index, len)) => WriterState { index, offset: len, pending_bytes: 0 },
        None => WriterState { index: 1, offset: 0, pending_bytes: 0 },
    }
}

/// What appending one record does.
#[derive(Debug, Clone, Copy, PartialEq, Eq, Structural)]
pub struct AppendStep {
    /// Whether the record starts a new segment (after flushing the current one).
    pub rotate: bool,
    /// Bytes of the whole record.
    pub record_bytes: u64,
    /// The writer after the record is written.
    pub next: WriterState,
    /// Whether the writer is flushed after the record.
    pub flush: bool,
    /// The cursor returned to the caller: just after the record.
    pub cursor: JournalCursor,
}

pub open spec fn sat_add_u64(a: u64, b: u64) -> u64 {
    if a + b > u64::MAX {
        u64::MAX
    } else {
        (a + b) as u64
    }
}

pub open spec fn sat_add_usize(a: usize, b: nat) -> usize {
    if a + b > usize::MAX {
        usize::MAX
    } else {
        (a + b) as usize
    }
}

/// Plans the append of a payload of `payload_len` bytes to the writer `w`;
/// `elapsed_ms` is the time since the writer was last flushed.
///
/// A body over the record limit, or a record larger than a whole segment, is
/// refused. A record that does not fit in the rest of the current segment
/// goes to the next one.
pub fn plan_append(w: &WriterState, payload_len: usize, config: &JournalConfig, elapsed_ms: u64) -> (r:
    Result<AppendStep, InfraError>)
    ensures
        match r {
            Ok(step) => {
                let body = payload_len + 1;
                let rec = HEADER_BYTES + body;
                &&& payload_len < usize::MAX
                &&& body <= MAX_RECORD_BYTES
                &&& rec <= config.segment_size_bytes
                &&& step.record_bytes == rec
                &&& step.rotate == (w.offset + rec > config.segment_size_bytes)
                &&& step.next.index == if step.rotate {
                    sat_add_u64(w.index, 1)
                } else {
                    w.index
                }
                &&& step.next.offset == if step.rotate {
                    rec as u64
                } else {
                    sat_add_u64(w.offset, rec as u64)
                }
                &&& ({
                    let pending = sat_add_usize(
                        if step.rotate {
                            0usize
                        } else {
                            w.pending_bytes
                        },
                        rec as nat,
                    );
                    &&& step.flush == (pending >= config.flush_bytes || elapsed_ms
                        >= config.flush_interval_ms)
                    &&& step.next.pending_bytes == if step.flush {
                        0
                    } else {
                        pending
                    }
                })
                &&& step.cursor == JournalCursor {
                    segment: step.next.index,
                    offset: step.next.offset,
                }
                &&& w.offset <= config.segment_size_bytes ==> step.next.offset
                    <= config.segment_size_bytes
                &&& append_layout_ok(*w, payload_len as int, config.segment_size_bytes as int, step)
            },
            Err(e) => {
                ||| payload_len == usize::MAX && crate::record::is_invalid_data(
                    e,
                    "record payload too large"@,
                )
                ||| payload_len < usize::MAX && payload_len + 1 > MAX_RECORD_BYTES
                    && crate::record::is_invalid_data(
                    e,
                    "event too large: "@ + crate::text::dec((payload_len + 1) as nat) + " bytes"@,
                )
                ||| payload_len < usize::MAX && payload_len + 1 <= MAX_RECORD_BYTES && HEADER_BYTES
                    + payload_len + 1 > config.segment_size_bytes && crate::record::is_invalid_data(
                    e,
                    "record size "@ + crate::text::dec((HEADER_BYTES + payload_len + 1) as nat)
                        + " exceeds segment size "@ + crate::text::dec(
                        config.segment_size_bytes as nat,
                    ),
                )
            },
        },
{
    let body_len = match crate::record::versioned_body_len(payload_len) {
        Ok(n) => n,
        Err(e) => {
            return Err(e);
        },
    };
    if body_len > MAX_RECORD_BYTES {
        let n = u64_to_string(body_len as u64);
        let mut m = concat2("event too large: ", n.as_str());
        push_seq(&mut m, " bytes");
        return Err(InfraError::InvalidData(m));
    }
    let record_bytes: u64 = HEADER_BYTES as u64 + body_len as u64;
    if record_bytes > config.segment_size_bytes {
        let a = u64_to_string(record_bytes);
        let b = u64_to_string(config.segment_size_bytes);
        let mut m = concat2("record size ", a.as_str());
        push_seq(&mut m, " exceeds segment size ");
        push_seq(&mut m, b.as_str());
        return Err(InfraError::InvalidData(m));
    }
    let rotate = w.offset > config.segment_size_bytes || record_bytes > config.segment_size_bytes
        - w.offset;
    let (index, base_offset, base_pending) = if rotate {
        (w.index.saturating_add(1), 0u64, 0usize)
    } else {
        (w.index, w.offset, w.pending_bytes)
    };
    let offset = base_offset.saturating_add(record_bytes);
    let pending = base_pending.saturating_add(record_bytes as usize);
    let flush = pending >= config.flush_bytes || elapsed_ms >= config.flush_interval_ms;
    let next = WriterState { index, offset, pending_bytes: if flush {
        0
    } else {
        pending
    } };
    Ok(AppendStep { rotate, record_bytes, next, flush, cursor: JournalCursor { segment: index, offset } })
}

// ----------------------------------------------------------------------
// Dropping segments
// ----------------------------------------------------------------------
/// The segments numbered below the cursor's, which `delete_segments_before` removes.
pub fn segments_before(indices: &[u64], cursor: JournalCursor) -> (r: Vec<u64>)
    ensures
        r@ == indices@.filter(|i: u64| i < cursor.segment),
{
    let mut r: Vec<u64> = Vec::new();
    let mut k: usize = 0;
    while k < indices.len()
        invariant
            0 <= k <= indices@.len(),
            r@ == indices@.take(k as int).filter(|i: u64| i < cursor.segment),
        decreases indices@.len() - k,
    {
        proof {
            reveal_with_fuel(Seq::<u64>::filter, 1);
            assert(indices@.take(k + 1).drop_last() =~= indices@.take(k as int));
        }
        if indices[k] < cursor.segment {
            r.push(indices[k]);
        }
        k = k + 1;
    }
    assert(indices@.take(indices@.len() as int) =~= indices@);
    r
}

/// The segments numbered above the cursor's, which `truncate_tail` removes.
pub fn segments_after(indices: &[u64], cursor: JournalCursor) -> (r: Vec<u64>)
    ensures
        r@ == indices@.filter(|i: u64| i > cursor.segment),
{
    let mut r: Vec<u64> = Vec::new();
    let mut k: usize = 0;
    while k < indices.len()
        invariant
            0 <= k <= indices@.len(),
            r@ == indices@.take(k as int).filter(|i: u64| i > cursor.segment),
        decreases indices@.len() - k,
    {
        proof {
            reveal_with_fuel(Seq::<u64>::filter, 1);
            assert(indices@.take(k + 1).drop_last() =~= indices@.take(k as int));
        }
        if indices[k] > cursor.segment {
            r.push(indices[k]);
        }
        k = k + 1;
    }
    assert(indices@.take(indices@.len() as int) =~= indices@);
    r
}

/// Whether truncating at `cursor` can go on once the later segments are gone:
/// the cursor's segment file must exist unless the cursor is at offset 0.
pub fn check_truncate_target(cursor: JournalCursor, target_exists: bool) -> (r: Result<(), InfraError>)
    ensures
        r is Ok <==> (target_exists || cursor.offset == 0),
        r matches Err(e) ==> crate::record::is_invalid_data(
            e,
            "segment "@ + crate::text::dec(cursor.segment as nat) + " missing for truncate"@,
        ),
{
    if target_exists || cursor.offset == 0 {
        Ok(())
    } else {
        let n = u64_to_string(cursor.segment);
        let mut m = concat2("segment ", n.as_str());
        push_seq(&mut m, " missing for truncate");
        Err(InfraError::InvalidData(m))
    }
}

/// Deleting the segments before a cursor keeps the cursor's own segment and
/// every later one, and deleting again removes nothing more.
pub proof fn lemma_delete_before_keeps_cursor_segment(indices: Seq<u64>, cursor: JournalCursor)
    ensures
        forall|i: u64|
            indices.contains(i) && i >= cursor.segment ==> !indices.filter(
                |x: u64| x < cursor.segment,
            ).contains(i),
        indices.filter(|x: u64| x >= cursor.segment).filter(|x: u64| x < cursor.segment).len()
            == 0,
{
    assert forall|i: u64| indices.contains(i) && i >= cursor.segment implies !indices.filter(
        |x: u64| x < cursor.segment,
    ).contains(i) by {
        if indices.filter(|x: u64| x < cursor.segment).contains(i) {
            indices.lemma_filter_contains_rev(|x: u64| x < cursor.segment, i);
        }
    }
    let kept = indices.filter(|x: u64| x >= cursor.segment);
    let again = kept.filter(|x: u64| x < cursor.segment);
    if again.len() > 0 {
        assert(again.contains(again[0]));
        kept.lemma_filter_contains_rev(|x: u64| x < cursor.segment, again[0]);
        indices.lemma_filter_contains_rev(|x: u64| x >= cursor.segment, again[0]);
    }
}


// ----------------------------------------------------------------------
// Appending and replaying across segments
// ----------------------------------------------------------------------
/// What a replayed record says of the payload appended for it: the decoder's
/// value for the payload, or, in the legacy format, for the whole versioned
/// body when the payload alone did not decode.
pub open spec fn replayed_as<T, F: Fn(&[u8]) -> Result<T, String>>(
    decode: &F,
    p: Seq<u8>,
    d: DecodedRecord<T>,
) -> bool {
    if d.legacy_format {
        &&& crate::record::decodes_to(decode, crate::record::versioned_body(p), Ok(d.value))
        &&& exists|ve: String| #[trigger] crate::record::decodes_to(decode, p, Err(ve))
    } else {
        crate::record::decodes_to(decode, p, Ok(d.value))
    }
}

proof fn lemma_walk_compose(data: Seq<u8>, start: int, a: nat, b: nat, o: int)
    requires
        walk(data, start, a) == Some(o),
    ensures
        walk(data, start, a + b) == walk(data, o, b),
    decreases a,
{
    if a > 0 {
        let next = start + HEADER_BYTES + frame_step(data, start)->Frame_len;
        lemma_walk_compose(data, next, (a - 1) as nat, b, o);
        assert((a - 1) as nat + b == (a + b - 1) as nat);
    }
}

/// Replaying a segment of appended records from the start of record `j`
/// gives back the payloads from `j` on, as `lemma_replay_of_appended` does
/// from the start.
proof fn lemma_replay_from_record<T, F: Fn(&[u8]) -> Result<T, String>>(
    decode: &F,
    index: u64,
    ps: Seq<Seq<u8>>,
    j: int,
    records: Seq<DecodedRecord<T>>,
    end: int,
    corruption: Option<JournalCorruption>,
)
    requires
        payloads_fit(ps),
        0 <= j <= ps.len(),
        segment_replay_ok(decode, index, records_of(ps), record_offset(ps, j), records, end, corruption),
    ensures
        records.len() <= ps.len() - j,
        forall|i: int| 0 <= i < records.len() ==> replayed_as(decode, ps[j + i], #[trigger] records[i]),
        corruption is None <==> records.len() == ps.len() - j,
        corruption is None ==> end == records_of(ps).len(),
        corruption matches Some(c) ==> {
            &&& c.segment == index
            &&& crate::record::decode_failure_message(
                decode,
                crate::record::versioned_body(ps[j + records.len()]),
                c.reason@,
            )
        },
{
    let data = records_of(ps);
    let n = ps.len();
    let k = records.len();
    let oj = record_offset(ps, j);
    lemma_appended_records_layout(ps);
    assert(ps.take(n as int) =~= ps);
    assert(walk(data, 0, j as nat) == Some(oj)) by {
        if j == n {
            assert(record_offset(ps, j) == data.len());
        }
    }
    // walking m records from record j is walking j + m from the start
    assert forall|m: nat| walk(data, oj, m) == walk(data, 0, (j + m) as nat) by {
        lemma_walk_compose(data, 0, j as nat, m, oj);
    }
    if k > n - j {
        assert(walk(data, oj, k) is Some);
        lemma_walk_prefix(data, oj, k, (n - j + 1) as nat);
        assert(walk(data, 0, (n + 1) as nat) is Some);
        lemma_walk_step(data, 0, n);
        assert(false);
    }
    assert forall|i: int| 0 <= i < records.len() implies replayed_as(decode, ps[j + i], #[trigger] records[i]) by {
        assert(walk(data, oj, i as nat) == walk(data, 0, (j + i) as nat));
        assert(walk(data, 0, (j + i) as nat) == Some(record_offset(ps, j + i)));
        let body = crate::record::versioned_body(ps[j + i]);
        assert(body.drop_first() =~= ps[j + i]);
        assert(crate::record::has_version_byte(body));
    }
    assert(walk(data, oj, k) == walk(data, 0, (j + k) as nat));
    if j + k < n {
        assert(walk(data, 0, (j + k) as nat) == Some(record_offset(ps, j + k)));
        assert(frame_step(data, record_offset(ps, j + k)) is Frame);
        let body = crate::record::versioned_body(ps[j + k]);
        assert(body_at(data, end) == body);
        if corruption is None {
            assert(end == data.len());
            assert(false);
        }
    } else {
        assert(end == data.len());
        if corruption is Some {
            assert(frame_step(data, end) is End);
            assert(false);
        }
    }
}


/// The bytes of the record of payload `p`.
pub open spec fn record_len(p: Seq<u8>) -> int {
    HEADER_BYTES + p.len() + 1
}

/// How appends to a fresh journal lay the payloads `ps` out over segments of
/// at most `size` bytes: each record goes to the current segment, or starts
/// the next one when it does not fit in the rest of it.
pub open spec fn segment_groups(size: int, ps: Seq<Seq<u8>>) -> Seq<Seq<Seq<u8>>>
    decreases ps.len(),
{
    if ps.len() == 0 {
        Seq::empty()
    } else {
        let g = segment_groups(size, ps.drop_last());
        let p = ps.last();
        if g.len() == 0 {
            seq![seq![p]]
        } else if records_of(g.last()).len() + record_len(p) > size {
            g.push(seq![p])
        } else {
            g.update(g.len() - 1, g.last().push(p))
        }
    }
}

/// The cursor that appending the first `k` payloads of `ps` to a fresh
/// journal returns last (the start of the journal for none).
pub open spec fn cursor_after(size: int, ps: Seq<Seq<u8>>, k: int) -> JournalCursor {
    if k <= 0 {
        JournalCursor { segment: 1, offset: 0 }
    } else {
        let g = segment_groups(size, ps.take(k));
        JournalCursor { segment: g.len() as u64, offset: records_of(g.last()).len() as u64 }
    }
}

/// How many payloads the segments before segment `s` (counted from 0) hold.
pub open spec fn group_base(g: Seq<Seq<Seq<u8>>>, s: int) -> int
    decreases s,
{
    if s <= 0 {
        0
    } else {
        group_base(g, s - 1) + g[s - 1].len()
    }
}

/// Every record fits in a segment.
pub open spec fn records_fit(size: int, ps: Seq<Seq<u8>>) -> bool {
    &&& payloads_fit(ps)
    &&& forall|i: int| 0 <= i < ps.len() ==> record_len(#[trigger] ps[i]) <= size
}

proof fn lemma_records_of_push(q: Seq<Seq<u8>>, p: Seq<u8>)
    requires
        p.len() + 1 <= MAX_RECORD_BYTES,
    ensures
        records_of(q.push(p)) == records_of(q) + crate::record::record_of(p),
        records_of(q.push(p)).len() == records_of(q).len() + record_len(p),
{
    assert(q.push(p).drop_last() =~= q);
    crate::record::lemma_record_of_reads_back(p);
}

proof fn lemma_group_base_mono(g: Seq<Seq<Seq<u8>>>, a: int, b: int)
    requires
        0 <= a <= b <= g.len(),
    ensures
        group_base(g, a) <= group_base(g, b),
    decreases b - a,
{
    if a < b {
        lemma_group_base_mono(g, a, b - 1);
    }
}

proof fn lemma_group_base_prefix(g: Seq<Seq<Seq<u8>>>, h: Seq<Seq<Seq<u8>>>, s: int)
    requires
        0 <= s <= g.len(),
        s <= h.len(),
        forall|t: int| 0 <= t < s ==> g[t] == h[t],
    ensures
        group_base(g, s) == group_base(h, s),
    decreases s,
{
    if s > 0 {
        lemma_group_base_prefix(g, h, s - 1);
    }
}

/// The layout `g` of the payloads `ps`: non-empty segments, each holding the
/// next run of payloads, none larger than a segment.
pub open spec fn layout_ok(size: int, ps: Seq<Seq<u8>>, g: Seq<Seq<Seq<u8>>>) -> bool {
    &&& ps.len() > 0 ==> g.len() >= 1
    &&& g.len() <= ps.len()
    &&& group_base(g, g.len() as int) == ps.len()
    &&& forall|s: int| 0 <= s < g.len() ==> (#[trigger] g[s].len()) >= 1
    &&& forall|s: int| 0 <= s < g.len() ==> (#[trigger] records_of(g[s])).len() <= size
    &&& forall|s: int, i: int|
        0 <= s < g.len() && 0 <= i < g[s].len() ==> #[trigger] g[s][i] == ps[group_base(g, s) + i]
}

#[verifier::rlimit(100)]
proof fn lemma_layout_new_segment(size: int, q: Seq<Seq<u8>>, p: Seq<u8>, g0: Seq<Seq<Seq<u8>>>)
    requires
        layout_ok(size, q, g0),
        p.len() + 1 <= MAX_RECORD_BYTES,
        record_len(p) <= size,
    ensures
        layout_ok(size, q.push(p), g0.push(seq![p])),
{
    let ps = q.push(p);
    let g = g0.push(seq![p]);
    lemma_records_of_push(Seq::empty(), p);
    assert(Seq::<Seq<u8>>::empty().push(p) =~= seq![p]);
    lemma_group_base_prefix(g0, g, g0.len() as int);
    assert(group_base(g, g.len() as int) == ps.len());
    assert forall|s: int, i: int|
        0 <= s < g.len() && 0 <= i < g[s].len() implies #[trigger] g[s][i] == ps[group_base(g, s) + i] by {
        lemma_group_base_prefix(g0, g, s);
        if s < g0.len() {
            lemma_group_base_mono(g0, s + 1, g0.len() as int);
            assert(g[s] == g0[s]);
            assert(group_base(g0, s + 1) == group_base(g0, s) + g0[s].len());
            lemma_group_base_mono(g0, 0, s);
            assert(g[s][i] == g0[s][i]);
            assert(ps[group_base(g, s) + i] == q[group_base(g0, s) + i]);
        }
    }
    assert forall|s: int| 0 <= s < g.len() implies (#[trigger] records_of(g[s])).len() <= size by {
        if s < g0.len() {
            assert(g[s] == g0[s]);
        }
    }
    assert forall|s: int| 0 <= s < g.len() implies (#[trigger] g[s].len()) >= 1 by {
        if s < g0.len() {
            assert(g[s] == g0[s]);
        }
    }
}

#[verifier::rlimit(100)]
proof fn lemma_layout_same_segment(size: int, q: Seq<Seq<u8>>, p: Seq<u8>, g0: Seq<Seq<Seq<u8>>>)
    requires
        layout_ok(size, q, g0),
        g0.len() > 0,
        p.len() + 1 <= MAX_RECORD_BYTES,
        records_of(g0.last()).len() + record_len(p) <= size,
    ensures
        layout_ok(size, q.push(p), g0.update(g0.len() - 1, g0.last().push(p))),
{
    let ps = q.push(p);
    let last = g0.len() - 1;
    let g = g0.update(last, g0.last().push(p));
    lemma_records_of_push(g0.last(), p);
    lemma_group_base_prefix(g0, g, last);
    assert(group_base(g, g.len() as int) == group_base(g, last) + g[last].len());
    assert forall|s: int, i: int|
        0 <= s < g.len() && 0 <= i < g[s].len() implies #[trigger] g[s][i] == ps[group_base(g, s) + i] by {
        lemma_group_base_prefix(g0, g, s);
        if s < last {
            lemma_group_base_mono(g0, s + 1, g0.len() as int);
            assert(g[s] == g0[s]);
            assert(group_base(g0, s + 1) == group_base(g0, s) + g0[s].len());
            lemma_group_base_mono(g0, 0, s);
            assert(g[s][i] == g0[s][i]);
            assert(ps[group_base(g, s) + i] == q[group_base(g0, s) + i]);
        } else if i < g0[s].len() {
            assert(group_base(g0, s + 1) == group_base(g0, s) + g0[s].len());
            lemma_group_base_mono(g0, 0, s);
            assert(g[s][i] == g0[s][i]);
            assert(ps[group_base(g, s) + i] == q[group_base(g0, s) + i]);
        }
    }
    assert forall|s: int| 0 <= s < g.len() implies (#[trigger] records_of(g[s])).len() <= size by {
        if s < last {
            assert(g[s] == g0[s]);
        }
    }
    assert forall|s: int| 0 <= s < g.len() implies (#[trigger] g[s].len()) >= 1 by {
        if s < last {
            assert(g[s] == g0[s]);
        }
    }
}

proof fn lemma_records_fit_prefix(size: int, ps: Seq<Seq<u8>>, k: int)
    requires
        records_fit(size, ps),
        0 <= k <= ps.len(),
    ensures
        records_fit(size, ps.take(k)),
{
    let q = ps.take(k);
    assert forall|i: int| 0 <= i < q.len() implies #[trigger] q[i].len() + 1 <= MAX_RECORD_BYTES by {
        assert(q[i] == ps[i]);
    }
    assert forall|i: int| 0 <= i < q.len() implies record_len(#[trigger] q[i]) <= size by {
        assert(q[i] == ps[i]);
    }
}

/// The layout of `segment_groups` is well-formed.
proof fn lemma_groups_shape(size: int, ps: Seq<Seq<u8>>)
    requires
        records_fit(size, ps),
    ensures
        layout_ok(size, ps, segment_groups(size, ps)),
    decreases ps.len(),
{
    if ps.len() > 0 {
        let n = ps.len() - 1;
        let q = ps.drop_last();
        let p = ps.last();
        lemma_records_fit_prefix(size, ps, n);
        assert(ps.take(n) =~= q);
        lemma_groups_shape(size, q);
        let g0 = segment_groups(size, q);
        assert(ps[n] == p);
        assert(q.push(p) =~= ps);
        if g0.len() == 0 {
            assert(g0.push(seq![p]) =~= seq![seq![p]]);
            lemma_layout_new_segment(size, q, p, g0);
        } else if records_of(g0.last()).len() + record_len(p) > size {
            lemma_layout_new_segment(size, q, p, g0);
        } else {
            lemma_layout_same_segment(size, q, p, g0);
        }
    }
}


/// Where appending a payload of `payload_len` bytes to the writer `w` puts
/// its record, as `plan_append` plans it for segments of `size` bytes.
pub open spec fn append_layout_ok(w: WriterState, payload_len: int, size: int, step: AppendStep) -> bool {
    let rec = HEADER_BYTES + payload_len + 1;
    &&& payload_len + 1 <= MAX_RECORD_BYTES
    &&& rec <= size
    &&& step.rotate == (w.offset + rec > size)
    &&& step.next.index == if step.rotate {
        sat_add_u64(w.index, 1)
    } else {
        w.index
    }
    &&& step.next.offset == if step.rotate {
        rec as u64
    } else {
        sat_add_u64(w.offset, rec as u64)
    }
    &&& step.cursor == (JournalCursor { segment: step.next.index, offset: step.next.offset })
}

/// The writer before append `i` of a fresh journal whose appends were `steps`.
pub open spec fn writer_before(steps: Seq<AppendStep>, i: int) -> WriterState {
    if i <= 0 {
        WriterState { index: 1, offset: 0, pending_bytes: 0 }
    } else {
        steps[i - 1].next
    }
}

proof fn lemma_groups_single(size: int, p: Seq<u8>)
    requires
        p.len() + 1 <= MAX_RECORD_BYTES,
    ensures
        segment_groups(size, seq![p]) == seq![seq![p]],
        records_of(seq![p]).len() == record_len(p),
{
    assert(seq![p].drop_last() =~= Seq::<Seq<u8>>::empty());
    assert(segment_groups(size, seq![p].drop_last()).len() == 0);
    assert(seq![p].last() == p);
    lemma_records_of_push(Seq::empty(), p);
    assert(Seq::<Seq<u8>>::empty().push(p) =~= seq![p]);
}

/// The cursors that the appends of a fresh journal return are the cursors
/// of the layout `segment_groups`: after `k` appends, the last segment of the
/// layout of the first `k` payloads, at its end.
pub proof fn lemma_appends_follow_layout(size: u64, ps: Seq<Seq<u8>>, steps: Seq<AppendStep>)
    requires
        steps.len() == ps.len(),
        ps.len() < u64::MAX,
        forall|i: int|
            0 <= i < ps.len() ==> append_layout_ok(
                writer_before(steps, i),
                ps[i].len() as int,
                size as int,
                #[trigger] steps[i],
            ),
    ensures
        records_fit(size as int, ps),
        forall|k: int| 1 <= k <= ps.len() ==> (#[trigger] steps[k - 1]).cursor == cursor_after(size as int, ps, k),
{
    assert forall|i: int| 0 <= i < ps.len() implies #[trigger] ps[i].len() + 1 <= MAX_RECORD_BYTES by {
        assert(append_layout_ok(writer_before(steps, i), ps[i].len() as int, size as int, steps[i]));
    }
    assert forall|i: int| 0 <= i < ps.len() implies record_len(#[trigger] ps[i]) <= size by {
        assert(append_layout_ok(writer_before(steps, i), ps[i].len() as int, size as int, steps[i]));
    }
    assert forall|k: int| 1 <= k <= ps.len() implies (#[trigger] steps[k - 1]).cursor == cursor_after(size as int, ps, k) by {
        lemma_appends_prefix(size, ps, steps, k);
    }
}

proof fn lemma_appends_prefix(size: u64, ps: Seq<Seq<u8>>, steps: Seq<AppendStep>, k: int)
    requires
        steps.len() == ps.len(),
        ps.len() < u64::MAX,
        1 <= k <= ps.len(),
        forall|i: int|
            0 <= i < ps.len() ==> append_layout_ok(
                writer_before(steps, i),
                ps[i].len() as int,
                size as int,
                #[trigger] steps[i],
            ),
    ensures
        ({
            let h = segment_groups(size as int, ps.take(k));
            &&& 1 <= h.len() <= k
            &&& steps[k - 1].next.index == h.len()
            &&& steps[k - 1].next.offset == records_of(h.last()).len()
            &&& records_of(h.last()).len() <= size
            &&& steps[k - 1].cursor == cursor_after(size as int, ps, k)
        }),
    decreases k,
{
    let p = ps[k - 1];
    let st = steps[k - 1];
    let w = writer_before(steps, k - 1);
    assert(append_layout_ok(w, p.len() as int, size as int, st));
    let rec = record_len(p);
    let h = segment_groups(size as int, ps.take(k));
    assert(ps.take(k).drop_last() =~= ps.take(k - 1));
    assert(ps.take(k).last() == p);
    if k == 1 {
        assert(ps.take(1) =~= seq![p]);
        lemma_groups_single(size as int, p);
        assert(h == seq![seq![p]]);
    } else {
        lemma_appends_prefix(size, ps, steps, k - 1);
        let h0 = segment_groups(size as int, ps.take(k - 1));
        assert(w == steps[k - 2].next);
        lemma_records_of_push(Seq::empty(), p);
        assert(Seq::<Seq<u8>>::empty().push(p) =~= seq![p]);
        if records_of(h0.last()).len() + rec > size {
            assert(h == h0.push(seq![p]));
        } else {
            lemma_records_of_push(h0.last(), p);
            assert(h == h0.update(h0.len() - 1, h0.last().push(p)));
        }
    }
}


/// The layout of the first `k` payloads is the layout of all of them cut
/// after payload `k`: the same segments before its last one, and that one a
/// prefix of its segment in the whole layout.
proof fn lemma_groups_prefix(size: int, ps: Seq<Seq<u8>>, k: int)
    requires
        records_fit(size, ps),
        1 <= k <= ps.len(),
    ensures
        ({
            let g = segment_groups(size, ps);
            let h = segment_groups(size, ps.take(k));
            let s = h.len() - 1;
            &&& 1 <= h.len() <= g.len()
            &&& forall|t: int| 0 <= t < s ==> h[t] == g[t]
            &&& group_base(g, s) < k <= group_base(g, s + 1)
            &&& h.last() == g[s].take(k - group_base(g, s))
        }),
    decreases ps.len(),
{
    let g = segment_groups(size, ps);
    let h = segment_groups(size, ps.take(k));
    lemma_groups_shape(size, ps);
    let n = ps.len();
    if k == n {
        assert(ps.take(k) =~= ps);
        let s = h.len() - 1;
        assert(group_base(g, s + 1) == group_base(g, s) + g[s].len());
        assert(g[s].take(g[s].len() as int) =~= g[s]);
    } else {
        let q = ps.drop_last();
        let p = ps.last();
        lemma_records_fit_prefix(size, ps, n - 1);
        assert(ps.take(n - 1) =~= q);
        lemma_groups_prefix(size, q, k);
        assert(q.take(k) =~= ps.take(k));
        let g0 = segment_groups(size, q);
        lemma_groups_shape(size, q);
        let s = h.len() - 1;
        assert(ps[n - 1] == p);
        if records_of(g0.last()).len() + record_len(p) > size {
            assert(g == g0.push(seq![p]));
            lemma_group_base_prefix(g0, g, s);
            lemma_group_base_prefix(g0, g, s + 1);
        } else {
            let l = g0.len() - 1;
            assert(g == g0.update(l, g0.last().push(p)));
            lemma_group_base_prefix(g0, g, s);
            if s < l {
                lemma_group_base_prefix(g0, g, s + 1);
            } else {
                assert(group_base(g, s + 1) == group_base(g, s) + g[s].len());
                assert(group_base(g0, s + 1) == group_base(g0, s) + g0[s].len());
                assert(g[s].take(k - group_base(g, s)) =~= g0[s].take(k - group_base(g0, s)));
            }
        }
    }
}

/// Where the cursor after `k` appends lies in the layout: in segment
/// `cursor.segment`, at the start of its record `k - base` (or at its end).
proof fn lemma_cursor_in_layout(size: int, ps: Seq<Seq<u8>>, k: int)
    requires
        records_fit(size, ps),
        size <= u64::MAX,
        ps.len() < u64::MAX,
        1 <= ps.len(),
        0 <= k <= ps.len(),
    ensures
        ({
            let g = segment_groups(size, ps);
            let c = cursor_after(size, ps, k);
            let s = c.segment - 1;
            &&& 1 <= c.segment <= g.len()
            &&& group_base(g, s) <= k <= group_base(g, s + 1)
            &&& c.offset == record_offset(g[s], k - group_base(g, s))
        }),
{
    let g = segment_groups(size, ps);
    lemma_groups_shape(size, ps);
    if k == 0 {
        assert(group_base(g, 1) == group_base(g, 0) + g[0].len());
        assert(g[0].take(0) =~= Seq::<Seq<u8>>::empty());
        assert(records_of(Seq::<Seq<u8>>::empty()).len() == 0);
    } else {
        lemma_groups_prefix(size, ps, k);
        let h = segment_groups(size, ps.take(k));
        lemma_records_fit_prefix(size, ps, k);
        lemma_groups_shape(size, ps.take(k));
        assert(h.len() <= k);
        assert(h.last() == h[h.len() - 1]);
        assert(records_of(h[h.len() - 1]).len() <= size);
    }
}

/// A fresh journal's segment files after appending `ps`: segment `t + 1`
/// holds the records of the `t`-th run of the layout.
pub open spec fn segments_hold_layout(size: int, ps: Seq<Seq<u8>>, segs: Seq<SegmentData>) -> bool {
    let g = segment_groups(size, ps);
    &&& segs.len() == g.len()
    &&& forall|t: int| 0 <= t < segs.len() ==> (#[trigger] segs[t]).index == t + 1 && segs[t].bytes@ == records_of(g[t])
}

proof fn lemma_replay_upto_layout<T, F: Fn(&[u8]) -> Result<T, String>>(
    decode: &F,
    size: int,
    ps: Seq<Seq<u8>>,
    k: int,
    segs: Seq<SegmentData>,
    jj: int,
    records: Seq<DecodedRecord<T>>,
    last: JournalCursor,
    corruption: Option<JournalCorruption>,
    counts: Seq<int>,
    lasts: Seq<JournalCursor>,
)
    requires
        records_fit(size, ps),
        size <= u64::MAX,
        ps.len() < u64::MAX,
        1 <= ps.len(),
        0 <= k <= ps.len(),
        segments_hold_layout(size, ps, segs),
        0 <= jj <= segs.len(),
        replay_upto(decode, segs, cursor_after(size, ps, k), jj, records, last, corruption, counts, lasts),
    ensures
        ({
            let g = segment_groups(size, ps);
            let st = cursor_after(size, ps, k);
            let s0 = st.segment - 1;
            let e = if jj <= s0 { k } else { group_base(g, jj) };
            &&& records.len() <= e - k
            &&& forall|i: int| 0 <= i < records.len() ==> replayed_as(decode, ps[k + i], #[trigger] records[i])
            &&& corruption is None ==> records.len() == e - k
            &&& corruption is None && jj > s0 ==> last == (JournalCursor { segment: jj as u64, offset: records_of(g[jj - 1]).len() as u64 })
            &&& corruption matches Some(c) ==> {
                &&& records.len() < e - k
                &&& crate::record::decode_failure_message(
                    decode,
                    crate::record::versioned_body(ps[k + records.len()]),
                    c.reason@,
                )
            }
        }),
    decreases jj,
{
    let g = segment_groups(size, ps);
    let st = cursor_after(size, ps, k);
    let s0 = st.segment - 1;
    lemma_groups_shape(size, ps);
    lemma_cursor_in_layout(size, ps, k);
    if jj > 0 {
        let seg = segs[jj - 1];
        let kk = counts[jj - 1];
        let l0 = lasts[jj - 1];
        lemma_replay_upto_layout(decode, size, ps, k, segs, jj - 1, records.take(kk), l0, None, counts.take(jj), lasts.take(jj));
        assert(seg.index == jj);
        lemma_group_base_mono(g, 0, jj - 1);
        lemma_group_base_mono(g, jj, g.len() as int);
        assert(group_base(g, jj) == group_base(g, jj - 1) + g[jj - 1].len());
        if seg.index < st.segment {
            assert(records.take(kk) =~= records);
        } else {
            let j0 = if jj - 1 == s0 { k - group_base(g, s0) } else { 0 };
            assert(entry_offset(st, seg.index) == record_offset(g[jj - 1], j0)) by {
                if jj - 1 != s0 {
                    assert(g[jj - 1].take(0) =~= Seq::<Seq<u8>>::empty());
                }
            }
            assert(payloads_fit(g[jj - 1])) by {
                assert forall|i: int| 0 <= i < g[jj - 1].len() implies #[trigger] g[jj - 1][i].len() + 1 <= MAX_RECORD_BYTES by {
                    assert(g[jj - 1][i] == ps[group_base(g, jj - 1) + i]);
                }
            }
            lemma_replay_from_record(decode, seg.index, g[jj - 1], j0, records.skip(kk), last.offset as int, corruption);
            // the records before this segment, and those read from it
            assert forall|i: int| 0 <= i < records.len() implies replayed_as(decode, ps[k + i], #[trigger] records[i]) by {
                if i < kk {
                    assert(records.take(kk)[i] == records[i]);
                } else {
                    assert(records.skip(kk)[i - kk] == records[i]);
                    assert(g[jj - 1][j0 + (i - kk)] == ps[group_base(g, jj - 1) + j0 + (i - kk)]);
                }
            }
            if corruption is Some {
                let m = records.len() - kk;
                assert(g[jj - 1][j0 + m] == ps[group_base(g, jj - 1) + j0 + m]);
            }
        }
    }
}

/// What a fresh journal's appends give back: replaying its segments from
/// any cursor that an append returned (or from the start) gives the records
/// of the payloads appended after that cursor, in order, across every
/// segment the writer rotated to; replay goes through all of them unless the
/// decoder fails on one, and then it stops there with the decoder's error.
/// When it goes through, its last cursor is the one the last append
/// returned.
pub proof fn lemma_replay_from_returned_cursor<T, F: Fn(&[u8]) -> Result<T, String>>(
    decode: &F,
    size: int,
    ps: Seq<Seq<u8>>,
    k: int,
    segs: Seq<SegmentData>,
    jj: int,
    records: Seq<DecodedRecord<T>>,
    last: JournalCursor,
    corruption: Option<JournalCorruption>,
    counts: Seq<int>,
    lasts: Seq<JournalCursor>,
)
    requires
        records_fit(size, ps),
        size <= u64::MAX,
        ps.len() < u64::MAX,
        1 <= ps.len(),
        0 <= k <= ps.len(),
        segments_hold_layout(size, ps, segs),
        0 <= jj <= segs.len(),
        replay_upto(decode, segs, cursor_after(size, ps, k), jj, records, last, corruption, counts, lasts),
        corruption is None ==> jj == segs.len(),
    ensures
        records.len() <= ps.len() - k,
        forall|i: int| 0 <= i < records.len() ==> replayed_as(decode, ps[k + i], #[trigger] records[i]),
        corruption is None ==> records.len() == ps.len() - k && last == cursor_after(size, ps, ps.len() as int),
        corruption matches Some(c) ==> {
            &&& records.len() < ps.len() - k
            &&& crate::record::decode_failure_message(
                decode,
                crate::record::versioned_body(ps[k + records.len()]),
                c.reason@,
            )
        },
{
    let g = segment_groups(size, ps);
    lemma_groups_shape(size, ps);
    lemma_cursor_in_layout(size, ps, k);
    lemma_replay_upto_layout(decode, size, ps, k, segs, jj, records, last, corruption, counts, lasts);
    let st = cursor_after(size, ps, k);
    let s0 = st.segment - 1;
    lemma_group_base_mono(g, jj, g.len() as int);
    if jj <= s0 {
        lemma_group_base_mono(g, s0 + 1, g.len() as int);
    }
    if corruption is None {
        assert(ps.take(ps.len() as int) =~= ps);
    }
}

} // verus!
