//! The snapshot store: one file holding one framed record of the state.
use vstd::prelude::*;

use crate::record::{deserialize_body, read_le32_at, DecodedRecord, HEADER_BYTES};
use crate::text::{concat2, owned};

verus! {

pub const SNAPSHOT_FILE: &'static str = "latest.snap";

pub const SNAPSHOT_TMP: &'static str = "latest.snap.tmp";

pub const SNAPSHOT_VERSION: u32 = 3;

/// `Path::join` of a relative name onto a directory, with `/` separators.
pub open spec fn path_join(dir: Seq<char>, name: Seq<char>) -> Seq<char> {
    if dir.len() == 0 || dir.last() == '/' {
        dir + name
    } else {
        dir + seq!['/'] + name
    }
}

pub fn join_path(dir: &str, name: &str) -> (p: String)
    ensures
        p@ == path_join(dir@, name@),
{
    let d = crate::text::chars_of(dir);
    if d.len() == 0 || d[d.len() - 1] == '/' {
        concat2(dir, name)
    } else {
        let mut p = owned(dir);
        p.push('/');
        crate::text::push_seq(&mut p, name);
        p
    }
}

/// Where the snapshot of a data directory lives.
#[derive(Debug, Clone)]
pub struct SnapshotStore {
    pub dir: String,
}

impl SnapshotStore {
    /// The store under `data_dir`, in its `snapshot` directory.
    pub fn open(data_dir: &str) -> (s: SnapshotStore)
        ensures
            s.dir@ == path_join(data_dir@, "snapshot"@),
    {
        SnapshotStore { dir: join_path(data_dir, "snapshot") }
    }

    /// The path of the snapshot file.
    pub fn file_path(&self) -> (p: String)
        ensures
            p@ == path_join(self.dir@, SNAPSHOT_FILE@),
    {
        join_path(self.dir.as_str(), SNAPSHOT_FILE)
    }

    /// The path the snapshot is written to before it replaces the file.
    pub fn tmp_path(&self) -> (p: String)
        ensures
            p@ == path_join(self.dir@, SNAPSHOT_TMP@),
    {
        join_path(self.dir.as_str(), SNAPSHOT_TMP)
    }
}

/// Whether the bytes of a snapshot file hold exactly one record.
pub open spec fn whole_record(data: Seq<u8>) -> bool {
    data.len() >= HEADER_BYTES && data.len() == HEADER_BYTES + crate::record::read_le32(data, 0)
}

/// Reads a snapshot file's bytes. `decode` gives the stored version and value.
///
/// Nothing is loaded from a file too short for a header, from one whose length
/// disagrees with its header, from a record that does not decode, or from a
/// snapshot of another version.
pub fn decode_snapshot<T, F: Fn(&[u8]) -> Result<(u32, T), String>>(data: &[u8], decode: &F) -> (r:
    Option<DecodedRecord<(u32, T)>>)
    requires
        forall|b: &[u8]| #[trigger] decode.requires((b,)),
    ensures
        match r {
            Some(d) => {
                &&& whole_record(data@)
                &&& crate::journal::decoded_from(
                    decode,
                    data@.subrange(HEADER_BYTES as int, data@.len() as int),
                    crate::record::read_le32(data@, 4),
                    d,
                )
                &&& d.value.0 == SNAPSHOT_VERSION
            },
            None => {
                ||| !whole_record(data@)
                ||| exists|m: String|
                    crate::journal::body_error(
                        decode,
                        data@.subrange(HEADER_BYTES as int, data@.len() as int),
                        crate::record::read_le32(data@, 4),
                        m@,
                    )
                ||| exists|d: DecodedRecord<(u32, T)>|
                    crate::journal::decoded_from(
                        decode,
                        data@.subrange(HEADER_BYTES as int, data@.len() as int),
                        crate::record::read_le32(data@, 4),
                        d,
                    ) && d.value.0 != SNAPSHOT_VERSION
            },
        },
{
    if data.len() < HEADER_BYTES {
        return None;
    }
    let len = read_le32_at(data, 0);
    let crc = read_le32_at(data, 4);
    if data.len() - HEADER_BYTES != len as usize {
        return None;
    }
    let body = &data[HEADER_BYTES..data.len()];
    let decoded = deserialize_body(body, crc, decode);
    match decoded {
        Ok(d) => {
            if d.value.0 != SNAPSHOT_VERSION {
                assert(crate::journal::decoded_from(decode, body@, crc, d));
                return None;
            }
            Some(d)
        },
        Err(m) => {
            assert(crate::journal::body_error(decode, body@, crc, m@));
            None
        },
    }
}

/// A snapshot file written from a payload holds exactly one record, whose
/// body under the header's checksum is the version byte and then the
/// payload: what `decode_snapshot` decodes is what was written.
pub proof fn lemma_written_snapshot_reads_back(payload: Seq<u8>)
    requires
        payload.len() + 1 <= u32::MAX,
    ensures
        ({
            let data = crate::record::record_of(payload);
            let body = data.subrange(HEADER_BYTES as int, data.len() as int);
            &&& whole_record(data)
            &&& body == crate::record::versioned_body(payload)
            &&& crate::record::read_le32(data, 4) == crate::record::crc32_of(body)
            &&& crate::record::has_version_byte(body)
            &&& body.drop_first() == payload
        }),
{
    crate::record::lemma_record_of_reads_back(payload);
}

} // verus!
