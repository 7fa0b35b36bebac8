//! Write-ahead-log record format.
//!
//! A WAL file is a header — the magic `"TLWAL1"` followed by the vector
//! dimension as a little-endian `u32` — and then records, each an id
//! (little-endian `u64`) followed by `dim` little-endian `f32` values (4
//! bytes each). Replay returns every complete record and ignores a trailing
//! partial record, which is what a crash in the middle of an append leaves.
//!
//! This module handles the bytes; the vector payload of a record is kept as
//! its raw `4 * dim` bytes.

use vstd::prelude::*;
use vstd::bytes::*;
use vstd::slice::*;

use crate::text::{decimal, ends_with, push_decimal, push_str, starts_with};

verus! {

/// Length of the file header in bytes: 6 bytes of magic and a `u32`.
pub const HEADER_LEN: usize = 10;

/// The magic bytes `"TLWAL1"`.
pub open spec fn wal_magic() -> Seq<u8> {
    seq![84u8, 76u8, 87u8, 65u8, 76u8, 49u8]
}

/// Bytes of the header written for a WAL of dimension `dim` (the dimension
/// is stored as `dim as u32`).
pub open spec fn header_bytes(dim: usize) -> Seq<u8> {
    wal_magic() + spec_u32_to_le_bytes(dim as u32)
}

/// Length in bytes of one record for dimension `dim`.
pub open spec fn record_len(dim: nat) -> nat {
    8 + 4 * dim
}

/// Bytes of one record.
pub open spec fn record_bytes(id: u64, payload: Seq<u8>) -> Seq<u8> {
    spec_u64_to_le_bytes(id) + payload
}

/// Bytes of a run of records, in order.
pub open spec fn records_bytes(records: Seq<(u64, Seq<u8>)>) -> Seq<u8>
    decreases records.len(),
{
    if records.len() == 0 {
        Seq::empty()
    } else {
        record_bytes(records[0].0, records[0].1) + records_bytes(records.drop_first())
    }
}

/// The complete records at the start of `body`, for records of `rl` bytes;
/// a trailing run shorter than `rl` is ignored.
pub open spec fn decode_records_spec(body: Seq<u8>, rl: nat) -> Seq<(u64, Seq<u8>)>
    decreases body.len(),
{
    if rl < 8 || body.len() < rl {
        Seq::empty()
    } else {
        seq![(spec_u64_from_le_bytes(body.take(8)), body.subrange(8, rl as int))]
            + decode_records_spec(body.skip(rl as int), rl)
    }
}

/// Why a WAL file or record was refused.
#[derive(Debug, PartialEq, Eq)]
pub enum WalFormatError {
    /// The file ends before the header does.
    Truncated,
    /// The first six bytes are not `"TLWAL1"`.
    BadMagic,
    /// The header's dimension differs from the one requested.
    DimensionMismatch { file_dim: usize, requested: usize },
    /// A vector to append does not have `dim` values.
    VectorDimensionMismatch,
}

/// The dimension a header announces, or why it cannot be read.
pub open spec fn header_spec(bytes: Seq<u8>) -> Result<usize, WalFormatError> {
    if bytes.len() < 6 {
        Err(WalFormatError::Truncated)
    } else if bytes.take(6) != wal_magic() {
        Err(WalFormatError::BadMagic)
    } else if bytes.len() < 10 {
        Err(WalFormatError::Truncated)
    } else {
        Ok(spec_u32_from_le_bytes(bytes.subrange(6, 10)) as usize)
    }
}

/// One replayed record: its id and the raw bytes of its vector.
pub struct WalRecord {
    pub id: u64,
    pub payload: Vec<u8>,
}

/// The records as (id, payload bytes) pairs.
pub open spec fn records_view(v: Seq<WalRecord>) -> Seq<(u64, Seq<u8>)> {
    v.map_values(|r: WalRecord| (r.id, r.payload@))
}

/// What replaying a whole WAL file gives for dimension `dim`.
pub open spec fn replay_spec(file: Seq<u8>, dim: usize) -> Result<Seq<(u64, Seq<u8>)>, WalFormatError> {
    match header_spec(file) {
        Err(e) => Err(e),
        Ok(file_dim) => if file_dim != dim {
            Err(WalFormatError::DimensionMismatch { file_dim, requested: dim })
        } else {
            Ok(decode_records_spec(file.skip(HEADER_LEN as int), record_len(dim as nat)))
        },
    }
}

/// The header bytes for a new WAL file of dimension `dim`.
pub fn encode_header(dim: usize) -> (h: Vec<u8>)
    ensures
        h@ == header_bytes(dim),
        h@.len() == HEADER_LEN,
{
    let mut h: Vec<u8> = vec![84u8, 76u8, 87u8, 65u8, 76u8, 49u8];
    let mut d = u32_to_le_bytes(dim as u32);
    h.append(&mut d);
    assert(h@ =~= header_bytes(dim));
    h
}

/// Reads the dimension from the start of a WAL file.
pub fn decode_header(bytes: &[u8]) -> (r: Result<usize, WalFormatError>)
    ensures
        r == header_spec(bytes@),
{
    if bytes.len() < 6 {
        return Err(WalFormatError::Truncated);
    }
    let ghost magic = wal_magic();
    let expected: [u8; 6] = [84u8, 76u8, 87u8, 65u8, 76u8, 49u8];
    assert(expected@ =~= magic);
    let mut matches = true;
    let mut i: usize = 0;
    while i < 6
        invariant
            i <= 6,
            bytes@.len() >= 6,
            expected@ == magic,
            matches <==> (forall|j: int| 0 <= j < i ==> bytes@[j] == magic[j]),
        decreases 6 - i,
    {
        if bytes[i] != expected[i] {
            matches = false;
        }
        i = i + 1;
    }
    if !matches {
        let ghost k = choose|j: int| 0 <= j < 6 && bytes@[j] != magic[j];
        assert(bytes@.take(6)[k] != magic[k]);
        return Err(WalFormatError::BadMagic);
    }
    assert(bytes@.take(6) =~= magic);
    if bytes.len() < 10 {
        return Err(WalFormatError::Truncated);
    }
    let d = u32_from_le_bytes(slice_subrange(bytes, 6, 10));
    Ok(d as usize)
}

/// The bytes appended for one record, refused when the vector does not have
/// `dim` values (`payload` holds 4 bytes per value).
pub fn encode_record(id: u64, payload: &[u8], dim: usize) -> (r: Result<Vec<u8>, WalFormatError>)
    ensures
        payload@.len() == 4 * dim ==> r == Ok::<Vec<u8>, WalFormatError>(r->Ok_0) && r->Ok_0@ == record_bytes(id, payload@),
        payload@.len() != 4 * dim ==> r == Err::<Vec<u8>, WalFormatError>(WalFormatError::VectorDimensionMismatch),
{
    if payload.len() % 4 != 0 || payload.len() / 4 != dim {
        return Err(WalFormatError::VectorDimensionMismatch);
    }
    let mut out = u64_to_le_bytes(id);
    let mut i: usize = 0;
    while i < payload.len()
        invariant
            i <= payload@.len(),
            out@ == spec_u64_to_le_bytes(id) + payload@.take(i as int),
        decreases payload@.len() - i,
    {
        out.push(payload[i]);
        assert(payload@.take(i as int + 1) =~= payload@.take(i as int).push(payload@[i as int]));
        i = i + 1;
    }
    assert(payload@.take(i as int) =~= payload@);
    Ok(out)
}

/// Every complete record of `body` (the bytes after the header), in order.
pub fn decode_records(body: &[u8], dim: usize) -> (out: Vec<WalRecord>)
    requires
        dim <= (usize::MAX - 8) / 4,
    ensures
        records_view(out@) == decode_records_spec(body@, record_len(dim as nat)),
{
    let rl: usize = 8 + dim * 4;
    let mut out: Vec<WalRecord> = Vec::new();
    let mut pos: usize = 0;
    assert(body@.skip(0) =~= body@);
    assert(records_view(out@) =~= Seq::<(u64, Seq<u8>)>::empty());
    assert(records_view(out@) + decode_records_spec(body@, rl as nat) =~= decode_records_spec(body@, rl as nat));
    while rl <= body.len() - pos
        invariant
            rl == record_len(dim as nat),
            pos <= body@.len(),
            decode_records_spec(body@, rl as nat)
                == records_view(out@) + decode_records_spec(body@.skip(pos as int), rl as nat),
        decreases body@.len() - pos,
    {
        let ghost rest = body@.skip(pos as int);
        let id = u64_from_le_bytes(slice_subrange(body, pos, pos + 8));
        let payload = slice_to_vec(slice_subrange(body, pos + 8, pos + rl));
        assert(body@.subrange(pos as int, pos + 8) =~= rest.take(8));
        assert(payload@ =~= rest.subrange(8, rl as int));
        assert(rest.skip(rl as int) =~= body@.skip(pos + rl));
        let ghost before = out@;
        out.push(WalRecord { id, payload });
        assert(records_view(out@) =~= records_view(before).push((id, payload@)));
        pos = pos + rl;
    }
    assert(decode_records_spec(body@.skip(pos as int), rl as nat) =~= Seq::<(u64, Seq<u8>)>::empty());
    assert(records_view(out@) + Seq::<(u64, Seq<u8>)>::empty() =~= records_view(out@));
    out
}

/// Replays a whole WAL file: checks the header against `dim`, then returns
/// every complete record.
pub fn replay_bytes(file: &[u8], dim: usize) -> (r: Result<Vec<WalRecord>, WalFormatError>)
    requires
        dim <= (usize::MAX - 8) / 4,
    ensures
        match (r, replay_spec(file@, dim)) {
            (Ok(v), Ok(s)) => records_view(v@) == s,
            (Err(e), Err(s)) => e == s,
            _ => false,
        },
{
    let file_dim = decode_header(file)?;
    if file_dim != dim {
        return Err(WalFormatError::DimensionMismatch { file_dim, requested: dim });
    }
    let body = slice_subrange(file, HEADER_LEN, file.len());
    assert(body@ =~= file@.skip(HEADER_LEN as int));
    Ok(decode_records(body, dim))
}

/// Every record has a payload of `4 * dim` bytes.
pub open spec fn payloads_fit(records: Seq<(u64, Seq<u8>)>, dim: nat) -> bool {
    forall|i: int| 0 <= i < records.len() ==> #[trigger] records[i].1.len() == 4 * dim
}

proof fn lemma_decode_records_bytes(records: Seq<(u64, Seq<u8>)>, tail: Seq<u8>, dim: nat)
    requires
        payloads_fit(records, dim),
        tail.len() < record_len(dim),
    ensures
        decode_records_spec(records_bytes(records) + tail, record_len(dim)) == records,
    decreases records.len(),
{
    let rl = record_len(dim);
    if records.len() == 0 {
        assert(records_bytes(records) + tail =~= tail);
        assert(decode_records_spec(tail, rl) =~= records);
    } else {
        lemma_auto_spec_u64_to_from_le_bytes();
        let rest = records.drop_first();
        assert(payloads_fit(rest, dim)) by {
            assert forall|i: int| 0 <= i < rest.len() implies #[trigger] rest[i].1.len() == 4 * dim by {
                assert(rest[i] == records[i + 1]);
            }
        }
        lemma_decode_records_bytes(rest, tail, dim);
        let id = records[0].0;
        let p = records[0].1;
        assert(p.len() == 4 * dim);
        let head = spec_u64_to_le_bytes(id);
        let body = records_bytes(records) + tail;
        assert(body =~= head + p + (records_bytes(rest) + tail));
        assert(body.take(8) =~= head);
        assert(body.subrange(8, rl as int) =~= p);
        assert(body.skip(rl as int) =~= records_bytes(rest) + tail);
        assert(decode_records_spec(body, rl) =~= seq![(id, p)] + rest);
        assert(seq![(id, p)] + rest =~= records);
    }
}

/// Replay gives back exactly the records that were appended after the
/// header, in order, whatever partial record a crash left at the end.
pub proof fn lemma_replay_returns_appended_records(
    dim: usize,
    records: Seq<(u64, Seq<u8>)>,
    tail: Seq<u8>,
)
    requires
        dim <= u32::MAX,
        payloads_fit(records, dim as nat),
        tail.len() < record_len(dim as nat),
    ensures
        replay_spec(header_bytes(dim) + records_bytes(records) + tail, dim) == Ok::<
            Seq<(u64, Seq<u8>)>,
            WalFormatError,
        >(records),
{
    lemma_auto_spec_u32_to_from_le_bytes();
    let file = header_bytes(dim) + records_bytes(records) + tail;
    assert(file.take(6) =~= wal_magic());
    assert(file.subrange(6, 10) =~= spec_u32_to_le_bytes(dim as u32));
    assert((dim as u32) as usize == dim);
    assert(file.skip(HEADER_LEN as int) =~= records_bytes(records) + tail);
    lemma_decode_records_bytes(records, tail, dim as nat);
}

/// A WAL cut back to its header (after a rotation) replays to no records.
pub proof fn lemma_rotated_wal_is_empty(dim: usize)
    requires
        dim <= u32::MAX,
    ensures
        replay_spec(header_bytes(dim), dim) == Ok::<Seq<(u64, Seq<u8>)>, WalFormatError>(
            Seq::empty(),
        ),
{
    let empty = Seq::<(u64, Seq<u8>)>::empty();
    assert(records_bytes(empty) =~= Seq::<u8>::empty());
    assert(header_bytes(dim) + records_bytes(empty) + Seq::<u8>::empty() =~= header_bytes(dim));
    lemma_replay_returns_appended_records(dim, empty, Seq::empty());
}

/// Name of the file a detached WAL is renamed to: `{stem}-sealed-{nanos}.bin`,
/// so `wal-0.bin` becomes `wal-0-sealed-{nanos}.bin` and shards stay apart.
pub fn sealed_file_name(stem: &str, nanos: u128) -> (name: String)
    ensures
        name@ == stem@ + "-sealed-"@ + decimal(nanos as nat) + ".bin"@,
{
    let mut name = String::new();
    push_str(&mut name, stem);
    push_str(&mut name, "-sealed-");
    push_decimal(&mut name, nanos);
    push_str(&mut name, ".bin");
    name
}

/// Whether a file name is a sealed WAL left over by a crash for the shard
/// whose sealed names start with `prefix` (for example `"wal-0-sealed-"`).
pub fn is_sealed_leftover(name: &str, prefix: &str) -> (r: bool)
    ensures
        r == (prefix@.is_prefix_of(name@) && ".bin"@.is_suffix_of(name@)),
{
    starts_with(name, prefix) && ends_with(name, ".bin")
}

} // verus!
