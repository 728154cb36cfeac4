//! The container codec.
//!
//! The session layer stores archives in a simple native container: a six
//! byte prelude naming the container and filter in use, followed by one
//! record per member.  A record is the member's metadata — every length
//! or number little endian — followed by exactly `size` payload bytes:
//!
//! ```text
//! path len: u64 | path | type: u8 | perm: u16 | uname len: u64 | uname
//! | gname len: u64 | gname | hardlink len: u64 | hardlink
//! | atime s,ns | mtime s,ns | ctime s,ns | btime s,ns   (u64 + u32 each)
//! | size: u64 | payload
//! ```
//!
//! Encoding and decoding are specified as functions on byte sequences and
//! proved to invert each other, record by record and for whole archives.

use vstd::bytes::*;
use vstd::prelude::*;

use crate::entry::EntryData;
use crate::entry::EntryModel;
use crate::entry::EntryType;

verus! {

/// First prelude byte.
pub const MAGIC0: u8 = 0x76;

/// Second prelude byte.
pub const MAGIC1: u8 = 0x61;

/// Third prelude byte.
pub const MAGIC2: u8 = 0x72;

/// Fourth prelude byte.
pub const MAGIC3: u8 = 0x63;

/// Number of bytes of the archive prelude.
pub const PRELUDE_LEN: usize = 6;

/// Container code: the tar-family container.
pub const CONTAINER_TAR: u8 = 1;

/// Container code: the zip container.
pub const CONTAINER_ZIP: u8 = 2;

/// Filter code: no compression filter.
pub const FILTER_NONE: u8 = 0;

/// Filter code: the gzip filter.
pub const FILTER_GZIP: u8 = 1;

/// Filter code: the xz filter.
pub const FILTER_XZ: u8 = 2;

/// The code a file type is stored as.
pub open spec fn spec_entry_type_code(t: EntryType) -> u8 {
    match t {
        EntryType::File => 0,
        EntryType::Dir => 1,
        EntryType::Block => 2,
        EntryType::Link => 3,
        EntryType::Fifo => 4,
        EntryType::Character => 5,
        EntryType::Socket => 6,
        EntryType::Mt => 7,
        EntryType::Undefined => 8,
    }
}

/// The file type a stored code denotes; unknown codes are undefined.
pub open spec fn spec_entry_type_from_code(c: u8) -> EntryType {
    if c == 0 {
        EntryType::File
    } else if c == 1 {
        EntryType::Dir
    } else if c == 2 {
        EntryType::Block
    } else if c == 3 {
        EntryType::Link
    } else if c == 4 {
        EntryType::Fifo
    } else if c == 5 {
        EntryType::Character
    } else if c == 6 {
        EntryType::Socket
    } else if c == 7 {
        EntryType::Mt
    } else {
        EntryType::Undefined
    }
}

/// Maps a file type to its stored code.
pub fn entry_type_code(t: EntryType) -> (c: u8)
    ensures
        c == spec_entry_type_code(t),
{
    match t {
        EntryType::File => 0,
        EntryType::Dir => 1,
        EntryType::Block => 2,
        EntryType::Link => 3,
        EntryType::Fifo => 4,
        EntryType::Character => 5,
        EntryType::Socket => 6,
        EntryType::Mt => 7,
        EntryType::Undefined => 8,
    }
}

/// Maps a stored code back to the file type.
pub fn entry_type_from_code(c: u8) -> (t: EntryType)
    ensures
        t == spec_entry_type_from_code(c),
{
    if c == 0 {
        EntryType::File
    } else if c == 1 {
        EntryType::Dir
    } else if c == 2 {
        EntryType::Block
    } else if c == 3 {
        EntryType::Link
    } else if c == 4 {
        EntryType::Fifo
    } else if c == 5 {
        EntryType::Character
    } else if c == 6 {
        EntryType::Socket
    } else if c == 7 {
        EntryType::Mt
    } else {
        EntryType::Undefined
    }
}

/// The archive prelude for a chosen container and filter.
pub open spec fn spec_prelude(container: u8, filter: u8) -> Seq<u8> {
    seq![MAGIC0, MAGIC1, MAGIC2, MAGIC3, container, filter]
}

/// A byte string as stored: its length, then its bytes.
pub open spec fn spec_encode_bytes(b: Seq<u8>) -> Seq<u8> {
    spec_u64_to_le_bytes(b.len() as u64) + b
}

/// A metadata model fits the container: every byte string is short
/// enough for its length field.
pub open spec fn model_fits(m: EntryModel) -> bool {
    &&& m.path.len() <= u64::MAX
    &&& m.uname.len() <= u64::MAX
    &&& m.gname.len() <= u64::MAX
    &&& m.hardlink.len() <= u64::MAX
}

/// The header of one record: everything up to and including the size
/// field; the payload follows it byte for byte.
pub open spec fn spec_header(m: EntryModel) -> Seq<u8> {
    spec_encode_bytes(m.path) + seq![spec_entry_type_code(m.etype)] + spec_u16_to_le_bytes(m.perm)
        + spec_encode_bytes(m.uname) + spec_encode_bytes(m.gname) + spec_encode_bytes(m.hardlink)
        + spec_u64_to_le_bytes(m.atime_s) + spec_u32_to_le_bytes(m.atime_ns)
        + spec_u64_to_le_bytes(m.mtime_s) + spec_u32_to_le_bytes(m.mtime_ns)
        + spec_u64_to_le_bytes(m.ctime_s) + spec_u32_to_le_bytes(m.ctime_ns)
        + spec_u64_to_le_bytes(m.btime_s) + spec_u32_to_le_bytes(m.btime_ns)
        + spec_u64_to_le_bytes(m.size)
}

/// One whole record: header, then the payload the size field declares.
pub open spec fn spec_record(m: EntryModel, payload: Seq<u8>) -> Seq<u8>
    recommends
        m.size == payload.len(),
{
    spec_header(m) + payload
}

/// A whole archive body: the records one after the other.
pub open spec fn spec_records(rs: Seq<(EntryModel, Seq<u8>)>) -> Seq<u8>
    decreases rs.len(),
{
    if rs.len() == 0 {
        Seq::empty()
    } else {
        spec_record(rs[0].0, rs[0].1) + spec_records(rs.skip(1))
    }
}

/// Record encodings concatenate.
pub proof fn lemma_records_concat(a: Seq<(EntryModel, Seq<u8>)>, b: Seq<(EntryModel, Seq<u8>)>)
    ensures
        spec_records(a + b) == spec_records(a) + spec_records(b),
    decreases a.len(),
{
    if a.len() == 0 {
        assert(a + b =~= b);
        assert(spec_records(a) + spec_records(b) =~= spec_records(b));
    } else {
        assert((a + b).skip(1) =~= a.skip(1) + b);
        assert((a + b)[0] == a[0]);
        lemma_records_concat(a.skip(1), b);
        assert(spec_records(a + b) =~= spec_records(a) + spec_records(b));
    }
}

// ---------------------------------------------------------------------
// The specification-level decoder.
// ---------------------------------------------------------------------

/// Reads a length-prefixed byte string off the front of `s`: the string
/// and what follows it.  `None` when `s` is still too short.
pub open spec fn spec_take_bytes(s: Seq<u8>) -> Option<(Seq<u8>, Seq<u8>)> {
    if s.len() < 8 {
        Option::None
    } else {
        let n = spec_u64_from_le_bytes(s.subrange(0, 8)) as int;
        if s.len() < 8 + n {
            Option::None
        } else {
            Option::Some((s.subrange(8, 8 + n), s.skip(8 + n)))
        }
    }
}

/// Reads a `u64` off the front of `s`.
pub open spec fn spec_take_u64(s: Seq<u8>) -> Option<(u64, Seq<u8>)> {
    if s.len() < 8 {
        Option::None
    } else {
        Option::Some((spec_u64_from_le_bytes(s.subrange(0, 8)), s.skip(8)))
    }
}

/// Reads a `u32` off the front of `s`.
pub open spec fn spec_take_u32(s: Seq<u8>) -> Option<(u32, Seq<u8>)> {
    if s.len() < 4 {
        Option::None
    } else {
        Option::Some((spec_u32_from_le_bytes(s.subrange(0, 4)), s.skip(4)))
    }
}

/// Reads the type code and the permission bits off the front of `s`.
pub open spec fn spec_take_type_perm(s: Seq<u8>) -> Option<(EntryType, u16, Seq<u8>)> {
    if s.len() < 3 {
        Option::None
    } else {
        Option::Some(
            (
                spec_entry_type_from_code(s[0]),
                spec_u16_from_le_bytes(s.subrange(1, 3)),
                s.skip(3),
            ),
        )
    }
}

/// Reads one timestamp — seconds and nanoseconds — off the front of `s`.
pub open spec fn spec_take_time(s: Seq<u8>) -> Option<(u64, u32, Seq<u8>)> {
    match spec_take_u64(s) {
        Option::None => Option::None,
        Option::Some((secs, s1)) => match spec_take_u32(s1) {
            Option::None => Option::None,
            Option::Some((nanos, s2)) => Option::Some((secs, nanos, s2)),
        },
    }
}

/// What decoding the front of a byte sequence yields.
pub enum RecordStep {
    /// A whole record: its metadata, its payload, and how many bytes of
    /// the input the record occupied.
    Done(EntryModel, Seq<u8>, int),
    /// The input holds no whole record yet; more bytes may complete it.
    Incomplete,
}

/// Decodes the first record off the front of `s`.
pub open spec fn spec_decode_record(s: Seq<u8>) -> RecordStep {
    match spec_take_bytes(s) {
        Option::None => RecordStep::Incomplete,
        Option::Some((path, s1)) => match spec_take_type_perm(s1) {
            Option::None => RecordStep::Incomplete,
            Option::Some((etype, perm, s2)) => match spec_take_bytes(s2) {
                Option::None => RecordStep::Incomplete,
                Option::Some((uname, s3)) => match spec_take_bytes(s3) {
                    Option::None => RecordStep::Incomplete,
                    Option::Some((gname, s4)) => match spec_take_bytes(s4) {
                        Option::None => RecordStep::Incomplete,
                        Option::Some((hardlink, s5)) => match spec_take_time(s5) {
                            Option::None => RecordStep::Incomplete,
                            Option::Some((atime_s, atime_ns, s6)) => match spec_take_time(s6) {
                                Option::None => RecordStep::Incomplete,
                                Option::Some((mtime_s, mtime_ns, s7)) => match spec_take_time(s7) {
                                    Option::None => RecordStep::Incomplete,
                                    Option::Some((ctime_s, ctime_ns, s8)) => match spec_take_time(
                                        s8,
                                    ) {
                                        Option::None => RecordStep::Incomplete,
                                        Option::Some((btime_s, btime_ns, s9)) => match spec_take_u64(
                                            s9,
                                        ) {
                                            Option::None => RecordStep::Incomplete,
                                            Option::Some((size, s10)) => {
                                                if s10.len() < size {
                                                    RecordStep::Incomplete
                                                } else {
                                                    RecordStep::Done(
                                                        EntryModel {
                                                            path,
                                                            etype,
                                                            perm,
                                                            size,
                                                            uname,
                                                            gname,
                                                            hardlink,
                                                            atime_s,
                                                            atime_ns,
                                                            mtime_s,
                                                            mtime_ns,
                                                            ctime_s,
                                                            ctime_ns,
                                                            btime_s,
                                                            btime_ns,
                                                        },
                                                        s10.take(size as int),
                                                        s.len() - s10.len() + size,
                                                    )
                                                }
                                            },
                                        },
                                    },
                                },
                            },
                        },
                    },
                },
            },
        },
    }
}

/// Decodes a whole archive body: every record, in order.  `None` when
/// the body is truncated mid-record.
pub open spec fn spec_decode_records(s: Seq<u8>) -> Option<Seq<(EntryModel, Seq<u8>)>>
    decreases s.len(),
{
    if s.len() == 0 {
        Option::Some(Seq::empty())
    } else {
        match spec_decode_record(s) {
            RecordStep::Incomplete => Option::None,
            RecordStep::Done(m, payload, used) => {
                if 0 < used <= s.len() {
                    match spec_decode_records(s.skip(used)) {
                        Option::None => Option::None,
                        Option::Some(rest) => Option::Some(
                            seq![(m, payload)].add(rest),
                        ),
                    }
                } else {
                    Option::None
                }
            },
        }
    }
}

// ---------------------------------------------------------------------
// Round-trip proofs: decoding inverts encoding.
// ---------------------------------------------------------------------

/// Sequence concatenation associates.
proof fn seq_assoc(a: Seq<u8>, b: Seq<u8>, c: Seq<u8>)
    ensures
        (a + b) + c == a + (b + c),
{
    assert((a + b) + c =~= a + (b + c));
}

// A record followed by trailing input, regrouped so that each field
// heads its own suffix.  The lemmas below peel the suffixes one field at
// a time.

spec fn t_size(m: EntryModel, payload: Seq<u8>, rest: Seq<u8>) -> Seq<u8> {
    spec_u64_to_le_bytes(m.size) + (payload + rest)
}

spec fn t_btime(m: EntryModel, payload: Seq<u8>, rest: Seq<u8>) -> Seq<u8> {
    spec_u64_to_le_bytes(m.btime_s) + (spec_u32_to_le_bytes(m.btime_ns) + t_size(m, payload, rest))
}

spec fn t_ctime(m: EntryModel, payload: Seq<u8>, rest: Seq<u8>) -> Seq<u8> {
    spec_u64_to_le_bytes(m.ctime_s) + (spec_u32_to_le_bytes(m.ctime_ns) + t_btime(m, payload, rest))
}

spec fn t_mtime(m: EntryModel, payload: Seq<u8>, rest: Seq<u8>) -> Seq<u8> {
    spec_u64_to_le_bytes(m.mtime_s) + (spec_u32_to_le_bytes(m.mtime_ns) + t_ctime(m, payload, rest))
}

spec fn t_atime(m: EntryModel, payload: Seq<u8>, rest: Seq<u8>) -> Seq<u8> {
    spec_u64_to_le_bytes(m.atime_s) + (spec_u32_to_le_bytes(m.atime_ns) + t_mtime(m, payload, rest))
}

spec fn t_hardlink(m: EntryModel, payload: Seq<u8>, rest: Seq<u8>) -> Seq<u8> {
    spec_encode_bytes(m.hardlink) + t_atime(m, payload, rest)
}

spec fn t_gname(m: EntryModel, payload: Seq<u8>, rest: Seq<u8>) -> Seq<u8> {
    spec_encode_bytes(m.gname) + t_hardlink(m, payload, rest)
}

spec fn t_uname(m: EntryModel, payload: Seq<u8>, rest: Seq<u8>) -> Seq<u8> {
    spec_encode_bytes(m.uname) + t_gname(m, payload, rest)
}

spec fn t_meta(m: EntryModel, payload: Seq<u8>, rest: Seq<u8>) -> Seq<u8> {
    seq![spec_entry_type_code(m.etype)] + (spec_u16_to_le_bytes(m.perm) + t_uname(
        m,
        payload,
        rest,
    ))
}

spec fn t_full(m: EntryModel, payload: Seq<u8>, rest: Seq<u8>) -> Seq<u8> {
    spec_encode_bytes(m.path) + t_meta(m, payload, rest)
}

/// An encoded record with trailing input equals the same bytes regrouped
/// field by field.
proof fn lemma_record_flatten(m: EntryModel, payload: Seq<u8>, rest: Seq<u8>)
    ensures
        spec_record(m, payload) + rest == t_full(m, payload, rest),
{
    let a = spec_encode_bytes(m.path);
    let b = seq![spec_entry_type_code(m.etype)];
    let c = spec_u16_to_le_bytes(m.perm);
    let d = spec_encode_bytes(m.uname);
    let e = spec_encode_bytes(m.gname);
    let f = spec_encode_bytes(m.hardlink);
    let g1 = spec_u64_to_le_bytes(m.atime_s);
    let g2 = spec_u32_to_le_bytes(m.atime_ns);
    let h1 = spec_u64_to_le_bytes(m.mtime_s);
    let h2 = spec_u32_to_le_bytes(m.mtime_ns);
    let i1 = spec_u64_to_le_bytes(m.ctime_s);
    let i2 = spec_u32_to_le_bytes(m.ctime_ns);
    let j1 = spec_u64_to_le_bytes(m.btime_s);
    let j2 = spec_u32_to_le_bytes(m.btime_ns);
    let k = spec_u64_to_le_bytes(m.size);
    let p01 = a + b;
    let p02 = p01 + c;
    let p03 = p02 + d;
    let p04 = p03 + e;
    let p05 = p04 + f;
    let p06 = p05 + g1;
    let p07 = p06 + g2;
    let p08 = p07 + h1;
    let p09 = p08 + h2;
    let p10 = p09 + i1;
    let p11 = p10 + i2;
    let p12 = p11 + j1;
    let p13 = p12 + j2;
    let header = p13 + k;
    assert(spec_header(m) == header);
    seq_assoc(header, payload, rest);
    seq_assoc(p13, k, payload + rest);
    assert(spec_record(m, payload) + rest == p13 + t_size(m, payload, rest));
    seq_assoc(p12, j2, t_size(m, payload, rest));
    seq_assoc(p11, j1, j2 + t_size(m, payload, rest));
    assert(spec_record(m, payload) + rest == p11 + t_btime(m, payload, rest));
    seq_assoc(p10, i2, t_btime(m, payload, rest));
    seq_assoc(p09, i1, i2 + t_btime(m, payload, rest));
    assert(spec_record(m, payload) + rest == p09 + t_ctime(m, payload, rest));
    seq_assoc(p08, h2, t_ctime(m, payload, rest));
    seq_assoc(p07, h1, h2 + t_ctime(m, payload, rest));
    assert(spec_record(m, payload) + rest == p07 + t_mtime(m, payload, rest));
    seq_assoc(p06, g2, t_mtime(m, payload, rest));
    seq_assoc(p05, g1, g2 + t_mtime(m, payload, rest));
    assert(spec_record(m, payload) + rest == p05 + t_atime(m, payload, rest));
    seq_assoc(p04, f, t_atime(m, payload, rest));
    assert(spec_record(m, payload) + rest == p04 + t_hardlink(m, payload, rest));
    seq_assoc(p03, e, t_hardlink(m, payload, rest));
    assert(spec_record(m, payload) + rest == p03 + t_gname(m, payload, rest));
    seq_assoc(p02, d, t_gname(m, payload, rest));
    assert(spec_record(m, payload) + rest == p02 + t_uname(m, payload, rest));
    seq_assoc(p01, c, t_uname(m, payload, rest));
    seq_assoc(a, b, c + t_uname(m, payload, rest));
    assert(spec_record(m, payload) + rest == t_full(m, payload, rest));
}

/// Reading a length-prefixed byte string back off an encoding yields the
/// string and leaves exactly the tail.
proof fn lemma_take_bytes(b: Seq<u8>, tail: Seq<u8>)
    requires
        b.len() <= u64::MAX,
    ensures
        spec_take_bytes(spec_encode_bytes(b) + tail) == Option::Some((b, tail)),
        (spec_encode_bytes(b) + tail).len() == 8 + b.len() + tail.len(),
{
    lemma_auto_spec_u64_to_from_le_bytes();
    let s = spec_encode_bytes(b) + tail;
    let n = b.len() as u64;
    assert(s.subrange(0, 8) =~= spec_u64_to_le_bytes(n));
    assert(s.subrange(8, 8 + n as int) =~= b);
    assert(s.skip(8 + n as int) =~= tail);
}

/// Reading a `u64` back off its encoding leaves exactly the tail.
proof fn lemma_take_u64(x: u64, tail: Seq<u8>)
    ensures
        spec_take_u64(spec_u64_to_le_bytes(x) + tail) == Option::Some((x, tail)),
{
    lemma_auto_spec_u64_to_from_le_bytes();
    let s = spec_u64_to_le_bytes(x) + tail;
    assert(s.subrange(0, 8) =~= spec_u64_to_le_bytes(x));
    assert(s.skip(8) =~= tail);
}

/// Reading a `u32` back off its encoding leaves exactly the tail.
proof fn lemma_take_u32(x: u32, tail: Seq<u8>)
    ensures
        spec_take_u32(spec_u32_to_le_bytes(x) + tail) == Option::Some((x, tail)),
{
    lemma_auto_spec_u32_to_from_le_bytes();
    let s = spec_u32_to_le_bytes(x) + tail;
    assert(s.subrange(0, 4) =~= spec_u32_to_le_bytes(x));
    assert(s.skip(4) =~= tail);
}

/// Reading the type code and permission bits back leaves exactly the
/// tail.
proof fn lemma_take_type_perm(t: EntryType, perm: u16, tail: Seq<u8>)
    ensures
        spec_take_type_perm(
            seq![spec_entry_type_code(t)] + (spec_u16_to_le_bytes(perm) + tail),
        ) == Option::Some((t, perm, tail)),
{
    lemma_auto_spec_u16_to_from_le_bytes();
    let s = seq![spec_entry_type_code(t)] + (spec_u16_to_le_bytes(perm) + tail);
    assert(s[0] == spec_entry_type_code(t));
    assert(s.subrange(1, 3) =~= spec_u16_to_le_bytes(perm));
    assert(s.skip(3) =~= tail);
}

/// Reading a timestamp back off its encoding leaves exactly the tail.
proof fn lemma_take_time(secs: u64, nanos: u32, tail: Seq<u8>)
    ensures
        spec_take_time(
            spec_u64_to_le_bytes(secs) + (spec_u32_to_le_bytes(nanos) + tail),
        ) == Option::Some((secs, nanos, tail)),
{
    lemma_take_u64(secs, spec_u32_to_le_bytes(nanos) + tail);
    lemma_take_u32(nanos, tail);
}

/// Decoding the front of an encoded record yields exactly the metadata
/// and payload that were encoded, and consumes exactly the record.
#[verifier::spinoff_prover]
#[verifier::rlimit(60)]
pub proof fn lemma_record_round_trip(m: EntryModel, payload: Seq<u8>, rest: Seq<u8>)
    requires
        model_fits(m),
        m.size == payload.len(),
    ensures
        spec_decode_record(spec_record(m, payload) + rest) == RecordStep::Done(
            m,
            payload,
            spec_record(m, payload).len() as int,
        ),
        spec_record(m, payload).len() >= 8,
{
    lemma_record_flatten(m, payload, rest);
    let s = spec_record(m, payload) + rest;
    lemma_take_bytes(m.path, t_meta(m, payload, rest));
    lemma_take_type_perm(m.etype, m.perm, t_uname(m, payload, rest));
    lemma_take_bytes(m.uname, t_gname(m, payload, rest));
    lemma_take_bytes(m.gname, t_hardlink(m, payload, rest));
    lemma_take_bytes(m.hardlink, t_atime(m, payload, rest));
    lemma_take_time(m.atime_s, m.atime_ns, t_mtime(m, payload, rest));
    lemma_take_time(m.mtime_s, m.mtime_ns, t_ctime(m, payload, rest));
    lemma_take_time(m.ctime_s, m.ctime_ns, t_btime(m, payload, rest));
    lemma_take_time(m.btime_s, m.btime_ns, t_size(m, payload, rest));
    lemma_take_u64(m.size, payload + rest);
    let r10 = payload + rest;
    assert(r10.take(m.size as int) =~= payload);
    match spec_decode_record(s) {
        RecordStep::Done(m2, p2, used) => {
            assert(m2 == m);
            assert(p2 == payload);
            assert(used == s.len() - r10.len() + m.size);
            assert(s.len() == spec_record(m, payload).len() + rest.len());
            assert(used == spec_record(m, payload).len());
        },
        RecordStep::Incomplete => {
            assert(false);
        },
    }
    assert(spec_record(m, payload).len() >= 8) by {
        lemma_record_flatten(m, payload, Seq::empty());
        assert(spec_record(m, payload) + Seq::<u8>::empty() =~= spec_record(m, payload));
        lemma_auto_spec_u64_to_from_le_bytes();
    }
}

/// Decoding a whole encoded archive body yields exactly the records that
/// were encoded, in order.
pub proof fn lemma_records_round_trip(rs: Seq<(EntryModel, Seq<u8>)>)
    requires
        forall|i: int|
            0 <= i < rs.len() ==> #[trigger] model_fits(rs[i].0) && rs[i].0.size == rs[i].1.len(),
    ensures
        spec_decode_records(spec_records(rs)) == Option::Some(rs),
    decreases rs.len(),
{
    if rs.len() == 0 {
        assert(spec_records(rs) =~= Seq::<u8>::empty());
        assert(rs =~= Seq::<(EntryModel, Seq<u8>)>::empty());
    } else {
        let m = rs[0].0;
        let payload = rs[0].1;
        assert(model_fits(rs[0].0));
        let tail = spec_records(rs.skip(1));
        let s = spec_records(rs);
        assert(s == spec_record(m, payload) + tail);
        lemma_record_round_trip(m, payload, tail);
        let used = spec_record(m, payload).len() as int;
        assert(s.skip(used) =~= tail);
        lemma_records_round_trip(rs.skip(1));
        assert(seq![(m, payload)].add(rs.skip(1)) =~= rs);
    }
}

// ---------------------------------------------------------------------
// Prefix stability: a decoded record only depends on the bytes it
// consumed, so later input cannot change it.
// ---------------------------------------------------------------------

/// Whatever a record decode consumed stays decoded the same way when
/// more input arrives.
pub proof fn lemma_decode_record_extend(s: Seq<u8>, ext: Seq<u8>)
    requires
        spec_decode_record(s) is Done,
    ensures
        spec_decode_record(s + ext) == match spec_decode_record(s) {
            RecordStep::Done(m, p, used) => RecordStep::Done(m, p, used),
            RecordStep::Incomplete => RecordStep::Incomplete,
        },
{
    lemma_take_bytes_extend(s, ext);
    let (path, s1) = spec_take_bytes(s).unwrap();
    lemma_take_type_perm_extend(s1, ext);
    let (etype, perm, s2) = spec_take_type_perm(s1).unwrap();
    lemma_take_bytes_extend(s2, ext);
    let (uname, s3) = spec_take_bytes(s2).unwrap();
    lemma_take_bytes_extend(s3, ext);
    let (gname, s4) = spec_take_bytes(s3).unwrap();
    lemma_take_bytes_extend(s4, ext);
    let (hardlink, s5) = spec_take_bytes(s4).unwrap();
    lemma_take_time_extend(s5, ext);
    let (atime_s, atime_ns, s6) = spec_take_time(s5).unwrap();
    lemma_take_time_extend(s6, ext);
    let (mtime_s, mtime_ns, s7) = spec_take_time(s6).unwrap();
    lemma_take_time_extend(s7, ext);
    let (ctime_s, ctime_ns, s8) = spec_take_time(s7).unwrap();
    lemma_take_time_extend(s8, ext);
    let (btime_s, btime_ns, s9) = spec_take_time(s8).unwrap();
    lemma_take_u64_extend(s9, ext);
    let (size, s10) = spec_take_u64(s9).unwrap();
    assert((s10 + ext).take(size as int) =~= s10.take(size as int));
}

proof fn lemma_take_bytes_extend(s: Seq<u8>, ext: Seq<u8>)
    requires
        spec_take_bytes(s) is Some,
    ensures
        spec_take_bytes(s + ext) == match spec_take_bytes(s) {
            Option::Some((b, t)) => Option::Some((b, t + ext)),
            Option::None => Option::None,
        },
{
    assert((s + ext).subrange(0, 8) =~= s.subrange(0, 8));
    let n = spec_u64_from_le_bytes(s.subrange(0, 8)) as int;
    assert((s + ext).subrange(8, 8 + n) =~= s.subrange(8, 8 + n));
    assert((s + ext).skip(8 + n) =~= s.skip(8 + n) + ext);
}

proof fn lemma_take_u64_extend(s: Seq<u8>, ext: Seq<u8>)
    requires
        spec_take_u64(s) is Some,
    ensures
        spec_take_u64(s + ext) == match spec_take_u64(s) {
            Option::Some((x, t)) => Option::Some((x, t + ext)),
            Option::None => Option::None,
        },
{
    assert((s + ext).subrange(0, 8) =~= s.subrange(0, 8));
    assert((s + ext).skip(8) =~= s.skip(8) + ext);
}

proof fn lemma_take_u32_extend(s: Seq<u8>, ext: Seq<u8>)
    requires
        spec_take_u32(s) is Some,
    ensures
        spec_take_u32(s + ext) == match spec_take_u32(s) {
            Option::Some((x, t)) => Option::Some((x, t + ext)),
            Option::None => Option::None,
        },
{
    assert((s + ext).subrange(0, 4) =~= s.subrange(0, 4));
    assert((s + ext).skip(4) =~= s.skip(4) + ext);
}

proof fn lemma_take_type_perm_extend(s: Seq<u8>, ext: Seq<u8>)
    requires
        spec_take_type_perm(s) is Some,
    ensures
        spec_take_type_perm(s + ext) == match spec_take_type_perm(s) {
            Option::Some((t, p, tail)) => Option::Some((t, p, tail + ext)),
            Option::None => Option::None,
        },
{
    assert((s + ext)[0] == s[0]);
    assert((s + ext).subrange(1, 3) =~= s.subrange(1, 3));
    assert((s + ext).skip(3) =~= s.skip(3) + ext);
}

proof fn lemma_take_time_extend(s: Seq<u8>, ext: Seq<u8>)
    requires
        spec_take_time(s) is Some,
    ensures
        spec_take_time(s + ext) == match spec_take_time(s) {
            Option::Some((secs, nanos, tail)) => Option::Some((secs, nanos, tail + ext)),
            Option::None => Option::None,
        },
{
    lemma_take_u64_extend(s, ext);
    let (secs, s1) = spec_take_u64(s).unwrap();
    lemma_take_u32_extend(s1, ext);
}

// ---------------------------------------------------------------------
// The executable encoder.
// ---------------------------------------------------------------------

/// Appends a byte string to `out`.
pub fn push_bytes(out: &mut Vec<u8>, b: &Vec<u8>)
    ensures
        final(out)@ == old(out)@ + b@,
{
    let mut i: usize = 0;
    while i < b.len()
        invariant
            i <= b.len(),
            out@ == old(out)@ + b@.subrange(0, i as int),
        decreases b.len() - i,
    {
        out.push(b[i]);
        i = i + 1;
        proof {
            assert(out@ =~= old(out)@ + b@.subrange(0, i as int));
        }
    }
    proof {
        assert(out@ =~= old(out)@ + b@);
    }
}

/// Appends a `u64`, little endian.
fn push_u64(out: &mut Vec<u8>, x: u64)
    ensures
        final(out)@ == old(out)@ + spec_u64_to_le_bytes(x),
{
    let b = u64_to_le_bytes(x);
    push_bytes(out, &b);
}

/// Appends a `u32`, little endian.
fn push_u32(out: &mut Vec<u8>, x: u32)
    ensures
        final(out)@ == old(out)@ + spec_u32_to_le_bytes(x),
{
    let b = u32_to_le_bytes(x);
    push_bytes(out, &b);
}

/// Appends a `u16`, little endian.
fn push_u16(out: &mut Vec<u8>, x: u16)
    ensures
        final(out)@ == old(out)@ + spec_u16_to_le_bytes(x),
{
    let b = u16_to_le_bytes(x);
    push_bytes(out, &b);
}

/// Appends a byte string with its length field.
fn push_len_bytes(out: &mut Vec<u8>, b: &Vec<u8>)
    ensures
        final(out)@ == old(out)@ + spec_encode_bytes(b@),
{
    push_u64(out, b.len() as u64);
    push_bytes(out, b);
    proof {
        assert(out@ =~= old(out)@ + spec_encode_bytes(b@));
    }
}

/// Appends the archive prelude for a chosen container and filter.
pub fn encode_prelude(container: u8, filter: u8, out: &mut Vec<u8>)
    ensures
        final(out)@ == old(out)@ + spec_prelude(container, filter),
{
    out.push(MAGIC0);
    out.push(MAGIC1);
    out.push(MAGIC2);
    out.push(MAGIC3);
    out.push(container);
    out.push(filter);
    proof {
        assert(out@ =~= old(out)@ + spec_prelude(container, filter));
    }
}

/// Appends the header of one record: everything up to the payload.
#[verifier::spinoff_prover]
#[verifier::rlimit(60)]
pub fn encode_header(e: &EntryData, out: &mut Vec<u8>)
    ensures
        final(out)@ == old(out)@ + spec_header(e@),
{
    push_len_bytes(out, &e.path);
    let code = entry_type_code(e.etype);
    out.push(code);
    proof {
        assert(out@ =~= old(out)@ + spec_encode_bytes(e.path@) + seq![
            spec_entry_type_code(e@.etype),
        ]);
    }
    push_u16(out, e.perm);
    push_len_bytes(out, &e.uname);
    push_len_bytes(out, &e.gname);
    push_len_bytes(out, &e.hardlink);
    push_u64(out, e.atime_s);
    push_u32(out, e.atime_ns);
    push_u64(out, e.mtime_s);
    push_u32(out, e.mtime_ns);
    push_u64(out, e.ctime_s);
    push_u32(out, e.ctime_ns);
    push_u64(out, e.btime_s);
    push_u32(out, e.btime_ns);
    push_u64(out, e.size);
    proof {
        assert(out@ =~= old(out)@ + spec_header(e@));
    }
}

// ---------------------------------------------------------------------
// The executable decoder.
// ---------------------------------------------------------------------

/// Reads a `u64` at offset `at`; `None` when fewer than eight bytes
/// remain.
fn take_num_u64(v: &Vec<u8>, at: usize) -> (r: Option<(u64, usize)>)
    requires
        at <= v@.len(),
    ensures
        match r {
            Option::None => spec_take_u64(v@.skip(at as int)) is None,
            Option::Some((x, at2)) => {
                &&& at2 == at + 8
                &&& at2 <= v@.len()
                &&& spec_take_u64(v@.skip(at as int)) == Option::Some((x, v@.skip(at2 as int)))
            },
        },
{
    if v.len() - at < 8 {
        return None;
    }
    let s = vstd::slice::slice_subrange(v.as_slice(), at, at + 8);
    let x = u64_from_le_bytes(s);
    proof {
        assert(v@.skip(at as int).subrange(0, 8) =~= v@.subrange(at as int, at + 8));
        assert(v@.skip(at as int).skip(8) =~= v@.skip(at + 8));
    }
    Some((x, at + 8))
}

/// Reads a `u32` at offset `at`; `None` when fewer than four bytes
/// remain.
fn take_num_u32(v: &Vec<u8>, at: usize) -> (r: Option<(u32, usize)>)
    requires
        at <= v@.len(),
    ensures
        match r {
            Option::None => spec_take_u32(v@.skip(at as int)) is None,
            Option::Some((x, at2)) => {
                &&& at2 == at + 4
                &&& at2 <= v@.len()
                &&& spec_take_u32(v@.skip(at as int)) == Option::Some((x, v@.skip(at2 as int)))
            },
        },
{
    if v.len() - at < 4 {
        return None;
    }
    let s = vstd::slice::slice_subrange(v.as_slice(), at, at + 4);
    let x = u32_from_le_bytes(s);
    proof {
        assert(v@.skip(at as int).subrange(0, 4) =~= v@.subrange(at as int, at + 4));
        assert(v@.skip(at as int).skip(4) =~= v@.skip(at + 4));
    }
    Some((x, at + 4))
}

/// Reads a length-prefixed byte string at offset `at`; `None` while the
/// input is still too short.
fn take_field(v: &Vec<u8>, at: usize) -> (r: Option<(Vec<u8>, usize)>)
    requires
        at <= v@.len(),
    ensures
        match r {
            Option::None => spec_take_bytes(v@.skip(at as int)) is None,
            Option::Some((b, at2)) => {
                &&& at <= at2 <= v@.len()
                &&& spec_take_bytes(v@.skip(at as int)) == Option::Some((b@, v@.skip(at2 as int)))
            },
        },
{
    match take_num_u64(v, at) {
        Option::None => None,
        Option::Some((n, at1)) => {
            if n > (v.len() - at1) as u64 {
                proof {
                    assert(v@.skip(at as int).len() < 8 + n);
                }
                None
            } else {
                let n2 = n as usize;
                let b = vstd::slice::slice_to_vec(
                    vstd::slice::slice_subrange(v.as_slice(), at1, at1 + n2),
                );
                proof {
                    assert(v@.skip(at as int).subrange(8, 8 + n as int) =~= v@.subrange(
                        at1 as int,
                        at1 + n as int,
                    ));
                    assert(v@.skip(at as int).skip(8 + n as int) =~= v@.skip(at1 + n as int));
                }
                Some((b, at1 + n2))
            }
        },
    }
}

/// Reads a timestamp at offset `at`.
fn take_stamp(v: &Vec<u8>, at: usize) -> (r: Option<(u64, u32, usize)>)
    requires
        at <= v@.len(),
    ensures
        match r {
            Option::None => spec_take_time(v@.skip(at as int)) is None,
            Option::Some((secs, nanos, at2)) => {
                &&& at <= at2 <= v@.len()
                &&& spec_take_time(v@.skip(at as int)) == Option::Some(
                    (secs, nanos, v@.skip(at2 as int)),
                )
            },
        },
{
    match take_num_u64(v, at) {
        Option::None => None,
        Option::Some((secs, at1)) => match take_num_u32(v, at1) {
            Option::None => None,
            Option::Some((nanos, at2)) => Some((secs, nanos, at2)),
        },
    }
}

/// Decodes the first record of `v`.  `None` means no whole record is
/// there yet; more input may complete one.
#[verifier::spinoff_prover]
#[verifier::rlimit(100)]
pub fn decode_record(v: &Vec<u8>) -> (r: Option<(EntryData, Vec<u8>, usize)>)
    ensures
        match r {
            Option::None => spec_decode_record(v@) is Incomplete,
            Option::Some((e, p, used)) => {
                &&& spec_decode_record(v@) == RecordStep::Done(e@, p@, used as int)
                &&& 0 < used <= v@.len()
                &&& e@.size == p@.len()
            },
        },
{
    proof {
        assert(v@.skip(0) =~= v@);
    }
    let step1 = take_field(v, 0);
    if step1.is_none() {
        return None;
    }
    let (path, at1) = step1.unwrap();
    if v.len() - at1 < 3 {
        proof {
            assert(v@.skip(at1 as int).len() < 3);
        }
        return None;
    }
    let code = v[at1];
    let perm = u16_from_le_bytes(vstd::slice::slice_subrange(v.as_slice(), at1 + 1, at1 + 3));
    let etype = entry_type_from_code(code);
    let at2 = at1 + 3;
    proof {
        assert(v@.skip(at1 as int)[0] == v@[at1 as int]);
        assert(v@.skip(at1 as int).subrange(1, 3) =~= v@.subrange(at1 + 1, at1 + 3));
        assert(v@.skip(at1 as int).skip(3) =~= v@.skip(at2 as int));
    }
    let step3 = take_field(v, at2);
    if step3.is_none() {
        return None;
    }
    let (uname, at3) = step3.unwrap();
    let step4 = take_field(v, at3);
    if step4.is_none() {
        return None;
    }
    let (gname, at4) = step4.unwrap();
    let step5 = take_field(v, at4);
    if step5.is_none() {
        return None;
    }
    let (hardlink, at5) = step5.unwrap();
    let step6 = take_stamp(v, at5);
    if step6.is_none() {
        return None;
    }
    let (atime_s, atime_ns, at6) = step6.unwrap();
    let step7 = take_stamp(v, at6);
    if step7.is_none() {
        return None;
    }
    let (mtime_s, mtime_ns, at7) = step7.unwrap();
    let step8 = take_stamp(v, at7);
    if step8.is_none() {
        return None;
    }
    let (ctime_s, ctime_ns, at8) = step8.unwrap();
    let step9 = take_stamp(v, at8);
    if step9.is_none() {
        return None;
    }
    let (btime_s, btime_ns, at9) = step9.unwrap();
    let step10 = take_num_u64(v, at9);
    if step10.is_none() {
        return None;
    }
    let (size, at10) = step10.unwrap();
    if size > (v.len() - at10) as u64 {
        proof {
            assert(v@.skip(at10 as int).len() < size);
        }
        return None;
    }
    let size2 = size as usize;
    let payload = vstd::slice::slice_to_vec(
        vstd::slice::slice_subrange(v.as_slice(), at10, at10 + size2),
    );
    let used = at10 + size2;
    let e = EntryData {
        path,
        etype,
        perm,
        size,
        uname,
        gname,
        hardlink,
        atime_s,
        atime_ns,
        mtime_s,
        mtime_ns,
        ctime_s,
        ctime_ns,
        btime_s,
        btime_ns,
    };
    proof {
        assert(v@.skip(at10 as int).take(size as int) =~= v@.subrange(at10 as int, at10 + size as int));
        assert(v@.skip(at10 as int).len() == v@.len() - at10);
    }
    Some((e, payload, used))
}

/// What checking the archive prelude yields.
pub enum PreludeStep {
    /// A valid prelude: the container code and the filter code.
    Done(u8, u8),
    /// Fewer than six bytes so far.
    Incomplete,
    /// Six bytes that are not a prelude of this container.
    Bad,
}

/// Checks the archive prelude at the front of `s`.
pub open spec fn spec_check_prelude(s: Seq<u8>) -> PreludeStep {
    if s.len() < PRELUDE_LEN {
        PreludeStep::Incomplete
    } else if s[0] == MAGIC0 && s[1] == MAGIC1 && s[2] == MAGIC2 && s[3] == MAGIC3 {
        PreludeStep::Done(s[4], s[5])
    } else {
        PreludeStep::Bad
    }
}

/// Checks the archive prelude at the front of `v`.
pub fn check_prelude(v: &Vec<u8>) -> (r: PreludeStep)
    ensures
        r == spec_check_prelude(v@),
{
    if v.len() < PRELUDE_LEN {
        PreludeStep::Incomplete
    } else if *vstd::slice::slice_index_get(v.as_slice(), 0) == MAGIC0 && v[1] == MAGIC1 && v[2]
        == MAGIC2 && v[3] == MAGIC3 {
        PreludeStep::Done(v[4], v[5])
    } else {
        PreludeStep::Bad
    }
}

/// A whole archive written by this crate reads back as itself: the
/// prelude checks out with the codes it was written with, and decoding
/// the body yields exactly the members that were encoded — paths,
/// permissions and payloads alike, in order.
pub proof fn lemma_archive_round_trip(container: u8, filter: u8, rs: Seq<(EntryModel, Seq<u8>)>)
    requires
        forall|i: int|
            0 <= i < rs.len() ==> #[trigger] model_fits(rs[i].0) && rs[i].0.size == rs[i].1.len(),
    ensures
        ({
            let s = spec_prelude(container, filter) + spec_records(rs);
            &&& spec_check_prelude(s) == PreludeStep::Done(container, filter)
            &&& spec_decode_records(s.skip(PRELUDE_LEN as int)) == Option::Some(rs)
        }),
{
    lemma_prelude_round_trip(container, filter, spec_records(rs));
    lemma_records_round_trip(rs);
}

/// A checked prelude stays checked the same way when more input
/// arrives.
pub proof fn lemma_check_prelude_extend(s: Seq<u8>, ext: Seq<u8>)
    requires
        !(spec_check_prelude(s) is Incomplete),
    ensures
        spec_check_prelude(s + ext) == spec_check_prelude(s),
{
    assert(s.len() >= PRELUDE_LEN);
    assert((s + ext)[0] == s[0]);
    assert((s + ext)[1] == s[1]);
    assert((s + ext)[2] == s[2]);
    assert((s + ext)[3] == s[3]);
    assert((s + ext)[4] == s[4]);
    assert((s + ext)[5] == s[5]);
}

/// The prelude always checks back to the codes it was written with.
pub proof fn lemma_prelude_round_trip(container: u8, filter: u8, rest: Seq<u8>)
    ensures
        spec_check_prelude(spec_prelude(container, filter) + rest) == PreludeStep::Done(
            container,
            filter,
        ),
        (spec_prelude(container, filter) + rest).skip(PRELUDE_LEN as int) == rest,
{
    let s = spec_prelude(container, filter) + rest;
    assert(s.skip(PRELUDE_LEN as int) =~= rest);
}

} // verus!
