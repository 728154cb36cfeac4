//! The write session.
//!
//! A [`Writer`] emits members into a target container through a byte
//! sink.  The container and filter are chosen before open and never
//! change afterwards.  Each member is a header, its payload — pushed in
//! bulk or streamed block by block with sparse holes zero-filled — and a
//! finish step that pads the payload out to the declared size; the
//! finish step runs on every exit path, early errors included.  A short
//! write inside a member's payload leaves it written partly; whether the
//! session survives an error follows the status taxonomy.

use vstd::prelude::*;

use crate::codec;
use crate::disk::DataBlock;
use crate::disk::FsEntry;
use crate::disk::FsModel;
use crate::disk::FsTree;
use crate::disk::path_under;
use crate::disk::spec_blocks;
use crate::disk::spec_selected;
use crate::disk::spec_tree;
use crate::entry::Entry;
use crate::entry::EntryData;
use crate::entry::EntryModel;
use crate::entry::ReaderEntry;
use crate::entry::clone_bytes;
use crate::handle::HandleCell;
use crate::resolver::LinkResolver;
use crate::resolver::LinkStrategy;
use crate::resolver::spec_resolve_run;
use crate::session::ArchiveHandle;
use crate::status::Error;
use crate::status::IOError;
use crate::stream::ByteSink;
use crate::stream::ByteSource;
use crate::stream::StreamError;

verus! {

/// The target shapes a writer can be configured for: a container format
/// together with its compression filter.
#[derive(Clone, Copy, Debug, PartialEq, Eq, Structural)]
pub enum Format {
    Tar,
    TarGz,
    TarXz,
    Zip,
}

/// The container and filter codes a format selects.
pub open spec fn spec_format_codes(format: Format) -> (u8, u8) {
    match format {
        Format::Tar => (codec::CONTAINER_TAR, codec::FILTER_NONE),
        Format::TarGz => (codec::CONTAINER_TAR, codec::FILTER_GZIP),
        Format::TarXz => (codec::CONTAINER_TAR, codec::FILTER_XZ),
        Format::Zip => (codec::CONTAINER_ZIP, codec::FILTER_NONE),
    }
}

/// Selects the filter and the container for a format, before the session
/// opens.
fn set_format(format: Format) -> (r: (u8, u8))
    ensures
        r == spec_format_codes(format),
{
    match format {
        Format::Tar => (codec::CONTAINER_TAR, codec::FILTER_NONE),
        Format::TarGz => (codec::CONTAINER_TAR, codec::FILTER_GZIP),
        Format::TarXz => (codec::CONTAINER_TAR, codec::FILTER_XZ),
        Format::Zip => (codec::CONTAINER_ZIP, codec::FILTER_NONE),
    }
}

/// A scoped-completion marker: an obligation — finishing the open entry —
/// that must be discharged on every exit path unless it is cancelled.
pub struct Finally {
    armed: bool,
}

impl Finally {
    /// Whether the obligation is still owed.
    pub closed spec fn is_armed(&self) -> bool {
        self.armed
    }

    /// Takes on the obligation.
    pub fn new() -> (r: Finally)
        ensures
            r.is_armed(),
    {
        Finally { armed: true }
    }

    /// Waives the obligation.
    pub fn cancel(&mut self)
        ensures
            !final(self).is_armed(),
    {
        self.armed = false;
    }

    /// Whether the obligation is still owed.
    pub fn armed(&self) -> (r: bool)
        ensures
            r == self.is_armed(),
    {
        self.armed
    }
}

/// Discharges a completion obligation on the way out of a member-writing
/// scope: finishes the open member, unless the obligation was waived
/// because the finish step already ran.
fn discharge<K: ByteSink>(fin: &mut Finally, w: &mut Writer<K>)
    requires
        old(w).wf(),
    ensures
        final(w).wf(),
        !final(fin).is_armed(),
        final(w).container_model() == old(w).container_model(),
        final(w).filter_model() == old(w).filter_model(),
        final(w).resolver_model() == old(w).resolver_model(),
        old(w).is_dead() ==> final(w).is_dead(),
        spec_extends(old(w).sink_model(), final(w).sink_model()),
{
    if fin.armed() {
        let _ = w.finish_entry();
        fin.cancel();
    } else {
        proof {
            lemma_extends_refl(w.sink_model());
        }
    }
}

/// `b` extends `a`: the sink has only grown.
pub open spec fn spec_extends(a: Seq<u8>, b: Seq<u8>) -> bool {
    a.len() <= b.len() && b.take(a.len() as int) == a
}

/// A sequence extends itself.
proof fn lemma_extends_refl(a: Seq<u8>)
    ensures
        spec_extends(a, a),
{
    assert(a.take(a.len() as int) =~= a);
}

/// Appending only ever extends.
proof fn lemma_extends_concat(a: Seq<u8>, s: Seq<u8>)
    ensures
        spec_extends(a, a + s),
{
    assert((a + s).take(a.len() as int) =~= a);
}

/// `n` zero bytes.
pub open spec fn spec_zeros(n: int) -> Seq<u8> {
    Seq::new(n as nat, |i: int| 0u8)
}

/// Writes all of `data[from..]` to the sink, looping over short writes.
/// On an error the bytes accepted so far stay accepted.
fn sink_write_all<K: ByteSink>(sink: &mut K, data: &Vec<u8>, from: usize) -> (r: Result<
    (),
    StreamError,
>)
    requires
        from <= data@.len(),
    ensures
        match r {
            Result::Ok(()) => final(sink).accepted() == old(sink).accepted() + data@.skip(
                from as int,
            ),
            Result::Err(_) => spec_extends(old(sink).accepted(), final(sink).accepted()),
        },
{
    let total: usize = data.len();
    let mut at: usize = from;
    loop
        invariant
            from <= at <= total,
            total == data@.len(),
            sink.accepted() == old(sink).accepted() + data@.subrange(from as int, at as int),
        decreases total - at,
    {
        if at == total {
            proof {
                assert(data@.subrange(from as int, at as int) =~= data@.skip(from as int));
            }
            return Ok(());
        }
        let part = vstd::slice::slice_subrange(data.as_slice(), at, data.len());
        match sink.write(part) {
            Result::Ok(n) => {
                proof {
                    assert(sink.accepted() =~= old(sink).accepted() + data@.subrange(
                        from as int,
                        at + n as int,
                    ));
                }
                at = at + n;
            },
            Result::Err(e) => {
                proof {
                    assert(sink.accepted().take(old(sink).accepted().len() as int) =~= old(
                        sink,
                    ).accepted());
                }
                return Err(e);
            },
        }
    }
}


// ---------------------------------------------------------------------
// Sparse payloads.
// ---------------------------------------------------------------------

/// `s` padded with zero bytes out to offset `off`; unchanged when it
/// already reaches that far.
pub open spec fn spec_pad_to(s: Seq<u8>, off: int) -> Seq<u8> {
    if s.len() >= off {
        s
    } else {
        s + spec_zeros(off - s.len())
    }
}

/// The payload a sequence of data blocks describes: each block's bytes
/// at its offset, the holes between them zero-filled.
pub open spec fn spec_sparse_expand(blocks: Seq<(Seq<u8>, u64)>) -> Seq<u8>
    decreases blocks.len(),
{
    if blocks.len() == 0 {
        Seq::empty()
    } else {
        spec_pad_to(spec_sparse_expand(blocks.drop_last()), blocks.last().1 as int)
            + blocks.last().0
    }
}

/// `s` cut or zero-padded to exactly `size` bytes, as a member's payload
/// relates to its declared size.
pub open spec fn spec_fit(s: Seq<u8>, size: int) -> Seq<u8> {
    if s.len() >= size {
        s.take(size)
    } else {
        s + spec_zeros(size - s.len())
    }
}

/// The hole before a sparse block is zero-filled: every byte between
/// the end of the earlier blocks and the last block's offset reads back
/// as zero in the expanded payload.
pub proof fn lemma_sparse_hole_zeroed(blocks: Seq<(Seq<u8>, u64)>, j: int)
    requires
        blocks.len() > 0,
        spec_sparse_expand(blocks.drop_last()).len() <= j < blocks.last().1,
    ensures
        spec_sparse_expand(blocks)[j] == 0,
{
    let pre = spec_sparse_expand(blocks.drop_last());
    assert(spec_pad_to(pre, blocks.last().1 as int)[j] == spec_zeros(
        blocks.last().1 - pre.len(),
    )[j - pre.len()]);
}

/// Extension is transitive.
proof fn lemma_extends_trans(a: Seq<u8>, b: Seq<u8>, c: Seq<u8>)
    requires
        spec_extends(a, b),
        spec_extends(b, c),
    ensures
        spec_extends(a, c),
{
    assert forall|j: int| 0 <= j < a.len() implies c.take(a.len() as int)[j] == a[j] by {
        assert(b.take(a.len() as int)[j] == a[j]);
        assert(c.take(b.len() as int)[j] == b[j]);
    }
    assert(c.take(a.len() as int) =~= a);
}

/// Streams one member into the target session: header, the data blocks
/// the source reports — holes zero-filled page by page — and the finish
/// step, which runs on every exit path, early error returns included.
/// The member comes out as its declared size says: a payload that falls
/// short is padded, and one that would overrun is cut off and reported
/// as written partly.
#[verifier::spinoff_prover]
#[verifier::rlimit(100)]
pub fn ll_write_archive_entry<K: ByteSink>(
    to: &mut Writer<K>,
    entry: &EntryData,
    blocks: &Vec<DataBlock>,
) -> (r: Result<(), IOError>)
    requires
        old(to).wf(),
    ensures
        final(to).wf(),
        final(to).container_model() == old(to).container_model(),
        final(to).filter_model() == old(to).filter_model(),
        final(to).resolver_model() == old(to).resolver_model(),
        spec_extends(old(to).sink_model(), final(to).sink_model()),
        match r {
            Result::Ok(()) => {
                &&& !old(to).is_dead()
                &&& !old(to).entry_open()
                &&& spec_sparse_expand(spec_blocks(blocks@)).len() <= entry@.size
                &&& final(to).sink_model() == old(to).sink_model() + codec::spec_record(
                    entry@,
                    spec_fit(spec_sparse_expand(spec_blocks(blocks@)), entry@.size as int),
                )
                &&& !final(to).entry_open()
                &&& !final(to).is_dead()
            },
            Result::Err(io) => {
                &&& (io == IOError::Failed ==> *final(to) == *old(to))
                &&& (io == IOError::Fatal ==> final(to).is_dead())
            },
        },
{
    match to.write_header(entry) {
        Result::Ok(()) => {},
        Result::Err(e) => {
            return Err(e);
        },
    }
    let mut fin = Finally::new();
    // One page of zero bytes, reused for every hole.
    let mut nullbuf: Vec<u8> = Vec::new();
    let mut z: usize = 0;
    while z < 4096
        invariant
            z <= 4096,
            nullbuf@ == spec_zeros(z as int),
        decreases 4096 - z,
    {
        nullbuf.push(0);
        z = z + 1;
        proof {
            assert(nullbuf@ =~= spec_zeros(z as int));
        }
    }
    let mut progress: u64 = 0;
    let mut i: usize = 0;
    while i < blocks.len()
        invariant
            to.wf(),
            !to.is_dead(),
            to.entry_open(),
            to.container_model() == old(to).container_model(),
            to.filter_model() == old(to).filter_model(),
            to.open_declared() == entry@.size,
            to.open_written() == progress,
            to.resolver_model() == old(to).resolver_model(),
            i <= blocks@.len(),
            nullbuf@ == spec_zeros(4096),
            progress == spec_sparse_expand(spec_blocks(blocks@.subrange(0, i as int))).len(),
            progress <= entry@.size,
            to.sink_model() == old(to).sink_model() + codec::spec_header(entry@)
                + spec_sparse_expand(spec_blocks(blocks@.subrange(0, i as int))),
            fin.is_armed(),
        decreases blocks@.len() - i,
    {
        let ghost cur = spec_sparse_expand(spec_blocks(blocks@.subrange(0, i as int)));
        let off: u64 = blocks[i].offset;
        // Fill the hole before this block, page by page.
        while progress < off
            invariant
                to.wf(),
                !to.is_dead(),
                to.entry_open(),
                to.container_model() == old(to).container_model(),
                to.filter_model() == old(to).filter_model(),
                to.open_declared() == entry@.size,
                to.open_written() == progress,
                to.resolver_model() == old(to).resolver_model(),
                nullbuf@ == spec_zeros(4096),
                cur.len() <= progress,
                progress <= off || progress == cur.len(),
                progress <= entry@.size,
                to.sink_model() == old(to).sink_model() + codec::spec_header(entry@) + cur
                    + spec_zeros(progress - cur.len()),
                fin.is_armed(),
            decreases off - progress,
        {
            let gap: u64 = off - progress;
            let chunk: usize = if gap > 4096 {
                4096
            } else {
                gap as usize
            };
            let part = vstd::slice::slice_to_vec(
                vstd::slice::slice_subrange(nullbuf.as_slice(), 0, chunk),
            );
            proof {
                assert(part@ =~= spec_zeros(chunk as int));
            }
            match to.write_data(&part) {
                Result::Ok(n) => {
                    if n < chunk {
                        // The declared size ran out inside the hole.
                        let ghost pre = to.sink_model();
                        discharge(&mut fin, to);
                        proof {
                            assert(pre.take(old(to).sink_model().len() as int) =~= old(to).sink_model());
                            assert(spec_extends(old(to).sink_model(), pre));
                            lemma_extends_trans(old(to).sink_model(), pre, to.sink_model());
                        }
                        return Err(IOError::PartlyDone);
                    }
                    proof {
                        assert(part@.take(n as int) =~= spec_zeros(chunk as int));
                        assert(to.sink_model() =~= old(to).sink_model() + codec::spec_header(
                            entry@,
                        ) + cur + spec_zeros(progress + chunk - cur.len()));
                    }
                    progress = progress + chunk as u64;
                },
                Result::Err(e) => {
                    let ghost pre = to.sink_model();
                    discharge(&mut fin, to);
                    proof {
                        assert(pre.take(old(to).sink_model().len() as int) =~= old(to).sink_model());
                        assert(spec_extends(old(to).sink_model(), pre));
                        lemma_extends_trans(old(to).sink_model(), pre, to.sink_model());
                    }
                    return Err(e);
                },
            }
        }
        proof {
            assert(to.sink_model() =~= old(to).sink_model() + codec::spec_header(entry@)
                + spec_pad_to(cur, off as int));
        }
        // The block's own bytes.
        let data = &blocks[i].data;
        match to.write_data(data) {
            Result::Ok(n) => {
                if n < data.len() {
                    // The declared size ran out inside the block.
                    let ghost pre = to.sink_model();
                    discharge(&mut fin, to);
                    proof {
                        assert(pre.take(old(to).sink_model().len() as int) =~= old(to).sink_model());
                        assert(spec_extends(old(to).sink_model(), pre));
                        lemma_extends_trans(old(to).sink_model(), pre, to.sink_model());
                    }
                    return Err(IOError::PartlyDone);
                }
                proof {
                    assert(data@.take(n as int) =~= data@);
                    assert(spec_blocks(blocks@.subrange(0, i + 1)).drop_last() =~~= spec_blocks(
                        blocks@.subrange(0, i as int),
                    ));
                    assert(spec_blocks(blocks@.subrange(0, i + 1)).last() == (
                        blocks@[i as int].data@,
                        blocks@[i as int].offset,
                    ));
                    assert(spec_sparse_expand(spec_blocks(blocks@.subrange(0, i + 1)))
                        == spec_pad_to(cur, off as int) + data@);
                    assert(to.sink_model() =~= old(to).sink_model() + codec::spec_header(entry@)
                        + spec_sparse_expand(spec_blocks(blocks@.subrange(0, i + 1))));
                }
                progress = progress + n as u64;
                i = i + 1;
            },
            Result::Err(e) => {
                let ghost pre = to.sink_model();
                discharge(&mut fin, to);
                proof {
                    assert(pre.take(old(to).sink_model().len() as int) =~= old(to).sink_model());
                    assert(spec_extends(old(to).sink_model(), pre));
                    lemma_extends_trans(old(to).sink_model(), pre, to.sink_model());
                }
                return Err(e);
            },
        }
    }
    proof {
        assert(blocks@.subrange(0, blocks@.len() as int) =~= blocks@);
    }
    let ghost pre = to.sink_model();
    match to.finish_entry() {
        Result::Ok(()) => {
            fin.cancel();
            proof {
                assert(to.sink_model() =~= old(to).sink_model() + codec::spec_record(
                    entry@,
                    spec_fit(spec_sparse_expand(spec_blocks(blocks@)), entry@.size as int),
                ));
                lemma_extends_concat(
                    old(to).sink_model(),
                    codec::spec_record(
                        entry@,
                        spec_fit(spec_sparse_expand(spec_blocks(blocks@)), entry@.size as int),
                    ),
                );
            }
            Ok(())
        },
        Result::Err(e) => {
            proof {
                assert(pre.take(old(to).sink_model().len() as int) =~= old(to).sink_model());
                assert(spec_extends(old(to).sink_model(), pre));
                lemma_extends_trans(old(to).sink_model(), pre, to.sink_model());
            }
            Err(e)
        },
    }
}

/// What the writer is doing with the member under construction.
struct OpenEntry {
    declared: u64,
    written: u64,
}

/// A write session over a byte sink.
pub struct Writer<K: ByteSink> {
    sink: K,
    cell: HandleCell,
    container: u8,
    filter: u8,
    cur: Option<OpenEntry>,
    dead: bool,
    error: Option<String>,
    resolver: LinkResolver,
    started: bool,
    fscell: Option<HandleCell>,
}

impl<K: ByteSink> Writer<K> {
    /// Well-formed: the native handle is still owned and unreleased, and
    /// an open member never has more payload than it declared.
    pub closed spec fn wf(&self) -> bool {
        &&& self.cell.wf()
        &&& self.cell.is_live()
        &&& self.cell.refs() == 1
        &&& match self.cur {
            Option::Some(oe) => oe.written <= oe.declared,
            Option::None => true,
        }
        &&& (self.started <==> self.fscell is Some)
        &&& self.resolver.wf()
        &&& (!self.started ==> self.resolver.seen_model() == Seq::<(u64, u64, Seq<u8>)>::empty()
            && self.resolver.pending_model() == Seq::<FsModel>::empty())
        &&& match self.fscell {
            Option::Some(c) => c.wf() && c.is_live() && c.refs() == 1,
            Option::None => true,
        }
    }

    /// The state of the traversal side: the link resolver's strategy,
    /// the groups it has seen, and the entries it withholds — `None`
    /// until the first traversal.
    pub closed spec fn resolver_model(&self) -> Option<
        (LinkStrategy, Seq<(u64, u64, Seq<u8>)>, Seq<FsModel>),
    > {
        if self.started {
            Option::Some(
                (
                    self.resolver.strategy_model(),
                    self.resolver.seen_model(),
                    self.resolver.pending_model(),
                ),
            )
        } else {
            Option::None
        }
    }

    /// Every byte the sink has accepted from this session's target.
    pub closed spec fn sink_model(&self) -> Seq<u8> {
        self.sink.accepted()
    }

    /// The container code the session writes.
    pub closed spec fn container_model(&self) -> u8 {
        self.container
    }

    /// The filter code the session writes.
    pub closed spec fn filter_model(&self) -> u8 {
        self.filter
    }

    /// Whether a member is open: its header is written and its payload
    /// not yet finished.
    pub closed spec fn entry_open(&self) -> bool {
        self.cur is Some
    }

    /// The declared size of the open member.
    pub closed spec fn open_declared(&self) -> u64 {
        self.cur.unwrap().declared
    }

    /// How much payload the open member has received.
    pub closed spec fn open_written(&self) -> u64 {
        self.cur.unwrap().written
    }

    /// Whether a fatal condition has poisoned the session.
    pub closed spec fn is_dead(&self) -> bool {
        self.dead
    }

    /// Opens a write session against a byte sink: selects the filter and
    /// the container, then writes the archive prelude.  If the sink
    /// refuses the prelude the partially built session is released before
    /// the error is returned.
    pub fn open(sink: K, format: Format) -> (r: Result<Writer<K>, Error>)
        ensures
            match r {
                Result::Ok(w) => {
                    &&& w.wf()
                    &&& !w.is_dead()
                    &&& !w.entry_open()
                    &&& (w.container_model(), w.filter_model()) == spec_format_codes(format)
                    &&& w.sink_model() == sink.accepted() + codec::spec_prelude(
                        w.container_model(),
                        w.filter_model(),
                    )
                    &&& w.error_model() is None
                },
                Result::Err(e) => e == Error::Open,
            },
    {
        let mut cell = HandleCell::new();
        let (container, filter) = set_format(format);
        let mut prelude: Vec<u8> = Vec::new();
        codec::encode_prelude(container, filter, &mut prelude);
        let mut sink = sink;
        match sink_write_all(&mut sink, &prelude, 0) {
            Result::Ok(()) => {
                proof {
                    assert(prelude@.skip(0) =~= prelude@);
                }
                Ok(
                    Writer {
                        sink,
                        cell,
                        container,
                        filter,
                        cur: None,
                        dead: false,
                        error: None,
                        resolver: LinkResolver::new(),
                        started: false,
                        fscell: None,
                    },
                )
            },
            Result::Err(_) => {
                cell.release();
                Err(Error::Open)
            },
        }
    }

    /// Writes the header of one member and opens it for payload.  The
    /// member must be finished before the next header; a header while one
    /// is open fails locally and changes nothing.  A sink failure that
    /// has already flushed part of the header poisons the session.
    pub fn write_header(&mut self, e: &EntryData) -> (r: Result<(), IOError>)
        requires
            old(self).wf(),
        ensures
            final(self).wf(),
            final(self).container_model() == old(self).container_model(),
            final(self).filter_model() == old(self).filter_model(),
            final(self).resolver_model() == old(self).resolver_model(),
            spec_extends(old(self).sink_model(), final(self).sink_model()),
            match r {
                Result::Ok(()) => {
                    &&& !old(self).is_dead()
                    &&& !old(self).entry_open()
                    &&& final(self).sink_model() == old(self).sink_model() + codec::spec_header(e@)
                    &&& final(self).entry_open()
                    &&& final(self).open_declared() == e@.size
                    &&& final(self).open_written() == 0
                    &&& !final(self).is_dead()
                },
                Result::Err(io) => {
                    &&& (io == IOError::Failed ==> *final(self) == *old(self))
                    &&& (io == IOError::Fatal ==> final(self).is_dead())
                    &&& (io == IOError::Failed || io == IOError::Fatal)
                },
            },
    {
        if self.dead {
            proof {
                lemma_extends_refl(self.sink_model());
            }
            return Err(IOError::Fatal);
        }
        if self.cur.is_some() {
            proof {
                lemma_extends_refl(self.sink_model());
            }
            return Err(IOError::Failed);
        }
        let mut header: Vec<u8> = Vec::new();
        codec::encode_header(e, &mut header);
        match sink_write_all(&mut self.sink, &header, 0) {
            Result::Ok(()) => {
                proof {
                    assert(header@.skip(0) =~= header@);
                    lemma_extends_concat(old(self).sink_model(), header@);
                }
                self.cur = Some(OpenEntry { declared: e.size, written: 0 });
                Ok(())
            },
            Result::Err(_) => {
                // Part of the header may already be out: the container
                // is no longer consistent.
                self.dead = true;
                self.error = Some("sink failed while a header was written".to_owned());
                Err(IOError::Fatal)
            },
        }
    }

    /// Pushes payload into the open member and reports how much the
    /// member accepted, which is less than offered once the declared
    /// size is reached.  Payload without an open member fails locally; a
    /// sink failure that has already flushed bytes poisons the session.
    pub fn write_data(&mut self, data: &Vec<u8>) -> (r: Result<usize, IOError>)
        requires
            old(self).wf(),
        ensures
            final(self).wf(),
            final(self).container_model() == old(self).container_model(),
            final(self).filter_model() == old(self).filter_model(),
            final(self).resolver_model() == old(self).resolver_model(),
            spec_extends(old(self).sink_model(), final(self).sink_model()),
            match r {
                Result::Ok(n) => {
                    &&& !old(self).is_dead()
                    &&& old(self).entry_open()
                    &&& n == vstd::math::min(
                        data@.len() as int,
                        old(self).open_declared() - old(self).open_written(),
                    )
                    &&& final(self).sink_model() == old(self).sink_model() + data@.take(n as int)
                    &&& final(self).entry_open()
                    &&& final(self).open_declared() == old(self).open_declared()
                    &&& final(self).open_written() == old(self).open_written() + n
                    &&& !final(self).is_dead()
                },
                Result::Err(io) => {
                    &&& (io == IOError::Failed ==> *final(self) == *old(self)
                        && !old(self).entry_open())
                    &&& (io == IOError::Fatal ==> final(self).is_dead())
                    &&& (io == IOError::Failed || io == IOError::Fatal)
                },
            },
    {
        if self.dead {
            proof {
                lemma_extends_refl(self.sink_model());
            }
            return Err(IOError::Fatal);
        }
        let room: u64 = match &self.cur {
            Option::Some(oe) => oe.declared - oe.written,
            Option::None => {
                proof {
                    lemma_extends_refl(self.sink_model());
                }
                return Err(IOError::Failed);
            },
        };
        let n: usize = if (data.len() as u64) < room {
            data.len()
        } else {
            room as usize
        };
        let part = vstd::slice::slice_to_vec(vstd::slice::slice_subrange(data.as_slice(), 0, n));
        match sink_write_all(&mut self.sink, &part, 0) {
            Result::Ok(()) => {
                proof {
                    assert(part@.skip(0) =~= part@);
                    assert(part@ =~= data@.take(n as int));
                    lemma_extends_concat(old(self).sink_model(), part@);
                }
                let oe = match &self.cur {
                    Option::Some(oe) => OpenEntry {
                        declared: oe.declared,
                        written: oe.written + n as u64,
                    },
                    Option::None => {
                        proof {
                            assert(false);
                        }
                        OpenEntry { declared: 0, written: 0 }
                    },
                };
                self.cur = Some(oe);
                Ok(n)
            },
            Result::Err(_) => {
                self.dead = true;
                self.error = Some("sink failed while payload was written".to_owned());
                Err(IOError::Fatal)
            },
        }
    }

    /// Finishes the open member: pads the payload with zero bytes out to
    /// the declared size and closes it, so the next header may follow.
    /// With no member open there is nothing owed and nothing changes.
    pub fn finish_entry(&mut self) -> (r: Result<(), IOError>)
        requires
            old(self).wf(),
        ensures
            final(self).wf(),
            final(self).container_model() == old(self).container_model(),
            final(self).filter_model() == old(self).filter_model(),
            final(self).resolver_model() == old(self).resolver_model(),
            spec_extends(old(self).sink_model(), final(self).sink_model()),
            match r {
                Result::Ok(()) => {
                    &&& !old(self).is_dead()
                    &&& final(self).sink_model() == old(self).sink_model() + (
                    if old(self).entry_open() {
                        spec_zeros(old(self).open_declared() - old(self).open_written())
                    } else {
                        Seq::empty()
                    })
                    &&& !final(self).entry_open()
                    &&& !final(self).is_dead()
                },
                Result::Err(io) => {
                    &&& io == IOError::Fatal
                    &&& final(self).is_dead()
                },
            },
    {
        if self.dead {
            proof {
                lemma_extends_refl(self.sink_model());
            }
            return Err(IOError::Fatal);
        }
        let gap: u64 = match &self.cur {
            Option::Some(oe) => oe.declared - oe.written,
            Option::None => {
                proof {
                    assert(self.sink_model() =~= old(self).sink_model() + Seq::<u8>::empty());
                    lemma_extends_refl(self.sink_model());
                }
                return Ok(());
            },
        };
        let mut pad: Vec<u8> = Vec::new();
        let mut i: u64 = 0;
        while i < gap
            invariant
                i <= gap,
                pad@ =~= spec_zeros(i as int),
            decreases gap - i,
        {
            pad.push(0);
            i = i + 1;
            proof {
                assert(pad@ =~= spec_zeros(i as int));
            }
        }
        match sink_write_all(&mut self.sink, &pad, 0) {
            Result::Ok(()) => {
                proof {
                    assert(pad@.skip(0) =~= pad@);
                    lemma_extends_concat(old(self).sink_model(), pad@);
                }
                self.cur = None;
                Ok(())
            },
            Result::Err(_) => {
                self.dead = true;
                self.error = Some("sink failed while a member was finished".to_owned());
                Err(IOError::Fatal)
            },
        }
    }
}


impl<K: ByteSink> Writer<K> {
    /// Reads a whole source into memory, sets the entry's declared size
    /// from the observed length — the container may need the size up
    /// front, so the source is buffered in full, deliberately — then
    /// writes the header and pushes the payload.  The member is finished
    /// on every exit path once its header is out.
    pub fn add_full_stream<E: Entry, T: ByteSource>(&mut self, entry: &mut E, stream: T) -> (r:
        Result<(), IOError>)
        requires
            old(self).wf(),
        ensures
            final(self).wf(),
            final(self).container_model() == old(self).container_model(),
            final(self).filter_model() == old(self).filter_model(),
            final(self).resolver_model() == old(self).resolver_model(),
            spec_extends(old(self).sink_model(), final(self).sink_model()),
            match r {
                Result::Ok(()) => {
                    &&& !old(self).is_dead()
                    &&& !old(self).entry_open()
                    &&& stream.stream().len() <= u64::MAX
                    &&& final(entry).entry_model() == (EntryModel {
                        size: stream.stream().len() as u64,
                        ..old(entry).entry_model()
                    })
                    &&& final(self).sink_model() == old(self).sink_model() + codec::spec_record(
                        final(entry).entry_model(),
                        stream.stream(),
                    )
                    &&& !final(self).entry_open()
                    &&& !final(self).is_dead()
                },
                Result::Err(io) => {
                    &&& (io == IOError::Fatal ==> final(self).is_dead())
                    &&& (io == IOError::Failed && !old(self).entry_open() ==> *final(self) == *old(
                        self,
                    ))
                },
            },
    {
        let ghost total = stream.stream();
        let mut stream = stream;
        let mut acc: Vec<u8> = Vec::new();
        let mut buf: Vec<u8> = Vec::new();
        let mut z: usize = 0;
        while z < 8192
            invariant
                z <= 8192,
                buf@.len() == z,
            decreases 8192 - z,
        {
            buf.push(0);
            z = z + 1;
        }
        loop
            invariant
                buf@.len() == 8192,
                acc@ + stream.stream() == total,
                *self == *old(self),
                old(self).wf(),
            ensures
                acc@ == total,
                *self == *old(self),
            decreases stream.stream().len(),
        {
            match stream.read(&mut buf) {
                Result::Ok(n) => {
                    if n == 0 {
                        proof {
                            assert(acc@ =~= total);
                        }
                        break ;
                    }
                    let chunk = vstd::slice::slice_to_vec(
                        vstd::slice::slice_subrange(buf.as_slice(), 0, n),
                    );
                    codec::push_bytes(&mut acc, &chunk);
                    proof {
                        assert(acc@ + stream.stream() =~= total);
                    }
                },
                Result::Err(_) => {
                    // The source failed before anything was written: the
                    // member is not started.
                    proof {
                        lemma_extends_refl(self.sink_model());
                    }
                    return Err(IOError::Failed);
                },
            }
        }
        let size = acc.len() as u64;
        entry.set_size(size);
        let header = entry.export();
        match self.write_header(&header) {
            Result::Ok(()) => {},
            Result::Err(e) => {
                return Err(e);
            },
        }
        let ghost pre = self.sink_model();
        let mut fin = Finally::new();
        match self.write_data(&acc) {
            Result::Ok(n) => {
                proof {
                    assert(n == acc@.len());
                    assert(acc@.take(n as int) =~= acc@);
                }
                let _ = n;
            },
            Result::Err(e) => {
                let ghost mid = self.sink_model();
                discharge(&mut fin, self);
                proof {
                    assert(pre.take(old(self).sink_model().len() as int) =~= old(
                        self,
                    ).sink_model());
                    assert(spec_extends(old(self).sink_model(), pre));
                    lemma_extends_trans(old(self).sink_model(), pre, mid);
                    lemma_extends_trans(old(self).sink_model(), mid, self.sink_model());
                }
                return Err(e);
            },
        }
        match self.finish_entry() {
            Result::Ok(()) => {
                fin.cancel();
                proof {
                    assert(spec_zeros(0) =~= Seq::<u8>::empty());
                    assert(self.sink_model() =~= old(self).sink_model() + codec::spec_record(
                        header@,
                        acc@,
                    ));
                    lemma_extends_concat(
                        old(self).sink_model(),
                        codec::spec_record(header@, acc@),
                    );
                }
                Ok(())
            },
            Result::Err(e) => {
                proof {
                    let cur = self.sink_model();
                    assert(cur.take(old(self).sink_model().len() as int) =~= old(
                        self,
                    ).sink_model());
                }
                Err(e)
            },
        }
    }

    /// Copies one member out of a read session into this one: the
    /// metadata as it stands and the payload as one block, streamed
    /// through the entry-to-entry path.
    pub fn add_archive_entry(&mut self, entry: &ReaderEntry) -> (r: Result<(), IOError>)
        requires
            old(self).wf(),
            entry.wf(),
        ensures
            final(self).wf(),
            final(self).container_model() == old(self).container_model(),
            final(self).filter_model() == old(self).filter_model(),
            final(self).resolver_model() == old(self).resolver_model(),
            spec_extends(old(self).sink_model(), final(self).sink_model()),
            match r {
                Result::Ok(()) => {
                    &&& !old(self).is_dead()
                    &&& !old(self).entry_open()
                    &&& final(self).sink_model() == old(self).sink_model() + codec::spec_record(
                        entry.entry_model(),
                        entry.payload_model(),
                    )
                    &&& !final(self).entry_open()
                    &&& !final(self).is_dead()
                },
                Result::Err(io) => {
                    &&& (io == IOError::Failed ==> *final(self) == *old(self))
                    &&& (io == IOError::Fatal ==> final(self).is_dead())
                },
            },
    {
        let mut blocks: Vec<DataBlock> = Vec::new();
        blocks.push(DataBlock { data: clone_bytes(&entry.payload), offset: 0 });
        let r = ll_write_archive_entry(self, &entry.data, &blocks);
        proof {
            if r is Ok {
                let bm = spec_blocks(blocks@);
                assert(bm.drop_last() =~= Seq::<(Seq<u8>, u64)>::empty());
                assert(spec_sparse_expand(bm) =~= entry.payload_model());
                assert(spec_fit(spec_sparse_expand(bm), entry.entry_model().size as int)
                    =~= entry.payload_model());
            }
        }
        r
    }
}


/// The record — metadata and final payload — that each released
/// traversal entry becomes: its blocks expanded, holes zero-filled, cut
/// or padded to the declared size.
pub open spec fn spec_entry_records(es: Seq<FsModel>) -> Seq<(EntryModel, Seq<u8>)> {
    es.map_values(
        |m: FsModel| (m.meta, spec_fit(spec_sparse_expand(m.blocks), m.meta.size as int)),
    )
}

/// Copies the entries of the listing that sit under `root`, in traversal
/// order.
fn select_subtree(tree: &FsTree, root: &Vec<u8>) -> (r: Vec<FsEntry>)
    ensures
        r@.map_values(|e: FsEntry| e@) == spec_selected(spec_tree(tree), root@),
{
    let mut out: Vec<FsEntry> = Vec::new();
    let mut i: usize = 0;
    while i < tree.entries.len()
        invariant
            i <= tree.entries@.len(),
            out@.map_values(|e: FsEntry| e@) == spec_selected(
                spec_tree(tree).take(i as int),
                root@,
            ),
        decreases tree.entries@.len() - i,
    {
        let keep = path_under(&tree.entries[i].meta.path, root);
        if keep {
            out.push(tree.entries[i].duplicate());
        }
        i = i + 1;
        proof {
            assert(spec_tree(tree).take(i as int).drop_last() =~= spec_tree(tree).take(i - 1));
            assert(spec_tree(tree).take(i as int).last() == spec_tree(tree)[i - 1]);
            if keep {
                assert(out@.map_values(|e: FsEntry| e@) =~~= spec_selected(
                    spec_tree(tree).take(i - 1),
                    root@,
                ) + seq![spec_tree(tree)[i - 1]]);
            } else {
                assert(out@.map_values(|e: FsEntry| e@) =~~= spec_selected(
                    spec_tree(tree).take(i - 1),
                    root@,
                ) + Seq::<FsModel>::empty());
            }
        }
    }
    proof {
        assert(spec_tree(tree).take(tree.entries@.len() as int) =~= spec_tree(tree));
    }
    out
}

impl<K: ByteSink> Writer<K> {
    /// Makes the traversal side ready, once: a disk-read handle and a
    /// link resolver, whose strategy follows the session's container —
    /// both containers here carry a link group's content with the first
    /// name met.
    fn init_disk_reader(&mut self)
        requires
            old(self).wf(),
        ensures
            final(self).wf(),
            final(self).sink_model() == old(self).sink_model(),
            final(self).container_model() == old(self).container_model(),
            final(self).filter_model() == old(self).filter_model(),
            final(self).entry_open() == old(self).entry_open(),
            final(self).is_dead() == old(self).is_dead(),
            final(self).error_model() == old(self).error_model(),
            final(self).entry_open() ==> final(self).open_declared() == old(self).open_declared()
                && final(self).open_written() == old(self).open_written(),
            final(self).resolver_model() == match old(self).resolver_model() {
                Option::Some(st) => Option::Some(st),
                Option::None => Option::Some(
                    (
                        LinkStrategy::WithFirst,
                        Seq::<(u64, u64, Seq<u8>)>::empty(),
                        Seq::<FsModel>::empty(),
                    ),
                ),
            },
    {
        if !self.started {
            self.started = true;
            self.resolver.set_strategy(LinkStrategy::WithFirst);
            self.fscell = Some(HandleCell::new());
            proof {
                assert(self.resolver.seen_model() =~= Seq::<(u64, u64, Seq<u8>)>::empty());
                assert(self.resolver.pending_model() =~= Seq::<FsModel>::empty());
            }
        }
    }

    /// Feeds each entry through the link resolver and streams whatever
    /// it releases into the container.
    fn write_entries(&mut self, es: &Vec<FsEntry>) -> (r: Result<(), IOError>)
        requires
            old(self).wf(),
            old(self).resolver_model() is Some,
        ensures
            final(self).wf(),
            final(self).container_model() == old(self).container_model(),
            final(self).filter_model() == old(self).filter_model(),
            spec_extends(old(self).sink_model(), final(self).sink_model()),
            match r {
                Result::Ok(()) => ({
                    let st0 = old(self).resolver_model().unwrap();
                    let run = spec_resolve_run(
                        st0.0,
                        st0.1,
                        st0.2,
                        es@.map_values(|e: FsEntry| e@),
                    );
                    &&& !old(self).is_dead()
                    &&& !old(self).entry_open()
                    &&& final(self).resolver_model() == Option::Some((st0.0, run.0, run.1))
                    &&& final(self).sink_model() == old(self).sink_model() + codec::spec_records(
                        spec_entry_records(run.2),
                    )
                    &&& !final(self).entry_open()
                    &&& !final(self).is_dead()
                }),
                Result::Err(io) => io == IOError::Fatal ==> final(self).is_dead(),
            },
    {
        if self.dead {
            proof {
                lemma_extends_refl(self.sink_model());
            }
            return Err(IOError::Fatal);
        }
        if self.cur.is_some() {
            proof {
                lemma_extends_refl(self.sink_model());
            }
            return Err(IOError::Failed);
        }
        let ghost st0 = old(self).resolver_model().unwrap();
        let ghost ems = es@.map_values(|e: FsEntry| e@);
        let mut i: usize = 0;
        while i < es.len()
            invariant
                self.wf(),
                !self.is_dead(),
                !self.entry_open(),
                self.container_model() == old(self).container_model(),
                self.filter_model() == old(self).filter_model(),
                i <= es@.len(),
                st0 == old(self).resolver_model().unwrap(),
                old(self).resolver_model() is Some,
                ems == es@.map_values(|e: FsEntry| e@),
                ({
                    let run = spec_resolve_run(st0.0, st0.1, st0.2, ems.take(i as int));
                    &&& self.resolver_model() == Option::Some((st0.0, run.0, run.1))
                    &&& self.sink_model() == old(self).sink_model() + codec::spec_records(
                        spec_entry_records(run.2),
                    )
                }),
            decreases es@.len() - i,
        {
            let ghost run_pre = spec_resolve_run(st0.0, st0.1, st0.2, ems.take(i as int));
            let e = es[i].duplicate();
            let released = self.resolver.linkify(e);
            proof {
                crate::resolver::lemma_run_snoc(st0.0, st0.1, st0.2, ems.take(i as int), ems[i as int]);
                assert(ems.take(i as int).push(ems[i as int]) =~= ems.take(i + 1));
            }
            match released {
                Option::Some(out) => {
                    let ghost pre = self.sink_model();
                    let step = ll_write_archive_entry(self, &out.meta, &out.blocks);
                    match step {
                        Result::Ok(()) => {
                            proof {
                                let run = spec_resolve_run(st0.0, st0.1, st0.2, ems.take(i + 1));
                                codec::lemma_records_concat(
                                    spec_entry_records(run_pre.2),
                                    spec_entry_records(seq![out@]),
                                );
                                assert(spec_entry_records(run.2) =~~= spec_entry_records(run_pre.2)
                                    + spec_entry_records(seq![out@]));
                                reveal_with_fuel(codec::spec_records, 3);
                                assert(spec_entry_records(seq![out@]).len() == 1);
                                assert(spec_entry_records(seq![out@])[0] == (
                                    out@.meta,
                                    spec_fit(
                                        spec_sparse_expand(out@.blocks),
                                        out@.meta.size as int,
                                    ),
                                ));
                                assert(spec_entry_records(seq![out@]).skip(1) =~= Seq::<
                                    (EntryModel, Seq<u8>),
                                >::empty());
                                assert(codec::spec_records(spec_entry_records(seq![out@]))
                                    =~= codec::spec_record(
                                    out@.meta,
                                    spec_fit(
                                        spec_sparse_expand(out@.blocks),
                                        out@.meta.size as int,
                                    ),
                                ));
                                assert(self.sink_model() =~= old(self).sink_model()
                                    + codec::spec_records(spec_entry_records(run.2)));
                            }
                        },
                        Result::Err(io) => {
                            proof {
                                assert(pre.take(old(self).sink_model().len() as int) =~= old(
                                    self,
                                ).sink_model());
                                assert(spec_extends(old(self).sink_model(), pre));
                                lemma_extends_trans(
                                    old(self).sink_model(),
                                    pre,
                                    self.sink_model(),
                                );
                            }
                            return Err(io);
                        },
                    }
                },
                Option::None => {
                    proof {
                        let run = spec_resolve_run(st0.0, st0.1, st0.2, ems.take(i + 1));
                        assert(spec_entry_records(run.2) =~~= spec_entry_records(run_pre.2));
                    }
                },
            }
            i = i + 1;
        }
        proof {
            assert(ems.take(es@.len() as int) =~= ems);
            lemma_extends_concat(
                old(self).sink_model(),
                codec::spec_records(
                    spec_entry_records(spec_resolve_run(st0.0, st0.1, st0.2, ems).2),
                ),
            );
        }
        Ok(())
    }

    /// Archives a filesystem subtree: every entry of the listing under
    /// `path`, hard links resolved, content streamed block by block.
    /// A root that matches nothing fails like a path that cannot be
    /// opened, and changes nothing.
    pub fn add_path(&mut self, tree: &FsTree, path: &Vec<u8>) -> (r: Result<(), IOError>)
        requires
            old(self).wf(),
        ensures
            final(self).wf(),
            final(self).container_model() == old(self).container_model(),
            final(self).filter_model() == old(self).filter_model(),
            spec_extends(old(self).sink_model(), final(self).sink_model()),
            match r {
                Result::Ok(()) => ({
                    let st0 = spec_traversal_start(old(self).resolver_model());
                    let sel = spec_selected(spec_tree(tree), path@);
                    let run = spec_resolve_run(st0.0, st0.1, st0.2, sel);
                    &&& sel.len() > 0
                    &&& !old(self).is_dead()
                    &&& !old(self).entry_open()
                    &&& final(self).resolver_model() == Option::Some((st0.0, run.0, run.1))
                    &&& final(self).sink_model() == old(self).sink_model() + codec::spec_records(
                        spec_entry_records(run.2),
                    )
                    &&& !final(self).entry_open()
                    &&& !final(self).is_dead()
                }),
                Result::Err(io) => {
                    &&& (spec_selected(spec_tree(tree), path@).len() == 0 ==> io
                        == IOError::Failed && *final(self) == *old(self))
                    &&& (io == IOError::Fatal ==> final(self).is_dead())
                },
            },
    {
        let selected = select_subtree(tree, path);
        if selected.len() == 0 {
            // Opening the traversal at this path fails: nothing lies
            // under it.
            proof {
                lemma_extends_refl(self.sink_model());
                assert(spec_selected(spec_tree(tree), path@).len() == 0);
            }
            return Err(IOError::Failed);
        }
        self.init_disk_reader();
        let r = self.write_entries(&selected);
        proof {
            if spec_selected(spec_tree(tree), path@).len() == 0 {
                assert(false);
            }
        }
        r
    }

    /// Archives a filesystem subtree with a caller-supplied filter: the
    /// callback sees each entry's metadata and may reject it or hand
    /// back rewritten metadata — a changed path, say — under which the
    /// entry is included.  What lands in the container is some such
    /// selection of the subtree, resolved and streamed as `add_path`
    /// does.
    pub fn add_path_with_callback<F: Fn(&EntryData) -> Option<EntryData>>(
        &mut self,
        tree: &FsTree,
        path: &Vec<u8>,
        callback: F,
    ) -> (r: Result<(), IOError>)
        requires
            old(self).wf(),
            forall|e: &EntryData| #[trigger] call_requires(callback, (e,)),
        ensures
            final(self).wf(),
            final(self).container_model() == old(self).container_model(),
            final(self).filter_model() == old(self).filter_model(),
            spec_extends(old(self).sink_model(), final(self).sink_model()),
            match r {
                Result::Ok(()) => ({
                    let st0 = spec_traversal_start(old(self).resolver_model());
                    let sel = spec_selected(spec_tree(tree), path@);
                    &&& sel.len() > 0
                    &&& !old(self).is_dead()
                    &&& !old(self).entry_open()
                    &&& exists|kept: Seq<FsModel>|
                        {
                            let run = spec_resolve_run(st0.0, st0.1, st0.2, kept);
                            &&& #[trigger] spec_callback_filtered(callback, sel, kept)
                            &&& final(self).resolver_model() == Option::Some(
                                (st0.0, run.0, run.1),
                            )
                            &&& final(self).sink_model() == old(self).sink_model()
                                + codec::spec_records(spec_entry_records(run.2))
                        }
                    &&& !final(self).entry_open()
                    &&& !final(self).is_dead()
                }),
                Result::Err(io) => {
                    &&& (spec_selected(spec_tree(tree), path@).len() == 0 ==> io
                        == IOError::Failed && *final(self) == *old(self))
                    &&& (io == IOError::Fatal ==> final(self).is_dead())
                },
            },
    {
        let selected = select_subtree(tree, path);
        if selected.len() == 0 {
            proof {
                lemma_extends_refl(self.sink_model());
                assert(spec_selected(spec_tree(tree), path@).len() == 0);
            }
            return Err(IOError::Failed);
        }
        let ghost sel = spec_selected(spec_tree(tree), path@);
        let mut kept: Vec<FsEntry> = Vec::new();
        let mut i: usize = 0;
        while i < selected.len()
            invariant
                i <= selected@.len(),
                forall|e: &EntryData| #[trigger] call_requires(callback, (e,)),
                selected@.map_values(|e: FsEntry| e@) == sel,
                spec_callback_filtered(callback, sel.take(i as int), kept@.map_values(|e: FsEntry| e@)),
            decreases selected@.len() - i,
        {
            let ghost kept_pre = kept@.map_values(|e: FsEntry| e@);
            let ghost arg = selected@[i as int].meta;
            let answer = callback(&selected[i].meta);
            let ghost answer_snapshot = answer;
            match answer {
                Option::Some(meta) => {
                    let src = selected[i].duplicate();
                    kept.push(
                        FsEntry {
                            meta,
                            dev: src.dev,
                            ino: src.ino,
                            nlink: src.nlink,
                            blocks: src.blocks,
                        },
                    );
                },
                Option::None => {
                },
            }
            i = i + 1;
            proof {
                assert(sel.take(i as int).drop_last() =~= sel.take(i - 1));
                assert(sel.take(i as int).last() == sel[i - 1]);
                let km = kept@.map_values(|e: FsEntry| e@);
                match answer_snapshot {
                    Option::Some(y) => {
                        assert(call_ensures(callback, (&arg,), Option::Some(y)));
                        assert(km.drop_last() =~~= kept_pre);
                        assert(km.last().blocks == sel[i - 1].blocks);
                        assert(spec_callback_kept(callback, sel[i - 1], km.last()));
                    },
                    Option::None => {
                        assert(call_ensures(callback, (&arg,), Option::<EntryData>::None));
                        assert(spec_callback_dropped(callback, sel[i - 1]));
                    },
                }
            }
        }
        proof {
            assert(sel.take(selected@.len() as int) =~= sel);
        }
        self.init_disk_reader();
        let ghost kept_models = kept@.map_values(|e: FsEntry| e@);
        let r = self.write_entries(&kept);
        proof {
            if spec_selected(spec_tree(tree), path@).len() == 0 {
                assert(false);
            }
        }
        r
    }

    /// Closes the session.  Whatever the resolver still withholds is
    /// flushed — written into the container — before anything is freed;
    /// then the resolver goes, then the disk-traversal handle, then the
    /// write handle, each released exactly once.  The sink comes back,
    /// with the spent write-handle cell and the outcome of the flush.
    pub fn close(self) -> (r: (K, HandleCell, Result<(), IOError>))
        requires
            self.wf(),
        ensures
            r.1.wf(),
            r.1.refs() == 0,
            r.1.releases() == 1,
            spec_extends(self.sink_model(), r.0.accepted()),
            match r.2 {
                Result::Ok(()) => ({
                    let ps = match self.resolver_model() {
                        Option::Some(st) => st.2,
                        Option::None => Seq::<FsModel>::empty(),
                    };
                    r.0.accepted() == self.sink_model() + codec::spec_records(
                        spec_entry_records(ps),
                    )
                }),
                Result::Err(_) => true,
            },
            self.resolver_model() matches Option::Some(st) && st.2.len() == 0 && !self.is_dead()
                && !self.entry_open() ==> r.2 is Ok,
            self.resolver_model() is None ==> r.2 is Ok && r.0.accepted() == self.sink_model(),
    {
        let mut w = self;
        let outcome: Result<(), IOError> = if w.started {
            let pending = w.resolver.flush();
            if w.pending_empty_hint(&pending) {
                proof {
                    assert(spec_entry_records(pending@.map_values(|e: FsEntry| e@)) =~= Seq::<
                        (EntryModel, Seq<u8>),
                    >::empty());
                    assert(codec::spec_records(
                        spec_entry_records(pending@.map_values(|e: FsEntry| e@)),
                    ) =~= Seq::<u8>::empty());
                    assert(w.sink_model() =~= self.sink_model() + Seq::<u8>::empty());
                    lemma_extends_refl(w.sink_model());
                }
                Ok(())
            } else {
                w.write_pending(&pending)
            }
        } else {
            proof {
                lemma_extends_refl(w.sink_model());
            }
            Ok(())
        };
        // Free in dependency order: resolver, disk handle, write handle.
        let Writer { sink, cell, fscell, .. } = w;
        match fscell {
            Option::Some(c) => {
                let mut c = c;
                c.release();
            },
            Option::None => {},
        }
        let mut cell = cell;
        cell.release();
        (sink, cell, outcome)
    }

    /// Whether the flushed list is empty.
    fn pending_empty_hint(&self, pending: &Vec<FsEntry>) -> (r: bool)
        ensures
            r == (pending@.len() == 0),
    {
        pending.len() == 0
    }

    /// Writes the flushed entries, one member each.
    fn write_pending(&mut self, pending: &Vec<FsEntry>) -> (r: Result<(), IOError>)
        requires
            old(self).wf(),
        ensures
            final(self).wf(),
            spec_extends(old(self).sink_model(), final(self).sink_model()),
            match r {
                Result::Ok(()) => final(self).sink_model() == old(self).sink_model()
                    + codec::spec_records(
                    spec_entry_records(pending@.map_values(|e: FsEntry| e@)),
                ),
                Result::Err(_) => true,
            },
            pending@.len() == 0 && !old(self).is_dead() && !old(self).entry_open() ==> r is Ok,
    {
        let ghost pms = pending@.map_values(|e: FsEntry| e@);
        let mut i: usize = 0;
        if self.dead {
            proof {
                lemma_extends_refl(self.sink_model());
            }
            if pending.len() == 0 {
                proof {
                    assert(codec::spec_records(spec_entry_records(pms)) =~= Seq::<u8>::empty());
                    assert(self.sink_model() =~= old(self).sink_model() + Seq::<u8>::empty());
                }
                return Ok(());
            }
            return Err(IOError::Fatal);
        }
        if self.cur.is_some() {
            proof {
                lemma_extends_refl(self.sink_model());
            }
            if pending.len() == 0 {
                proof {
                    assert(codec::spec_records(spec_entry_records(pms)) =~= Seq::<u8>::empty());
                    assert(self.sink_model() =~= old(self).sink_model() + Seq::<u8>::empty());
                }
                return Ok(());
            }
            return Err(IOError::Failed);
        }
        while i < pending.len()
            invariant
                self.wf(),
                !self.is_dead(),
                !self.entry_open(),
                i <= pending@.len(),
                pms == pending@.map_values(|e: FsEntry| e@),
                self.sink_model() == old(self).sink_model() + codec::spec_records(
                    spec_entry_records(pms.take(i as int)),
                ),
            decreases pending@.len() - i,
        {
            let e = pending[i].duplicate();
            let ghost pre = self.sink_model();
            match ll_write_archive_entry(self, &e.meta, &e.blocks) {
                Result::Ok(()) => {
                    proof {
                        codec::lemma_records_concat(
                            spec_entry_records(pms.take(i as int)),
                            spec_entry_records(seq![pms[i as int]]),
                        );
                        assert(spec_entry_records(pms.take(i + 1)) =~~= spec_entry_records(
                            pms.take(i as int),
                        ) + spec_entry_records(seq![pms[i as int]]));
                        reveal_with_fuel(codec::spec_records, 3);
                        assert(spec_entry_records(seq![pms[i as int]]).len() == 1);
                        assert(spec_entry_records(seq![pms[i as int]])[0] == (
                            pms[i as int].meta,
                            spec_fit(
                                spec_sparse_expand(pms[i as int].blocks),
                                pms[i as int].meta.size as int,
                            ),
                        ));
                        assert(spec_entry_records(seq![pms[i as int]]).skip(1) =~= Seq::<
                            (EntryModel, Seq<u8>),
                        >::empty());
                        assert(codec::spec_records(spec_entry_records(seq![pms[i as int]]))
                            =~= codec::spec_record(
                            pms[i as int].meta,
                            spec_fit(
                                spec_sparse_expand(pms[i as int].blocks),
                                pms[i as int].meta.size as int,
                            ),
                        ));
                        assert(self.sink_model() =~= old(self).sink_model() + codec::spec_records(
                            spec_entry_records(pms.take(i + 1)),
                        ));
                    }
                },
                Result::Err(io) => {
                    proof {
                        assert(pre.take(old(self).sink_model().len() as int) =~= old(
                            self,
                        ).sink_model());
                        assert(spec_extends(old(self).sink_model(), pre));
                        lemma_extends_trans(old(self).sink_model(), pre, self.sink_model());
                    }
                    return Err(io);
                },
            }
            i = i + 1;
        }
        proof {
            assert(pms.take(pending@.len() as int) =~= pms);
            lemma_extends_concat(
                old(self).sink_model(),
                codec::spec_records(spec_entry_records(pms)),
            );
        }
        Ok(())
    }
}

/// The callback rejected this entry: for its metadata, one of the
/// callback's possible answers is nothing.
pub open spec fn spec_callback_dropped<F: Fn(&EntryData) -> Option<EntryData>>(
    callback: F,
    m: FsModel,
) -> bool {
    exists|x: EntryData| x@ == m.meta && #[trigger] call_ensures(callback, (&x,), Option::None)
}

/// The callback turned the entry `a` into `b`: the metadata of `b` is
/// one of the callback's possible answers for the metadata of `a`, and
/// identity and data blocks carry over untouched.
pub open spec fn spec_callback_kept<F: Fn(&EntryData) -> Option<EntryData>>(
    callback: F,
    a: FsModel,
    b: FsModel,
) -> bool {
    &&& b.dev == a.dev
    &&& b.ino == a.ino
    &&& b.nlink == a.nlink
    &&& b.blocks == a.blocks
    &&& exists|x: EntryData, y: EntryData|
        x@ == a.meta && y@ == b.meta && #[trigger] call_ensures(
            callback,
            (&x,),
            Option::Some(y),
        )
}

/// `kept` is a selection the callback could have made from `sel`: entry
/// by entry, either rejected or included under rewritten metadata.
pub open spec fn spec_callback_filtered<F: Fn(&EntryData) -> Option<EntryData>>(
    callback: F,
    sel: Seq<FsModel>,
    kept: Seq<FsModel>,
) -> bool
    decreases sel.len(),
{
    if sel.len() == 0 {
        kept.len() == 0
    } else {
        ||| (spec_callback_dropped(callback, sel.last()) && spec_callback_filtered(
            callback,
            sel.drop_last(),
            kept,
        ))
        ||| (kept.len() > 0 && spec_callback_kept(callback, sel.last(), kept.last())
            && spec_callback_filtered(callback, sel.drop_last(), kept.drop_last()))
    }
}

/// The resolver state a traversal starts from: what an earlier traversal
/// left, or a fresh resolver.
pub open spec fn spec_traversal_start(
    st: Option<(LinkStrategy, Seq<(u64, u64, Seq<u8>)>, Seq<FsModel>)>,
) -> (LinkStrategy, Seq<(u64, u64, Seq<u8>)>, Seq<FsModel>) {
    match st {
        Option::Some(s) => s,
        Option::None => (
            LinkStrategy::WithFirst,
            Seq::<(u64, u64, Seq<u8>)>::empty(),
            Seq::<FsModel>::empty(),
        ),
    }
}

impl<K: ByteSink> ArchiveHandle for Writer<K> {
    closed spec fn error_model(&self) -> Option<Seq<char>> {
        match self.error {
            Option::Some(msg) => Option::Some(msg@),
            Option::None => Option::None,
        }
    }

    fn is_error(&self) -> (r: bool) {
        self.error.is_some()
    }

    fn error_string(&self) -> (r: String) {
        match &self.error {
            Option::Some(msg) => msg.clone(),
            Option::None => String::new(),
        }
    }
}

} // verus!
