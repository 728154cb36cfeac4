//! The read session.
//!
//! A [`Reader`] drives header-by-header iteration over an archive coming
//! in from a byte source: open checks the prelude and the container code
//! against the formats the session accepts — every supported one, the
//! only mode offered — and `next` decodes one member at a time.  The end
//! of the archive is not an error and stays the end on every later call;
//! a failing source or a truncated archive poisons the session.

use vstd::prelude::*;

use crate::bridge::StreamBridge;
use crate::codec;
use crate::codec::PreludeStep;
use crate::codec::RecordStep;
use crate::entry::Entry;
use crate::entry::ReaderEntry;
use crate::handle::HandleCell;
use crate::session::ArchiveHandle;
use crate::status::Error;
use crate::status::IOError;
use crate::stream::ByteSource;

verus! {

/// Mask bit: the tar-family container is accepted.
pub const ACCEPT_TAR: u32 = 0x1;

/// Mask bit: the zip container is accepted.
pub const ACCEPT_ZIP: u32 = 0x2;

/// Whether a read session with the given acceptance mask takes archives
/// of the given container code.
pub open spec fn spec_container_accepted(mask: u32, container: u8) -> bool {
    if container == codec::CONTAINER_TAR {
        mask & ACCEPT_TAR == ACCEPT_TAR
    } else if container == codec::CONTAINER_ZIP {
        mask & ACCEPT_ZIP == ACCEPT_ZIP
    } else {
        false
    }
}

/// Enables every container format and every filter the engine knows:
/// the acceptance mask with every bit set.
pub fn allow_all_formats() -> (m: u32)
    ensures
        forall|container: u8|
            #[trigger] spec_container_accepted(m, container) == (container == codec::CONTAINER_TAR
                || container == codec::CONTAINER_ZIP),
{
    let m = ACCEPT_TAR | ACCEPT_ZIP;
    proof {
        assert((ACCEPT_TAR | ACCEPT_ZIP) & ACCEPT_TAR == ACCEPT_TAR) by (bit_vector);
        assert((ACCEPT_TAR | ACCEPT_ZIP) & ACCEPT_ZIP == ACCEPT_ZIP) by (bit_vector);
    }
    m
}

/// Where the iteration stands.
#[derive(Clone, Copy, Debug, PartialEq, Eq, Structural)]
pub enum ReaderState {
    /// Open; members may still follow.
    Opened,
    /// The archive ended; every later `next` stays at the end.
    Exhausted,
    /// A fatal condition was met; the session takes no further work.
    Dead,
}

/// A read session over a byte source.
pub struct Reader<S: ByteSource> {
    bridge: StreamBridge<S>,
    window: Vec<u8>,
    state: ReaderState,
    cell: HandleCell,
    error: Option<String>,
    container: u8,
    filter: u8,
}

impl<S: ByteSource> Reader<S> {
    /// Well-formed: the bridge buffer is intact and the native handle is
    /// still owned and unreleased.
    pub closed spec fn wf(&self) -> bool {
        &&& self.bridge.wf()
        &&& self.cell.wf()
        &&& self.cell.is_live()
        &&& self.cell.refs() == 1
        &&& (self.state == ReaderState::Exhausted ==> self.unread().len() == 0)
    }

    /// Where the iteration stands.
    pub closed spec fn state(&self) -> ReaderState {
        self.state
    }

    /// The archive bytes not yet decoded: what has been buffered plus
    /// what the source still holds.
    pub closed spec fn unread(&self) -> Seq<u8> {
        self.window@ + self.bridge.stream()
    }

    /// The bytes already buffered but not yet decoded.
    pub closed spec fn buffered(&self) -> Seq<u8> {
        self.window@
    }

    /// The container code the prelude carried.
    pub closed spec fn container_model(&self) -> u8 {
        self.container
    }

    /// The filter code the prelude carried.
    pub closed spec fn filter_model(&self) -> u8 {
        self.filter
    }

    /// The container code the prelude carried.
    pub fn container(&self) -> (r: u8)
        ensures
            r == self.container_model(),
    {
        self.container
    }

    /// The filter code the prelude carried.
    pub fn filter(&self) -> (r: u8)
        ensures
            r == self.filter_model(),
    {
        self.filter
    }

    /// Opens a read session over a byte source, with every container
    /// format and filter enabled.  The prelude is read and checked here;
    /// whatever goes wrong — the source failing, the archive ending
    /// early, a foreign or unaccepted prelude — the partially built
    /// session is released before `Open` is returned.
    pub fn open_stream(source: S) -> (r: Result<Reader<S>, Error>)
        ensures
            match r {
                Result::Ok(rd) => {
                    &&& rd.wf()
                    &&& rd.state() == ReaderState::Opened
                    &&& spec_check_prelude_done(source.stream(), rd.container_model(), rd.filter_model())
                    &&& rd.unread() == source.stream().skip(codec::PRELUDE_LEN as int)
                    &&& rd.error_model() is None
                },
                Result::Err(e) => e == Error::Open,
            },
            codec::spec_check_prelude(source.stream()) is Bad ==> r is Err,
    {
        let ghost s = source.stream();
        let mut cell = HandleCell::new();
        let mask = allow_all_formats();
        let mut bridge = StreamBridge::new(source);
        let mut window: Vec<u8> = Vec::new();
        loop
            invariant
                bridge.wf(),
                cell.wf(),
                cell.is_live(),
                cell.refs() == 1,
                s == source.stream(),
                window@ + bridge.stream() == s,
                bridge.error_model() is None,
                codec::spec_check_prelude(window@) is Incomplete,
            decreases bridge.stream().len(),
        {
            let pulled = bridge.pull();
            if pulled <= 0 {
                // The source failed or the bytes ran out before a whole
                // prelude arrived: release the handle, then report.
                cell.release();
                return Err(Error::Open);
            }
            let chunk = bridge.copy_out(pulled as usize);
            codec::push_bytes(&mut window, &chunk);
            proof {
                assert(window@ + bridge.stream() =~= s);
            }
            match codec::check_prelude(&window) {
                PreludeStep::Incomplete => {
                },
                PreludeStep::Bad => {
                    cell.release();
                    proof {
                        codec::lemma_check_prelude_extend(window@, bridge.stream());
                        assert(window@ + bridge.stream() =~= s);
                    }
                    return Err(Error::Open);
                },
                PreludeStep::Done(container, filter) => {
                    proof {
                        codec::lemma_check_prelude_extend(window@, bridge.stream());
                        assert(window@ + bridge.stream() =~= s);
                    }
                    if !container_accepted(mask, container) {
                        cell.release();
                        return Err(Error::Open);
                    }
                    let rest = window.split_off(codec::PRELUDE_LEN);
                    let rd = Reader {
                        bridge,
                        window: rest,
                        state: ReaderState::Opened,
                        cell,
                        error: None,
                        container,
                        filter,
                    };
                    proof {
                        assert(rd.unread() =~= s.skip(codec::PRELUDE_LEN as int));
                    }
                    return Ok(rd);
                },
            }
        }
    }

    /// Advances to the next member and yields it whole: a transient view
    /// carrying the decoded metadata and payload, valid until the next
    /// advance.  `Ok(None)` is the end of the archive — idempotently: at
    /// the end, every further call yields `Ok(None)` again and moves
    /// nothing.  A fatal condition — the source failing, or input left
    /// over that no record completes — yields the error and poisons the
    /// session; it never panics.
    pub fn next(&mut self) -> (r: Result<Option<ReaderEntry>, IOError>)
        requires
            old(self).wf(),
        ensures
            final(self).wf(),
            final(self).container_model() == old(self).container_model(),
            final(self).filter_model() == old(self).filter_model(),
            match r {
                Result::Ok(Option::Some(e)) => {
                    &&& old(self).state() == ReaderState::Opened
                    &&& codec::spec_decode_record(old(self).unread()) matches RecordStep::Done(
                        m,
                        p,
                        used,
                    ) && m == e.entry_model() && p == e.payload_model() && final(self).unread()
                        == old(self).unread().skip(used)
                    &&& e.wf()
                    &&& e.consumed() == 0
                    &&& final(self).state() == ReaderState::Opened
                },
                Result::Ok(Option::None) => {
                    &&& final(self).state() == ReaderState::Exhausted
                    &&& final(self).unread().len() == 0
                    &&& (old(self).state() == ReaderState::Opened ==> old(self).unread().len()
                        == 0)
                    &&& (old(self).state() == ReaderState::Exhausted ==> final(self).unread()
                        == old(self).unread())
                },
                Result::Err(io) => {
                    &&& io == IOError::Fatal
                    &&& final(self).state() == ReaderState::Dead
                    &&& old(self).state() != ReaderState::Exhausted
                },
            },
            old(self).state() == ReaderState::Exhausted ==> r == Result::<
                Option<ReaderEntry>,
                IOError,
            >::Ok(Option::None),
            old(self).state() == ReaderState::Dead ==> r is Err,
            (old(self).state() == ReaderState::Opened && codec::spec_decode_record(
                old(self).buffered(),
            ) is Done) ==> r matches Result::Ok(Option::Some(_)),
    {
        match self.state {
            ReaderState::Dead => {
                return Err(IOError::Fatal);
            },
            ReaderState::Exhausted => {
                return Ok(None);
            },
            ReaderState::Opened => {
            },
        }
        let ghost start = self.unread();
        let ghost start_window = self.window@;
        let mut first: bool = true;
        loop
            invariant
                self.wf(),
                self.state == ReaderState::Opened,
                old(self).state() == ReaderState::Opened,
                self.container == old(self).container,
                self.filter == old(self).filter,
                start == old(self).unread(),
                start_window == old(self).buffered(),
                self.unread() == start,
                first ==> self.window@ == start_window,
                !first ==> !(codec::spec_decode_record(start_window) is Done),
            decreases self.bridge.stream().len(),
        {
            let step = codec::decode_record(&self.window);
            match step {
                Option::Some((data, payload, used)) => {
                    proof {
                        codec::lemma_decode_record_extend(self.window@, self.bridge.stream());
                        assert(self.window@ + self.bridge.stream() =~= start);
                    }
                    let rest = self.window.split_off(used);
                    self.window = rest;
                    proof {
                        assert(self.unread() =~= start.skip(used as int));
                    }
                    return Ok(Some(ReaderEntry::new(data, payload)));
                },
                Option::None => {
                    proof {
                        if first {
                            assert(!(codec::spec_decode_record(start_window) is Done));
                        }
                    }
                    first = false;
                    let pulled = self.bridge.pull();
                    if pulled == -1 {
                        self.state = ReaderState::Dead;
                        return Err(IOError::Fatal);
                    }
                    if pulled == 0 {
                        if self.window.len() == 0 {
                            proof {
                                assert(start =~= Seq::<u8>::empty());
                            }
                            self.state = ReaderState::Exhausted;
                            return Ok(None);
                        }
                        // Input is left over that no record completes:
                        // the archive is truncated.
                        self.error = Some("truncated archive".to_owned());
                        self.state = ReaderState::Dead;
                        return Err(IOError::Fatal);
                    }
                    let chunk = self.bridge.copy_out(pulled as usize);
                    codec::push_bytes(&mut self.window, &chunk);
                    proof {
                        assert(self.window@ + self.bridge.stream() =~= start);
                    }
                },
            }
        }
    }

    /// Closes the session: the one owning reference goes, so the native
    /// handle is released — exactly once, as the spent cell shows.
    pub fn close(self) -> (c: HandleCell)
        requires
            self.wf(),
        ensures
            c.wf(),
            c.refs() == 0,
            c.releases() == 1,
    {
        let Reader { bridge, cell, .. } = self;
        let mut cell = cell;
        let _ = bridge.close();
        cell.release();
        cell
    }
}

/// Whether a session with the given acceptance mask takes the container.
fn container_accepted(mask: u32, container: u8) -> (r: bool)
    ensures
        r == spec_container_accepted(mask, container),
{
    if container == codec::CONTAINER_TAR {
        mask & ACCEPT_TAR == ACCEPT_TAR
    } else if container == codec::CONTAINER_ZIP {
        mask & ACCEPT_ZIP == ACCEPT_ZIP
    } else {
        false
    }
}

/// The prelude of `s` is valid and carries the given codes.
pub open spec fn spec_check_prelude_done(s: Seq<u8>, container: u8, filter: u8) -> bool {
    codec::spec_check_prelude(s) == PreludeStep::Done(container, filter)
}

impl<S: ByteSource> ArchiveHandle for Reader<S> {
    closed spec fn error_model(&self) -> Option<Seq<char>> {
        match self.error {
            Option::Some(msg) => Option::Some(msg@),
            Option::None => match self.bridge.error_model() {
                Option::Some(e) => Option::Some(e.message@),
                Option::None => Option::None,
            },
        }
    }

    fn is_error(&self) -> (r: bool) {
        if self.error.is_some() {
            true
        } else {
            self.bridge_error_present()
        }
    }

    fn error_string(&self) -> (r: String) {
        match &self.error {
            Option::Some(msg) => msg.clone(),
            Option::None => self.bridge_error_string(),
        }
    }
}

impl<S: ByteSource> Reader<S> {
    /// Whether the bridge has recorded a source failure.
    fn bridge_error_present(&self) -> (r: bool)
        ensures
            r == (self.bridge.error_model() is Some),
    {
        self.bridge.error_present()
    }

    /// The description the bridge recorded, empty when none.
    fn bridge_error_string(&self) -> (r: String)
        ensures
            match self.bridge.error_model() {
                Option::Some(e) => r@ == e.message@,
                Option::None => r@ == Seq::<char>::empty(),
            },
    {
        self.bridge.error_message()
    }
}

} // verus!
