//! Byte sources and byte sinks.
//!
//! A session that is not bound to a named file reads from a [`ByteSource`]
//! or writes to a [`ByteSink`]: any object that can deliver or accept a
//! bounded number of bytes per call.  Both traits model the object as the
//! byte sequence it still holds or has accepted so far; a call may move
//! fewer bytes than asked — a short read or short write — or surface an
//! error, and the contracts state exactly what each outcome means.
//!
//! [`SliceSource`] and [`VecSink`] are the crate's own implementations
//! over in-memory bytes; callers may bring any other implementation.

use vstd::prelude::*;

verus! {

/// An error surfaced by a source or sink, with a description for the
/// session's error channel.  A fatal error poisons the whole session.
pub struct StreamError {
    pub fatal: bool,
    pub message: String,
}

/// A readable byte stream: each call delivers a prefix of the bytes the
/// stream still holds.
pub trait ByteSource {
    /// The bytes the source has not yet delivered.
    spec fn stream(&self) -> Seq<u8>;

    /// Reads up to `buf.len()` bytes into the front of `buf` and returns
    /// how many arrived.  Zero means the stream is exhausted (unless the
    /// buffer itself is empty); an error leaves the stream as it was.
    fn read(&mut self, buf: &mut Vec<u8>) -> (r: Result<usize, StreamError>)
        ensures
            final(buf)@.len() == old(buf)@.len(),
            match r {
                Result::Ok(n) => {
                    &&& n <= old(buf)@.len()
                    &&& n <= old(self).stream().len()
                    &&& final(buf)@ == old(self).stream().take(n as int) + old(buf)@.skip(n as int)
                    &&& final(self).stream() == old(self).stream().skip(n as int)
                    &&& (n == 0 ==> old(self).stream().len() == 0 || old(buf)@.len() == 0)
                },
                Result::Err(_) => {
                    &&& final(self).stream() == old(self).stream()
                    &&& final(buf)@ == old(buf)@
                },
            },
    ;
}

/// A writable byte stream: each call accepts a prefix of the bytes
/// offered.
pub trait ByteSink {
    /// The bytes the sink has accepted so far.
    spec fn accepted(&self) -> Seq<u8>;

    /// Writes a prefix of `data` and returns how many bytes the sink
    /// accepted.  A sink that can make no progress at all reports an
    /// error instead; an error leaves the sink as it was.
    fn write(&mut self, data: &[u8]) -> (r: Result<usize, StreamError>)
        ensures
            match r {
                Result::Ok(n) => {
                    &&& n <= data@.len()
                    &&& (data@.len() > 0 ==> 1 <= n)
                    &&& final(self).accepted() == old(self).accepted() + data@.take(n as int)
                },
                Result::Err(_) => final(self).accepted() == old(self).accepted(),
            },
    ;
}

/// A source that reads an in-memory byte string front to back.
pub struct SliceSource {
    data: Vec<u8>,
    pos: usize,
}

impl SliceSource {
    /// Positions are always inside the data.
    #[verifier::type_invariant]
    closed spec fn wf(&self) -> bool {
        self.pos <= self.data@.len()
    }

    /// A source over the given bytes.
    pub fn new(data: Vec<u8>) -> (r: SliceSource)
        ensures
            r.stream() == data@,
    {
        SliceSource { data, pos: 0 }
    }
}

impl ByteSource for SliceSource {
    closed spec fn stream(&self) -> Seq<u8> {
        if self.pos <= self.data@.len() {
            self.data@.skip(self.pos as int)
        } else {
            Seq::empty()
        }
    }

    fn read(&mut self, buf: &mut Vec<u8>) -> (r: Result<usize, StreamError>) {
        proof {
            use_type_invariant(&*self);
        }
        let rem = self.data.len() - self.pos;
        let n = if buf.len() < rem {
            buf.len()
        } else {
            rem
        };
        let mut i: usize = 0;
        while i < n
            invariant
                i <= n,
                self.pos + n <= self.data@.len(),
                self.data@.len() <= usize::MAX,
                buf@.len() == old(buf)@.len(),
                n <= buf@.len(),
                forall|j: int| 0 <= j < i ==> buf@[j] == self.data@[self.pos + j],
                forall|j: int| i <= j < buf@.len() ==> buf@[j] == old(buf)@[j],
            decreases n - i,
        {
            let b = self.data[self.pos + i];
            buf.set(i, b);
            i = i + 1;
        }
        proof {
            assert(buf@ =~= self.stream().take(n as int) + old(buf)@.skip(n as int));
            assert(self.data@.skip(self.pos + n as int) =~= self.stream().skip(n as int));
        }
        self.pos = self.pos + n;
        Ok(n)
    }
}

/// A sink that appends everything it is offered to an in-memory buffer.
pub struct VecSink {
    out: Vec<u8>,
}

impl VecSink {
    /// An empty sink.
    pub fn new() -> (r: VecSink)
        ensures
            r.accepted() == Seq::<u8>::empty(),
    {
        VecSink { out: Vec::new() }
    }

    /// The bytes accepted so far.
    pub fn bytes(&self) -> (r: &Vec<u8>)
        ensures
            r@ == self.accepted(),
    {
        &self.out
    }

    /// Hands the accepted bytes over.
    pub fn into_bytes(self) -> (r: Vec<u8>)
        ensures
            r@ == self.accepted(),
    {
        self.out
    }
}

impl ByteSink for VecSink {
    closed spec fn accepted(&self) -> Seq<u8> {
        self.out@
    }

    fn write(&mut self, data: &[u8]) -> (r: Result<usize, StreamError>) {
        let n = data.len();
        let mut i: usize = 0;
        while i < n
            invariant
                i <= n,
                n == data@.len(),
                self.out@ == old(self).out@ + data@.subrange(0, i as int),
            decreases n - i,
        {
            let b = *vstd::slice::slice_index_get(data, i);
            self.out.push(b);
            i = i + 1;
            proof {
                assert(self.out@ =~= old(self).out@ + data@.subrange(0, i as int));
            }
        }
        proof {
            assert(self.out@ =~= old(self).out@ + data@.take(n as int));
        }
        Ok(n)
    }
}

} // verus!
