//! The stream bridge.
//!
//! The engine reads through three fixed-shape callbacks: pull bytes into
//! a buffer owned by the bridge, skip forward, and close.  The bridge
//! adapts any [`ByteSource`] to that contract: one pull per source read —
//! short reads are passed through, never merged or dropped — with `-1`
//! reported and a description recorded when the source fails, and `0`
//! reported for a skip so the engine falls back to sequential reads.
//! The same buffer is reused across pulls; nothing holds a pointer into
//! it past the next pull.

use vstd::prelude::*;

use crate::stream::ByteSource;
use crate::stream::StreamError;

verus! {

/// How many bytes one pull can move at most.
pub const BRIDGE_BUFFER_LEN: usize = 8192;

/// The bridge between one byte source and the engine's pull callbacks.
pub struct StreamBridge<S> {
    source: S,
    buffer: Vec<u8>,
    error: Option<StreamError>,
}

impl<S: ByteSource> StreamBridge<S> {
    /// Well-formed: the buffer keeps its fixed length for the whole
    /// session.
    pub closed spec fn wf(&self) -> bool {
        self.buffer@.len() == BRIDGE_BUFFER_LEN
    }

    /// The bytes the wrapped source has not yet delivered.
    pub closed spec fn stream(&self) -> Seq<u8> {
        self.source.stream()
    }

    /// The bytes the buffer holds.
    pub closed spec fn data(&self) -> Seq<u8> {
        self.buffer@
    }

    /// The recorded error, if a pull has failed.
    pub closed spec fn error_model(&self) -> Option<StreamError> {
        self.error
    }

    /// Wraps a source, with a fresh buffer and no error recorded.
    pub fn new(source: S) -> (r: StreamBridge<S>)
        ensures
            r.wf(),
            r.stream() == source.stream(),
            r.error_model() is None,
    {
        let mut buffer: Vec<u8> = Vec::new();
        let mut i: usize = 0;
        while i < BRIDGE_BUFFER_LEN
            invariant
                i <= BRIDGE_BUFFER_LEN,
                buffer@.len() == i,
            decreases BRIDGE_BUFFER_LEN - i,
        {
            buffer.push(0);
            i = i + 1;
        }
        StreamBridge { source, buffer, error: None }
    }

    /// One read of the wrapped source into the bridge's buffer: the count
    /// that the source reported, or the error it surfaced.
    fn read_bytes(&mut self) -> (r: Result<usize, StreamError>)
        requires
            old(self).wf(),
        ensures
            final(self).wf(),
            final(self).error_model() == old(self).error_model(),
            match r {
                Result::Ok(n) => {
                    &&& n <= BRIDGE_BUFFER_LEN
                    &&& n <= old(self).stream().len()
                    &&& final(self).data().take(n as int) == old(self).stream().take(n as int)
                    &&& final(self).stream() == old(self).stream().skip(n as int)
                    &&& (n == 0 ==> old(self).stream().len() == 0)
                },
                Result::Err(_) => final(self).stream() == old(self).stream(),
            },
    {
        let r = self.source.read(&mut self.buffer);
        proof {
            if let Result::Ok(n) = r {
                assert(self.buffer@.take(n as int) =~= old(self).source.stream().take(n as int));
            }
        }
        r
    }

    /// The pull callback: reads once, reports the byte count, or reports
    /// `-1` with the failure recorded for the session's error channel.
    /// One source read makes exactly one report.
    pub fn pull(&mut self) -> (r: i64)
        requires
            old(self).wf(),
        ensures
            final(self).wf(),
            -1 <= r <= BRIDGE_BUFFER_LEN,
            r >= 0 ==> {
                &&& r <= old(self).stream().len()
                &&& final(self).data().take(r as int) == old(self).stream().take(r as int)
                &&& final(self).stream() == old(self).stream().skip(r as int)
                &&& final(self).error_model() == old(self).error_model()
                &&& (r == 0 ==> old(self).stream().len() == 0)
            },
            r == -1 ==> {
                &&& final(self).stream() == old(self).stream()
                &&& final(self).error_model() is Some
            },
    {
        match self.read_bytes() {
            Result::Ok(n) => n as i64,
            Result::Err(e) => {
                self.error = Some(e);
                -1
            },
        }
    }

    /// The skip callback.  The wrapped source offers no seeking, so every
    /// request reports zero bytes skipped, which makes the engine fall
    /// back to sequential reads rather than fail.
    pub fn skip(&mut self, request: i64) -> (r: i64)
        ensures
            r == 0,
            *final(self) == *old(self),
    {
        let _ = request;
        0
    }

    /// Copies the first `n` buffered bytes out, as the engine does after
    /// a pull reported `n`.
    pub fn copy_out(&self, n: usize) -> (r: Vec<u8>)
        requires
            self.wf(),
            n <= BRIDGE_BUFFER_LEN,
        ensures
            r@ == self.data().take(n as int),
    {
        let mut r: Vec<u8> = Vec::new();
        let mut i: usize = 0;
        while i < n
            invariant
                i <= n,
                n <= self.buffer@.len(),
                r@ == self.buffer@.subrange(0, i as int),
            decreases n - i,
        {
            r.push(self.buffer[i]);
            i = i + 1;
            proof {
                assert(r@ =~= self.buffer@.subrange(0, i as int));
            }
        }
        proof {
            assert(r@ =~= self.data().take(n as int));
        }
        r
    }

    /// Whether a pull has recorded a source failure.
    pub fn error_present(&self) -> (r: bool)
        ensures
            r == (self.error_model() is Some),
    {
        self.error.is_some()
    }

    /// The description of the recorded failure, empty when none.
    pub fn error_message(&self) -> (r: String)
        ensures
            match self.error_model() {
                Option::Some(e) => r@ == e.message@,
                Option::None => r@ == Seq::<char>::empty(),
            },
    {
        match &self.error {
            Option::Some(e) => e.message.clone(),
            Option::None => String::new(),
        }
    }

    /// The close callback: releases what the bridge owns and hands the
    /// wrapped source back.  The session handle itself is not touched.
    pub fn close(self) -> (r: S)
        ensures
            r.stream() == self.stream(),
    {
        self.source
    }
}

} // verus!
