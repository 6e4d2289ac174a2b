//! A framing layer over non-blocking byte transports.
//!
//! The crate converts between raw byte streams and discrete message frames.
//! A read pump pulls bytes from a transport into a buffer and asks a decoder
//! for complete frames; a write pump serializes outbound frames into a buffer
//! and drains it with backpressure. On top of the generic machinery sits a
//! configurable length-delimited codec.

use vstd::prelude::*;

pub mod buffer;
pub mod codec;
pub mod framed;
pub mod framed_write;
pub mod length_delimited;
pub mod mock;

verus! {

/// The error kinds surfaced by the framing layer.
///
/// `WouldBlock` never escapes a pump: it is absorbed into `NotReady`.
#[derive(Clone, Copy, Debug, PartialEq, Eq, Structural)]
pub enum ErrorKind {
    /// A transport operation cannot make progress right now.
    WouldBlock,
    /// The transport reached end of input while a partial frame remained.
    UnexpectedEof,
    /// Malformed inbound data: oversized frame, bad varint, negative length.
    InvalidData,
    /// An outbound payload that cannot be represented in the length field.
    InvalidInput,
    /// The transport accepted zero bytes without signalling `WouldBlock`.
    WriteZero,
    /// Any other failure.
    Other,
}

/// The result of a polling operation: either a value, or a signal that the
/// task should be re-polled once the transport is ready.
#[derive(Debug, PartialEq)]
pub enum Async<T> {
    /// The operation completed with a value.
    Ready(T),
    /// No progress could be made; poll again later.
    NotReady,
}

impl<T> Async<T> {
    /// True exactly when this is `Ready`.
    pub fn is_ready(&self) -> (r: bool)
        ensures
            r == (self matches Async::Ready(_)),
    {
        match self {
            Async::Ready(_) => true,
            Async::NotReady => false,
        }
    }
}

/// The outcome handed back by `start_send`: the frame was accepted into the
/// write buffer, or the sink is over its backpressure boundary and returns
/// the frame to the caller.
#[derive(Debug, PartialEq)]
pub enum AsyncSink {
    /// The frame was accepted and buffered.
    Ready,
    /// The sink is full; the frame is handed back to be retried later.
    NotReady(Vec<u8>),
}

impl AsyncSink {
    /// True exactly when the frame was accepted.
    pub fn is_ready(&self) -> (r: bool)
        ensures
            r == (self matches AsyncSink::Ready),
    {
        match self {
            AsyncSink::Ready => true,
            AsyncSink::NotReady(_) => false,
        }
    }
}

/// What one non-blocking read produced.
pub enum ReadChunk {
    /// Bytes were available. An empty chunk signals end of input.
    Data(Vec<u8>),
    /// The transport cannot produce bytes right now.
    WouldBlock,
    /// The transport failed.
    Fail(ErrorKind),
}

/// What one non-blocking write produced.
pub enum WriteOutcome {
    /// The transport accepted this many bytes from the front of the source.
    Wrote(usize),
    /// The transport cannot accept bytes right now.
    WouldBlock,
    /// The transport failed.
    Fail(ErrorKind),
}

/// What a flush produced.
pub enum FlushOutcome {
    /// All buffered bytes reached their destination.
    Flushed,
    /// The transport cannot flush right now.
    WouldBlock,
    /// The transport failed.
    Fail(ErrorKind),
}

/// The model of one scripted transport event: a chunk of bytes, an expected
/// flush, or a failure (`Fail(WouldBlock)` models a transport that is
/// temporarily not ready).
pub enum Ev {
    /// Bytes arriving from, or expected by, the transport.
    Data(Seq<u8>),
    /// An expected flush.
    Flush,
    /// A failure outcome.
    Fail(ErrorKind),
}

/// How one call to `read_chunk` relates the transport's event script before
/// (`s0`) and after (`s1`) to its result `r`: the head event is consumed and
/// reported; an exhausted script reports end of input forever.
pub open spec fn read_chunk_post(s0: Seq<Ev>, s1: Seq<Ev>, r: ReadChunk) -> bool {
    if s0.len() == 0 {
        &&& s1 == s0
        &&& r matches ReadChunk::Data(d) && d@ =~= Seq::<u8>::empty()
    } else {
        &&& s1 == s0.skip(1)
        &&& match s0[0] {
            Ev::Data(d) => r matches ReadChunk::Data(v) && v@ == d,
            Ev::Flush => r matches ReadChunk::Fail(e) && e == ErrorKind::Other,
            Ev::Fail(e) => {
                if e == ErrorKind::WouldBlock {
                    r matches ReadChunk::WouldBlock
                } else {
                    r matches ReadChunk::Fail(e2) && e2 == e
                }
            },
        }
    }
}

/// How one call to `write` relates the script before and after to the bytes
/// offered (`src`) and the result: a `Data` head that is a prefix of `src` is
/// accepted whole; an exhausted script accepts zero bytes.
pub open spec fn write_post(s0: Seq<Ev>, s1: Seq<Ev>, src: Seq<u8>, r: WriteOutcome) -> bool {
    if s0.len() == 0 {
        &&& s1 == s0
        &&& r matches WriteOutcome::Wrote(n) && n == 0
    } else {
        &&& s1 == s0.skip(1)
        &&& match s0[0] {
            Ev::Data(d) => {
                if d.len() <= src.len() && src.take(d.len() as int) == d {
                    r matches WriteOutcome::Wrote(n) && n == d.len()
                } else {
                    r matches WriteOutcome::Fail(e) && e == ErrorKind::Other
                }
            },
            Ev::Flush => r matches WriteOutcome::Fail(e) && e == ErrorKind::Other,
            Ev::Fail(e) => {
                if e == ErrorKind::WouldBlock {
                    r matches WriteOutcome::WouldBlock
                } else {
                    r matches WriteOutcome::Fail(e2) && e2 == e
                }
            },
        }
    }
}

/// How one call to `flush` relates the script before and after to the result:
/// an expected `Flush` head succeeds, and an exhausted script is a no-op.
pub open spec fn flush_post(s0: Seq<Ev>, s1: Seq<Ev>, r: FlushOutcome) -> bool {
    if s0.len() == 0 {
        &&& s1 == s0
        &&& r matches FlushOutcome::Flushed
    } else {
        &&& s1 == s0.skip(1)
        &&& match s0[0] {
            Ev::Data(_) => r matches FlushOutcome::Fail(e) && e == ErrorKind::Other,
            Ev::Flush => r matches FlushOutcome::Flushed,
            Ev::Fail(e) => {
                if e == ErrorKind::WouldBlock {
                    r matches FlushOutcome::WouldBlock
                } else {
                    r matches FlushOutcome::Fail(e2) && e2 == e
                }
            },
        }
    }
}

/// A readable transport that operates in a non-blocking fashion.
///
/// Each call to `read_chunk` observes the next transport event: some bytes, a
/// not-ready signal, or a failure. A zero-byte chunk signals end of input.
/// The contract is phrased over `read_script`, the sequence of events the
/// transport will produce, so that callers can reason about exactly which
/// bytes they were handed and in what order.
pub trait AsyncRead: Sized {
    /// The events this transport will produce, in order. Once the script is
    /// exhausted the transport reports end of input forever.
    spec fn read_script(&self) -> Seq<Ev>;

    /// Observe the next read event.
    fn read_chunk(&mut self) -> (r: ReadChunk)
        ensures
            read_chunk_post(old(self).read_script(), final(self).read_script(), r),
    ;
}

/// A writable transport that operates in a non-blocking fashion.
///
/// Each call to `write` offers bytes and learns how many the transport
/// accepted from the front; `flush` pushes buffered bytes to their
/// destination. The contract is phrased over `write_script`, the sequence of
/// events the transport expects.
pub trait AsyncWrite: Sized {
    /// The events this transport expects, in order.
    spec fn write_script(&self) -> Seq<Ev>;

    /// Offer the bytes of `src`; the transport accepts some prefix.
    fn write(&mut self, src: &[u8]) -> (r: WriteOutcome)
        requires
            src@.len() > 0,
        ensures
            write_post(old(self).write_script(), final(self).write_script(), src@, r),
    ;

    /// Push previously accepted bytes to their destination.
    fn flush(&mut self) -> (r: FlushOutcome)
        ensures
            flush_post(old(self).write_script(), final(self).write_script(), r),
    ;

    /// Gracefully close the write side. No event is consumed.
    fn shutdown(&mut self) -> (r: FlushOutcome)
        ensures
            final(self).write_script() == old(self).write_script(),
    ;
}

} // verus!
