//! The fused bidirectional adaptor: one transport, one codec that both
//! encodes and decodes, exposed as a frame stream and a frame sink.

use vstd::prelude::*;

use crate::buffer::{buf_len, buf_model, buf_new, buf_put_slice};
use crate::codec::{Decoder, Encoder};
use crate::framed_write::{drain_model, framed_write2, lemma_drain_done_empty, wres_matches,
    FramedWrite2, WRes, BACKPRESSURE_BOUNDARY};
use crate::{Async, AsyncRead, AsyncSink, AsyncWrite, ErrorKind, Ev, FlushOutcome, ReadChunk,
    WriteOutcome};

verus! {

/// One transport fused with one codec, so that the read and write sides
/// can share both without splitting them.
pub struct Fuse<T, U>(pub T, pub U);

/// A unified frame stream and sink over one transport, using a codec that
/// is both an encoder and a decoder.
///
/// The write pump wraps the fused transport and codec; the read side, with
/// its own buffer, sits on top and reaches the same fused value.
pub struct Framed<T, U> {
    /// The write pump over the fused transport and codec.
    pub inner: FramedWrite2<Fuse<T, U>>,
    /// Bytes received but not yet consumed by the decoder.
    pub read_buffer: bytes::BytesMut,
    /// Whether end of input has been observed.
    pub eof: bool,
}

/// A `Framed` over `inner` using `codec`, with empty buffers.
pub fn framed<T: AsyncRead + AsyncWrite, U: Decoder + Encoder>(inner: T, codec: U) -> (r: Framed<
    T,
    U,
>)
    ensures
        r.inner.inner.0 == inner,
        r.inner.inner.1 == codec,
        buf_model(r.read_buffer) =~= Seq::<u8>::empty(),
        buf_model(r.inner.buffer) =~= Seq::<u8>::empty(),
        r.eof == false,
{
    Framed { inner: framed_write2(Fuse(inner, codec)), read_buffer: buf_new(), eof: false }
}

impl<T: AsyncRead + AsyncWrite, U: Decoder + Encoder> Framed<T, U> {
    /// Polls for the next inbound frame: decode if possible, otherwise
    /// pull bytes from the transport and try again. End of input triggers
    /// the final decode; a clean end yields `Ready(None)` with an empty
    /// buffer, and bytes that no frame claims are an error. Bytes are
    /// never lost: when the pump suspends, everything received so far is
    /// still buffered.
    pub fn poll(&mut self) -> (r: Result<Async<Option<bytes::BytesMut>>, ErrorKind>)
        ensures
            exists|k: int|
                0 <= k <= old(self).inner.inner.read_script().len()
                    && final(self).inner.inner.read_script()
                    == old(self).inner.inner.read_script().skip(k),
            r matches Ok(Async::Ready(None)) ==> buf_model(final(self).read_buffer).len() == 0
                && final(self).eof,
            r matches Ok(Async::NotReady) ==> (buf_model(old(self).read_buffer).is_prefix_of(
                buf_model(final(self).read_buffer),
            ) && final(self).eof == false && (exists|k: int|
                0 <= k < old(self).inner.inner.read_script().len()
                    && final(self).inner.inner.read_script()
                    == old(self).inner.inner.read_script().skip(k + 1)
                    && old(self).inner.inner.read_script()[k] == Ev::Fail(ErrorKind::WouldBlock))),
    {
        let ghost b_entry = buf_model(self.read_buffer);
        let ghost sc_entry = self.inner.inner.0.read_script();
        proof {
            assert(sc_entry.skip(0) =~= sc_entry);
        }
        let mut out: Option<Result<Async<Option<bytes::BytesMut>>, ErrorKind>> = None;
        loop
            invariant_except_break
                out matches None,
                b_entry.is_prefix_of(buf_model(self.read_buffer)),
                exists|k: int|
                    0 <= k <= sc_entry.len() && self.inner.inner.0.read_script()
                        == sc_entry.skip(k),
            ensures
                out matches Some(r2),
                exists|k: int|
                    0 <= k <= sc_entry.len() && self.inner.inner.0.read_script()
                        == sc_entry.skip(k),
                (out matches Some(r2) && r2 matches Ok(Async::Ready(None))) ==> buf_model(
                    self.read_buffer,
                ).len() == 0 && self.eof,
                (out matches Some(r2) && r2 matches Ok(Async::NotReady)) ==> (b_entry.is_prefix_of(
                    buf_model(self.read_buffer),
                ) && self.eof == false && (exists|k: int|
                    0 <= k < sc_entry.len() && self.inner.inner.0.read_script() == sc_entry.skip(
                        k + 1,
                    ) && sc_entry[k] == Ev::Fail(ErrorKind::WouldBlock))),
            decreases self.inner.inner.0.read_script().len(), (if self.eof { 0int } else { 1int }),
        {
            if self.eof {
                let fr = self.inner.inner.1.eof(&mut self.read_buffer);
                out = Some(
                    match fr {
                        Ok(Some(b)) => Ok(Async::Ready(Some(b))),
                        Ok(None) => {
                            if buf_len(&self.read_buffer) == 0 {
                                Ok(Async::Ready(None))
                            } else {
                                Err(ErrorKind::Other)
                            }
                        },
                        Err(e) => Err(e),
                    },
                );
                break;
            }
            let d = self.inner.inner.1.decode(&mut self.read_buffer);
            match d {
                Ok(Some(b)) => {
                    out = Some(Ok(Async::Ready(Some(b))));
                    break;
                },
                Err(e) => {
                    out = Some(Err(e));
                    break;
                },
                Ok(None) => {},
            }
            let ghost sc0 = self.inner.inner.0.read_script();
            let ghost k0 = choose|k: int| 0 <= k <= sc_entry.len() && sc0 == sc_entry.skip(k);
            let ch = self.inner.inner.0.read_chunk();
            proof {
                if sc0.len() > 0 {
                    assert(sc_entry.skip(k0).skip(1) =~= sc_entry.skip(k0 + 1));
                    assert(sc0[0] == sc_entry[k0]);
                }
            }
            match ch {
                ReadChunk::Data(v) => {
                    if v.len() == 0 {
                        self.eof = true;
                    } else {
                        buf_put_slice(&mut self.read_buffer, v.as_slice());
                        proof {
                            assert(b_entry.is_prefix_of(buf_model(self.read_buffer)));
                        }
                    }
                },
                ReadChunk::WouldBlock => {
                    proof {
                        assert(sc0.len() > 0 && sc0[0] == Ev::Fail(ErrorKind::WouldBlock));
                        assert(k0 < sc_entry.len());
                    }
                    out = Some(Ok(Async::NotReady));
                    break;
                },
                ReadChunk::Fail(e) => {
                    out = Some(Err(e));
                    break;
                },
            }
        }
        proof {
            assert(sc_entry == old(self).inner.inner.read_script());
            let kw = choose|k: int|
                0 <= k <= sc_entry.len() && self.inner.inner.0.read_script() == sc_entry.skip(k);
            assert(self.inner.inner.read_script() == old(self).inner.inner.read_script().skip(
                kw,
            ));
            match out {
                Some(Ok(Async::NotReady)) => {
                    let kn = choose|k: int|
                        0 <= k < sc_entry.len() && self.inner.inner.0.read_script()
                            == sc_entry.skip(k + 1) && sc_entry[k] == Ev::Fail(
                            ErrorKind::WouldBlock,
                        );
                    assert(self.inner.inner.read_script() == old(
                        self,
                    ).inner.inner.read_script().skip(kn + 1));
                    assert(old(self).inner.inner.read_script()[kn] == Ev::Fail(
                        ErrorKind::WouldBlock,
                    ));
                },
                _ => {},
            }
        }
        match out {
            Some(r2) => r2,
            None => Err(ErrorKind::Other),
        }
    }

    /// Offers one outbound frame to the sink: below the backpressure
    /// boundary the frame is encoded and accepted; at or over it, one drain
    /// is attempted first and the frame is handed back, with nothing
    /// encoded, precisely when the buffer is still over the boundary.
    pub fn start_send(&mut self, item: Vec<u8>) -> (r: Result<AsyncSink, ErrorKind>)
        requires
            old(self).inner.inner.enc_wf(),
        ensures
            r matches Ok(AsyncSink::NotReady(it)) ==> it@ == item@,
            buf_model(old(self).inner.buffer).len() >= BACKPRESSURE_BOUNDARY ==> ({
                let dp = drain_model(buf_model(old(self).inner.buffer), old(self).inner.inner.write_script());
                match dp.res {
                    WRes::Bad(e) => r matches Err(e2) && e2 == e && buf_model(final(self).inner.buffer)
                        == dp.buf && final(self).inner.inner.write_script() == dp.script,
                    _ => {
                        if dp.buf.len() >= BACKPRESSURE_BOUNDARY {
                            r matches Ok(AsyncSink::NotReady(it)) && it@ == item@ && buf_model(
                                final(self).inner.buffer,
                            ) == dp.buf && final(self).inner.inner.write_script() == dp.script
                        } else {
                            (r matches Ok(AsyncSink::Ready) && (exists|s: Seq<u8>|
                                buf_model(final(self).inner.buffer) == dp.buf + s)) || (r matches Err(e2)
                                && buf_model(final(self).inner.buffer) == dp.buf)
                        }
                    },
                }
            }),
            buf_model(old(self).inner.buffer).len() < BACKPRESSURE_BOUNDARY ==> ({
                match old(self).inner.inner.encode_model(item@) {
                    Ok(s) => r matches Ok(AsyncSink::Ready) && buf_model(final(self).inner.buffer)
                        == buf_model(old(self).inner.buffer) + s,
                    Err(e) => r matches Err(e2) && e2 == e,
                }
            }),
    {
        self.inner.start_send(item)
    }

    /// Drains the outbound buffer to the transport and flushes it, exactly
    /// as [`drain_model`] describes; on `Ready` nothing is left buffered.
    pub fn poll_complete(&mut self) -> (r: Result<Async<()>, ErrorKind>)
        ensures
            ({
                let post = drain_model(
                    buf_model(old(self).inner.buffer),
                    old(self).inner.inner.write_script(),
                );
                &&& buf_model(final(self).inner.buffer) == post.buf
                &&& final(self).inner.inner.write_script() == post.script
                &&& wres_matches(post.res, r)
            }),
            r matches Ok(Async::Ready(u)) ==> buf_model(final(self).inner.buffer).len() == 0,
    {
        let r = self.inner.poll_complete();
        proof {
            lemma_drain_done_empty(
                buf_model(old(self).inner.buffer),
                old(self).inner.inner.write_script(),
            );
        }
        r
    }

    /// The underlying transport.
    pub fn get_ref(&self) -> (r: &T)
        ensures
            r == &self.inner.inner.0,
    {
        &self.inner.inner.0
    }
}

impl<T: AsyncRead, U> AsyncRead for Fuse<T, U> {
    open spec fn read_script(&self) -> Seq<Ev> {
        self.0.read_script()
    }

    fn read_chunk(&mut self) -> (r: ReadChunk) {
        self.0.read_chunk()
    }
}

impl<T: AsyncWrite, U> AsyncWrite for Fuse<T, U> {
    open spec fn write_script(&self) -> Seq<Ev> {
        self.0.write_script()
    }

    fn write(&mut self, src: &[u8]) -> (r: WriteOutcome) {
        self.0.write(src)
    }

    fn flush(&mut self) -> (r: FlushOutcome) {
        self.0.flush()
    }

    fn shutdown(&mut self) -> (r: FlushOutcome) {
        self.0.shutdown()
    }
}

impl<T, U: Decoder> Decoder for Fuse<T, U> {
    fn decode(&mut self, src: &mut bytes::BytesMut) -> (r: Result<
        Option<bytes::BytesMut>,
        ErrorKind,
    >) {
        self.1.decode(src)
    }

    fn eof(&mut self, src: &mut bytes::BytesMut) -> (r: Result<
        Option<bytes::BytesMut>,
        ErrorKind,
    >) {
        self.1.eof(src)
    }
}

impl<T, U: Encoder> Encoder for Fuse<T, U> {
    open spec fn enc_wf(&self) -> bool {
        self.1.enc_wf()
    }

    open spec fn encode_model(&self, item: Seq<u8>) -> Result<Seq<u8>, ErrorKind> {
        self.1.encode_model(item)
    }

    fn encode(&mut self, item: &[u8], dst: &mut bytes::BytesMut) -> (r: Result<(), ErrorKind>) {
        self.1.encode(item, dst)
    }
}

} // verus!
