//! The generic write pump: drives any encoder against any writable
//! transport, accepting frames and flushing buffered bytes.

use vstd::prelude::*;

use crate::buffer::{buf_advance, buf_len, buf_model, buf_new, buf_slice};
use crate::codec::Encoder;
use crate::{Async, AsyncSink, AsyncWrite, ErrorKind, Ev, FlushOutcome, WriteOutcome};

verus! {

/// The soft limit on buffered outbound bytes: once reached, new frames are
/// refused until the buffer drains below it.
pub const BACKPRESSURE_BOUNDARY: usize = 8192;

/// What one drain of the write pump produced, at the model level.
pub enum WRes {
    /// The buffer emptied and the transport flushed.
    Done,
    /// The transport was not ready; poll again later.
    Pending,
    /// A transport failure.
    Bad(ErrorKind),
}

/// The write pump's buffer and transport script after an operation.
pub struct WritePost {
    /// The bytes still buffered.
    pub buf: Seq<u8>,
    /// The transport events not yet consumed.
    pub script: Seq<Ev>,
    /// The operation's result.
    pub res: WRes,
}

/// A flush against the scripted transport: an expected `Flush` succeeds, an
/// exhausted script is a no-op, anything else fails or suspends.
pub open spec fn flush_model(buf: Seq<u8>, script: Seq<Ev>) -> WritePost {
    if script.len() == 0 {
        WritePost { buf, script, res: WRes::Done }
    } else {
        match script[0] {
            Ev::Data(_) => WritePost { buf, script: script.skip(1), res: WRes::Bad(ErrorKind::Other) },
            Ev::Flush => WritePost { buf, script: script.skip(1), res: WRes::Done },
            Ev::Fail(e) => {
                if e == ErrorKind::WouldBlock {
                    WritePost { buf, script: script.skip(1), res: WRes::Pending }
                } else {
                    WritePost { buf, script: script.skip(1), res: WRes::Bad(e) }
                }
            },
        }
    }
}

/// One complete drain attempt: write the buffered bytes until the buffer
/// empties, then flush. A transport that accepts zero bytes without
/// suspending is a `WriteZero` error; a `WouldBlock` suspends the drain,
/// with the remaining bytes kept for the next attempt.
pub open spec fn drain_model(buf: Seq<u8>, script: Seq<Ev>) -> WritePost
    decreases script.len(),
{
    if buf.len() == 0 {
        flush_model(buf, script)
    } else if script.len() == 0 {
        WritePost { buf, script, res: WRes::Bad(ErrorKind::WriteZero) }
    } else {
        match script[0] {
            Ev::Data(d) => {
                if d.len() == 0 {
                    WritePost { buf, script: script.skip(1), res: WRes::Bad(ErrorKind::WriteZero) }
                } else if d.len() <= buf.len() && buf.take(d.len() as int) == d {
                    drain_model(buf.skip(d.len() as int), script.skip(1))
                } else {
                    WritePost { buf, script: script.skip(1), res: WRes::Bad(ErrorKind::Other) }
                }
            },
            Ev::Flush => WritePost { buf, script: script.skip(1), res: WRes::Bad(ErrorKind::Other) },
            Ev::Fail(e) => {
                if e == ErrorKind::WouldBlock {
                    WritePost { buf, script: script.skip(1), res: WRes::Pending }
                } else {
                    WritePost { buf, script: script.skip(1), res: WRes::Bad(e) }
                }
            },
        }
    }
}

/// A drain that reports `Done` left nothing buffered.
pub proof fn lemma_drain_done_empty(buf: Seq<u8>, script: Seq<Ev>)
    ensures
        drain_model(buf, script).res matches WRes::Done ==> drain_model(buf, script).buf.len()
            == 0,
    decreases script.len(),
{
    if buf.len() > 0 && script.len() > 0 {
        match script[0] {
            Ev::Data(d) => {
                if d.len() > 0 && d.len() <= buf.len() && buf.take(d.len() as int) == d {
                    lemma_drain_done_empty(buf.skip(d.len() as int), script.skip(1));
                }
            },
            Ev::Flush => {},
            Ev::Fail(e) => {},
        }
    }
}

/// How the exec result of a drain reflects the model's result.
pub open spec fn wres_matches(p: WRes, r: Result<Async<()>, ErrorKind>) -> bool {
    match p {
        WRes::Done => r matches Ok(Async::Ready(u)),
        WRes::Pending => r matches Ok(Async::NotReady),
        WRes::Bad(e) => r matches Err(e2) && e2 == e,
    }
}

/// A write pump over a fused transport-plus-encoder value.
pub struct FramedWrite2<T> {
    /// The fused transport and encoder.
    pub inner: T,
    /// Encoded bytes not yet written to the transport.
    pub buffer: bytes::BytesMut,
}

/// A write pump over `inner`, with an empty buffer.
pub fn framed_write2<T: AsyncWrite + Encoder>(inner: T) -> (r: FramedWrite2<T>)
    ensures
        r.inner == inner,
        buf_model(r.buffer) =~= Seq::<u8>::empty(),
{
    FramedWrite2 { inner, buffer: buf_new() }
}

impl<T: AsyncWrite + Encoder> FramedWrite2<T> {
    /// The fused transport and encoder.
    pub fn get_ref(&self) -> (r: &T)
        ensures
            r == &self.inner,
    {
        &self.inner
    }

    /// Drains the buffered bytes to the transport and flushes it, exactly
    /// as [`drain_model`] describes: the result, the bytes left buffered
    /// and the transport events consumed are all pinned by the model.
    pub fn poll_complete(&mut self) -> (r: Result<Async<()>, ErrorKind>)
        ensures
            ({
                let post = drain_model(buf_model(old(self).buffer), old(self).inner.write_script());
                &&& buf_model(final(self).buffer) == post.buf
                &&& final(self).inner.write_script() == post.script
                &&& wres_matches(post.res, r)
            }),
    {
        let ghost t = drain_model(buf_model(self.buffer), self.inner.write_script());
        let mut out: Option<Result<Async<()>, ErrorKind>> = None;
        loop
            invariant_except_break
                out matches None,
                drain_model(buf_model(self.buffer), self.inner.write_script()) == t,
            ensures
                buf_model(self.buffer) == t.buf,
                self.inner.write_script() == t.script,
                out matches Some(r2) && wres_matches(t.res, r2),
            decreases self.inner.write_script().len(), buf_model(self.buffer).len(),
        {
            let ghost b0 = buf_model(self.buffer);
            let ghost sc0 = self.inner.write_script();
            let l = buf_len(&self.buffer);
            if l == 0 {
                let f = self.inner.flush();
                proof {
                    assert(t == flush_model(b0, sc0));
                }
                out = Some(
                    match f {
                        FlushOutcome::Flushed => Ok(Async::Ready(())),
                        FlushOutcome::WouldBlock => Ok(Async::NotReady),
                        FlushOutcome::Fail(e) => Err(e),
                    },
                );
                break;
            }
            let w = self.inner.write(buf_slice(&self.buffer));
            match w {
                WriteOutcome::Wrote(n) => {
                    if n == 0 {
                        proof {
                            if sc0.len() > 0 {
                                match sc0[0] {
                                    Ev::Data(d) => {
                                        assert(d.len() == 0);
                                    },
                                    Ev::Flush => {
                                        assert(false);
                                    },
                                    Ev::Fail(e) => {
                                        assert(false);
                                    },
                                }
                            }
                            assert(t.res == WRes::Bad(ErrorKind::WriteZero));
                        }
                        out = Some(Err(ErrorKind::WriteZero));
                        break;
                    }
                    buf_advance(&mut self.buffer, n);
                    proof {
                        assert(t == drain_model(b0.skip(n as int), sc0.skip(1)));
                    }
                },
                WriteOutcome::WouldBlock => {
                    out = Some(Ok(Async::NotReady));
                    break;
                },
                WriteOutcome::Fail(e) => {
                    proof {
                        assert(sc0.len() > 0);
                        match sc0[0] {
                            Ev::Data(d) => {
                                if d.len() == 0 {
                                    assert(b0.take(0) =~= d);
                                }
                                assert(e == ErrorKind::Other);
                                assert(t.res == WRes::Bad(ErrorKind::Other));
                            },
                            Ev::Flush => {
                                assert(t.res == WRes::Bad(ErrorKind::Other));
                            },
                            Ev::Fail(e2) => {
                                assert(t.res == WRes::Bad(e2));
                            },
                        }
                    }
                    out = Some(Err(e));
                    break;
                },
            }
        }
        match out {
            Some(r2) => r2,
            None => Err(ErrorKind::Other),
        }
    }

    /// Offers one frame to the sink: if the buffer has reached the
    /// backpressure boundary, one drain is attempted first, exactly as
    /// [`drain_model`] describes; the frame is handed back, with nothing
    /// encoded, precisely when the buffer is still over the boundary
    /// afterwards. Below the boundary the frame is encoded and accepted.
    pub fn start_send(&mut self, item: Vec<u8>) -> (r: Result<AsyncSink, ErrorKind>)
        requires
            old(self).inner.enc_wf(),
        ensures
            r matches Ok(AsyncSink::NotReady(it)) ==> it@ == item@ && buf_model(
                final(self).buffer,
            ).len() >= BACKPRESSURE_BOUNDARY,
            buf_model(old(self).buffer).len() >= BACKPRESSURE_BOUNDARY ==> ({
                let dp = drain_model(buf_model(old(self).buffer), old(self).inner.write_script());
                match dp.res {
                    WRes::Bad(e) => r matches Err(e2) && e2 == e && buf_model(final(self).buffer)
                        == dp.buf && final(self).inner.write_script() == dp.script,
                    _ => {
                        if dp.buf.len() >= BACKPRESSURE_BOUNDARY {
                            r matches Ok(AsyncSink::NotReady(it)) && it@ == item@ && buf_model(
                                final(self).buffer,
                            ) == dp.buf && final(self).inner.write_script() == dp.script
                        } else {
                            (r matches Ok(AsyncSink::Ready) && (exists|s: Seq<u8>|
                                buf_model(final(self).buffer) == dp.buf + s)) || (r matches Err(e2)
                                && buf_model(final(self).buffer) == dp.buf)
                        }
                    },
                }
            }),
            buf_model(old(self).buffer).len() < BACKPRESSURE_BOUNDARY ==> ({
                match old(self).inner.encode_model(item@) {
                    Ok(s) => r matches Ok(AsyncSink::Ready) && buf_model(final(self).buffer)
                        == buf_model(old(self).buffer) + s,
                    Err(e) => r matches Err(e2) && e2 == e && buf_model(final(self).buffer)
                        == buf_model(old(self).buffer),
                }
            }),
    {
        if buf_len(&self.buffer) >= BACKPRESSURE_BOUNDARY {
            match self.poll_complete() {
                Err(e) => {
                    return Err(e);
                },
                Ok(_) => {},
            }
            if buf_len(&self.buffer) >= BACKPRESSURE_BOUNDARY {
                return Ok(AsyncSink::NotReady(item));
            }
        }
        match self.inner.encode(item.as_slice(), &mut self.buffer) {
            Ok(_) => Ok(AsyncSink::Ready),
            Err(e) => Err(e),
        }
    }
}

} // verus!
