//! The codec contracts: the unit of extensibility of the framing layer.
//!
//! A decoder parses frames from the front of a byte buffer; an encoder
//! appends the serialized form of a frame to a buffer. The length-delimited
//! codec implements both; user codecs may implement either.

use vstd::prelude::*;

use crate::buffer::buf_model;
use crate::ErrorKind;

verus! {

/// A decoder of frames from a byte buffer.
///
/// A decoder promises that `decode` either returns a frame whose bytes
/// came from a consumed front prefix of the buffer, or returns `None` and
/// leaves the buffer untouched.
pub trait Decoder: Sized {
    /// Attempts to parse one frame from the front of `src`. On success the
    /// frame's bytes are consumed; on insufficient data the buffer is left
    /// untouched; on malformed data an error is returned.
    fn decode(&mut self, src: &mut bytes::BytesMut) -> (r: Result<
        Option<bytes::BytesMut>,
        ErrorKind,
    >)
        ensures
            r matches Ok(None) ==> buf_model(*final(src)) == buf_model(*old(src)),
            r matches Ok(Some(f)) ==> (exists|n: int|
                0 <= n <= buf_model(*old(src)).len() && buf_model(*final(src)) == buf_model(
                    *old(src),
                ).skip(n) && (exists|i: int|
                    0 <= i && i + buf_model(f).len() <= n && buf_model(f) == #[trigger] buf_model(
                        *old(src),
                    ).subrange(i, i + buf_model(f).len()))),
    ;

    /// The final decode once the transport has reported end of input: may
    /// yield a frame still buffered, report a clean end with `None`, or
    /// fail if a partial frame remains.
    fn eof(&mut self, src: &mut bytes::BytesMut) -> (r: Result<
        Option<bytes::BytesMut>,
        ErrorKind,
    >)
        ensures
            r matches Ok(None) ==> buf_model(*final(src)) == buf_model(*old(src)),
            r matches Ok(Some(f)) ==> (exists|n: int|
                0 <= n <= buf_model(*old(src)).len() && buf_model(*final(src)) == buf_model(
                    *old(src),
                ).skip(n) && (exists|i: int|
                    0 <= i && i + buf_model(f).len() <= n && buf_model(f) == #[trigger] buf_model(
                        *old(src),
                    ).subrange(i, i + buf_model(f).len()))),
    ;
}

/// An encoder of frames onto a byte buffer.
pub trait Encoder: Sized {
    /// The encoder's validity condition, established at construction.
    spec fn enc_wf(&self) -> bool;

    /// The bytes that encoding `item` appends, or the error it reports.
    spec fn encode_model(&self, item: Seq<u8>) -> Result<Seq<u8>, ErrorKind>;

    /// Appends the serialized form of `item` to `dst`; on error the buffer
    /// is left untouched. A valid encoder appends exactly what
    /// `encode_model` says.
    fn encode(&mut self, item: &[u8], dst: &mut bytes::BytesMut) -> (r: Result<(), ErrorKind>)
        ensures
            old(self).enc_wf() ==> final(self).enc_wf(),
            old(self).enc_wf() ==> ({
                match old(self).encode_model(item@) {
                    Ok(s) => r matches Ok(u) && buf_model(*final(dst)) == buf_model(*old(dst)) + s,
                    Err(e) => r matches Err(e2) && e2 == e && buf_model(*final(dst)) == buf_model(
                        *old(dst),
                    ),
                }
            }),
            !old(self).enc_wf() ==> (r matches Err(e2) && buf_model(*final(dst)) == buf_model(
                *old(dst),
            )),
    ;
}

} // verus!
