//! A length-delimited framing codec, together with framed read/write
//! adaptors driven by it.
//!
//! Each frame is announced by a length field of configurable width,
//! endianness and position, or by a variable-width LEB128 length. The
//! decoded length, shifted by a signed adjustment, gives the payload length;
//! a configurable number of leading header bytes is skipped before the
//! payload is yielded.

use vstd::prelude::*;
use vstd::assert_seqs_equal;

use crate::buffer::{
    buf_advance, buf_get, buf_len, buf_model, buf_new, buf_put_slice, buf_reserve, buf_slice,
    buf_split_to,
};
use crate::framed_write::{
    drain_model, flush_model, wres_matches, WRes, WritePost, BACKPRESSURE_BOUNDARY,
};
use crate::{
    Async, AsyncRead, AsyncSink, AsyncWrite, ErrorKind, Ev, FlushOutcome, ReadChunk, WriteOutcome,
};

verus! {

/// 256 raised to `w`: the number of values a `w`-byte field can hold.
pub open spec fn pow256(w: nat) -> nat
    decreases w,
{
    if w == 0 {
        1
    } else {
        256 * pow256((w - 1) as nat)
    }
}

/// 128 raised to `w`: the number of values `w` varint payload groups can hold.
pub open spec fn pow128(w: nat) -> nat
    decreases w,
{
    if w == 0 {
        1
    } else {
        128 * pow128((w - 1) as nat)
    }
}

/// The value of `s` read as a big-endian unsigned integer.
pub open spec fn be_val(s: Seq<u8>) -> nat
    decreases s.len(),
{
    if s.len() == 0 {
        0
    } else {
        (be_val(s.drop_last()) * 256 + s.last()) as nat
    }
}

/// The value of `s` read as a little-endian unsigned integer.
pub open spec fn le_val(s: Seq<u8>) -> nat
    decreases s.len(),
{
    if s.len() == 0 {
        0
    } else {
        (s[0] + 256 * le_val(s.skip(1))) as nat
    }
}

/// The `w`-byte big-endian encoding of `n` (mod `256^w`).
pub open spec fn be_bytes(n: nat, w: nat) -> Seq<u8>
    decreases w,
{
    if w == 0 {
        Seq::empty()
    } else {
        be_bytes(n / 256, (w - 1) as nat).push((n % 256) as u8)
    }
}

/// The `w`-byte little-endian encoding of `n` (mod `256^w`).
pub open spec fn le_bytes(n: nat, w: nat) -> Seq<u8>
    decreases w,
{
    if w == 0 {
        Seq::empty()
    } else {
        seq![(n % 256) as u8] + le_bytes(n / 256, (w - 1) as nat)
    }
}

/// The LEB128 encoding of `n`: seven value bits per byte, low groups first,
/// the high bit of each byte signalling that more bytes follow.
pub open spec fn vint_bytes(n: nat) -> Seq<u8>
    decreases n,
{
    if n < 128 {
        seq![n as u8]
    } else {
        seq![(128 + n % 128) as u8] + vint_bytes(n / 128)
    }
}

/// The outcome of reading a LEB128 length from the front of a buffer.
pub enum VarintOut {
    /// Every available byte had its continuation bit set and the limit was
    /// not yet reached: more bytes are needed.
    NeedMore,
    /// The varint did not terminate within the allowed number of bytes.
    TooLong,
    /// A value and the number of bytes it occupied.
    Done(nat, nat),
}

/// Reads a LEB128 value from the front of `s`, giving up once `fuel` bytes
/// have been examined without finding a terminating byte.
pub open spec fn vint_parse(s: Seq<u8>, fuel: nat) -> VarintOut
    decreases fuel,
{
    if fuel == 0 {
        VarintOut::TooLong
    } else if s.len() == 0 {
        VarintOut::NeedMore
    } else if s[0] < 128 {
        VarintOut::Done(s[0] as nat, 1)
    } else {
        match vint_parse(s.skip(1), (fuel - 1) as nat) {
            VarintOut::NeedMore => VarintOut::NeedMore,
            VarintOut::TooLong => VarintOut::TooLong,
            VarintOut::Done(v, k) => VarintOut::Done(((s[0] - 128) + 128 * v) as nat, k + 1),
        }
    }
}

/// The most bytes a length varint may occupy.
pub const MAX_VARINT_BYTES: u8 = 10;

/// The configuration of a length-delimited codec, and the builder through
/// which it is assembled.
#[derive(Clone, Copy, Debug)]
pub struct Builder {
    /// Width of the length field in bytes, between 1 and 8. Ignored when
    /// `varint` is set.
    pub length_field_len: usize,
    /// Number of header bytes preceding the length field.
    pub length_field_offset: usize,
    /// Signed value added to the decoded length to obtain the payload length
    /// that follows the length field.
    pub length_adjustment: i64,
    /// Number of leading bytes discarded before the frame is yielded;
    /// defaults to `length_field_offset + length_field_len`.
    pub num_skip: Option<usize>,
    /// Upper bound on the payload length of a single frame.
    pub max_frame_length: usize,
    /// Little-endian length fields when set; big-endian otherwise.
    pub little_endian: bool,
    /// Variable-width LEB128 length fields when set.
    pub varint: bool,
}

/// The conditions under which a configuration is meaningful: a field width
/// the machine can read, a header whose length fits in `usize`, and no
/// combination of a varint length with fixed-width header options.
pub open spec fn builder_wf(c: Builder) -> bool {
    &&& 1 <= c.length_field_len <= 8
    &&& c.length_field_offset + c.length_field_len <= usize::MAX
    &&& (c.varint ==> c.length_field_offset == 0 && c.num_skip matches None)
}

/// The number of leading bytes a fixed-width configuration discards before
/// yielding a frame.
pub open spec fn spec_num_skip(c: Builder) -> int {
    match c.num_skip {
        Some(s) => s as int,
        None => c.length_field_offset + c.length_field_len,
    }
}

/// The per-frame parsing state: waiting for a full header, or waiting for
/// `skip + len` bytes of an announced frame.
#[derive(Clone, Copy, Debug, PartialEq, Eq, Structural)]
pub enum DecodeState {
    /// Waiting for a complete header.
    Head,
    /// A header announced a payload of `len` bytes, of which the first
    /// `skip` buffered bytes are header to discard.
    Data {
        /// The announced payload length.
        len: usize,
        /// The number of leading buffered bytes to discard.
        skip: usize,
    },
}

/// The outcome of examining a buffered header.
pub enum HeadOut {
    /// Not enough bytes for a complete header.
    NeedMore,
    /// The header is malformed or announces an unacceptable length.
    Bad(ErrorKind),
    /// An announced payload length and the bytes to skip.
    Parsed {
        /// The announced payload length.
        len: int,
        /// The number of leading buffered bytes to discard.
        skip: int,
    },
}

/// Validates an adjusted payload length: it must be non-negative and no
/// longer than the configured maximum.
pub open spec fn check_len(c: Builder, p: int, skip: int) -> HeadOut {
    if p < 0 {
        HeadOut::Bad(ErrorKind::InvalidData)
    } else if p > c.max_frame_length {
        HeadOut::Bad(ErrorKind::InvalidData)
    } else {
        HeadOut::Parsed { len: p, skip }
    }
}

/// Reads and validates a frame header from the front of `buf`.
pub open spec fn head_parse(c: Builder, buf: Seq<u8>) -> HeadOut {
    if c.varint {
        match vint_parse(buf, MAX_VARINT_BYTES as nat) {
            VarintOut::NeedMore => HeadOut::NeedMore,
            VarintOut::TooLong => HeadOut::Bad(ErrorKind::InvalidData),
            VarintOut::Done(v, k) => check_len(c, v + c.length_adjustment, k as int),
        }
    } else {
        let hl = c.length_field_offset + c.length_field_len;
        if buf.len() < hl {
            HeadOut::NeedMore
        } else {
            let field = buf.subrange(c.length_field_offset as int, hl as int);
            let n: nat = if c.little_endian {
                le_val(field)
            } else {
                be_val(field)
            };
            check_len(c, n + c.length_adjustment, spec_num_skip(c))
        }
    }
}

/// What one decode attempt produced.
pub enum StepOut {
    /// A complete frame.
    Frame(Seq<u8>),
    /// Not enough buffered bytes; the buffer is left untouched.
    NeedMore,
    /// The inbound data is malformed.
    Bad(ErrorKind),
}

/// Waits for `skip + len` buffered bytes, then discards the first `skip`
/// and yields the next `len` as the frame.
pub open spec fn data_check(len: int, skip: int, buf: Seq<u8>) -> (DecodeState, Seq<u8>, StepOut) {
    if buf.len() < skip + len {
        (DecodeState::Data { len: len as usize, skip: skip as usize }, buf, StepOut::NeedMore)
    } else {
        (DecodeState::Head, buf.skip(skip + len), StepOut::Frame(buf.subrange(skip, skip + len)))
    }
}

/// One decode attempt: from `Head`, parse and validate a header and, if the
/// announced bytes are present, yield the frame in the same step; from
/// `Data`, yield the frame once its bytes are present.
pub open spec fn decode_step(c: Builder, st: DecodeState, buf: Seq<u8>) -> (DecodeState, Seq<u8>, StepOut) {
    match st {
        DecodeState::Head => match head_parse(c, buf) {
            HeadOut::NeedMore => (DecodeState::Head, buf, StepOut::NeedMore),
            HeadOut::Bad(e) => (DecodeState::Head, buf, StepOut::Bad(e)),
            HeadOut::Parsed { len, skip } => data_check(len, skip, buf),
        },
        DecodeState::Data { len, skip } => data_check(len as int, skip as int, buf),
    }
}

/// The serialized form of `item`: a length field holding
/// `item.len() - length_adjustment`, followed by the payload, or
/// `InvalidInput` when that value cannot be represented in the field.
pub open spec fn encode_model(c: Builder, item: Seq<u8>) -> Result<Seq<u8>, ErrorKind> {
    let v = item.len() - c.length_adjustment;
    if c.varint {
        if v < 0 {
            Err(ErrorKind::InvalidInput)
        } else {
            Ok(vint_bytes(v as nat) + item)
        }
    } else {
        if v < 0 || v >= pow256(c.length_field_len as nat) {
            Err(ErrorKind::InvalidInput)
        } else if c.little_endian {
            Ok(le_bytes(v as nat, c.length_field_len as nat) + item)
        } else {
            Ok(be_bytes(v as nat, c.length_field_len as nat) + item)
        }
    }
}

impl Builder {
    /// The default configuration: a 4-byte big-endian length field at offset
    /// zero, no adjustment, the whole header skipped, frames up to 8 MiB.
    pub fn new() -> (r: Builder)
        ensures
            r == (Builder {
                length_field_len: 4usize,
                length_field_offset: 0usize,
                length_adjustment: 0i64,
                num_skip: None::<usize>,
                max_frame_length: 8388608usize,
                little_endian: false,
                varint: false,
            }),
            builder_wf(r),
    {
        Builder {
            length_field_len: 4,
            length_field_offset: 0,
            length_adjustment: 0,
            num_skip: None,
            max_frame_length: 8388608,
            little_endian: false,
            varint: false,
        }
    }

    /// Whether this configuration is meaningful, as `builder_wf` states.
    pub fn is_wf(&self) -> (r: bool)
        ensures
            r == builder_wf(*self),
    {
        1 <= self.length_field_len && self.length_field_len <= 8
            && self.length_field_offset <= usize::MAX - self.length_field_len
            && (!self.varint || (self.length_field_offset == 0 && self.num_skip.is_none()))
    }

    /// Sets the width of the length field, between 1 and 8 bytes.
    pub fn length_field_length(self, val: usize) -> (r: Builder)
        requires
            1 <= val <= 8,
        ensures
            r == (Builder { length_field_len: val, ..self }),
    {
        Builder { length_field_len: val, ..self }
    }

    /// Sets the number of header bytes that precede the length field.
    pub fn length_field_offset(self, val: usize) -> (r: Builder)
        requires
            val + 8 <= usize::MAX,
        ensures
            r == (Builder { length_field_offset: val, ..self }),
    {
        Builder { length_field_offset: val, ..self }
    }

    /// Sets the signed value added to the decoded length to obtain the
    /// payload length that follows the length field.
    pub fn length_adjustment(self, val: i64) -> (r: Builder)
        ensures
            r == (Builder { length_adjustment: val, ..self }),
    {
        Builder { length_adjustment: val, ..self }
    }

    /// Overrides the number of leading header bytes discarded before the
    /// frame is yielded.
    pub fn num_skip(self, val: usize) -> (r: Builder)
        ensures
            r == (Builder { num_skip: Some(val), ..self }),
    {
        Builder { num_skip: Some(val), ..self }
    }

    /// Sets the upper bound on the payload length of a single frame.
    pub fn max_frame_length(self, val: usize) -> (r: Builder)
        ensures
            r == (Builder { max_frame_length: val, ..self }),
    {
        Builder { max_frame_length: val, ..self }
    }

    /// Selects little-endian length fields.
    pub fn little_endian(self) -> (r: Builder)
        ensures
            r == (Builder { little_endian: true, ..self }),
    {
        Builder { little_endian: true, ..self }
    }

    /// Selects big-endian length fields (the default).
    pub fn big_endian(self) -> (r: Builder)
        ensures
            r == (Builder { little_endian: false, ..self }),
    {
        Builder { little_endian: false, ..self }
    }

    /// Selects variable-width LEB128 length fields. This disables the
    /// fixed-width header options: the offset and skip-count return to their
    /// defaults.
    pub fn varint(self) -> (r: Builder)
        ensures
            r == (Builder {
                varint: true,
                length_field_offset: 0usize,
                num_skip: None::<usize>,
                ..self
            }),
    {
        Builder { varint: true, length_field_offset: 0, num_skip: None, ..self }
    }

    /// A codec with this configuration, in the `Head` state.
    pub fn new_codec(self) -> (r: LengthDelimitedCodec)
        requires
            builder_wf(self),
        ensures
            r.builder == self,
            r.state == DecodeState::Head,
    {
        LengthDelimitedCodec { builder: self, state: DecodeState::Head }
    }
}

/// The length-delimited codec: a configuration plus the parsing state of the
/// frame currently in flight.
pub struct LengthDelimitedCodec {
    /// The configuration.
    pub builder: Builder,
    /// The per-frame parsing state.
    pub state: DecodeState,
}

} // verus!

verus! {

// ===== Arithmetic lemmas =====

proof fn lemma_pow256_vals()
    ensures
        pow256(0) == 1,
        pow256(1) == 256,
        pow256(2) == 65536,
        pow256(3) == 16777216,
        pow256(4) == 4294967296,
        pow256(5) == 1099511627776,
        pow256(6) == 281474976710656,
        pow256(7) == 72057594037927936,
        pow256(8) == 18446744073709551616,
{
    reveal_with_fuel(pow256, 9);
}

proof fn lemma_pow128_vals()
    ensures
        pow128(9) == 9223372036854775808,
        pow128(10) == 1180591620717411303424,
{
    reveal_with_fuel(pow128, 11);
}

proof fn lemma_pow256_increases(a: nat, b: nat)
    requires
        a <= b,
    ensures
        pow256(a) <= pow256(b),
    decreases b,
{
    if a < b {
        lemma_pow256_increases(a, (b - 1) as nat);
        lemma_pow256_pos((b - 1) as nat);
    }
}

proof fn lemma_pow256_pos(w: nat)
    ensures
        pow256(w) >= 1,
    decreases w,
{
    if w > 0 {
        lemma_pow256_pos((w - 1) as nat);
    }
}

proof fn lemma_pow128_pos(w: nat)
    ensures
        pow128(w) >= 1,
    decreases w,
{
    if w > 0 {
        lemma_pow128_pos((w - 1) as nat);
    }
}

proof fn lemma_pow128_increases(a: nat, b: nat)
    requires
        a <= b,
    ensures
        pow128(a) <= pow128(b),
    decreases b,
{
    if a < b {
        lemma_pow128_increases(a, (b - 1) as nat);
        lemma_pow128_pos((b - 1) as nat);
    }
}

/// Dividing a value below `d * b` by `d` lands below `b`.
proof fn lemma_div_bound(n: nat, d: nat, b: nat)
    requires
        d >= 1,
        n < d * b,
    ensures
        n / d < b,
{
    vstd::arithmetic::div_mod::lemma_fundamental_div_mod(n as int, d as int);
    if n / d >= b {
        assert(d * (n / d) >= d * b) by (nonlinear_arith)
            requires
                n / d >= b,
                d >= 1,
        ;
    }
}

/// A big-endian value fits in as many bytes as were read.
proof fn lemma_be_val_bound(s: Seq<u8>)
    ensures
        be_val(s) < pow256(s.len()),
    decreases s.len(),
{
    if s.len() > 0 {
        lemma_be_val_bound(s.drop_last());
    }
}

/// A little-endian value fits in as many bytes as were read.
proof fn lemma_le_val_bound(s: Seq<u8>)
    ensures
        le_val(s) < pow256(s.len()),
    decreases s.len(),
{
    if s.len() > 0 {
        lemma_le_val_bound(s.skip(1));
    }
}

/// Reading back a `w`-byte big-endian encoding restores the value.
proof fn lemma_be_roundtrip(n: nat, w: nat)
    requires
        n < pow256(w),
    ensures
        be_bytes(n, w).len() == w,
        be_val(be_bytes(n, w)) == n,
    decreases w,
{
    if w > 0 {
        lemma_div_bound(n, 256, pow256((w - 1) as nat));
        lemma_be_roundtrip(n / 256, (w - 1) as nat);
        vstd::arithmetic::div_mod::lemma_fundamental_div_mod(n as int, 256);
        let x = be_bytes(n / 256, (w - 1) as nat);
        let s = x.push((n % 256) as u8);
        assert(s.drop_last() =~= x);
        assert(s.last() == (n % 256) as u8);
    }
}

/// Reading back a `w`-byte little-endian encoding restores the value.
proof fn lemma_le_roundtrip(n: nat, w: nat)
    requires
        n < pow256(w),
    ensures
        le_bytes(n, w).len() == w,
        le_val(le_bytes(n, w)) == n,
    decreases w,
{
    if w > 0 {
        lemma_div_bound(n, 256, pow256((w - 1) as nat));
        lemma_le_roundtrip(n / 256, (w - 1) as nat);
        vstd::arithmetic::div_mod::lemma_fundamental_div_mod(n as int, 256);
        let s = seq![(n % 256) as u8] + le_bytes(n / 256, (w - 1) as nat);
        assert(s[0] == (n % 256) as u8);
        assert(s.skip(1) =~= le_bytes(n / 256, (w - 1) as nat));
    }
}

/// Both fixed-width encodings have exactly the configured width.
proof fn lemma_bytes_len(n: nat, w: nat)
    ensures
        be_bytes(n, w).len() == w,
        le_bytes(n, w).len() == w,
    decreases w,
{
    if w > 0 {
        lemma_bytes_len(n / 256, (w - 1) as nat);
    }
}

/// The big-endian encoding is the little-endian one read backwards.
proof fn lemma_be_le_index(n: nat, w: nat)
    ensures
        forall|j: int|
            0 <= j < w ==> #[trigger] be_bytes(n, w)[j] == le_bytes(n, w)[w - 1 - j],
    decreases w,
{
    lemma_bytes_len(n, w);
    if w > 0 {
        lemma_bytes_len(n / 256, (w - 1) as nat);
        lemma_be_le_index(n / 256, (w - 1) as nat);
        assert forall|j: int| 0 <= j < w implies #[trigger] be_bytes(n, w)[j]
            == le_bytes(n, w)[w - 1 - j] by {
            let be = be_bytes(n, w);
            let le = le_bytes(n, w);
            if j < w - 1 {
                assert(be[j] == be_bytes(n / 256, (w - 1) as nat)[j]);
                assert(le[w - 1 - j] == le_bytes(n / 256, (w - 1) as nat)[w - 2 - j]);
            } else {
                assert(be[j] == (n % 256) as u8);
                assert(le[0] == (n % 256) as u8);
            }
        }
    }
}

/// A successfully parsed varint used at least one byte, at most `fuel`
/// bytes, no more bytes than the buffer holds, and its value is below
/// `128^fuel`.
proof fn lemma_vint_props(s: Seq<u8>, fuel: nat)
    ensures
        vint_parse(s, fuel) matches VarintOut::Done(v, k) ==> 1 <= k <= fuel && k <= s.len() && v
            < pow128(fuel),
    decreases fuel,
{
    if fuel > 0 && s.len() > 0 && s[0] >= 128 {
        lemma_vint_props(s.skip(1), (fuel - 1) as nat);
    }
    if fuel > 0 {
        lemma_pow128_pos((fuel - 1) as nat);
    }
}

/// Parsing an encoded varint restores the value and consumes exactly its
/// bytes, whatever follows them.
proof fn lemma_vint_roundtrip(n: nat, rest: Seq<u8>, fuel: nat)
    requires
        vint_bytes(n).len() <= fuel,
    ensures
        vint_parse(vint_bytes(n) + rest, fuel) == VarintOut::Done(n, vint_bytes(n).len() as nat),
    decreases n,
{
    let s = vint_bytes(n) + rest;
    if n < 128 {
        assert(s[0] == n as u8);
    } else {
        lemma_vint_roundtrip(n / 128, rest, (fuel - 1) as nat);
        assert(s[0] == (128 + n % 128) as u8);
        assert(s.skip(1) =~= vint_bytes(n / 128) + rest);
        vstd::arithmetic::div_mod::lemma_fundamental_div_mod(n as int, 128);
    }
}

/// A value below `128^k` encodes into at most `k` varint bytes.
proof fn lemma_vint_len(n: nat, k: nat)
    requires
        1 <= k,
        n < pow128(k),
    ensures
        vint_bytes(n).len() <= k,
    decreases k,
{
    if n >= 128 {
        if k == 1 {
            assert(pow128(1) == 128) by {
                reveal_with_fuel(pow128, 2);
            }
        } else {
            lemma_div_bound(n, 128, pow128((k - 1) as nat));
            lemma_vint_len(n / 128, (k - 1) as nat);
        }
    }
}

} // verus!

verus! {

// ===== Executable header readers =====

/// The outcome of scanning a buffered varint.
pub enum VScan {
    /// More bytes are needed.
    NeedMore,
    /// The varint did not terminate within the allowed bytes.
    TooLong,
    /// The value and the number of bytes it occupied.
    Done(u128, usize),
}

/// Scans a LEB128 value at position `at` of the buffer, mirroring
/// [`vint_parse`] on the bytes from `at` on.
fn vint_scan(src: &bytes::BytesMut, at: usize, fuel: u8) -> (r: VScan)
    requires
        at <= buf_model(*src).len(),
        fuel <= MAX_VARINT_BYTES,
    ensures
        ({
            let s = buf_model(*src).skip(at as int);
            match vint_parse(s, fuel as nat) {
                VarintOut::NeedMore => r matches VScan::NeedMore,
                VarintOut::TooLong => r matches VScan::TooLong,
                VarintOut::Done(v, k) => r matches VScan::Done(rv, rk) && rv == v && rk == k,
            }
        }),
    decreases fuel,
{
    let ghost s = buf_model(*src).skip(at as int);
    if fuel == 0 {
        return VScan::TooLong;
    }
    let l = buf_len(src);
    if at >= l {
        return VScan::NeedMore;
    }
    let b = buf_get(src, at);
    proof {
        assert(s[0] == buf_model(*src)[at as int]);
    }
    if b < 128 {
        return VScan::Done(b as u128, 1);
    }
    let rec = vint_scan(src, at + 1, fuel - 1);
    proof {
        assert(s.skip(1) =~= buf_model(*src).skip(at + 1));
    }
    match rec {
        VScan::NeedMore => VScan::NeedMore,
        VScan::TooLong => VScan::TooLong,
        VScan::Done(v, k) => {
            proof {
                lemma_vint_props(buf_model(*src).skip(at + 1), (fuel - 1) as nat);
                lemma_pow128_increases((fuel - 1) as nat, 9);
                lemma_pow128_vals();
            }
            VScan::Done((b - 128) as u128 + 128 * v, k + 1)
        },
    }
}

/// Reads the `w`-byte big-endian integer at position `off` of the buffer.
fn read_field_be(src: &bytes::BytesMut, off: usize, w: usize) -> (r: u64)
    requires
        1 <= w <= 8,
        off + w <= usize::MAX,
        off + w <= buf_model(*src).len(),
    ensures
        r == be_val(buf_model(*src).subrange(off as int, off + w)),
{
    let mut acc: u64 = 0;
    let mut i: usize = 0;
    while i < w
        invariant
            i <= w,
            1 <= w <= 8,
            off + w <= usize::MAX,
            off + w <= buf_model(*src).len(),
            acc == be_val(buf_model(*src).subrange(off as int, off + i)),
        decreases w - i,
    {
        proof {
            lemma_be_val_bound(buf_model(*src).subrange(off as int, off + i));
            lemma_pow256_increases(i as nat, 7);
            lemma_pow256_vals();
        }
        let b = buf_get(src, off + i);
        proof {
            let s1 = buf_model(*src).subrange(off as int, off + i + 1);
            assert(s1.drop_last() =~= buf_model(*src).subrange(off as int, off + i));
            assert(s1.last() == buf_model(*src)[off + i]);
        }
        acc = acc * 256 + (b as u64);
        i = i + 1;
    }
    acc
}

/// Reads the `w`-byte little-endian integer at position `off` of the buffer.
fn read_field_le(src: &bytes::BytesMut, off: usize, w: usize) -> (r: u64)
    requires
        1 <= w <= 8,
        off + w <= usize::MAX,
        off + w <= buf_model(*src).len(),
    ensures
        r == le_val(buf_model(*src).subrange(off as int, off + w)),
{
    let mut acc: u64 = 0;
    let mut i: usize = w;
    while i > 0
        invariant
            i <= w,
            1 <= w <= 8,
            off + w <= usize::MAX,
            off + w <= buf_model(*src).len(),
            acc == le_val(buf_model(*src).subrange(off + i, off + w)),
        decreases i,
    {
        i = i - 1;
        proof {
            lemma_le_val_bound(buf_model(*src).subrange(off + i + 1, off + w));
            lemma_pow256_increases((w - i - 1) as nat, 7);
            lemma_pow256_vals();
        }
        let b = buf_get(src, off + i);
        proof {
            let s1 = buf_model(*src).subrange(off + i, off + w);
            assert(s1[0] == buf_model(*src)[off + i]);
            assert(s1.skip(1) =~= buf_model(*src).subrange(off + i + 1, off + w));
        }
        acc = (b as u64) + acc * 256;
    }
    acc
}

// ===== Codec operations =====

/// How the exec outcome of a decode attempt reflects the model's outcome.
pub open spec fn step_result_matches(out: StepOut, r: Result<Option<bytes::BytesMut>, ErrorKind>) -> bool {
    match out {
        StepOut::Frame(f) => r matches Ok(Some(b)) && buf_model(b) == f,
        StepOut::NeedMore => r matches Ok(None),
        StepOut::Bad(e) => r matches Err(e2) && e2 == e,
    }
}

/// The decode-at-end-of-input step: a decodable frame is still yielded; an
/// empty buffer ends the stream; leftover bytes are an error.
pub open spec fn eof_step(c: Builder, st: DecodeState, buf: Seq<u8>) -> (
    DecodeState,
    Seq<u8>,
    Result<Option<Seq<u8>>, ErrorKind>,
) {
    let (s2, b2, out) = decode_step(c, st, buf);
    match out {
        StepOut::Frame(f) => (s2, b2, Ok(Some(f))),
        StepOut::Bad(e) => (s2, b2, Err(e)),
        StepOut::NeedMore => if b2.len() == 0 {
            (s2, b2, Ok(None))
        } else {
            (s2, b2, Err(ErrorKind::UnexpectedEof))
        },
    }
}

/// How the exec outcome of an end-of-input attempt reflects the model's.
pub open spec fn eof_result_matches(
    out: Result<Option<Seq<u8>>, ErrorKind>,
    r: Result<Option<bytes::BytesMut>, ErrorKind>,
) -> bool {
    match out {
        Ok(Some(f)) => r matches Ok(Some(b)) && buf_model(b) == f,
        Ok(None) => r matches Ok(None),
        Err(e) => r matches Err(e2) && e2 == e,
    }
}

impl LengthDelimitedCodec {
    /// Parses and validates a buffered header, without consuming bytes.
    fn decode_head(&self, src: &mut bytes::BytesMut) -> (r: Result<
        Option<(usize, usize)>,
        ErrorKind,
    >)
        requires
            builder_wf(self.builder),
        ensures
            buf_model(*final(src)) == buf_model(*old(src)),
            ({
                match head_parse(self.builder, buf_model(*old(src))) {
                    HeadOut::NeedMore => r matches Ok(None),
                    HeadOut::Bad(e) => r matches Err(e2) && e2 == e,
                    HeadOut::Parsed { len, skip } => r matches Ok(Some(ls)) && ls.0 == len
                        && ls.1 == skip,
                }
            }),
    {
        let c = self.builder;
        if c.varint {
            let vs = vint_scan(src, 0, MAX_VARINT_BYTES);
            proof {
                assert(buf_model(*src).skip(0) =~= buf_model(*src));
            }
            match vs {
                VScan::NeedMore => Ok(None),
                VScan::TooLong => Err(ErrorKind::InvalidData),
                VScan::Done(v, k) => {
                    proof {
                        lemma_vint_props(buf_model(*src), MAX_VARINT_BYTES as nat);
                        lemma_pow128_vals();
                    }
                    let p: i128 = v as i128 + c.length_adjustment as i128;
                    if p < 0 || p > c.max_frame_length as i128 {
                        Err(ErrorKind::InvalidData)
                    } else {
                        Ok(Some((p as usize, k)))
                    }
                },
            }
        } else {
            let hl = c.length_field_offset + c.length_field_len;
            let l = buf_len(src);
            if l < hl {
                return Ok(None);
            }
            let n: u64 = if c.little_endian {
                read_field_le(src, c.length_field_offset, c.length_field_len)
            } else {
                read_field_be(src, c.length_field_offset, c.length_field_len)
            };
            let p: i128 = n as i128 + c.length_adjustment as i128;
            if p < 0 || p > c.max_frame_length as i128 {
                return Err(ErrorKind::InvalidData);
            }
            let skip = match c.num_skip {
                Some(s) => s,
                None => hl,
            };
            Ok(Some((p as usize, skip)))
        }
    }

    /// Attempts to parse one frame from the front of `src`, consuming its
    /// bytes on success and leaving the buffer untouched otherwise, exactly
    /// as [`decode_step`] describes.
    pub fn decode(&mut self, src: &mut bytes::BytesMut) -> (r: Result<
        Option<bytes::BytesMut>,
        ErrorKind,
    >)
        requires
            builder_wf(old(self).builder),
        ensures
            final(self).builder == old(self).builder,
            ({
                let (s2, b2, out) = decode_step(
                    old(self).builder,
                    old(self).state,
                    buf_model(*old(src)),
                );
                &&& final(self).state == s2
                &&& buf_model(*final(src)) == b2
                &&& step_result_matches(out, r)
            }),
    {
        let (len, skip): (usize, usize) = match self.state {
            DecodeState::Head => {
                match self.decode_head(src) {
                    Ok(Some(ls)) => ls,
                    Ok(None) => {
                        return Ok(None);
                    },
                    Err(e) => {
                        return Err(e);
                    },
                }
            },
            DecodeState::Data { len, skip } => (len, skip),
        };
        let l = buf_len(src);
        if usize::MAX - skip < len || l < skip + len {
            self.state = DecodeState::Data { len, skip };
            if usize::MAX - skip >= len {
                buf_reserve(src, skip + len - l);
            }
            return Ok(None);
        }
        buf_advance(src, skip);
        let frame = buf_split_to(src, len);
        self.state = DecodeState::Head;
        proof {
            let b0 = buf_model(*old(src));
            assert(b0.skip(skip as int).take(len as int) =~= b0.subrange(
                skip as int,
                skip + len,
            ));
            assert(b0.skip(skip as int).skip(len as int) =~= b0.skip(skip + len));
        }
        Ok(Some(frame))
    }

    /// The final decode once the transport has reported end of input: a
    /// decodable frame is still yielded; an empty buffer ends the stream; a
    /// partial frame is an error, exactly as [`eof_step`] describes.
    pub fn eof(&mut self, src: &mut bytes::BytesMut) -> (r: Result<
        Option<bytes::BytesMut>,
        ErrorKind,
    >)
        requires
            builder_wf(old(self).builder),
        ensures
            final(self).builder == old(self).builder,
            ({
                let (s2, b2, out) = eof_step(
                    old(self).builder,
                    old(self).state,
                    buf_model(*old(src)),
                );
                &&& final(self).state == s2
                &&& buf_model(*final(src)) == b2
                &&& eof_result_matches(out, r)
            }),
    {
        match self.decode(src) {
            Ok(Some(f)) => Ok(Some(f)),
            Ok(None) => {
                if buf_len(src) == 0 {
                    Ok(None)
                } else {
                    Err(ErrorKind::UnexpectedEof)
                }
            },
            Err(e) => Err(e),
        }
    }

    /// Serializes `item` onto the tail of `dst`: a length field holding the
    /// adjusted payload length, then the payload, exactly as
    /// [`encode_model`] describes.
    pub fn encode(&self, item: &[u8], dst: &mut bytes::BytesMut) -> (r: Result<(), ErrorKind>)
        requires
            builder_wf(self.builder),
        ensures
            ({
                match encode_model(self.builder, item@) {
                    Ok(s) => r matches Ok(u) && buf_model(*final(dst)) == buf_model(*old(dst)) + s,
                    Err(e) => r matches Err(e2) && e2 == e && buf_model(*final(dst)) == buf_model(
                        *old(dst),
                    ),
                }
            }),
    {
        let c = self.builder;
        let len_i: i128 = item.len() as i128 - c.length_adjustment as i128;
        if len_i < 0 {
            return Err(ErrorKind::InvalidInput);
        }
        let ghost v: nat = len_i as nat;
        let mut header: Vec<u8> = Vec::new();
        if c.varint {
            let mut cur: u128 = len_i as u128;
            while cur >= 128
                invariant
                    vint_bytes(v) == header@ + vint_bytes(cur as nat),
                decreases cur,
            {
                proof {
                    assert((header@ + seq![(128 + cur as nat % 128) as u8]) + vint_bytes(
                        cur as nat / 128,
                    ) =~= header@ + (seq![(128 + cur as nat % 128) as u8] + vint_bytes(
                        cur as nat / 128,
                    )));
                }
                header.push((cur % 128 + 128) as u8);
                cur = cur / 128;
            }
            proof {
                assert(header@ + seq![cur as u8] =~= header@.push(cur as u8));
            }
            header.push(cur as u8);
            assert(header@ == vint_bytes(v));
        } else {
            // Check that the value fits the configured field width.
            let mut lim: u128 = 1;
            let mut i: usize = 0;
            while i < c.length_field_len
                invariant
                    i <= c.length_field_len <= 8,
                    lim == pow256(i as nat),
                decreases c.length_field_len - i,
            {
                proof {
                    lemma_pow256_increases(i as nat, 7);
                    lemma_pow256_vals();
                }
                lim = lim * 256;
                i = i + 1;
            }
            if len_i as u128 >= lim {
                return Err(ErrorKind::InvalidInput);
            }
            proof {
                lemma_pow256_increases(c.length_field_len as nat, 8);
                lemma_pow256_vals();
            }
            let w = c.length_field_len;
            let mut cur: u64 = len_i as u64;
            let mut tmp: Vec<u8> = Vec::new();
            let mut i: usize = 0;
            while i < w
                invariant
                    i <= w,
                    tmp@.len() == i,
                    le_bytes(v, w as nat) == tmp@ + le_bytes(cur as nat, (w - i) as nat),
                decreases w - i,
            {
                proof {
                    assert((tmp@ + seq![(cur as nat % 256) as u8]) + le_bytes(
                        cur as nat / 256,
                        (w - i - 1) as nat,
                    ) =~= tmp@ + (seq![(cur as nat % 256) as u8] + le_bytes(
                        cur as nat / 256,
                        (w - i - 1) as nat,
                    )));
                }
                tmp.push((cur % 256) as u8);
                cur = cur / 256;
                i = i + 1;
            }
            proof {
                lemma_bytes_len(v, w as nat);
                assert(tmp@ + le_bytes(cur as nat, 0) =~= tmp@);
                assert(tmp@ == le_bytes(v, w as nat));
            }
            if c.little_endian {
                header = tmp;
            } else {
                let mut i: usize = 0;
                while i < w
                    invariant
                        i <= w,
                        header@.len() == i,
                        tmp@ == le_bytes(v, w as nat),
                        tmp@.len() == w,
                        forall|j: int| 0 <= j < i ==> header@[j] == tmp@[w - 1 - j],
                    decreases w - i,
                {
                    let b = tmp[w - 1 - i];
                    header.push(b);
                    i = i + 1;
                }
                proof {
                    lemma_be_le_index(v, w as nat);
                    lemma_bytes_len(v, w as nat);
                    assert_seqs_equal!(header@ == be_bytes(v, w as nat));
                }
            }
        }
        buf_put_slice(dst, header.as_slice());
        buf_put_slice(dst, item);
        proof {
            assert((buf_model(*old(dst)) + header@) + item@ =~= buf_model(*old(dst)) + (header@
                + item@));
        }
        Ok(())
    }

    /// Replaces the frame-length limit; the configuration is otherwise
    /// untouched and a frame already in flight is unaffected.
    pub fn set_max_frame_length(&mut self, val: usize)
        ensures
            final(self).builder == (Builder { max_frame_length: val, ..old(self).builder }),
            final(self).state == old(self).state,
    {
        self.builder.max_frame_length = val;
    }
}

} // verus!

verus! {

// ===== Read pump =====

/// What one poll of the read pump produced, at the model level.
pub enum PollRes {
    /// A decoded frame.
    Frame(Seq<u8>),
    /// The stream ended cleanly.
    End,
    /// The transport was not ready; poll again later.
    Pending,
    /// A decode or transport failure.
    Bad(ErrorKind),
}

/// The read pump's state and result after one poll.
pub struct ReadPost {
    /// The codec's parsing state.
    pub state: DecodeState,
    /// The bytes still buffered.
    pub buf: Seq<u8>,
    /// Whether end of input has been observed.
    pub eof: bool,
    /// The transport events not yet consumed.
    pub script: Seq<Ev>,
    /// The poll's result.
    pub res: PollRes,
}

/// A poll once end of input has been observed: the buffered bytes may still
/// yield one frame; an empty buffer ends the stream; leftovers are an error.
pub open spec fn eof_post_model(c: Builder, st: DecodeState, buf: Seq<u8>, script: Seq<Ev>) -> ReadPost {
    let (s2, b2, out) = eof_step(c, st, buf);
    match out {
        Ok(Some(f)) => ReadPost { state: s2, buf: b2, eof: true, script, res: PollRes::Frame(f) },
        Ok(None) => ReadPost { state: s2, buf: b2, eof: true, script, res: PollRes::End },
        Err(e) => ReadPost { state: s2, buf: b2, eof: true, script, res: PollRes::Bad(e) },
    }
}

/// One poll of the read pump: decode if possible; otherwise consume the next
/// transport event — append data and try again, absorb a `WouldBlock` into
/// `Pending`, or observe end of input and fall back to the final decode.
pub open spec fn poll_model(
    c: Builder,
    st: DecodeState,
    buf: Seq<u8>,
    eof: bool,
    script: Seq<Ev>,
) -> ReadPost
    decreases script.len(),
{
    if eof {
        eof_post_model(c, st, buf, script)
    } else {
        let (s2, b2, out) = decode_step(c, st, buf);
        match out {
            StepOut::Frame(f) => ReadPost {
                state: s2,
                buf: b2,
                eof: false,
                script,
                res: PollRes::Frame(f),
            },
            StepOut::Bad(e) => ReadPost {
                state: s2,
                buf: b2,
                eof: false,
                script,
                res: PollRes::Bad(e),
            },
            StepOut::NeedMore => {
                if script.len() == 0 {
                    eof_post_model(c, s2, b2, script)
                } else {
                    match script[0] {
                        Ev::Data(d) => {
                            if d.len() == 0 {
                                eof_post_model(c, s2, b2, script.skip(1))
                            } else {
                                poll_model(c, s2, b2 + d, false, script.skip(1))
                            }
                        },
                        Ev::Flush => ReadPost {
                            state: s2,
                            buf: b2,
                            eof: false,
                            script: script.skip(1),
                            res: PollRes::Bad(ErrorKind::Other),
                        },
                        Ev::Fail(e) => {
                            if e == ErrorKind::WouldBlock {
                                ReadPost {
                                    state: s2,
                                    buf: b2,
                                    eof: false,
                                    script: script.skip(1),
                                    res: PollRes::Pending,
                                }
                            } else {
                                ReadPost {
                                    state: s2,
                                    buf: b2,
                                    eof: false,
                                    script: script.skip(1),
                                    res: PollRes::Bad(e),
                                }
                            }
                        },
                    }
                }
            },
        }
    }
}

/// How the exec result of a poll reflects the model's result.
pub open spec fn poll_res_matches(p: PollRes, r: Result<Async<Option<bytes::BytesMut>>, ErrorKind>) -> bool {
    match p {
        PollRes::Frame(f) => r matches Ok(Async::Ready(Some(b))) && buf_model(b) == f,
        PollRes::End => r matches Ok(Async::Ready(None)),
        PollRes::Pending => r matches Ok(Async::NotReady),
        PollRes::Bad(e) => r matches Err(e2) && e2 == e,
    }
}

/// A stream of length-delimited frames read from an `AsyncRead` transport.
pub struct FramedRead<T> {
    /// The transport.
    pub io: T,
    /// The codec.
    pub codec: LengthDelimitedCodec,
    /// Bytes received but not yet consumed by the codec.
    pub buffer: bytes::BytesMut,
    /// Whether end of input has been observed.
    pub eof: bool,
}

impl<T: AsyncRead> FramedRead<T> {
    /// A framed reader over `io` with the default configuration.
    pub fn new(io: T) -> (r: FramedRead<T>)
        ensures
            r.io == io,
            r.codec.builder == Builder::new_spec(),
            r.codec.state == DecodeState::Head,
            buf_model(r.buffer) =~= Seq::<u8>::empty(),
            r.eof == false,
    {
        FramedRead { io, codec: Builder::new().new_codec(), buffer: buf_new(), eof: false }
    }

    /// The underlying transport.
    pub fn get_ref(&self) -> (r: &T)
        ensures
            r == &self.io,
    {
        &self.io
    }

    /// Replaces the frame-length limit for all frames not yet announced; a
    /// frame already in flight is unaffected.
    pub fn set_max_frame_length(&mut self, val: usize)
        ensures
            final(self).codec.builder == (Builder {
                max_frame_length: val,
                ..old(self).codec.builder
            }),
            final(self).codec.state == old(self).codec.state,
            final(self).io == old(self).io,
            final(self).buffer == old(self).buffer,
            final(self).eof == old(self).eof,
    {
        self.codec.set_max_frame_length(val)
    }

    /// Polls for the next frame, exactly as [`poll_model`] describes: the
    /// result, the bytes left buffered, the codec state, and the transport
    /// events consumed are all pinned by the model.
    pub fn poll(&mut self) -> (r: Result<Async<Option<bytes::BytesMut>>, ErrorKind>)
        requires
            builder_wf(old(self).codec.builder),
        ensures
            ({
                let post = poll_model(
                    old(self).codec.builder,
                    old(self).codec.state,
                    buf_model(old(self).buffer),
                    old(self).eof,
                    old(self).io.read_script(),
                );
                &&& final(self).codec.builder == old(self).codec.builder
                &&& final(self).codec.state == post.state
                &&& buf_model(final(self).buffer) == post.buf
                &&& final(self).eof == post.eof
                &&& final(self).io.read_script() == post.script
                &&& poll_res_matches(post.res, r)
            }),
    {
        let ghost c0 = self.codec.builder;
        let ghost t = poll_model(
            self.codec.builder,
            self.codec.state,
            buf_model(self.buffer),
            self.eof,
            self.io.read_script(),
        );
        let mut out: Option<Result<Async<Option<bytes::BytesMut>>, ErrorKind>> = None;
        loop
            invariant_except_break
                builder_wf(self.codec.builder),
                self.codec.builder == c0,
                out matches None,
                poll_model(
                    self.codec.builder,
                    self.codec.state,
                    buf_model(self.buffer),
                    self.eof,
                    self.io.read_script(),
                ) == t,
            ensures
                self.codec.builder == c0,
                self.codec.state == t.state,
                buf_model(self.buffer) == t.buf,
                self.eof == t.eof,
                self.io.read_script() == t.script,
                out matches Some(r2) && poll_res_matches(t.res, r2),
            decreases self.io.read_script().len(), (if self.eof { 0int } else { 1int }),
        {
            let ghost st0 = self.codec.state;
            let ghost b0 = buf_model(self.buffer);
            let ghost e0 = self.eof;
            let ghost sc0 = self.io.read_script();
            proof {
                assert(poll_model(c0, st0, b0, e0, sc0) == t);
            }
            if self.eof {
                let fr = self.codec.eof(&mut self.buffer);
                proof {
                    assert(t == eof_post_model(c0, st0, b0, sc0));
                }
                out = Some(
                    match fr {
                        Ok(Some(b)) => Ok(Async::Ready(Some(b))),
                        Ok(None) => Ok(Async::Ready(None)),
                        Err(e) => Err(e),
                    },
                );
                break;
            }
            let d = self.codec.decode(&mut self.buffer);
            let ghost st1 = self.codec.state;
            let ghost b1 = buf_model(self.buffer);
            match d {
                Ok(Some(b)) => {
                    out = Some(Ok(Async::Ready(Some(b))));
                    break;
                },
                Err(e) => {
                    out = Some(Err(e));
                    break;
                },
                Ok(None) => {},
            }
            let ch = self.io.read_chunk();
            match ch {
                ReadChunk::Data(v) => {
                    if v.len() == 0 {
                        self.eof = true;
                        proof {
                            if sc0.len() == 0 {
                                assert(t == eof_post_model(c0, st1, b1, sc0));
                            } else {
                                assert(t == eof_post_model(c0, st1, b1, sc0.skip(1)));
                            }
                            assert(poll_model(c0, st1, b1, true, self.io.read_script()) == t);
                        }
                    } else {
                        buf_put_slice(&mut self.buffer, v.as_slice());
                        proof {
                            assert(t == poll_model(c0, st1, b1 + v@, false, sc0.skip(1)));
                        }
                    }
                },
                ReadChunk::WouldBlock => {
                    out = Some(Ok(Async::NotReady));
                    break;
                },
                ReadChunk::Fail(e) => {
                    out = Some(Err(e));
                    break;
                },
            }
        }
        match out {
            Some(r2) => r2,
            None => Err(ErrorKind::Other),
        }
    }
}

impl Builder {
    /// The default configuration, as a value.
    pub open spec fn new_spec() -> Builder {
        Builder {
            length_field_len: 4usize,
            length_field_offset: 0usize,
            length_adjustment: 0i64,
            num_skip: None::<usize>,
            max_frame_length: 8388608usize,
            little_endian: false,
            varint: false,
        }
    }

    /// A framed reader over `io` with this configuration.
    pub fn new_read<T: AsyncRead>(self, io: T) -> (r: FramedRead<T>)
        requires
            builder_wf(self),
        ensures
            r.io == io,
            r.codec.builder == self,
            r.codec.state == DecodeState::Head,
            buf_model(r.buffer) =~= Seq::<u8>::empty(),
            r.eof == false,
    {
        FramedRead { io, codec: self.new_codec(), buffer: buf_new(), eof: false }
    }
}

} // verus!

verus! {

// ===== Write pump =====

/// What accepting one outbound frame produced, at the model level.
pub enum SendRes {
    /// The frame was encoded into the buffer.
    Accepted,
    /// The buffer is over the backpressure boundary; the frame is returned.
    Rejected,
    /// An encoding or transport failure.
    Bad(ErrorKind),
}

/// The write pump's state and result after offering one frame.
pub struct SendPost {
    /// The bytes buffered afterwards.
    pub buf: Seq<u8>,
    /// The transport events not yet consumed.
    pub script: Seq<Ev>,
    /// The outcome.
    pub res: SendRes,
}

/// Encoding a frame onto the buffer, after any backpressure handling.
pub open spec fn encode_onto(c: Builder, buf: Seq<u8>, script: Seq<Ev>, item: Seq<u8>) -> SendPost {
    match encode_model(c, item) {
        Ok(s) => SendPost { buf: buf + s, script, res: SendRes::Accepted },
        Err(e) => SendPost { buf, script, res: SendRes::Bad(e) },
    }
}

/// Offering one frame: if the buffer has reached the backpressure boundary,
/// one drain is attempted first, and the frame is refused if the buffer is
/// still over the boundary; otherwise the frame is encoded and accepted.
pub open spec fn start_send_model(c: Builder, buf: Seq<u8>, script: Seq<Ev>, item: Seq<u8>) -> SendPost {
    if buf.len() >= BACKPRESSURE_BOUNDARY {
        let dp = drain_model(buf, script);
        match dp.res {
            WRes::Bad(e) => SendPost { buf: dp.buf, script: dp.script, res: SendRes::Bad(e) },
            _ => {
                if dp.buf.len() >= BACKPRESSURE_BOUNDARY {
                    SendPost { buf: dp.buf, script: dp.script, res: SendRes::Rejected }
                } else {
                    encode_onto(c, dp.buf, dp.script, item)
                }
            },
        }
    } else {
        encode_onto(c, buf, script, item)
    }
}

/// A sink of length-delimited frames written to an `AsyncWrite` transport.
pub struct FramedWrite<T> {
    /// The transport.
    pub io: T,
    /// The codec.
    pub codec: LengthDelimitedCodec,
    /// Encoded bytes not yet written to the transport.
    pub buffer: bytes::BytesMut,
}

impl<T: AsyncWrite> FramedWrite<T> {
    /// A framed writer over `io` with the default configuration.
    pub fn new(io: T) -> (r: FramedWrite<T>)
        ensures
            r.io == io,
            r.codec.builder == Builder::new_spec(),
            r.codec.state == DecodeState::Head,
            buf_model(r.buffer) =~= Seq::<u8>::empty(),
    {
        FramedWrite { io, codec: Builder::new().new_codec(), buffer: buf_new() }
    }

    /// The underlying transport.
    pub fn get_ref(&self) -> (r: &T)
        ensures
            r == &self.io,
    {
        &self.io
    }

    /// Drains the buffered bytes to the transport and flushes it, exactly as
    /// [`drain_model`] describes.
    pub fn poll_complete(&mut self) -> (r: Result<Async<()>, ErrorKind>)
        ensures
            ({
                let post = drain_model(buf_model(old(self).buffer), old(self).io.write_script());
                &&& final(self).codec == old(self).codec
                &&& buf_model(final(self).buffer) == post.buf
                &&& final(self).io.write_script() == post.script
                &&& wres_matches(post.res, r)
            }),
    {
        let ghost t = drain_model(buf_model(self.buffer), self.io.write_script());
        let mut out: Option<Result<Async<()>, ErrorKind>> = None;
        loop
            invariant_except_break
                out matches None,
                self.codec == old(self).codec,
                drain_model(buf_model(self.buffer), self.io.write_script()) == t,
            ensures
                self.codec == old(self).codec,
                buf_model(self.buffer) == t.buf,
                self.io.write_script() == t.script,
                out matches Some(r2) && wres_matches(t.res, r2),
            decreases self.io.write_script().len(), buf_model(self.buffer).len(),
        {
            let ghost b0 = buf_model(self.buffer);
            let ghost sc0 = self.io.write_script();
            let l = buf_len(&self.buffer);
            if l == 0 {
                let f = self.io.flush();
                proof {
                    assert(t == flush_model(b0, sc0));
                }
                out = Some(
                    match f {
                        FlushOutcome::Flushed => Ok(Async::Ready(())),
                        FlushOutcome::WouldBlock => Ok(Async::NotReady),
                        FlushOutcome::Fail(e) => Err(e),
                    },
                );
                break;
            }
            let w = self.io.write(buf_slice(&self.buffer));
            match w {
                WriteOutcome::Wrote(n) => {
                    if n == 0 {
                        proof {
                            if sc0.len() > 0 {
                                match sc0[0] {
                                    Ev::Data(d) => {
                                        assert(d.len() == 0);
                                    },
                                    Ev::Flush => {
                                        assert(false);
                                    },
                                    Ev::Fail(e) => {
                                        assert(false);
                                    },
                                }
                            }
                            assert(t.res == WRes::Bad(ErrorKind::WriteZero));
                        }
                        out = Some(Err(ErrorKind::WriteZero));
                        break;
                    }
                    buf_advance(&mut self.buffer, n);
                    proof {
                        assert(t == drain_model(b0.skip(n as int), sc0.skip(1)));
                    }
                },
                WriteOutcome::WouldBlock => {
                    out = Some(Ok(Async::NotReady));
                    break;
                },
                WriteOutcome::Fail(e) => {
                    proof {
                        assert(sc0.len() > 0);
                        match sc0[0] {
                            Ev::Data(d) => {
                                if d.len() == 0 {
                                    assert(b0.take(0) =~= d);
                                }
                                assert(e == ErrorKind::Other);
                                assert(t.res == WRes::Bad(ErrorKind::Other));
                            },
                            Ev::Flush => {
                                assert(t.res == WRes::Bad(ErrorKind::Other));
                            },
                            Ev::Fail(e2) => {
                                assert(t.res == WRes::Bad(e2));
                            },
                        }
                    }
                    out = Some(Err(e));
                    break;
                },
            }
        }
        match out {
            Some(r2) => r2,
            None => Err(ErrorKind::Other),
        }
    }

    /// Offers one frame to the sink, exactly as [`start_send_model`]
    /// describes: the frame is either encoded into the buffer, refused
    /// because of backpressure and handed back, or an error is reported.
    pub fn start_send(&mut self, item: Vec<u8>) -> (r: Result<AsyncSink, ErrorKind>)
        requires
            builder_wf(old(self).codec.builder),
        ensures
            ({
                let post = start_send_model(
                    old(self).codec.builder,
                    buf_model(old(self).buffer),
                    old(self).io.write_script(),
                    item@,
                );
                &&& final(self).codec == old(self).codec
                &&& buf_model(final(self).buffer) == post.buf
                &&& final(self).io.write_script() == post.script
                &&& match post.res {
                    SendRes::Accepted => r matches Ok(AsyncSink::Ready),
                    SendRes::Rejected => r matches Ok(AsyncSink::NotReady(it)) && it@ == item@,
                    SendRes::Bad(e) => r matches Err(e2) && e2 == e,
                }
            }),
    {
        if buf_len(&self.buffer) >= BACKPRESSURE_BOUNDARY {
            match self.poll_complete() {
                Err(e) => {
                    return Err(e);
                },
                Ok(_) => {},
            }
            if buf_len(&self.buffer) >= BACKPRESSURE_BOUNDARY {
                return Ok(AsyncSink::NotReady(item));
            }
        }
        match self.codec.encode(item.as_slice(), &mut self.buffer) {
            Ok(_) => Ok(AsyncSink::Ready),
            Err(e) => Err(e),
        }
    }
}

impl Builder {
    /// A framed writer over `io` with this configuration.
    pub fn new_write<T: AsyncWrite>(self, io: T) -> (r: FramedWrite<T>)
        requires
            builder_wf(self),
        ensures
            r.io == io,
            r.codec.builder == self,
            r.codec.state == DecodeState::Head,
            buf_model(r.buffer) =~= Seq::<u8>::empty(),
    {
        FramedWrite { io, codec: self.new_codec(), buffer: buf_new() }
    }
}

} // verus!

verus! {

// ===== The codec behind the generic contracts =====

/// Any frame a decode step yields is an infix of a consumed front prefix
/// of the buffer, and what stays behind is the matching suffix.
proof fn lemma_decode_step_suffix(c: Builder, st: DecodeState, buf: Seq<u8>)
    ensures
        ({
            let (s2, b2, out) = decode_step(c, st, buf);
            out matches StepOut::Frame(f) ==> (exists|n: int|
                0 <= n <= buf.len() && b2 == buf.skip(n) && (exists|i: int|
                    0 <= i && i + f.len() <= n && f == #[trigger] buf.subrange(i, i + f.len())))
        }),
{
    let (s2, b2, out) = decode_step(c, st, buf);
    match out {
        StepOut::NeedMore => {},
        StepOut::Bad(e) => {},
        StepOut::Frame(f) => {
            let (len, skip): (int, int) = match st {
            DecodeState::Head => {
                match head_parse(c, buf) {
                    HeadOut::Parsed { len, skip } => (len, skip),
                    _ => (0, 0),
                }
            },
                DecodeState::Data { len, skip } => (len as int, skip as int),
            };
            assert(b2 == buf.skip(skip + len));
            assert(f == buf.subrange(skip, skip + len));
            assert(f.len() == len);
            assert(f == buf.subrange(skip, skip + f.len()));
        },
    }
}

impl crate::codec::Decoder for LengthDelimitedCodec {
    fn decode(&mut self, src: &mut bytes::BytesMut) -> (r: Result<
        Option<bytes::BytesMut>,
        ErrorKind,
    >) {
        if !self.builder.is_wf() {
            return Err(ErrorKind::Other);
        }
        let r = LengthDelimitedCodec::decode(self, src);
        proof {
            lemma_decode_step_suffix(
                old(self).builder,
                old(self).state,
                buf_model(*old(src)),
            );
        }
        r
    }

    fn eof(&mut self, src: &mut bytes::BytesMut) -> (r: Result<
        Option<bytes::BytesMut>,
        ErrorKind,
    >) {
        if !self.builder.is_wf() {
            return Err(ErrorKind::Other);
        }
        let r = LengthDelimitedCodec::eof(self, src);
        proof {
            lemma_decode_step_suffix(
                old(self).builder,
                old(self).state,
                buf_model(*old(src)),
            );
        }
        r
    }
}

impl crate::codec::Encoder for LengthDelimitedCodec {
    open spec fn enc_wf(&self) -> bool {
        builder_wf(self.builder)
    }

    open spec fn encode_model(&self, item: Seq<u8>) -> Result<Seq<u8>, ErrorKind> {
        encode_model(self.builder, item)
    }

    fn encode(&mut self, item: &[u8], dst: &mut bytes::BytesMut) -> (r: Result<(), ErrorKind>) {
        if !self.builder.is_wf() {
            return Err(ErrorKind::Other);
        }
        LengthDelimitedCodec::encode(self, item, dst)
    }
}

impl Builder {
    /// A bidirectional `Framed` over `io` with this configuration.
    pub fn new_framed<T: crate::AsyncRead + crate::AsyncWrite>(self, io: T) -> (r: crate::framed::Framed<
        T,
        LengthDelimitedCodec,
    >)
        requires
            builder_wf(self),
        ensures
            r.inner.inner.0 == io,
            r.inner.inner.1.builder == self,
            r.inner.inner.1.state == DecodeState::Head,
    {
        crate::framed::framed(io, self.new_codec())
    }
}

} // verus!

verus! {

// ===== Laws =====

/// Bounds on a parsed header: the announced length is between zero and the
/// configured maximum, and the skip count fits the machine.
proof fn lemma_head_parse_bounds(c: Builder, buf: Seq<u8>)
    requires
        builder_wf(c),
    ensures
        head_parse(c, buf) matches HeadOut::Parsed { len, skip } ==> 0 <= len
            <= c.max_frame_length && 0 <= skip <= usize::MAX,
{
    if c.varint {
        lemma_vint_props(buf, MAX_VARINT_BYTES as nat);
    }
}

/// Parsing a varint is insensitive to bytes beyond the ones it consumed.
proof fn lemma_vint_parse_extend(s: Seq<u8>, ext: Seq<u8>, fuel: nat)
    requires
        vint_parse(s, fuel) matches VarintOut::Done(v, k),
    ensures
        vint_parse(s + ext, fuel) == vint_parse(s, fuel),
    decreases fuel,
{
    assert((s + ext)[0] == s[0]);
    if s[0] >= 128 {
        lemma_vint_parse_extend(s.skip(1), ext, (fuel - 1) as nat);
        assert((s + ext).skip(1) =~= s.skip(1) + ext);
    }
}

/// Parsing a header is insensitive to bytes beyond the ones it consumed.
proof fn lemma_head_parse_extend(c: Builder, buf: Seq<u8>, ext: Seq<u8>)
    requires
        builder_wf(c),
        head_parse(c, buf) matches HeadOut::Parsed { len, skip },
    ensures
        head_parse(c, buf + ext) == head_parse(c, buf),
{
    if c.varint {
        lemma_vint_parse_extend(buf, ext, MAX_VARINT_BYTES as nat);
    } else {
        let hl = c.length_field_offset + c.length_field_len;
        assert((buf + ext).subrange(c.length_field_offset as int, hl) =~= buf.subrange(
            c.length_field_offset as int,
            hl,
        ));
    }
}

/// Byte-split invariance: when a decode attempt needs more bytes, feeding
/// the missing bytes later gives exactly the outcome that feeding them all
/// at once would have given. Decoding therefore does not depend on how the
/// byte stream was split into reads.
pub proof fn lemma_decode_step_extend(c: Builder, st: DecodeState, buf: Seq<u8>, ext: Seq<u8>)
    requires
        builder_wf(c),
        decode_step(c, st, buf).2 matches StepOut::NeedMore,
    ensures
        decode_step(c, decode_step(c, st, buf).0, buf + ext) == decode_step(c, st, buf + ext),
{
    match st {
        DecodeState::Head => {
            match head_parse(c, buf) {
                HeadOut::NeedMore => {},
                HeadOut::Bad(e) => {},
                HeadOut::Parsed { len, skip } => {
                    lemma_head_parse_bounds(c, buf);
                    lemma_head_parse_extend(c, buf, ext);
                },
            }
        },
        DecodeState::Data { len, skip } => {},
    }
}

/// Round trip with residue: decoding the encoding of a representable
/// payload, whatever follows it, yields exactly that payload and leaves
/// exactly what followed. With an empty residue this is the one-frame round
/// trip; applied repeatedly it consumes a concatenation of encodings frame
/// by frame, in order.
///
/// The offset and skip-count must be at their defaults: a non-zero offset
/// writes no context bytes on encode, so the encoding cannot round-trip.
pub proof fn lemma_encode_decode_roundtrip(c: Builder, p: Seq<u8>, rest: Seq<u8>)
    requires
        builder_wf(c),
        c.length_field_offset == 0,
        c.num_skip matches None,
        p.len() <= c.max_frame_length,
        p.len() <= usize::MAX,
        encode_model(c, p) matches Ok(enc),
    ensures
        decode_step(c, DecodeState::Head, (encode_model(c, p)->Ok_0) + rest) == (
            DecodeState::Head,
            rest,
            StepOut::Frame(p),
        ),
{
    let v: nat = (p.len() - c.length_adjustment) as nat;
    let enc = encode_model(c, p)->Ok_0;
    let buf = enc + rest;
    if c.varint {
        let h = vint_bytes(v);
        let k = h.len();
        lemma_pow128_vals();
        lemma_vint_len(v, MAX_VARINT_BYTES as nat);
        assert(buf =~= h + (p + rest));
        lemma_vint_roundtrip(v, p + rest, MAX_VARINT_BYTES as nat);
        assert(vint_parse(buf, MAX_VARINT_BYTES as nat) == VarintOut::Done(v, k as nat));
        assert(head_parse(c, buf) == HeadOut::Parsed { len: p.len() as int, skip: k as int });
        assert(buf.len() == k + p.len() + rest.len());
        assert(buf.subrange(k as int, k as int + p.len()) =~= p);
        assert(buf.skip(k as int + p.len()) =~= rest);
    } else {
        let w = c.length_field_len;
        let h = if c.little_endian {
            le_bytes(v, w as nat)
        } else {
            be_bytes(v, w as nat)
        };
        lemma_bytes_len(v, w as nat);
        assert(buf.subrange(0, w as int) =~= h);
        if c.little_endian {
            lemma_le_roundtrip(v, w as nat);
        } else {
            lemma_be_roundtrip(v, w as nat);
        }
        assert(head_parse(c, buf) == HeadOut::Parsed { len: p.len() as int, skip: w as int });
        assert(buf.subrange(w as int, w + p.len()) =~= p);
        assert(buf.skip(w + p.len()) =~= rest);
    }
}

/// Shrinking the frame-length limit does not abort a frame already in
/// flight: in the `Data` state, decoding is independent of the limit. Only
/// the next header is validated against the new limit.
pub proof fn lemma_set_max_in_flight(c: Builder, max2: usize, len: usize, skip: usize, buf: Seq<u8>)
    ensures
        decode_step(
            Builder { max_frame_length: max2, ..c },
            DecodeState::Data { len, skip },
            buf,
        ) == decode_step(c, DecodeState::Data { len, skip }, buf),
{
}

/// Absorbing a not-ready transport: when no frame can be decoded from what
/// is buffered, a `WouldBlock` event makes the poll return `Pending` with
/// the buffer intact, and the next poll behaves exactly as if the
/// `WouldBlock` had never happened. Any number of `NotReady` results before
/// a `Ready` is therefore observationally equivalent to one.
pub proof fn lemma_poll_would_block(c: Builder, st: DecodeState, buf: Seq<u8>, rest: Seq<Ev>)
    requires
        builder_wf(c),
        decode_step(c, st, buf).2 matches StepOut::NeedMore,
    ensures
        ({
            let first = poll_model(
                c,
                st,
                buf,
                false,
                seq![Ev::Fail(ErrorKind::WouldBlock)] + rest,
            );
            &&& first.res matches PollRes::Pending
            &&& first.buf == buf
            &&& first.eof == false
            &&& first.script == rest
            &&& poll_model(c, first.state, buf, false, rest) == poll_model(c, st, buf, false, rest)
        }),
{
    let s = seq![Ev::Fail(ErrorKind::WouldBlock)] + rest;
    assert(s[0] == Ev::Fail(ErrorKind::WouldBlock));
    assert(s.skip(1) =~= rest);
    let (s2, b2, out) = decode_step(c, st, buf);
    lemma_decode_step_extend(c, st, buf, Seq::empty());
    assert(buf + Seq::<u8>::empty() =~= buf);
    assert(decode_step(c, s2, buf) == decode_step(c, st, buf));
}

/// End of input with an empty buffer ends the stream cleanly.
pub proof fn lemma_eof_empty_buffer(c: Builder, script: Seq<Ev>)
    requires
        builder_wf(c),
    ensures
        eof_post_model(c, DecodeState::Head, Seq::empty(), script).res matches PollRes::End,
{
}

/// End of input with a partial fixed-width header is an error.
pub proof fn lemma_eof_partial_header(c: Builder, buf: Seq<u8>, script: Seq<Ev>)
    requires
        builder_wf(c),
        !c.varint,
        0 < buf.len(),
        buf.len() < c.length_field_offset + c.length_field_len,
    ensures
        eof_post_model(c, DecodeState::Head, buf, script).res == PollRes::Bad(
            ErrorKind::UnexpectedEof,
        ),
{
}

/// End of input with a full header but a partial payload is an error.
pub proof fn lemma_eof_partial_payload(
    c: Builder,
    len: usize,
    skip: usize,
    buf: Seq<u8>,
    script: Seq<Ev>,
)
    requires
        builder_wf(c),
        0 < buf.len(),
        buf.len() < skip + len,
    ensures
        eof_post_model(c, DecodeState::Data { len, skip }, buf, script).res == PollRes::Bad(
            ErrorKind::UnexpectedEof,
        ),
{
}

/// The frame-length limit is exact: an announced payload of exactly the
/// maximum length is accepted, one byte more is an `InvalidData` error, and
/// a negative adjusted length is an `InvalidData` error.
pub proof fn lemma_length_limit(c: Builder, p: int, skip: int)
    ensures
        0 <= p <= c.max_frame_length ==> check_len(c, p, skip) == (HeadOut::Parsed {
            len: p,
            skip,
        }),
        p > c.max_frame_length ==> check_len(c, p, skip) == HeadOut::Bad(ErrorKind::InvalidData),
        p < 0 ==> check_len(c, p, skip) == HeadOut::Bad(ErrorKind::InvalidData),
{
}

/// A run of continuation bytes as long as the limit cannot terminate
/// within it.
proof fn lemma_vint_all_continuations(s: Seq<u8>, fuel: nat)
    requires
        fuel <= s.len(),
        forall|i: int| 0 <= i < fuel ==> s[i] >= 128,
    ensures
        vint_parse(s, fuel) == VarintOut::TooLong,
    decreases fuel,
{
    if fuel > 0 {
        lemma_vint_all_continuations(s.skip(1), (fuel - 1) as nat);
    }
}

/// A varint length whose first ten bytes all carry the continuation bit is
/// rejected as `InvalidData`: it cannot terminate within the limit.
pub proof fn lemma_varint_too_long(c: Builder, buf: Seq<u8>)
    requires
        builder_wf(c),
        c.varint,
        buf.len() >= MAX_VARINT_BYTES,
        forall|i: int| 0 <= i < MAX_VARINT_BYTES ==> buf[i] >= 128,
    ensures
        head_parse(c, buf) == HeadOut::Bad(ErrorKind::InvalidData),
{
    lemma_vint_all_continuations(buf, MAX_VARINT_BYTES as nat);
}

/// Encoding fails with `InvalidInput` exactly when the adjusted length
/// cannot be represented: it is negative, or it does not fit the
/// fixed-width length field.
pub proof fn lemma_encode_not_representable(c: Builder, p: Seq<u8>)
    ensures
        !c.varint ==> (encode_model(c, p) == Err::<Seq<u8>, ErrorKind>(ErrorKind::InvalidInput)
            <==> (p.len() - c.length_adjustment < 0 || p.len() - c.length_adjustment >= pow256(
            c.length_field_len as nat,
        ))),
        c.varint ==> (encode_model(c, p) == Err::<Seq<u8>, ErrorKind>(ErrorKind::InvalidInput)
            <==> p.len() - c.length_adjustment < 0),
{
}

} // verus!

verus! {

/// A run of `n` not-ready transport events.
pub open spec fn wb_events(n: nat) -> Seq<Ev> {
    Seq::new(n, |i: int| Ev::Fail(ErrorKind::WouldBlock))
}

/// Polls repeatedly while the result is `Pending`, at most `fuel` further
/// times, and gives the state and result of the first other poll.
pub open spec fn poll_through_blocks(
    c: Builder,
    st: DecodeState,
    buf: Seq<u8>,
    script: Seq<Ev>,
    fuel: nat,
) -> ReadPost
    decreases fuel,
{
    let p = poll_model(c, st, buf, false, script);
    if fuel == 0 {
        p
    } else {
        match p.res {
            PollRes::Pending => poll_through_blocks(c, p.state, p.buf, p.script, (fuel - 1) as nat),
            _ => p,
        }
    }
}

/// Any number of `NotReady` results before a `Ready` is observationally
/// equivalent to one: when no frame can be decoded from what is buffered,
/// a run of `n` not-ready transport events produces `n` `Pending` polls
/// that leave the buffered bytes intact, after which the pump behaves
/// exactly as if the run had never happened.
pub proof fn lemma_would_block_run(
    c: Builder,
    st: DecodeState,
    buf: Seq<u8>,
    n: nat,
    rest: Seq<Ev>,
)
    requires
        builder_wf(c),
        decode_step(c, st, buf).2 matches StepOut::NeedMore,
    ensures
        poll_through_blocks(c, st, buf, wb_events(n) + rest, n) == poll_model(
            c,
            st,
            buf,
            false,
            rest,
        ),
    decreases n,
{
    if n == 0 {
        assert(wb_events(0) + rest =~= rest);
    } else {
        let s = wb_events(n) + rest;
        assert(s[0] == Ev::Fail(ErrorKind::WouldBlock));
        assert(s.skip(1) =~= wb_events((n - 1) as nat) + rest);
        let (s2, b2, out) = decode_step(c, st, buf);
        lemma_decode_step_extend(c, st, buf, Seq::empty());
        assert(buf + Seq::<u8>::empty() =~= buf);
        assert(decode_step(c, s2, buf) == decode_step(c, st, buf));
        lemma_would_block_run(c, s2, buf, (n - 1) as nat, rest);
        assert(poll_model(c, s2, buf, false, rest) == poll_model(c, st, buf, false, rest));
    }
}

/// Whether `p` is acceptable and representable under `c`.
pub open spec fn frame_ok(c: Builder, p: Seq<u8>) -> bool {
    &&& p.len() <= c.max_frame_length
    &&& p.len() <= usize::MAX
    &&& encode_model(c, p) matches Ok(enc)
}

/// The concatenation of the encodings of a sequence of payloads.
pub open spec fn encodings(c: Builder, ps: Seq<Seq<u8>>) -> Seq<u8>
    decreases ps.len(),
{
    if ps.len() == 0 {
        Seq::empty()
    } else {
        (encode_model(c, ps[0])->Ok_0) + encodings(c, ps.skip(1))
    }
}

/// Concatenated encodings decode frame by frame, in order: one decode step
/// on the concatenation yields exactly the first payload and leaves
/// exactly the encodings of the rest, so repeating it walks the whole
/// sequence in order. Together with the byte-split invariance of
/// [`lemma_decode_step_extend`], the decoder recovers the payloads in
/// order from any split of the concatenation into reads.
pub proof fn lemma_frame_sequence(c: Builder, ps: Seq<Seq<u8>>)
    requires
        builder_wf(c),
        c.length_field_offset == 0,
        c.num_skip matches None,
        ps.len() > 0,
        forall|j: int| 0 <= j < ps.len() ==> frame_ok(c, #[trigger] ps[j]),
    ensures
        decode_step(c, DecodeState::Head, encodings(c, ps)) == (
            DecodeState::Head,
            encodings(c, ps.skip(1)),
            StepOut::Frame(ps[0]),
        ),
{
    assert(frame_ok(c, ps[0]));
    lemma_encode_decode_roundtrip(c, ps[0], encodings(c, ps.skip(1)));
}

} // verus!
