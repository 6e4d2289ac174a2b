//! A scripted transport: a test double whose reads produce, and whose
//! writes expect, a fixed sequence of events.

use vstd::prelude::*;
use vstd::assert_seqs_equal;

use crate::{
    AsyncRead, AsyncWrite, ErrorKind, Ev, FlushOutcome, ReadChunk, WriteOutcome,
};

verus! {

/// One scripted transport event.
pub enum MockCall {
    /// Bytes produced by a read, or expected by a write.
    Data(Vec<u8>),
    /// An expected flush.
    Flush,
    /// A failure; `Fail(WouldBlock)` models a transport that is temporarily
    /// not ready.
    Fail(ErrorKind),
}

/// The model of one scripted call.
pub open spec fn call_model(c: MockCall) -> Ev {
    match c {
        MockCall::Data(d) => Ev::Data(d@),
        MockCall::Flush => Ev::Flush,
        MockCall::Fail(e) => Ev::Fail(e),
    }
}

/// A transport that produces and expects a fixed script of events, front
/// first. Once the script is exhausted, reads report end of input and
/// writes accept nothing.
pub struct Mock {
    /// The events still to come.
    pub calls: Vec<MockCall>,
}

/// Mapping a popped front commutes with taking the models of a script.
proof fn lemma_script_skip(s: Seq<MockCall>)
    requires
        s.len() > 0,
    ensures
        s.skip(1).map_values(|c: MockCall| call_model(c)) == s.map_values(
            |c: MockCall| call_model(c),
        ).skip(1),
{
    assert_seqs_equal!(s.skip(1).map_values(|c: MockCall| call_model(c)) == s.map_values(
            |c: MockCall| call_model(c),
        ).skip(1));
}

/// Whether `d` is a prefix of `src`.
fn slice_prefix(src: &[u8], d: &[u8]) -> (r: bool)
    ensures
        r == (d@.len() <= src@.len() && src@.take(d@.len() as int) == d@),
{
    if d.len() > src.len() {
        proof {
            assert(!(d@.len() <= src@.len()));
        }
        return false;
    }
    let n = d.len();
    let mut i: usize = 0;
    while i < n
        invariant
            i <= n,
            n == d@.len() <= src@.len(),
            forall|j: int| 0 <= j < i ==> src@[j] == d@[j],
        decreases n - i,
    {
        if src[i] != d[i] {
            proof {
                assert(src@.take(d@.len() as int)[i as int] != d@[i as int]);
            }
            return false;
        }
        i = i + 1;
    }
    proof {
        assert(src@.take(d@.len() as int) =~= d@);
    }
    true
}

impl Mock {
    /// The models of the remaining events.
    pub open spec fn script(&self) -> Seq<Ev> {
        self.calls@.map_values(|c: MockCall| call_model(c))
    }

    /// A scripted transport that will produce or expect `calls`.
    pub fn new(calls: Vec<MockCall>) -> (r: Mock)
        ensures
            r.calls == calls,
    {
        Mock { calls }
    }

    /// Removes and returns the front event, if any.
    fn take_front(&mut self) -> (r: Option<MockCall>)
        ensures
            old(self).calls@.len() == 0 ==> (r matches None && final(self).calls@ == old(self).calls@),
            old(self).calls@.len() > 0 ==> (r matches Some(c) && c == old(self).calls@[0]
                && final(self).calls@ == old(self).calls@.skip(1)),
    {
        if self.calls.len() == 0 {
            None
        } else {
            let c = self.calls.remove(0);
            proof {
                assert(old(self).calls@.remove(0) =~= old(self).calls@.skip(1));
            }
            Some(c)
        }
    }
}

impl AsyncRead for Mock {
    open spec fn read_script(&self) -> Seq<Ev> {
        self.script()
    }

    fn read_chunk(&mut self) -> (r: ReadChunk) {
        let ghost calls0 = self.calls@;
        let front = self.take_front();
        proof {
            if calls0.len() > 0 {
                lemma_script_skip(calls0);
            }
        }
        match front {
            None => ReadChunk::Data(Vec::new()),
            Some(MockCall::Data(d)) => ReadChunk::Data(d),
            Some(MockCall::Flush) => ReadChunk::Fail(ErrorKind::Other),
            Some(MockCall::Fail(e)) => {
                if e == ErrorKind::WouldBlock {
                    ReadChunk::WouldBlock
                } else {
                    ReadChunk::Fail(e)
                }
            },
        }
    }
}

impl AsyncWrite for Mock {
    open spec fn write_script(&self) -> Seq<Ev> {
        self.script()
    }

    fn write(&mut self, src: &[u8]) -> (r: WriteOutcome) {
        let ghost calls0 = self.calls@;
        let front = self.take_front();
        proof {
            if calls0.len() > 0 {
                lemma_script_skip(calls0);
            }
        }
        match front {
            None => WriteOutcome::Wrote(0),
            Some(MockCall::Data(d)) => {
                if slice_prefix(src, d.as_slice()) {
                    WriteOutcome::Wrote(d.len())
                } else {
                    WriteOutcome::Fail(ErrorKind::Other)
                }
            },
            Some(MockCall::Flush) => WriteOutcome::Fail(ErrorKind::Other),
            Some(MockCall::Fail(e)) => {
                if e == ErrorKind::WouldBlock {
                    WriteOutcome::WouldBlock
                } else {
                    WriteOutcome::Fail(e)
                }
            },
        }
    }

    fn flush(&mut self) -> (r: FlushOutcome) {
        let ghost calls0 = self.calls@;
        let front = self.take_front();
        proof {
            if calls0.len() > 0 {
                lemma_script_skip(calls0);
            }
        }
        match front {
            None => FlushOutcome::Flushed,
            Some(MockCall::Flush) => FlushOutcome::Flushed,
            Some(MockCall::Data(_)) => FlushOutcome::Fail(ErrorKind::Other),
            Some(MockCall::Fail(e)) => {
                if e == ErrorKind::WouldBlock {
                    FlushOutcome::WouldBlock
                } else {
                    FlushOutcome::Fail(e)
                }
            },
        }
    }

    fn shutdown(&mut self) -> (r: FlushOutcome) {
        FlushOutcome::Flushed
    }
}

} // verus!
