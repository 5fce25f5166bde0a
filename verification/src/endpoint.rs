use vstd::prelude::*;

use crate::bounds::min_int;
use crate::error::TransferError;

verus! {

/// One scripted deviation of an I/O endpoint from plain full-size
/// transfers.  An endpoint with an empty script accepts or delivers every
/// request in full; a scripted endpoint consumes one event per call:
/// - `Interrupt`: report transient interruption, moving nothing;
/// - `Short(k)`: move at most `k` bytes (a short transfer);
/// - `Fail`: report a non-transient I/O failure, moving nothing.
#[derive(Clone, Copy, PartialEq, Eq, Structural, Debug)]
pub enum IoEvent {
    Interrupt,
    Short(usize),
    Fail,
}

/// A vectored-I/O sink: the endpoint a read view extracts bytes into.
/// `taken` accumulates, in order, every byte the sink has accepted.
pub struct IoSink {
    pub taken: Vec<u8>,
    pub events: Vec<IoEvent>,
}

/// A vectored-I/O source: the endpoint a write view injects bytes from.
/// Bytes are delivered in order from `data`, starting at `pos`.
pub struct IoSource {
    pub data: Vec<u8>,
    pub pos: usize,
    pub events: Vec<IoEvent>,
}

impl IoSink {
    /// A plain sink: accepts every request in full.
    pub fn new() -> (r: IoSink)
        ensures
            r.taken@ == Seq::<u8>::empty(),
            r.events@ == Seq::<IoEvent>::empty(),
    {
        IoSink { taken: Vec::new(), events: Vec::new() }
    }

    /// One vectored write of `seg[start..start + len]` into the sink,
    /// honouring at most one scripted event.
    #[verifier::loop_isolation(false)]
    pub fn accept(&mut self, seg: &Vec<u8>, start: usize, len: usize) -> (r: Result<
        usize,
        TransferError,
    >)
        requires
            start + len <= seg@.len(),
        ensures
            match r {
                Ok(n) => {
                    &&& n <= len
                    &&& final(self).taken@ == old(self).taken@ + seg@.subrange(
                        start as int,
                        start + n,
                    )
                },
                Err(_) => final(self).taken@ == old(self).taken@,
            },
            old(self).events@.len() == 0 ==> {
                &&& r matches Ok(n) && n == len
                &&& final(self).events@.len() == 0
            },
            old(self).events@.len() > 0 ==> {
                &&& final(self).events@ == old(self).events@.drop_first()
                &&& match old(self).events@[0] {
                    IoEvent::Interrupt => r == Err::<usize, TransferError>(
                        TransferError::Interrupted,
                    ),
                    IoEvent::Short(k) => r matches Ok(n) && n == min_int(k as int, len as int),
                    IoEvent::Fail => r == Err::<usize, TransferError>(TransferError::Io),
                }
            },
    {
        let mut n = len;
        if self.events.len() > 0 {
            let ev = self.events.remove(0);
            match ev {
                IoEvent::Interrupt => {
                    return Err(TransferError::Interrupted);
                },
                IoEvent::Fail => {
                    return Err(TransferError::Io);
                },
                IoEvent::Short(k) => {
                    if k < len {
                        n = k;
                    }
                },
            }
        }
        let ghost evs = self.events@;
        let mut j: usize = 0;
        while j < n
            invariant
                0 <= j <= n,
                n <= len,
                start + len <= seg.len(),
                self.events@ == evs,
                self.taken@ == old(self).taken@ + seg@.subrange(start as int, start + j),
            decreases n - j,
        {
            self.taken.push(seg[start + j]);
            assert(self.taken@ =~= old(self).taken@ + seg@.subrange(start as int, start + j + 1));
            j += 1;
        }
        Ok(n)
    }

    /// `accept`, with transient interruptions retried in place: the retry
    /// combinator of the transfer algorithm.  Never reports `Interrupted`.
    #[verifier::loop_isolation(false)]
    pub fn accept_retry(&mut self, seg: &Vec<u8>, start: usize, len: usize) -> (r: Result<
        usize,
        TransferError,
    >)
        requires
            start + len <= seg@.len(),
        ensures
            match r {
                Ok(n) => {
                    &&& n <= len
                    &&& final(self).taken@ == old(self).taken@ + seg@.subrange(
                        start as int,
                        start + n,
                    )
                },
                Err(e) => {
                    &&& e == TransferError::Io
                    &&& final(self).taken@ == old(self).taken@
                },
            },
            final(self).events@.len() <= old(self).events@.len(),
            old(self).events@.len() == 0 ==> {
                &&& r matches Ok(n) && n == len
                &&& final(self).events@.len() == 0
            },
    {
        loop
            invariant
                self.taken@ == old(self).taken@,
                self.events@.len() <= old(self).events@.len(),
            decreases self.events@.len(),
        {
            match self.accept(seg, start, len) {
                Ok(n) => {
                    return Ok(n);
                },
                Err(TransferError::Io) => {
                    return Err(TransferError::Io);
                },
                Err(TransferError::Interrupted) => {
                },
            }
        }
    }
}

impl IoSource {
    /// Bytes not yet delivered must remain: the cursor never passes the end.
    pub open spec fn wf(self) -> bool {
        self.pos <= self.data@.len()
    }

    /// A plain source delivering the bytes of `data` from the start.
    pub fn new(data: Vec<u8>) -> (r: IoSource)
        ensures
            r.data == data,
            r.pos == 0,
            r.events@ == Seq::<IoEvent>::empty(),
            r.wf(),
    {
        IoSource { data, pos: 0, events: Vec::new() }
    }

    /// One vectored read of at most `len` bytes out of the source,
    /// honouring at most one scripted event.  Delivered bytes are consumed
    /// in order; a request past the end of `data` is served short.
    #[verifier::loop_isolation(false)]
    pub fn take_bytes(&mut self, len: usize) -> (r: Result<Vec<u8>, TransferError>)
        requires
            old(self).wf(),
        ensures
            final(self).wf(),
            final(self).data == old(self).data,
            match r {
                Ok(bytes) => {
                    &&& bytes@.len() <= len
                    &&& final(self).pos == old(self).pos + bytes@.len()
                    &&& bytes@ == old(self).data@.subrange(
                        old(self).pos as int,
                        old(self).pos + bytes@.len(),
                    )
                },
                Err(_) => final(self).pos == old(self).pos,
            },
            old(self).events@.len() == 0 ==> {
                &&& r matches Ok(bytes) && bytes@.len() == min_int(
                    len as int,
                    old(self).data@.len() - old(self).pos,
                )
                &&& final(self).events@.len() == 0
            },
            old(self).events@.len() > 0 ==> {
                &&& final(self).events@ == old(self).events@.drop_first()
                &&& match old(self).events@[0] {
                    IoEvent::Interrupt => r == Err::<Vec<u8>, TransferError>(
                        TransferError::Interrupted,
                    ),
                    IoEvent::Short(k) => r matches Ok(bytes) && bytes@.len() == min_int(
                        min_int(k as int, len as int),
                        old(self).data@.len() - old(self).pos,
                    ),
                    IoEvent::Fail => r == Err::<Vec<u8>, TransferError>(TransferError::Io),
                }
            },
    {
        let mut n = len;
        if self.events.len() > 0 {
            let ev = self.events.remove(0);
            match ev {
                IoEvent::Interrupt => {
                    return Err(TransferError::Interrupted);
                },
                IoEvent::Fail => {
                    return Err(TransferError::Io);
                },
                IoEvent::Short(k) => {
                    if k < len {
                        n = k;
                    }
                },
            }
        }
        let remaining = self.data.len() - self.pos;
        if remaining < n {
            n = remaining;
        }
        let ghost evs = self.events@;
        let mut bytes: Vec<u8> = Vec::new();
        let mut j: usize = 0;
        while j < n
            invariant
                0 <= j <= n,
                self.pos + n <= self.data@.len(),
                self.events@ == evs,
                self == old(self) || self.data == old(self).data,
                self.pos == old(self).pos,
                bytes@ =~= self.data@.subrange(self.pos as int, self.pos + j),
            decreases n - j,
        {
            bytes.push(self.data[self.pos + j]);
            assert(bytes@ =~= self.data@.subrange(self.pos as int, self.pos + j + 1));
            j += 1;
        }
        self.pos = self.pos + n;
        Ok(bytes)
    }

    /// `take_bytes`, with transient interruptions retried in place.
    /// Never reports `Interrupted`.
    #[verifier::loop_isolation(false)]
    pub fn take_retry(&mut self, len: usize) -> (r: Result<Vec<u8>, TransferError>)
        requires
            old(self).wf(),
        ensures
            final(self).wf(),
            final(self).data == old(self).data,
            match r {
                Ok(bytes) => {
                    &&& bytes@.len() <= len
                    &&& final(self).pos == old(self).pos + bytes@.len()
                    &&& bytes@ == old(self).data@.subrange(
                        old(self).pos as int,
                        old(self).pos + bytes@.len(),
                    )
                },
                Err(e) => {
                    &&& e == TransferError::Io
                    &&& final(self).pos == old(self).pos
                },
            },
            final(self).events@.len() <= old(self).events@.len(),
            old(self).events@.len() == 0 ==> {
                &&& r matches Ok(bytes) && bytes@.len() == min_int(
                    len as int,
                    old(self).data@.len() - old(self).pos,
                )
                &&& final(self).events@.len() == 0
            },
    {
        loop
            invariant
                self.wf(),
                self.data == old(self).data,
                self.pos == old(self).pos,
                self.events@.len() <= old(self).events@.len(),
            decreases self.events@.len(),
        {
            match self.take_bytes(len) {
                Ok(bytes) => {
                    return Ok(bytes);
                },
                Err(TransferError::Io) => {
                    return Err(TransferError::Io);
                },
                Err(TransferError::Interrupted) => {
                },
            }
        }
    }
}

} // verus!
