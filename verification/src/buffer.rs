use vstd::prelude::*;

use crate::bounds::{avail_after, transfer_cap};
use crate::chain::read_desc_err;
use crate::descriptor::{chain_len, lemma_chain_len_take_le, lemma_chain_len_take_step, Descriptor};
use crate::endpoint::IoSink;
use crate::error::{IoVecError, TransferError};
use crate::guest::GuestRam;
use crate::segs::{
    flat_pos, lemma_flat_pos_bounds, lemma_flat_pos_step, lemma_flat_seg_bytes,
};

verus! {

/// The sink has accepted exactly bytes `[offset, offset + t)` of the
/// flattened view `flat` on top of what it already held — or, for an
/// offset past the end, nothing at all.
pub open spec fn taken_prefix(
    taken0: Seq<u8>,
    taken1: Seq<u8>,
    flat: Seq<u8>,
    offset: int,
    t: int,
) -> bool {
    if offset <= flat.len() {
        taken1 == taken0 + flat.subrange(offset, offset + t)
    } else {
        taken1 == taken0 && t == 0
    }
}

/// The read view of a descriptor chain: an ordered list of validated
/// guest-memory segments the device reads data out of.  The order of the
/// segments defines the flattened address space that offsets index into.
#[derive(Debug)]
pub struct IoVecBuffer {
    vecs: Vec<Vec<u8>>,
    len: usize,
}

impl View for IoVecBuffer {
    type V = Seq<Seq<u8>>;

    closed spec fn view(&self) -> Seq<Seq<u8>> {
        Seq::new(self.vecs@.len(), |i: int| self.vecs@[i]@)
    }
}

impl IoVecBuffer {
    /// Total number of bytes the buffer covers.
    pub open spec fn total(self) -> int {
        self@.flatten().len() as int
    }

    /// The cached length agrees with the flattened view.
    pub closed spec fn wf(self) -> bool {
        self.len == self.total()
    }

    /// Build a read view from a descriptor chain, given in traversal
    /// order.  Every descriptor must be device-readable and denote a
    /// translatable range of guest memory; the first violation aborts
    /// construction with the matching error and no buffer is produced.
    pub fn from_descriptor_chain(mem: &GuestRam, head: &Vec<Descriptor>) -> (r: Result<
        IoVecBuffer,
        IoVecError,
    >)
        requires
            mem.wf(),
            chain_len(head@) <= usize::MAX,
        ensures
            match r {
                Ok(buf) => {
                    &&& buf.wf()
                    &&& buf@.len() == head@.len()
                    &&& forall|k: int|
                        0 <= k < head@.len() ==> #[trigger] read_desc_err(*mem, head@[k]) is None
                    &&& forall|k: int|
                        0 <= k < head@.len() ==> #[trigger] buf@[k] == mem.range_bytes(
                            head@[k].addr as int,
                            head@[k].len as int,
                        )
                    &&& buf.total() == chain_len(head@)
                },
                Err(e) => exists|j: int|
                    {
                        &&& 0 <= j < head@.len()
                        &&& forall|k: int|
                            0 <= k < j ==> #[trigger] read_desc_err(*mem, head@[k]) is None
                        &&& read_desc_err(*mem, head@[j]) == Some(e)
                    },
            },
    {
        let n = head.len();
        let mut vecs: Vec<Vec<u8>> = Vec::new();
        let mut len: usize = 0;
        let mut i: usize = 0;
        proof {
            assert(Seq::new(vecs@.len(), |k: int| vecs@[k]@) =~= Seq::<Seq<u8>>::empty());
            assert(head@.take(0) =~= Seq::<Descriptor>::empty());
        }
        while i < n
            invariant
                n == head@.len(),
                0 <= i <= n,
                mem.wf(),
                chain_len(head@) <= usize::MAX,
                vecs@.len() == i,
                forall|k: int| 0 <= k < i ==> #[trigger] read_desc_err(*mem, head@[k]) is None,
                forall|k: int|
                    0 <= k < i ==> #[trigger] vecs@[k]@ == mem.range_bytes(
                        head@[k].addr as int,
                        head@[k].len as int,
                    ),
                len as int == chain_len(head@.take(i as int)),
                len as int == Seq::new(vecs@.len(), |k: int| vecs@[k]@).flatten().len(),
            decreases n - i,
        {
            let desc = head[i];
            if desc.is_write_only() {
                return Err(IoVecError::WriteOnlyDescriptor);
            }
            let bytes = match mem.translate(desc.addr, desc.len) {
                Ok(b) => b,
                Err(e) => {
                    return Err(IoVecError::GuestMemory(e));
                },
            };
            proof {
                lemma_chain_len_take_step(head@, i as int);
                lemma_chain_len_take_le(head@, i as int + 1);
                let old_view = Seq::new(vecs@.len(), |k: int| vecs@[k]@);
                let new_view = Seq::new(vecs@.push(bytes).len(), |k: int| vecs@.push(bytes)[k]@);
                assert(new_view =~= old_view.push(bytes@));
                old_view.lemma_flatten_push(bytes@);
            }
            len = len + desc.len as usize;
            vecs.push(bytes);
            i += 1;
        }
        proof {
            assert(head@.take(n as int) =~= head@);
        }
        Ok(IoVecBuffer { vecs, len })
    }

    /// Total number of bytes the buffer covers.
    pub fn len(&self) -> (r: usize)
        requires
            self.wf(),
        ensures
            r == self.total(),
    {
        self.len
    }

    /// Number of segments in the flattened view.
    pub fn iovec_count(&self) -> (r: usize)
        ensures
            r == self@.len(),
    {
        self.vecs.len()
    }

    /// The bytes of one segment, in chain-traversal order.
    pub fn segment(&self, i: usize) -> (r: &Vec<u8>)
        requires
            i < self@.len(),
        ensures
            r@ == self@[i as int],
    {
        &self.vecs[i]
    }

    /// Extract up to `len` bytes starting at `offset` of the flattened
    /// view into `dst`, walking the segments in order: skipped segments
    /// first, then one bounded vectored write per touched segment, with
    /// transient interruptions retried.  A short write by the sink stops
    /// the transfer; a failing sink aborts it without undoing the bytes
    /// already accepted.
    #[verifier::loop_isolation(false)]
    pub fn read_volatile_at(&self, dst: &mut IoSink, offset: usize, len: usize) -> (r: Result<
        usize,
        TransferError,
    >)
        requires
            self.wf(),
        ensures
            match r {
                Ok(t) => {
                    &&& t <= len
                    &&& t <= avail_after(self.total(), offset as int)
                    &&& taken_prefix(
                        old(dst).taken@,
                        final(dst).taken@,
                        self@.flatten(),
                        offset as int,
                        t as int,
                    )
                },
                Err(e) => {
                    &&& e == TransferError::Io
                    &&& exists|t: int|
                        0 <= t <= transfer_cap(len as int, self.total(), offset as int)
                            && #[trigger] taken_prefix(
                            old(dst).taken@,
                            final(dst).taken@,
                            self@.flatten(),
                            offset as int,
                            t,
                        )
                },
            },
            old(dst).events@.len() == 0 ==> (r matches Ok(t) && t == transfer_cap(
                len as int,
                self.total(),
                offset as int,
            )),
    {
        let ghost flat = self@.flatten();
        let n = self.vecs.len();
        let mut i: usize = 0;
        let mut rem: usize = offset;
        proof {
            assert(self@.take(0) =~= Seq::<Seq<u8>>::empty());
        }
        while i < n && rem >= self.vecs[i].len()
            invariant
                0 <= i <= n,
                flat_pos(self@, i as int) + rem == offset,
            decreases n - i,
        {
            proof {
                lemma_flat_pos_step(self@, i as int);
            }
            rem = rem - self.vecs[i].len();
            i += 1;
        }
        proof {
            lemma_flat_pos_bounds(self@, i as int);
            if offset as int <= flat.len() {
                assert(old(dst).taken@ + flat.subrange(offset as int, offset as int) =~= old(
                    dst,
                ).taken@);
            } else {
                assert(i == n);
            }
        }
        let mut total: usize = 0;
        let mut budget: usize = len;
        let mut pos: usize = rem;
        while i < n && budget > 0
            invariant
                0 <= i <= n,
                i < n ==> pos <= self@[i as int].len(),
                i == n ==> pos == 0 || total == 0,
                budget + total == len,
                flat_pos(self@, i as int) + pos == offset + total,
                offset as int <= flat.len() ==> dst.taken@ == old(dst).taken@ + flat.subrange(
                    offset as int,
                    offset + total,
                ),
                offset as int > flat.len() ==> dst.taken@ == old(dst).taken@ && total == 0,
                old(dst).events@.len() == 0 ==> dst.events@.len() == 0,
            decreases n - i, budget,
        {
            proof {
                lemma_flat_pos_bounds(self@, i as int);
            }
            let seg_len = self.vecs[i].len();
            if seg_len == 0 {
                // an empty segment is skipped entirely: no endpoint call
                proof {
                    lemma_flat_pos_step(self@, i as int);
                }
                i += 1;
                continue;
            }
            let mut take_n = seg_len - pos;
            if budget < take_n {
                take_n = budget;
            }
            let ghost pre_taken = dst.taken@;
            match dst.accept_retry(&self.vecs[i], pos, take_n) {
                Err(e) => {
                    proof {
                        assert(0 <= total as int <= transfer_cap(
                            len as int,
                            self.total(),
                            offset as int,
                        ));
                        assert(taken_prefix(
                            old(dst).taken@,
                            dst.taken@,
                            self@.flatten(),
                            offset as int,
                            total as int,
                        ));
                    }
                    return Err(e);
                },
                Ok(got) => {
                    proof {
                        lemma_flat_seg_bytes(self@, i as int, pos as int, pos + got);
                        assert(flat.subrange(offset as int, offset + total) + flat.subrange(
                            offset + total,
                            offset + total + got,
                        ) =~= flat.subrange(offset as int, offset + total + got));
                        assert(dst.taken@ =~= old(dst).taken@ + flat.subrange(
                            offset as int,
                            offset + total + got,
                        ));
                    }
                    total = total + got;
                    if got < take_n {
                        // a short transfer is a hard stop for this call
                        return Ok(total);
                    }
                    budget = budget - got;
                    pos = pos + got;
                    if pos == seg_len {
                        proof {
                            lemma_flat_pos_step(self@, i as int);
                        }
                        pos = 0;
                        i += 1;
                    }
                },
            }
        }
        proof {
            lemma_flat_pos_bounds(self@, i as int);
            if i < n {
                assert(budget == 0);
                assert(offset + total == flat_pos(self@, i as int) + pos <= flat.len());
            } else {
                if pos == 0 {
                    assert(offset + total == flat.len() + 0);
                } else {
                    assert(total == 0 && offset as int >= flat.len());
                }
            }
            assert(total as int <= avail_after(self.total(), offset as int));
        }
        Ok(total)
    }

    /// Read bytes of the flattened view starting at `offset` into `buf`,
    /// filling it as far as the buffer's end allows.  An offset at or past
    /// the end is not an error: it yields an absent result.  Otherwise
    /// exactly `min(buf.len(), total - offset)` bytes are moved.
    pub fn read_at(&self, buf: &mut Vec<u8>, offset: usize) -> (r: Option<usize>)
        requires
            self.wf(),
        ensures
            final(buf)@.len() == old(buf)@.len(),
            match r {
                None => {
                    &&& offset >= self.total()
                    &&& final(buf)@ == old(buf)@
                },
                Some(nb) => {
                    &&& offset < self.total()
                    &&& nb == transfer_cap(old(buf)@.len() as int, self.total(), offset as int)
                    &&& final(buf)@ == self@.flatten().subrange(offset as int, offset + nb)
                        + old(buf)@.skip(nb as int)
                },
            },
    {
        let total_len = self.len();
        if offset < total_len {
            let mut size = buf.len();
            if total_len - offset < size {
                size = total_len - offset;
            }
            let mut sink = IoSink::new();
            match self.read_volatile_at(&mut sink, offset, size) {
                Ok(got) => {
                    overwrite_prefix(buf, &sink.taken);
                    Some(got)
                },
                Err(_) => {
                    // a plain sink never fails
                    proof {
                        assert(false);
                    }
                    None
                },
            }
        } else {
            None
        }
    }
}

/// Replace the first `src.len()` bytes of `buf` with `src`, leaving the
/// rest of `buf` untouched.
pub(crate) fn overwrite_prefix(buf: &mut Vec<u8>, src: &Vec<u8>)
    requires
        src@.len() <= old(buf)@.len(),
    ensures
        final(buf)@ == src@ + old(buf)@.skip(src@.len() as int),
{
    let m = src.len();
    let mut j: usize = 0;
    while j < m
        invariant
            0 <= j <= m,
            m == src@.len(),
            m <= buf@.len(),
            buf@.len() == old(buf)@.len(),
            forall|k: int| 0 <= k < j ==> buf@[k] == src@[k],
            forall|k: int| j <= k < buf@.len() ==> buf@[k] == old(buf)@[k],
        decreases m - j,
    {
        let b = src[j];
        buf[j] = b;
        j += 1;
    }
    proof {
        assert(buf@ =~= src@ + old(buf)@.skip(src@.len() as int));
    }
}

} // verus!
