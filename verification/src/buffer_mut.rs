use vstd::prelude::*;

use crate::bounds::{avail_after, min_int, transfer_cap};
use crate::chain::{dirty_marks, write_desc_err};
use crate::descriptor::{chain_len, lemma_chain_len_take_le, lemma_chain_len_take_step, Descriptor};
use crate::endpoint::IoSource;
use crate::error::{IoVecError, TransferError};
use crate::guest::GuestRam;
use crate::segs::{
    flat_pos, lemma_flat_pos_bounds, lemma_flat_pos_congruent, lemma_flat_pos_step,
    lemma_splice_step,
};

verus! {

/// The flattened view `flat1` equals `flat0` with its bytes
/// `[offset, offset + t)` replaced by bytes `[pos, pos + t)` of `data` —
/// or, for an offset past the end, `flat0` unchanged.
pub open spec fn spliced(
    flat0: Seq<u8>,
    flat1: Seq<u8>,
    data: Seq<u8>,
    pos: int,
    offset: int,
    t: int,
) -> bool {
    if offset <= flat0.len() {
        flat1 == flat0.subrange(0, offset) + data.subrange(pos, pos + t) + flat0.skip(offset + t)
    } else {
        flat1 == flat0 && t == 0
    }
}

/// The write view of a descriptor chain: an ordered list of validated
/// guest-memory segments the device writes data into.  By the time
/// construction returns, the guest range of every segment has been marked
/// dirty for migration tracking.
#[derive(Debug)]
pub struct IoVecBufferMut {
    vecs: Vec<Vec<u8>>,
    len: usize,
}

impl View for IoVecBufferMut {
    type V = Seq<Seq<u8>>;

    closed spec fn view(&self) -> Seq<Seq<u8>> {
        Seq::new(self.vecs@.len(), |i: int| self.vecs@[i]@)
    }
}

impl IoVecBufferMut {
    /// Total number of bytes the buffer covers.
    pub open spec fn total(self) -> int {
        self@.flatten().len() as int
    }

    /// The cached length agrees with the flattened view.
    pub closed spec fn wf(self) -> bool {
        self.len == self.total()
    }

    /// Build a write view from a descriptor chain, given in traversal
    /// order.  Every descriptor must be write-only and denote a
    /// translatable range of guest memory; the first violation aborts
    /// construction with the matching error and no buffer is produced.
    /// Each accepted descriptor's full range is marked dirty in `mem`
    /// before its raw bytes are exposed; marks for descriptors processed
    /// before a failing one remain issued.
    pub fn from_descriptor_chain(mem: &mut GuestRam, head: &Vec<Descriptor>) -> (r: Result<
        IoVecBufferMut,
        IoVecError,
    >)
        requires
            old(mem).wf(),
            chain_len(head@) <= usize::MAX,
        ensures
            final(mem).regions == old(mem).regions,
            match r {
                Ok(buf) => {
                    &&& buf.wf()
                    &&& buf@.len() == head@.len()
                    &&& forall|k: int|
                        0 <= k < head@.len() ==> #[trigger] write_desc_err(*old(mem), head@[k])
                            is None
                    &&& forall|k: int|
                        0 <= k < head@.len() ==> #[trigger] buf@[k] == old(mem).range_bytes(
                            head@[k].addr as int,
                            head@[k].len as int,
                        )
                    &&& buf.total() == chain_len(head@)
                    &&& final(mem).dirty@ == old(mem).dirty@ + dirty_marks(head@)
                },
                Err(e) => exists|j: int|
                    {
                        &&& 0 <= j < head@.len()
                        &&& forall|k: int|
                            0 <= k < j ==> #[trigger] write_desc_err(*old(mem), head@[k]) is None
                        &&& write_desc_err(*old(mem), head@[j]) == Some(e)
                        &&& final(mem).dirty@ == old(mem).dirty@ + dirty_marks(head@.take(j))
                    },
            },
    {
        let n = head.len();
        let mut vecs: Vec<Vec<u8>> = Vec::new();
        let mut len: usize = 0;
        let mut i: usize = 0;
        proof {
            assert(Seq::new(vecs@.len(), |k: int| vecs@[k]@) =~= Seq::<Seq<u8>>::empty());
            assert(head@.take(0) =~= Seq::<Descriptor>::empty());
            assert(old(mem).dirty@ + dirty_marks(head@.take(0)) =~= old(mem).dirty@);
        }
        while i < n
            invariant
                n == head@.len(),
                0 <= i <= n,
                mem.regions == old(mem).regions,
                mem.wf() == old(mem).wf(),
                old(mem).wf(),
                chain_len(head@) <= usize::MAX,
                vecs@.len() == i,
                forall|k: int| 0 <= k < i ==> #[trigger] write_desc_err(*old(mem), head@[k]) is None,
                forall|k: int|
                    0 <= k < i ==> #[trigger] vecs@[k]@ == old(mem).range_bytes(
                        head@[k].addr as int,
                        head@[k].len as int,
                    ),
                len as int == chain_len(head@.take(i as int)),
                len as int == Seq::new(vecs@.len(), |k: int| vecs@[k]@).flatten().len(),
                mem.dirty@ == old(mem).dirty@ + dirty_marks(head@.take(i as int)),
            decreases n - i,
        {
            let desc = head[i];
            if !desc.is_write_only() {
                return Err(IoVecError::ReadOnlyDescriptor);
            }
            let bytes = match mem.translate(desc.addr, desc.len) {
                Ok(b) => b,
                Err(e) => {
                    return Err(IoVecError::GuestMemory(e));
                },
            };
            // flag the whole descriptor range dirty while provenance is
            // still at hand, before its bytes join the flattened view
            mem.mark_dirty(desc.addr, desc.len);
            proof {
                lemma_chain_len_take_step(head@, i as int);
                lemma_chain_len_take_le(head@, i as int + 1);
                let old_view = Seq::new(vecs@.len(), |k: int| vecs@[k]@);
                let new_view = Seq::new(vecs@.push(bytes).len(), |k: int| vecs@.push(bytes)[k]@);
                assert(new_view =~= old_view.push(bytes@));
                old_view.lemma_flatten_push(bytes@);
                assert(mem.dirty@ =~= old(mem).dirty@ + dirty_marks(head@.take(i as int + 1)));
            }
            len = len + desc.len as usize;
            vecs.push(bytes);
            i += 1;
        }
        proof {
            assert(head@.take(n as int) =~= head@);
        }
        Ok(IoVecBufferMut { vecs, len })
    }

    /// Total number of bytes the buffer covers.
    pub fn len(&self) -> (r: usize)
        requires
            self.wf(),
        ensures
            r == self.total(),
    {
        self.len
    }

    /// Number of segments in the flattened view.
    pub fn iovec_count(&self) -> (r: usize)
        ensures
            r == self@.len(),
    {
        self.vecs.len()
    }

    /// The bytes of one segment, in chain-traversal order.
    pub fn segment(&self, i: usize) -> (r: &Vec<u8>)
        requires
            i < self@.len(),
        ensures
            r@ == self@[i as int],
    {
        &self.vecs[i]
    }

    /// Inject up to `len` bytes from `src` into the flattened view
    /// starting at `offset`, walking the segments in order: skipped
    /// segments first, then one bounded vectored read per touched segment,
    /// with transient interruptions retried.  A short read by the source
    /// stops the transfer; a failing source aborts it without undoing the
    /// bytes already written.
    #[verifier::loop_isolation(false)]
    pub fn write_volatile_at(&mut self, src: &mut IoSource, offset: usize, len: usize) -> (r:
        Result<usize, TransferError>)
        requires
            old(self).wf(),
            old(src).wf(),
        ensures
            final(self).wf(),
            final(src).wf(),
            final(src).data == old(src).data,
            final(self)@.len() == old(self)@.len(),
            forall|k: int|
                0 <= k < old(self)@.len() ==> #[trigger] final(self)@[k].len() == old(
                    self,
                )@[k].len(),
            final(self).total() == old(self).total(),
            match r {
                Ok(t) => {
                    &&& t <= len
                    &&& t <= avail_after(old(self).total(), offset as int)
                    &&& final(src).pos == old(src).pos + t
                    &&& spliced(
                        old(self)@.flatten(),
                        final(self)@.flatten(),
                        old(src).data@,
                        old(src).pos as int,
                        offset as int,
                        t as int,
                    )
                },
                Err(e) => {
                    &&& e == TransferError::Io
                    &&& exists|t: int|
                        0 <= t <= transfer_cap(len as int, old(self).total(), offset as int)
                            && final(src).pos == old(src).pos + t && #[trigger] spliced(
                            old(self)@.flatten(),
                            final(self)@.flatten(),
                            old(src).data@,
                            old(src).pos as int,
                            offset as int,
                            t,
                        )
                },
            },
            old(src).events@.len() == 0 ==> (r matches Ok(t) && t == min_int(
                transfer_cap(len as int, old(self).total(), offset as int),
                old(src).data@.len() - old(src).pos,
            )),
    {
        let ghost flat0 = old(self)@.flatten();
        let ghost data = old(src).data@;
        let ghost pos0 = old(src).pos as int;
        let n = self.vecs.len();
        let mut i: usize = 0;
        let mut rem: usize = offset;
        proof {
            assert(self@.take(0) =~= Seq::<Seq<u8>>::empty());
        }
        while i < n && rem >= self.vecs[i].len()
            invariant
                0 <= i <= n,
                self == old(self),
                flat_pos(self@, i as int) + rem == offset,
            decreases n - i,
        {
            proof {
                lemma_flat_pos_step(self@, i as int);
            }
            rem = rem - self.vecs[i].len();
            i += 1;
        }
        proof {
            lemma_flat_pos_bounds(self@, i as int);
            if offset as int <= flat0.len() {
                assert(flat0.subrange(0, offset as int) + data.subrange(pos0, pos0)
                    + flat0.skip(offset as int) =~= flat0);
            } else {
                assert(i == n);
            }
        }
        let mut total: usize = 0;
        let mut budget: usize = len;
        let mut pos: usize = rem;
        while i < n && budget > 0
            invariant
                0 <= i <= n,
                n == self@.len(),
                self@.len() == old(self)@.len(),
                forall|k: int|
                    0 <= k < old(self)@.len() ==> #[trigger] self@[k].len() == old(
                        self,
                    )@[k].len(),
                self.len == old(self).len,
                i < n ==> pos <= self@[i as int].len(),
                i == n ==> pos == 0 || total == 0,
                budget + total == len,
                flat_pos(old(self)@, i as int) + pos == offset + total,
                src.data == old(src).data,
                src.data@ == data,
                src.pos == pos0 + total,
                src.wf(),
                spliced(flat0, self@.flatten(), data, pos0, offset as int, total as int),
                offset as int > flat0.len() ==> total == 0,
                old(src).events@.len() == 0 ==> src.events@.len() == 0,
            decreases n - i, budget,
        {
            proof {
                lemma_flat_pos_congruent(self@, old(self)@, i as int);
                lemma_flat_pos_bounds(self@, i as int);
                lemma_flat_pos_bounds(old(self)@, i as int);
            }
            let seg_len = self.vecs[i].len();
            if seg_len == 0 {
                // an empty segment is skipped entirely: no endpoint call
                proof {
                    lemma_flat_pos_step(old(self)@, i as int);
                }
                i += 1;
                continue;
            }
            let mut take_n = seg_len - pos;
            if budget < take_n {
                take_n = budget;
            }
            match src.take_retry(take_n) {
                Err(e) => {
                    proof {
                        assert(0 <= total as int <= transfer_cap(
                            len as int,
                            old(self).total(),
                            offset as int,
                        ));
                        assert(spliced(
                            flat0,
                            self@.flatten(),
                            data,
                            pos0,
                            offset as int,
                            total as int,
                        ));
                    }
                    return Err(e);
                },
                Ok(bytes) => {
                    let got = bytes.len();
                    let ghost cur = self@;
                    let new_seg = splice_vec(&self.vecs[i], pos, &bytes);
                    proof {
                        lemma_splice_step(cur, i as int, pos as int, bytes@, new_seg@);
                    }
                    self.vecs[i] = new_seg;
                    proof {
                        assert(self@ =~= cur.update(i as int, new_seg@));
                        let p = flat_pos(cur, i as int);
                        // the old flat view around the write is untouched,
                        // so the new flat view extends the splice by `got`
                        assert(cur.flatten().subrange(0, p + pos) =~= flat0.subrange(
                            0,
                            offset as int,
                        ) + data.subrange(pos0, pos0 + total));
                        assert(cur.flatten().skip(p + pos + got) =~= flat0.skip(
                            offset + total + got,
                        ));
                        assert(self@.flatten() =~= flat0.subrange(0, offset as int)
                            + data.subrange(pos0, pos0 + total + got) + flat0.skip(
                            offset + total + got,
                        ));
                    }
                    total = total + got;
                    if got < take_n {
                        // a short transfer is a hard stop for this call
                        proof {
                            lemma_flat_pos_congruent(self@, old(self)@, i as int);
                        }
                        return Ok(total);
                    }
                    budget = budget - got;
                    pos = pos + got;
                    if pos == seg_len {
                        proof {
                            lemma_flat_pos_step(old(self)@, i as int);
                        }
                        pos = 0;
                        i += 1;
                    }
                },
            }
        }
        proof {
            lemma_flat_pos_bounds(old(self)@, i as int);
            if i < n {
                assert(budget == 0);
                assert(offset + total == flat_pos(old(self)@, i as int) + pos <= flat0.len());
            } else {
                if pos == 0 {
                    assert(offset + total == flat0.len() + 0);
                } else {
                    assert(total == 0 && offset as int >= flat0.len());
                }
            }
            assert(total as int <= avail_after(old(self).total(), offset as int));
        }
        Ok(total)
    }

    /// Write bytes of `buf` into the flattened view starting at `offset`,
    /// as far as the buffer's end allows.  An offset at or past the end is
    /// not an error: it yields an absent result.  Otherwise exactly
    /// `min(buf.len(), total - offset)` bytes are moved.
    pub fn write_at(&mut self, buf: &Vec<u8>, offset: usize) -> (r: Option<usize>)
        requires
            old(self).wf(),
        ensures
            final(self).wf(),
            final(self)@.len() == old(self)@.len(),
            forall|k: int|
                0 <= k < old(self)@.len() ==> #[trigger] final(self)@[k].len() == old(
                    self,
                )@[k].len(),
            match r {
                None => {
                    &&& offset >= old(self).total()
                    &&& final(self)@ == old(self)@
                },
                Some(nb) => {
                    &&& offset < old(self).total()
                    &&& nb == transfer_cap(buf@.len() as int, old(self).total(), offset as int)
                    &&& final(self)@.flatten() == old(self)@.flatten().subrange(0, offset as int)
                        + buf@.subrange(0, nb as int) + old(self)@.flatten().skip(offset + nb)
                },
            },
    {
        let total_len = self.len();
        if offset < total_len {
            let mut size = buf.len();
            if total_len - offset < size {
                size = total_len - offset;
            }
            let data = copy_vec(buf);
            let mut source = IoSource::new(data);
            match self.write_volatile_at(&mut source, offset, size) {
                Ok(got) => Some(got),
                Err(_) => {
                    // a plain source never fails
                    proof {
                        assert(false);
                    }
                    None
                },
            }
        } else {
            None
        }
    }
}

/// A fresh copy of a byte vector.
pub(crate) fn copy_vec(v: &Vec<u8>) -> (r: Vec<u8>)
    ensures
        r@ == v@,
{
    let n = v.len();
    let mut r: Vec<u8> = Vec::new();
    let mut j: usize = 0;
    while j < n
        invariant
            0 <= j <= n,
            n == v@.len(),
            r@ =~= v@.subrange(0, j as int),
        decreases n - j,
    {
        r.push(v[j]);
        assert(r@ =~= v@.subrange(0, j + 1));
        j += 1;
    }
    proof {
        assert(v@.subrange(0, n as int) =~= v@);
    }
    r
}

/// A copy of `dst` with its bytes `[start, start + src.len())` replaced
/// by `src`.
pub(crate) fn splice_vec(dst: &Vec<u8>, start: usize, src: &Vec<u8>) -> (r: Vec<u8>)
    requires
        start + src@.len() <= dst@.len(),
    ensures
        r@ == dst@.subrange(0, start as int) + src@ + dst@.subrange(
            start + src@.len(),
            dst@.len() as int,
        ),
        r@.len() == dst@.len(),
{
    let n = dst.len();
    let m = src.len();
    let mut r: Vec<u8> = Vec::new();
    let mut j: usize = 0;
    while j < n
        invariant
            0 <= j <= n,
            n == dst@.len(),
            m == src@.len(),
            start + m <= n,
            r@.len() == j,
            forall|k: int| 0 <= k < j && k < start ==> r@[k] == dst@[k],
            forall|k: int| start <= k < j && k < start + m ==> r@[k] == src@[k - start],
            forall|k: int| start + m <= k < j ==> r@[k] == dst@[k],
        decreases n - j,
    {
        if j < start {
            r.push(dst[j]);
        } else if j < start + m {
            r.push(src[j - start]);
        } else {
            r.push(dst[j]);
        }
        j += 1;
    }
    proof {
        assert(r@ =~= dst@.subrange(0, start as int) + src@ + dst@.subrange(
            start + src@.len(),
            dst@.len() as int,
        ));
    }
    r
}

} // verus!
