use vstd::prelude::*;

use crate::error::GuestMemoryError;

verus! {

/// One contiguous region of guest memory, starting at guest address
/// `start` and holding `data.len()` bytes.
pub struct Region {
    pub start: u64,
    pub data: Vec<u8>,
}

/// A record of one dirty-bitmap update: the guest range
/// `[addr, addr + len)` was flagged as modified.
#[derive(Clone, Copy, PartialEq, Eq, Structural, Debug)]
pub struct DirtyMark {
    pub addr: u64,
    pub len: u32,
}

/// The guest-memory collaborator: an ordered set of disjoint regions,
/// offering range-validated translation, and a dirty log recording which
/// guest ranges were flagged as modified for migration tracking.
pub struct GuestRam {
    pub regions: Vec<Region>,
    pub dirty: Vec<DirtyMark>,
}

impl Region {
    /// Guest address one past the last byte of the region.
    pub open spec fn end(self) -> int {
        self.start + self.data@.len()
    }

    /// Whether `[addr, addr + len)` lies entirely inside this region.
    pub open spec fn covers(self, addr: int, len: int) -> bool {
        self.start <= addr && addr + len <= self.end()
    }
}

impl GuestRam {
    /// Well-formed: regions are sorted by start address and pairwise
    /// disjoint, and no region wraps past the end of the address space.
    pub open spec fn wf(self) -> bool {
        &&& forall|i: int, j: int|
            0 <= i < j < self.regions@.len() ==> #[trigger] self.regions@[i].end()
                <= #[trigger] self.regions@[j].start as int
        &&& forall|i: int| 0 <= i < self.regions@.len() ==> #[trigger] self.regions@[i].end()
            <= u64::MAX as int
    }

    /// Whether `[addr, addr + len)` is backed by one contiguous region.
    pub open spec fn valid_range(self, addr: int, len: int) -> bool {
        exists|i: int| 0 <= i < self.regions@.len() && (#[trigger] self.regions@[i]).covers(
            addr,
            len,
        )
    }

    /// The bytes guest range `[addr, addr + len)` currently holds.
    /// Meaningful only when `valid_range(addr, len)`.
    pub open spec fn range_bytes(self, addr: int, len: int) -> Seq<u8> {
        let i = choose|i: int|
            0 <= i < self.regions@.len() && (#[trigger] self.regions@[i]).covers(addr, len);
        self.regions@[i].data@.subrange(addr - self.regions@[i].start, addr - self.regions@[i].start + len)
    }

    /// Validate that the whole range `[addr, addr + len)` is backed by one
    /// contiguous region of guest memory and return a copy of its bytes.
    pub fn translate(&self, addr: u64, len: u32) -> (r: Result<Vec<u8>, GuestMemoryError>)
        requires
            self.wf(),
        ensures
            match r {
                Ok(bytes) => {
                    &&& self.valid_range(addr as int, len as int)
                    &&& bytes@ == self.range_bytes(addr as int, len as int)
                    &&& bytes@.len() == len
                },
                Err(e) => {
                    &&& !self.valid_range(addr as int, len as int)
                    &&& e == (GuestMemoryError::InvalidGuestRange { addr, len })
                },
            },
    {
        let n = self.regions.len();
        let mut i: usize = 0;
        while i < n
            invariant
                n == self.regions@.len(),
                0 <= i <= n,
                self.wf(),
                forall|k: int|
                    0 <= k < i ==> !(#[trigger] self.regions@[k]).covers(addr as int, len as int),
            decreases n - i,
        {
            let reg = &self.regions[i];
            if addr >= reg.start {
                let off = addr - reg.start;
                let reg_len = reg.data.len();
                if off <= reg_len as u64 && len as u64 <= reg_len as u64 - off {
                    assert(reg.covers(addr as int, len as int));
                    let start = off as usize;
                    let mut bytes: Vec<u8> = Vec::new();
                    let mut j: usize = 0;
                    while j < len as usize
                        invariant
                            self.wf(),
                            0 <= i < self.regions@.len(),
                            reg == self.regions@[i as int],
                            reg_len == reg.data@.len(),
                            start + len as int <= reg_len,
                            0 <= j <= len,
                            bytes@ =~= reg.data@.subrange(start as int, start + j),
                        decreases len as int - j,
                    {
                        bytes.push(reg.data[start + j]);
                        assert(bytes@ =~= reg.data@.subrange(start as int, start + j + 1));
                        j += 1;
                    }
                    proof {
                        self.lemma_range_bytes_from(i as int, addr as int, len as int);
                    }
                    return Ok(bytes);
                }
            }
            assert(!self.regions@[i as int].covers(addr as int, len as int));
            i += 1;
        }
        Err(GuestMemoryError::InvalidGuestRange { addr, len })
    }

    /// With disjoint regions, any region covering a range yields the same
    /// bytes as `range_bytes` for that range.
    proof fn lemma_range_bytes_from(self, i: int, addr: int, len: int)
        requires
            self.wf(),
            0 <= i < self.regions@.len(),
            self.regions@[i].covers(addr, len),
            0 <= len,
        ensures
            self.range_bytes(addr, len) =~= self.regions@[i].data@.subrange(
                addr - self.regions@[i].start,
                addr - self.regions@[i].start + len,
            ),
    {
        let j = choose|j: int|
            0 <= j < self.regions@.len() && (#[trigger] self.regions@[j]).covers(addr, len);
        if i != j {
            // both regions cover the range, so by disjointness it is empty
            assert(len == 0);
        }
    }

    /// Record that the guest range `[addr, addr + len)` was modified.
    /// Models the dirty-bitmap update of the guest-memory collaborator.
    pub fn mark_dirty(&mut self, addr: u64, len: u32)
        ensures
            final(self).regions == old(self).regions,
            final(self).dirty@ == old(self).dirty@.push(DirtyMark { addr, len }),
    {
        self.dirty.push(DirtyMark { addr, len });
    }
}

} // verus!
