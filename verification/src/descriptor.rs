use vstd::prelude::*;

verus! {

/// One guest-supplied memory descriptor: a contiguous range of guest
/// memory (`addr`, `len`) plus the direction the device may access it in.
/// A `write_only` descriptor may only be written by the device; any other
/// descriptor may only be read by the device.
#[derive(Clone, Copy, PartialEq, Eq, Structural, Debug)]
pub struct Descriptor {
    pub addr: u64,
    pub len: u32,
    pub write_only: bool,
}

impl Descriptor {
    /// Whether the device may only write (never read) this range.
    pub fn is_write_only(&self) -> (r: bool)
        ensures
            r == self.write_only,
    {
        self.write_only
    }
}

/// Total number of bytes covered by a chain of descriptors, in traversal
/// order: the sum of the descriptors' lengths.
pub open spec fn chain_len(descs: Seq<Descriptor>) -> int
    decreases descs.len(),
{
    if descs.len() == 0 {
        0
    } else {
        chain_len(descs.drop_last()) + descs.last().len
    }
}

/// The total length of a chain never decreases as descriptors are appended,
/// so every prefix covers at most as many bytes as the whole chain.
pub proof fn lemma_chain_len_take_le(descs: Seq<Descriptor>, i: int)
    requires
        0 <= i <= descs.len(),
    ensures
        0 <= chain_len(descs.take(i)) <= chain_len(descs),
    decreases descs.len(),
{
    lemma_chain_len_nonneg(descs.take(i));
    if i == descs.len() {
        assert(descs.take(i) =~= descs);
    } else {
        lemma_chain_len_take_le(descs.drop_last(), i);
        assert(descs.drop_last().take(i) =~= descs.take(i));
    }
}

pub proof fn lemma_chain_len_nonneg(descs: Seq<Descriptor>)
    ensures
        0 <= chain_len(descs),
    decreases descs.len(),
{
    if descs.len() > 0 {
        lemma_chain_len_nonneg(descs.drop_last());
    }
}

/// Appending one descriptor adds exactly its length to the chain total.
pub proof fn lemma_chain_len_take_step(descs: Seq<Descriptor>, i: int)
    requires
        0 <= i < descs.len(),
    ensures
        chain_len(descs.take(i + 1)) == chain_len(descs.take(i)) + descs[i].len,
{
    assert(descs.take(i + 1).drop_last() =~= descs.take(i));
    assert(descs.take(i + 1).last() == descs[i]);
}

} // verus!
