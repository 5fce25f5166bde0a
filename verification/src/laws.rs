use vstd::prelude::*;

use crate::bounds::transfer_cap;
use crate::chain::{dirty_marks, read_desc_err, write_desc_err};
use crate::descriptor::Descriptor;
use crate::error::IoVecError;
use crate::guest::{DirtyMark, GuestRam};

verus! {

/// For every chain whose descriptors are all device-readable and all
/// translatable, no per-descriptor check fails, so by its contract
/// `IoVecBuffer::from_descriptor_chain` returns a buffer whose total
/// length is the sum of the descriptor lengths.
pub proof fn lemma_read_chain_accepted(mem: GuestRam, descs: Seq<Descriptor>)
    requires
        forall|k: int| 0 <= k < descs.len() ==> !(#[trigger] descs[k]).write_only,
        forall|k: int|
            0 <= k < descs.len() ==> mem.valid_range(
                (#[trigger] descs[k]).addr as int,
                descs[k].len as int,
            ),
    ensures
        forall|k: int| 0 <= k < descs.len() ==> #[trigger] read_desc_err(mem, descs[k]) is None,
{
}

/// For every chain whose descriptors are all device-writable and all
/// translatable, no per-descriptor check fails, so by its contract
/// `IoVecBufferMut::from_descriptor_chain` returns a buffer whose total
/// length is the sum of the descriptor lengths.
pub proof fn lemma_write_chain_accepted(mem: GuestRam, descs: Seq<Descriptor>)
    requires
        forall|k: int| 0 <= k < descs.len() ==> (#[trigger] descs[k]).write_only,
        forall|k: int|
            0 <= k < descs.len() ==> mem.valid_range(
                (#[trigger] descs[k]).addr as int,
                descs[k].len as int,
            ),
    ensures
        forall|k: int| 0 <= k < descs.len() ==> #[trigger] write_desc_err(mem, descs[k]) is None,
{
}

/// For every fully translatable chain holding at least one write-only
/// descriptor, some per-descriptor check fails, and whichever violation
/// comes first, its error is the direction mismatch: by its contract,
/// `IoVecBuffer::from_descriptor_chain` fails with `WriteOnlyDescriptor`
/// and no buffer is produced.
pub proof fn lemma_read_chain_rejected(mem: GuestRam, descs: Seq<Descriptor>, k: int)
    requires
        forall|m: int|
            0 <= m < descs.len() ==> mem.valid_range(
                (#[trigger] descs[m]).addr as int,
                descs[m].len as int,
            ),
        0 <= k < descs.len(),
        descs[k].write_only,
    ensures
        read_desc_err(mem, descs[k]) is Some,
        forall|j: int|
            0 <= j < descs.len() && #[trigger] read_desc_err(mem, descs[j]) is Some
                ==> read_desc_err(mem, descs[j]) == Some(IoVecError::WriteOnlyDescriptor),
{
}

/// For every fully translatable chain holding at least one descriptor that
/// is not write-only, some per-descriptor check fails, and whichever
/// violation comes first, its error is the direction mismatch: by its
/// contract, `IoVecBufferMut::from_descriptor_chain` fails with
/// `ReadOnlyDescriptor` and no buffer is produced.
pub proof fn lemma_write_chain_rejected(mem: GuestRam, descs: Seq<Descriptor>, k: int)
    requires
        forall|m: int|
            0 <= m < descs.len() ==> mem.valid_range(
                (#[trigger] descs[m]).addr as int,
                descs[m].len as int,
            ),
        0 <= k < descs.len(),
        !descs[k].write_only,
    ensures
        write_desc_err(mem, descs[k]) is Some,
        forall|j: int|
            0 <= j < descs.len() && #[trigger] write_desc_err(mem, descs[j]) is Some
                ==> write_desc_err(mem, descs[j]) == Some(IoVecError::ReadOnlyDescriptor),
{
}

/// Zero-length transfers are no-ops: at any in-bounds offset the bounded
/// transfer size for a zero-length destination or source is zero, so by
/// their contracts `read_at` and `write_at` return `Some(0)` there (and an
/// absent result only when the offset is past the end).
pub proof fn lemma_zero_length_transfer(total: int, offset: int)
    requires
        0 <= offset < total,
    ensures
        transfer_cap(0, total, offset) == 0,
{
}

/// Constructing a write view over a chain of `N` descriptors issues
/// exactly `N` dirty marks, one per descriptor and covering its full
/// extent, in traversal order — and, by the constructor's contract, all of
/// them before any transfer on the buffer can occur.
pub proof fn lemma_dirty_marks_shape(descs: Seq<Descriptor>)
    ensures
        dirty_marks(descs).len() == descs.len(),
        forall|k: int|
            0 <= k < descs.len() ==> #[trigger] dirty_marks(descs)[k] == (DirtyMark {
                addr: descs[k].addr,
                len: descs[k].len,
            }),
{
}

} // verus!
