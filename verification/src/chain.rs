use vstd::prelude::*;

use crate::descriptor::Descriptor;
use crate::error::{GuestMemoryError, IoVecError};
use crate::guest::{DirtyMark, GuestRam};

verus! {

/// The dirty-bitmap updates that constructing a write view over a chain
/// issues: one mark per descriptor, covering the descriptor's full extent,
/// in traversal order.
pub open spec fn dirty_marks(descs: Seq<Descriptor>) -> Seq<DirtyMark> {
    Seq::new(descs.len(), |i: int| DirtyMark { addr: descs[i].addr, len: descs[i].len })
}

/// Why construction of a read view rejects a descriptor, if it does:
/// the device may not read a write-only descriptor, and every range must
/// translate.  Direction is checked before translation.
pub open spec fn read_desc_err(mem: GuestRam, d: Descriptor) -> Option<IoVecError> {
    if d.write_only {
        Some(IoVecError::WriteOnlyDescriptor)
    } else if !mem.valid_range(d.addr as int, d.len as int) {
        Some(
            IoVecError::GuestMemory(
                GuestMemoryError::InvalidGuestRange { addr: d.addr, len: d.len },
            ),
        )
    } else {
        None
    }
}

/// Why construction of a write view rejects a descriptor, if it does:
/// the device may only write write-only descriptors, and every range must
/// translate.  Direction is checked before translation.
pub open spec fn write_desc_err(mem: GuestRam, d: Descriptor) -> Option<IoVecError> {
    if !d.write_only {
        Some(IoVecError::ReadOnlyDescriptor)
    } else if !mem.valid_range(d.addr as int, d.len as int) {
        Some(
            IoVecError::GuestMemory(
                GuestMemoryError::InvalidGuestRange { addr: d.addr, len: d.len },
            ),
        )
    } else {
        None
    }
}

} // verus!
