use vstd::prelude::*;

verus! {

/// Failure of guest-address translation: the range `[addr, addr + len)` is
/// not backed by a single contiguous, accessible region of guest memory.
#[derive(Clone, Copy, PartialEq, Eq, Structural, Debug)]
pub enum GuestMemoryError {
    InvalidGuestRange { addr: u64, len: u32 },
}

/// Errors of buffer construction from a descriptor chain.
#[derive(Clone, Copy, PartialEq, Eq, Structural, Debug)]
pub enum IoVecError {
    /// Tried to create a read view from a chain holding a write-only descriptor.
    WriteOnlyDescriptor,
    /// Tried to create a write view from a chain holding a read-only descriptor.
    ReadOnlyDescriptor,
    /// A descriptor's range failed guest-memory translation.
    GuestMemory(GuestMemoryError),
}

/// Errors an I/O endpoint can report during a transfer.  `Interrupted` is
/// transient and is retried inside the transfer loop, never surfaced to the
/// caller; any other failure aborts the transfer.
#[derive(Clone, Copy, PartialEq, Eq, Structural, Debug)]
pub enum TransferError {
    Interrupted,
    Io,
}

} // verus!
