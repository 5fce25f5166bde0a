//! Scatter-gather I/O buffers over guest-supplied descriptor chains.
//!
//! A guest describes one logical I/O buffer as an ordered chain of
//! descriptors, each denoting a contiguous range of guest memory together
//! with the direction the device may access it in.  This crate validates
//! such a chain against a guest-memory map, flattens it into an ordered
//! segment list, and offers offset-addressable read and write operations
//! over the flattened view, with exact partial-transfer accounting.

pub mod bounds;
pub mod buffer;
pub mod buffer_mut;
pub mod chain;
pub mod descriptor;
pub mod endpoint;
pub mod error;
pub mod guest;
pub mod laws;
pub mod segs;

pub use buffer::IoVecBuffer;
pub use buffer_mut::IoVecBufferMut;
pub use descriptor::Descriptor;
pub use endpoint::{IoEvent, IoSink, IoSource};
pub use error::{GuestMemoryError, IoVecError, TransferError};
pub use guest::{DirtyMark, GuestRam, Region};
