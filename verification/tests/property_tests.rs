use iovec::{
    Descriptor, DirtyMark, GuestMemoryError, GuestRam, IoEvent, IoSink, IoSource, IoVecBuffer,
    IoVecBufferMut, IoVecError, Region, TransferError,
};

fn two_region_mem() -> GuestRam {
    GuestRam {
        regions: vec![
            Region { start: 0x1000, data: (0u8..16).collect() },
            Region { start: 0x2000, data: (16u8..32).collect() },
        ],
        dirty: vec![],
    }
}

#[test]
fn test_empty_chain() {
    let mut mem = two_region_mem();
    let head: Vec<Descriptor> = vec![];

    let buf = IoVecBuffer::from_descriptor_chain(&mem, &head).unwrap();
    assert_eq!(buf.len(), 0);
    assert_eq!(buf.iovec_count(), 0);
    let mut dest = vec![0u8; 8];
    assert_eq!(buf.read_at(&mut dest, 0), None);

    let mut wbuf = IoVecBufferMut::from_descriptor_chain(&mut mem, &head).unwrap();
    assert_eq!(wbuf.len(), 0);
    assert_eq!(wbuf.write_at(&vec![1u8, 2], 0), None);
    assert!(mem.dirty.is_empty());
}

#[test]
fn test_zero_length_transfers() {
    let mut mem = two_region_mem();
    let head = vec![
        Descriptor { addr: 0x1000, len: 16, write_only: false },
        Descriptor { addr: 0x2000, len: 16, write_only: false },
    ];
    let buf = IoVecBuffer::from_descriptor_chain(&mem, &head).unwrap();
    // a zero-length destination is a no-op, not an absent result
    let mut dest: Vec<u8> = vec![];
    assert_eq!(buf.read_at(&mut dest, 0), Some(0));
    assert_eq!(buf.read_at(&mut dest, 31), Some(0));
    assert_eq!(buf.read_at(&mut dest, 32), None);

    let whead = vec![
        Descriptor { addr: 0x1000, len: 16, write_only: true },
        Descriptor { addr: 0x2000, len: 16, write_only: true },
    ];
    let mut wbuf = IoVecBufferMut::from_descriptor_chain(&mut mem, &whead).unwrap();
    let empty: Vec<u8> = vec![];
    assert_eq!(wbuf.write_at(&empty, 0), Some(0));
    assert_eq!(wbuf.write_at(&empty, 31), Some(0));
    assert_eq!(wbuf.write_at(&empty, 32), None);
}

#[test]
fn test_boundary_crossing_read() {
    let mem = two_region_mem();
    let head = vec![
        Descriptor { addr: 0x1000, len: 16, write_only: false },
        Descriptor { addr: 0x2000, len: 16, write_only: false },
    ];
    let buf = IoVecBuffer::from_descriptor_chain(&mem, &head).unwrap();
    // a 4-byte read at offset 14 takes 2 bytes from each segment
    let mut dest = vec![0u8; 4];
    assert_eq!(buf.read_at(&mut dest, 14), Some(4));
    assert_eq!(dest, vec![14u8, 15, 16, 17]);
}

#[test]
fn test_boundary_crossing_write() {
    let mut mem = two_region_mem();
    let head = vec![
        Descriptor { addr: 0x1000, len: 16, write_only: true },
        Descriptor { addr: 0x2000, len: 16, write_only: true },
    ];
    let mut wbuf = IoVecBufferMut::from_descriptor_chain(&mut mem, &head).unwrap();
    // a 4-byte write at offset 14 lands 2 bytes in each segment
    assert_eq!(wbuf.write_at(&vec![0xaau8, 0xbb, 0xcc, 0xdd], 14), Some(4));
    assert_eq!(&wbuf.segment(0)[13..16], &[13u8, 0xaa, 0xbb]);
    assert_eq!(&wbuf.segment(1)[0..3], &[0xccu8, 0xdd, 18]);
}

#[test]
fn test_direction_mismatch_errors() {
    let mut mem = two_region_mem();
    let mixed = vec![
        Descriptor { addr: 0x1000, len: 16, write_only: false },
        Descriptor { addr: 0x2000, len: 16, write_only: true },
    ];
    assert_eq!(
        IoVecBuffer::from_descriptor_chain(&mem, &mixed).unwrap_err(),
        IoVecError::WriteOnlyDescriptor
    );
    assert_eq!(
        IoVecBufferMut::from_descriptor_chain(&mut mem, &mixed).unwrap_err(),
        IoVecError::ReadOnlyDescriptor
    );
}

#[test]
fn test_guest_memory_error() {
    let mut mem = two_region_mem();
    // the second descriptor runs past the end of its region
    let head = vec![
        Descriptor { addr: 0x1000, len: 16, write_only: false },
        Descriptor { addr: 0x2008, len: 16, write_only: false },
    ];
    assert_eq!(
        IoVecBuffer::from_descriptor_chain(&mem, &head).unwrap_err(),
        IoVecError::GuestMemory(GuestMemoryError::InvalidGuestRange { addr: 0x2008, len: 16 })
    );
    // an unmapped address fails the same way for the write view
    let whead = vec![Descriptor { addr: 0x5000, len: 4, write_only: true }];
    assert_eq!(
        IoVecBufferMut::from_descriptor_chain(&mut mem, &whead).unwrap_err(),
        IoVecError::GuestMemory(GuestMemoryError::InvalidGuestRange { addr: 0x5000, len: 4 })
    );
    assert!(mem.dirty.is_empty());
}

#[test]
fn test_dirty_marking() {
    let mut mem = two_region_mem();
    let head = vec![
        Descriptor { addr: 0x1000, len: 16, write_only: true },
        Descriptor { addr: 0x2000, len: 10, write_only: true },
    ];
    let _wbuf = IoVecBufferMut::from_descriptor_chain(&mut mem, &head).unwrap();
    // one mark per descriptor, full extent, in traversal order
    assert_eq!(
        mem.dirty,
        vec![DirtyMark { addr: 0x1000, len: 16 }, DirtyMark { addr: 0x2000, len: 10 }]
    );

    // a failing construction keeps the marks already issued
    let bad = vec![
        Descriptor { addr: 0x1000, len: 16, write_only: true },
        Descriptor { addr: 0x2000, len: 10, write_only: false },
    ];
    assert!(IoVecBufferMut::from_descriptor_chain(&mut mem, &bad).is_err());
    assert_eq!(mem.dirty.len(), 3);
    assert_eq!(mem.dirty[2], DirtyMark { addr: 0x1000, len: 16 });

    // the read view never marks anything dirty
    let mem2 = two_region_mem();
    let rhead = vec![Descriptor { addr: 0x1000, len: 16, write_only: false }];
    let _rbuf = IoVecBuffer::from_descriptor_chain(&mem2, &rhead).unwrap();
    assert!(mem2.dirty.is_empty());
}

#[test]
fn test_sink_short_transfer_stops() {
    let mem = two_region_mem();
    let head = vec![
        Descriptor { addr: 0x1000, len: 16, write_only: false },
        Descriptor { addr: 0x2000, len: 16, write_only: false },
    ];
    let buf = IoVecBuffer::from_descriptor_chain(&mem, &head).unwrap();
    // the sink accepts only 3 of the first 16 bytes: a short transfer is
    // a hard stop, even with budget and segments left
    let mut sink = IoSink { taken: vec![], events: vec![IoEvent::Short(3)] };
    assert_eq!(buf.read_volatile_at(&mut sink, 0, 32), Ok(3));
    assert_eq!(sink.taken, vec![0u8, 1, 2]);
}

#[test]
fn test_sink_interrupt_retried() {
    let mem = two_region_mem();
    let head = vec![
        Descriptor { addr: 0x1000, len: 16, write_only: false },
        Descriptor { addr: 0x2000, len: 16, write_only: false },
    ];
    let buf = IoVecBuffer::from_descriptor_chain(&mem, &head).unwrap();
    // transient interruptions are retried in place and never surfaced
    let mut sink = IoSink { taken: vec![], events: vec![IoEvent::Interrupt, IoEvent::Interrupt] };
    assert_eq!(buf.read_volatile_at(&mut sink, 8, 24), Ok(24));
    assert_eq!(sink.taken, (8u8..32).collect::<Vec<u8>>());
}

#[test]
fn test_sink_failure_aborts() {
    let mem = two_region_mem();
    let head = vec![
        Descriptor { addr: 0x1000, len: 16, write_only: false },
        Descriptor { addr: 0x2000, len: 16, write_only: false },
    ];
    let buf = IoVecBuffer::from_descriptor_chain(&mem, &head).unwrap();
    // the first segment is accepted, then the sink fails: the transfer
    // aborts, and the bytes already accepted are not rolled back
    let mut sink = IoSink { taken: vec![], events: vec![IoEvent::Short(16), IoEvent::Fail] };
    assert_eq!(buf.read_volatile_at(&mut sink, 0, 32), Err(TransferError::Io));
    assert_eq!(sink.taken, (0u8..16).collect::<Vec<u8>>());
}

#[test]
fn test_source_events() {
    let mut mem = two_region_mem();
    let head = vec![
        Descriptor { addr: 0x1000, len: 16, write_only: true },
        Descriptor { addr: 0x2000, len: 16, write_only: true },
    ];
    let mut wbuf = IoVecBufferMut::from_descriptor_chain(&mut mem, &head).unwrap();

    // a short read of 2 bytes is a hard stop, with budget and data left
    let mut src = IoSource {
        data: vec![0x11u8, 0x22, 0x33, 0x44],
        pos: 0,
        events: vec![IoEvent::Short(2)],
    };
    assert_eq!(wbuf.write_volatile_at(&mut src, 0, 20), Ok(2));
    assert_eq!(&wbuf.segment(0)[0..3], &[0x11u8, 0x22, 2]);

    // a transient interruption is retried in place and never surfaced
    let mut src = IoSource {
        data: vec![1u8, 2, 3, 4],
        pos: 0,
        events: vec![IoEvent::Interrupt],
    };
    assert_eq!(wbuf.write_volatile_at(&mut src, 14, 4), Ok(4));
    assert_eq!(&wbuf.segment(0)[14..16], &[1u8, 2]);
    assert_eq!(&wbuf.segment(1)[0..2], &[3u8, 4]);

    // a failing source aborts without undoing earlier segments
    let mut src = IoSource {
        data: vec![0x55u8; 20],
        pos: 0,
        events: vec![IoEvent::Short(16), IoEvent::Fail],
    };
    assert_eq!(wbuf.write_volatile_at(&mut src, 0, 20), Err(TransferError::Io));
    assert_eq!(wbuf.segment(0), &vec![0x55u8; 16]);
}

#[test]
fn test_zero_length_descriptor_in_chain() {
    let mem = two_region_mem();
    let head = vec![
        Descriptor { addr: 0x1000, len: 8, write_only: false },
        Descriptor { addr: 0x1008, len: 0, write_only: false },
        Descriptor { addr: 0x1008, len: 8, write_only: false },
    ];
    let buf = IoVecBuffer::from_descriptor_chain(&mem, &head).unwrap();
    assert_eq!(buf.len(), 16);
    assert_eq!(buf.iovec_count(), 3);

    // the empty segment contributes nothing to the flattened view
    let mut dest = vec![0u8; 16];
    assert_eq!(buf.read_at(&mut dest, 0), Some(16));
    assert_eq!(dest, (0u8..16).collect::<Vec<u8>>());

    // an empty segment is skipped entirely: it issues no endpoint call,
    // so the second event is consumed by the third segment, not by it
    let mut sink = IoSink { taken: vec![], events: vec![IoEvent::Short(8), IoEvent::Fail] };
    assert_eq!(buf.read_volatile_at(&mut sink, 0, 16), Err(TransferError::Io));
    assert_eq!(sink.taken, (0u8..8).collect::<Vec<u8>>());
}

#[test]
fn test_read_exhausts_source_data() {
    let mut mem = two_region_mem();
    let head = vec![
        Descriptor { addr: 0x1000, len: 16, write_only: true },
        Descriptor { addr: 0x2000, len: 16, write_only: true },
    ];
    let mut wbuf = IoVecBufferMut::from_descriptor_chain(&mut mem, &head).unwrap();
    // a plain source with less data than the budget serves what it has
    let mut src = IoSource { data: vec![9u8, 8, 7], pos: 0, events: vec![] };
    assert_eq!(wbuf.write_volatile_at(&mut src, 0, 32), Ok(3));
    assert_eq!(&wbuf.segment(0)[0..4], &[9u8, 8, 7, 3]);
}
