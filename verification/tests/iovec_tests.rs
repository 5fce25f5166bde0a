use iovec::{Descriptor, GuestRam, IoVecBuffer, IoVecBufferMut, Region};

fn default_mem() -> GuestRam {
    GuestRam {
        regions: vec![
            Region { start: 0, data: vec![0u8; 0x10000] },
            Region { start: 0x20000, data: vec![0u8; 0x10000] },
            Region { start: 0x40000, data: vec![0u8; 0x10000] },
        ],
        dirty: vec![],
    }
}

/// A chain of 4 descriptors, 64 bytes each, covering `0x20000..0x20100`.
fn chain(is_write_only: bool) -> Vec<Descriptor> {
    (0..4u64)
        .map(|j| Descriptor { addr: 0x20000 + 64 * j, len: 64, write_only: is_write_only })
        .collect()
}

fn read_only_chain(mem: &mut GuestRam) -> Vec<Descriptor> {
    for i in 0..256usize {
        mem.regions[1].data[i] = i as u8;
    }
    chain(false)
}

fn write_only_chain(mem: &mut GuestRam) -> Vec<Descriptor> {
    for i in 0..256usize {
        mem.regions[1].data[i] = 0;
    }
    chain(true)
}

#[test]
fn test_access_mode() {
    let mut mem = default_mem();
    let head = read_only_chain(&mut mem);
    assert!(IoVecBuffer::from_descriptor_chain(&mem, &head).is_ok());

    let head = write_only_chain(&mut mem);
    assert!(IoVecBuffer::from_descriptor_chain(&mem, &head).is_err());

    let head = read_only_chain(&mut mem);
    assert!(IoVecBufferMut::from_descriptor_chain(&mut mem, &head).is_err());

    let head = write_only_chain(&mut mem);
    assert!(IoVecBufferMut::from_descriptor_chain(&mut mem, &head).is_ok());
}

#[test]
fn test_iovec_length() {
    let mut mem = default_mem();
    let head = read_only_chain(&mut mem);

    let iovec = IoVecBuffer::from_descriptor_chain(&mem, &head).unwrap();
    assert_eq!(iovec.len(), 4 * 64);
}

#[test]
fn test_iovec_mut_length() {
    let mut mem = default_mem();
    let head = write_only_chain(&mut mem);

    let iovec = IoVecBufferMut::from_descriptor_chain(&mut mem, &head).unwrap();
    assert_eq!(iovec.len(), 4 * 64);
}

#[test]
fn test_iovec_read_at() {
    let mut mem = default_mem();
    let head = read_only_chain(&mut mem);

    let iovec = IoVecBuffer::from_descriptor_chain(&mem, &head).unwrap();

    let mut buf = vec![0u8; 257];
    assert_eq!(iovec.read_at(&mut buf, 0), Some(256));
    assert_eq!(buf[0..256], (0..=255).collect::<Vec<u8>>());
    assert_eq!(buf[256], 0);

    let mut head4 = vec![0u8; 4];
    assert_eq!(iovec.read_at(&mut head4, 0), Some(4));
    assert_eq!(head4, vec![0u8, 1, 2, 3]);

    let mut buf = vec![0u8; 5];
    assert_eq!(iovec.read_at(&mut buf, 0), Some(5));
    assert_eq!(buf, vec![0u8, 1, 2, 3, 4]);

    assert_eq!(iovec.read_at(&mut buf, 1), Some(5));
    assert_eq!(buf, vec![1u8, 2, 3, 4, 5]);

    assert_eq!(iovec.read_at(&mut buf, 60), Some(5));
    assert_eq!(buf, vec![60u8, 61, 62, 63, 64]);

    assert_eq!(iovec.read_at(&mut buf, 252), Some(4));
    assert_eq!(buf[0..4], vec![252u8, 253, 254, 255]);

    assert_eq!(iovec.read_at(&mut buf, 256), None);
}

#[test]
fn test_iovec_mut_write_at() {
    let mut mem = default_mem();
    let head = write_only_chain(&mut mem);

    // This is a descriptor chain with 4 elements 64 bytes long each.
    let mut iovec = IoVecBufferMut::from_descriptor_chain(&mut mem, &head).unwrap();
    let buf = vec![0u8, 1, 2, 3, 4];

    // One test vector for each part of the chain
    let mut test_vec1 = vec![0u8; 64];
    let mut test_vec2 = vec![0u8; 64];
    let test_vec3 = vec![0u8; 64];
    let mut test_vec4 = vec![0u8; 64];

    // Control test: Initially all four segments should be zero
    assert_eq!(iovec.write_at(&test_vec1, 0), Some(64));
    assert_eq!(iovec.write_at(&test_vec2, 64), Some(64));
    assert_eq!(iovec.write_at(&test_vec3, 128), Some(64));
    assert_eq!(iovec.write_at(&test_vec4, 192), Some(64));
    assert_eq!(iovec.segment(0), &test_vec1);
    assert_eq!(iovec.segment(1), &test_vec2);
    assert_eq!(iovec.segment(2), &test_vec3);
    assert_eq!(iovec.segment(3), &test_vec4);

    // Let's initialize test_vec1 with our buffer.
    test_vec1[..buf.len()].copy_from_slice(&buf);
    // And write just a part of it
    assert_eq!(iovec.write_at(&buf[..3].to_vec(), 0), Some(3));
    // Not all 5 bytes from buf should be written in memory,
    // just 3 of them.
    assert_eq!(&iovec.segment(0)[..5], &[0u8, 1, 2, 0, 0]);
    assert_eq!(iovec.segment(1), &test_vec2);
    assert_eq!(iovec.segment(2), &test_vec3);
    assert_eq!(iovec.segment(3), &test_vec4);
    // But if we write the whole `buf` in memory then all
    // of it should be observable.
    assert_eq!(iovec.write_at(&buf, 0), Some(5));
    assert_eq!(iovec.segment(0), &test_vec1);
    assert_eq!(iovec.segment(1), &test_vec2);
    assert_eq!(iovec.segment(2), &test_vec3);
    assert_eq!(iovec.segment(3), &test_vec4);

    // We are now writing with an offset of 1. So, initialize
    // the corresponding part of `test_vec1`
    test_vec1[1..buf.len() + 1].copy_from_slice(&buf);
    assert_eq!(iovec.write_at(&buf, 1), Some(5));
    assert_eq!(iovec.segment(0), &test_vec1);
    assert_eq!(iovec.segment(1), &test_vec2);
    assert_eq!(iovec.segment(2), &test_vec3);
    assert_eq!(iovec.segment(3), &test_vec4);

    // Perform a write that traverses two of the underlying
    // segments. Writing at offset 60 should write 4 bytes on the
    // first segment and one byte on the second
    test_vec1[60..64].copy_from_slice(&buf[0..4]);
    test_vec2[0] = 4;
    assert_eq!(iovec.write_at(&buf, 60), Some(5));
    assert_eq!(iovec.segment(0), &test_vec1);
    assert_eq!(iovec.segment(1), &test_vec2);
    assert_eq!(iovec.segment(2), &test_vec3);
    assert_eq!(iovec.segment(3), &test_vec4);

    test_vec4[63] = 3;
    test_vec4[62] = 2;
    test_vec4[61] = 1;
    // Now perform a write that does not fit in the buffer. Try writing
    // 5 bytes at offset 252 (only 4 bytes left).
    test_vec4[60..64].copy_from_slice(&buf[0..4]);
    assert_eq!(iovec.write_at(&buf, 252), Some(4));
    assert_eq!(iovec.segment(0), &test_vec1);
    assert_eq!(iovec.segment(1), &test_vec2);
    assert_eq!(iovec.segment(2), &test_vec3);
    assert_eq!(iovec.segment(3), &test_vec4);

    // Trying to add past the end of the buffer should not write anything
    assert_eq!(iovec.write_at(&buf, 256), None);
    assert_eq!(iovec.segment(0), &test_vec1);
    assert_eq!(iovec.segment(1), &test_vec2);
    assert_eq!(iovec.segment(2), &test_vec3);
    assert_eq!(iovec.segment(3), &test_vec4);
}
