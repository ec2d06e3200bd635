use coreplus::io::{Read, Write};

#[test]
fn slice_read_advances() {
    let data = [1u8, 2, 3, 4, 5];
    let mut src: &[u8] = &data;
    let mut buf = [0u8; 2];
    assert_eq!(src.read(&mut buf), Ok(2));
    assert_eq!(buf, [1, 2]);
    assert_eq!(src, &[3, 4, 5]);
    assert_eq!(src.read(&mut buf), Ok(2));
    assert_eq!(buf, [3, 4]);
    assert_eq!(src.read(&mut buf), Ok(1));
    assert_eq!(buf[0], 5);
    assert_eq!(src.read(&mut buf), Ok(0));
}

#[test]
fn slice_read_short_source() {
    let data = [9u8];
    let mut src: &[u8] = &data;
    let mut buf = [0u8; 4];
    assert_eq!(src.read(&mut buf), Ok(1));
    assert_eq!(buf[0], 9);
    assert!(src.is_empty());
}

#[test]
fn slice_read_leaves_buffer_tail() {
    let data = [1u8, 2];
    let mut src: &[u8] = &data;
    let mut buf = [7u8; 5];
    assert_eq!(src.read(&mut buf), Ok(2));
    assert_eq!(buf, [1, 2, 7, 7, 7]);
}

#[test]
fn slice_write_advances() {
    let mut storage = [0u8; 5];
    let mut dst: &mut [u8] = &mut storage;
    assert_eq!(dst.write(&[1, 2]), Ok(2));
    assert_eq!(dst.len(), 3);
    assert_eq!(dst.write(&[3]), Ok(1));
    assert_eq!(dst.flush(), Ok(()));
    assert_eq!(storage, [1, 2, 3, 0, 0]);
}

#[test]
fn slice_write_truncates() {
    let mut storage = [0u8; 2];
    let mut dst: &mut [u8] = &mut storage;
    assert_eq!(dst.write(&[7, 8, 9]), Ok(2));
    assert_eq!(dst.len(), 0);
    assert_eq!(dst.write(&[1]), Ok(0));
    assert_eq!(storage, [7, 8]);
}

#[test]
fn slice_write_all() {
    let mut storage = [0u8; 4];
    let mut dst: &mut [u8] = &mut storage;
    assert_eq!(dst.write_all(&[1, 2, 3]), Ok(()));
    assert_eq!(dst.len(), 1);
    assert_eq!(storage[..3], [1, 2, 3]);
}

#[test]
fn slice_write_all_accepts_partial_write() {
    // bytes past the remaining room are dropped, yet the call succeeds
    let mut storage = [0u8; 2];
    let mut dst: &mut [u8] = &mut storage;
    assert_eq!(dst.write_all(&[4, 5, 6]), Ok(()));
    assert_eq!(dst.len(), 0);
    assert_eq!(storage, [4, 5]);
}
