use os_syscall::syscall::wire::{push_le, read_le};

#[test]
fn numbers_are_laid_out_least_significant_byte_first() {
    let mut out = vec![0xaa];
    push_le(&mut out, 0x0102_0304_0506_0708, 8);
    assert_eq!(out, vec![0xaa, 8, 7, 6, 5, 4, 3, 2, 1]);

    let mut out = Vec::new();
    push_le(&mut out, 500_000, 4);
    assert_eq!(out, vec![0x20, 0xa1, 0x07, 0x00]);
}

#[test]
fn a_narrow_layout_keeps_the_low_bytes() {
    let mut out = Vec::new();
    push_le(&mut out, 0x1_0000_00ff, 4);
    assert_eq!(out, vec![0xff, 0, 0, 0]);
    let mut out = Vec::new();
    push_le(&mut out, 77, 0);
    assert_eq!(out, Vec::<u8>::new());
}

#[test]
fn numbers_are_read_back_from_their_bytes() {
    let bytes = [0xaa, 8, 7, 6, 5, 4, 3, 2, 1, 0xbb];
    assert_eq!(read_le(&bytes[1..9]), Some(0x0102_0304_0506_0708));
    assert_eq!(read_le(&bytes[1..5]), Some(0x0506_0708));
    assert_eq!(read_le(&bytes[9..]), Some(0xbb));
    assert_eq!(read_le(&[]), Some(0));
    assert_eq!(read_le(&[0xff; 8]), Some(u64::MAX));
}

#[test]
fn more_bytes_than_a_number_has_are_not_read() {
    assert_eq!(read_le(&[0; 9]), None);
    assert_eq!(read_le(&[1; 16]), None);
}
