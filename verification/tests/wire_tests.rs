use aqd_solana::wire::{append_bytes, copy_range, get_le, put_le};

#[test]
fn put_le_writes_least_significant_byte_first() {
    let mut out = vec![0xFF];
    put_le(&mut out, 0x0102_0304, 4);
    assert_eq!(out, vec![0xFF, 0x04, 0x03, 0x02, 0x01]);
}

#[test]
fn put_le_keeps_only_the_low_bytes() {
    let mut out = Vec::new();
    put_le(&mut out, 0x1_23, 1);
    assert_eq!(out, vec![0x23]);
    put_le(&mut out, 7, 0);
    assert_eq!(out, vec![0x23]);
}

#[test]
fn get_le_reads_back_what_put_le_wrote() {
    let mut out = vec![9, 9];
    put_le(&mut out, u64::MAX - 5, 8);
    assert_eq!(get_le(&out, 2, 8), u64::MAX - 5);
    assert_eq!(get_le(&[0xE8, 0x03], 0, 2), 1000);
    assert_eq!(get_le(&[1, 2, 3], 3, 0), 0);
}

#[test]
fn append_and_copy_bytes() {
    let mut out = vec![1];
    append_bytes(&mut out, &[2, 3]);
    assert_eq!(out, vec![1, 2, 3]);
    assert_eq!(copy_range(&out, 1, 3), vec![2, 3]);
    assert_eq!(copy_range(&out, 2, 2), Vec::<u8>::new());
}
