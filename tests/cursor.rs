use token_synth::cursor::{Error, Unstructured};

#[test]
fn integers_are_little_endian() {
    let mut u = Unstructured::new(vec![0x78, 0x56, 0x34, 0x12, 0xfe]);
    assert_eq!(u.read_u32(), Ok(0x1234_5678));
    assert_eq!(u.read_i8(), Ok(-2));
    assert_eq!(u.read_u8(), Err(Error::NotEnoughData));
}

#[test]
fn wide_integers() {
    let mut u = Unstructured::new(vec![0xff; 32]);
    assert_eq!(u.read_i128(), Ok(-1));
    assert_eq!(u.read_u128(), Ok(u128::MAX));
    let mut u = Unstructured::new(vec![0, 0, 0, 0, 0, 0, 0, 0x80]);
    assert_eq!(u.read_i64(), Ok(i64::MIN));
}

#[test]
fn failed_read_leaves_cursor() {
    let mut u = Unstructured::new(vec![5, 2, 3]);
    assert_eq!(u.read_u32(), Err(Error::NotEnoughData));
    assert_eq!(u.len(), 3);
    assert_eq!(u.read_bytes(), Err(Error::NotEnoughData));
    assert_eq!(u.len(), 3);
    assert_eq!(u.read_u16(), Ok(0x0205));
}

#[test]
fn choices_and_bytes() {
    let mut u = Unstructured::new(vec![9, 2, 7, 8, 5]);
    assert_eq!(u.choose_index(4), Ok(1));
    assert_eq!(u.read_bytes(), Ok(vec![7, 8]));
    assert_eq!(u.read_bool(), Ok(true));
    assert!(u.is_empty());
    assert_eq!(u.read_bool(), Err(Error::NotEnoughData));
}
