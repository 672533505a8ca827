use rum::rumload::{words_from_bytes, LoadError};

#[test]
fn words_are_big_endian() {
    let bytes = [0x70, 0x00, 0x00, 0x00, 0xD0, 0x00, 0x00, 0x41, 0x01, 0x02, 0x03, 0x04];
    assert_eq!(
        words_from_bytes(&bytes),
        Ok(vec![0x7000_0000, 0xD000_0041, 0x0102_0304])
    );
    assert_eq!(words_from_bytes(&[]), Ok(vec![]));
    assert_eq!(words_from_bytes(&[0xFF; 4]), Ok(vec![u32::MAX]));
}

#[test]
fn trailing_bytes_are_refused() {
    assert_eq!(
        words_from_bytes(&[1, 2, 3, 4, 5]),
        Err(LoadError::TrailingBytes { count: 1 })
    );
    assert_eq!(words_from_bytes(&[1, 2, 3]), Err(LoadError::TrailingBytes { count: 3 }));
}
