use zodvm::runtime::error::RuntimeError;
use zodvm::runtime::reader::Reader;

#[test]
fn new_reader_starts_at_offset_zero() {
    let reader = Reader::new(vec![1, 2, 3]);
    assert_eq!(reader.len(), 3);
    assert_eq!(reader.remaining(), 3);
}

#[test]
fn byte_advances_by_one() {
    let mut reader = Reader::new(vec![0x10, 0x20]);
    assert_eq!(reader.byte(), Ok(0x10));
    assert_eq!(reader.remaining(), 1);
    assert_eq!(reader.byte(), Ok(0x20));
    assert_eq!(reader.remaining(), 0);
    assert_eq!(reader.byte(), Err(RuntimeError::UnexpectedEndOfInput));
    assert_eq!(reader.remaining(), 0);
    assert_eq!(reader.len(), 2);
}

#[test]
fn dword_is_little_endian_and_advances_by_four() {
    let mut reader = Reader::new(vec![0x78, 0x56, 0x34, 0x12, 0xff, 0xff, 0xff, 0xff, 0x01]);
    assert_eq!(reader.dword(), Ok(0x1234_5678));
    assert_eq!(reader.remaining(), 5);
    assert_eq!(reader.dword(), Ok(0xffff_ffff));
    assert_eq!(reader.remaining(), 1);
}

#[test]
fn dword_on_three_bytes_fails_and_stays() {
    let mut reader = Reader::new(vec![0x01, 0x00, 0x00]);
    assert_eq!(reader.dword(), Err(RuntimeError::UnexpectedEndOfInput));
    assert_eq!(reader.remaining(), 3);
    assert_eq!(reader.byte(), Ok(0x01));
}

#[test]
fn bytes_hands_out_the_next_n() {
    let mut reader = Reader::new(vec![1, 2, 3, 4, 5]);
    assert_eq!(reader.byte(), Ok(1));
    assert_eq!(reader.bytes(3), Ok(&[2u8, 3, 4][..]));
    assert_eq!(reader.remaining(), 1);
    assert_eq!(reader.bytes(0), Ok(&[][..]));
    assert_eq!(reader.remaining(), 1);
    assert_eq!(reader.bytes(2), Err(RuntimeError::UnexpectedEndOfInput));
    assert_eq!(reader.remaining(), 1);
    assert_eq!(reader.bytes(1), Ok(&[5u8][..]));
    assert_eq!(reader.remaining(), 0);
}

#[test]
fn bytes_with_a_huge_count_fails() {
    let mut reader = Reader::new(vec![1, 2, 3]);
    assert_eq!(
        reader.bytes(usize::MAX),
        Err(RuntimeError::UnexpectedEndOfInput)
    );
    assert_eq!(reader.remaining(), 3);
}
