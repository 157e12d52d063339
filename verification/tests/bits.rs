use webgateway::bits::{BitReader, ByteReader};
use webgateway::error::DecodeError;

#[test]
fn byte_reader_reads_in_order() {
    let data = [1u8, 2, 3];
    let mut reader = ByteReader::new(&data);
    assert_eq!(reader.remaining(), 3);
    assert_eq!(reader.read_u8(), Ok(1));
    assert_eq!(reader.read_u8(), Ok(2));
    assert_eq!(reader.rest(), &[3u8][..]);
    assert_eq!(reader.read_u8(), Ok(3));
    assert_eq!(reader.read_u8(), Err(DecodeError::UnexpectedEof));
    assert_eq!(reader.finish(), Ok(()));
}

#[test]
fn byte_reader_read_is_short_at_the_end() {
    let data = [1u8, 2, 3];
    let mut reader = ByteReader::new(&data);
    assert_eq!(reader.read(2), &[1u8, 2][..]);
    assert_eq!(reader.read(2), &[3u8][..]);
    assert_eq!(reader.read(2), &[0u8; 0][..]);
}

#[test]
fn byte_reader_read_exact_takes_all_or_nothing() {
    let data = [1u8, 2, 3];
    let mut reader = ByteReader::new(&data);
    assert_eq!(reader.read_exact(4), Err(DecodeError::UnexpectedEof));
    assert_eq!(reader.remaining(), 3);
    assert_eq!(reader.read_exact(3), Ok(&[1u8, 2, 3][..]));
    assert_eq!(reader.read_exact(0), Ok(&[0u8; 0][..]));
}

#[test]
fn byte_reader_reports_leftover_bytes() {
    let data = [1u8, 2];
    let mut reader = ByteReader::new(&data);
    assert_eq!(reader.read_u8(), Ok(1));
    assert_eq!(reader.finish(), Err(DecodeError::LeftoverBytes));
}

#[test]
fn bits_come_most_significant_first() {
    let data = [0b1010_0110u8, 0xff];
    let mut bits = BitReader::new(ByteReader::new(&data));
    assert_eq!(bits.read_bits(3), Ok(0b101));
    assert_eq!(bits.read_bits(1), Ok(0));
    assert_eq!(bits.read_bits(4), Ok(0b0110));
    assert!(bits.is_aligned());
    assert_eq!(bits.read_bits(8), Ok(0xff));
    assert_eq!(bits.read_bits(1), Err(DecodeError::UnexpectedEof));
}

#[test]
fn read_bit_tells_the_top_bit() {
    let data = [0b1000_0000u8, 0b0111_1111];
    let mut bits = BitReader::new(ByteReader::new(&data));
    assert_eq!(bits.read_bit(), Ok(true));
    assert_eq!(bits.read_bits(7), Ok(0));
    assert_eq!(bits.read_bit(), Ok(false));
    assert_eq!(bits.read_bits(7), Ok(127));
}

#[test]
fn a_field_may_not_cross_a_byte() {
    let data = [0xffu8, 0xff];
    let mut bits = BitReader::new(ByteReader::new(&data));
    assert_eq!(bits.read_bits(5), Ok(31));
    assert_eq!(bits.read_bits(4), Err(DecodeError::UnalignedBitRead));
    assert_eq!(bits.read_bits(3), Ok(7));
}

#[test]
fn unaligned_byte_read_fails() {
    let data = [0b1010_0000u8, 7];
    let mut bits = BitReader::new(ByteReader::new(&data));
    assert_eq!(bits.read_bits(3), Ok(5));
    assert_eq!(bits.read_u8(), Err(DecodeError::UnalignedByteRead));
    assert_eq!(bits.read(1), Err(DecodeError::UnalignedByteRead));
    assert_eq!(bits.read_exact(1), Err(DecodeError::UnalignedByteRead));
    assert_eq!(bits.read_bits(5), Ok(0));
    assert_eq!(bits.read_u8(), Ok(7));
}

#[test]
fn align_skips_the_rest_of_the_byte() {
    let data = [0b1100_0000u8, 9];
    let mut bits = BitReader::new(ByteReader::new(&data));
    assert_eq!(bits.read_bits(2), Ok(3));
    assert!(!bits.is_aligned());
    bits.align();
    assert!(bits.is_aligned());
    assert_eq!(bits.read_u8(), Ok(9));
    bits.align();
    assert_eq!(bits.read_u8(), Err(DecodeError::UnexpectedEof));
}

#[test]
fn into_inner_reports_leftover_bits() {
    let data = [0xf0u8, 1];
    let mut bits = BitReader::new(ByteReader::new(&data));
    assert_eq!(bits.read_bits(4), Ok(15));
    assert!(matches!(bits.into_inner(), Err(DecodeError::LeftoverBits)));
}

#[test]
fn into_inner_gives_the_byte_cursor_back() {
    let data = [0xf0u8, 1];
    let mut bits = BitReader::new(ByteReader::new(&data));
    assert_eq!(bits.read_bits(4), Ok(15));
    bits.align();
    let mut inner = bits.into_inner().unwrap();
    assert_eq!(inner.remaining(), 1);
    assert_eq!(inner.read_u8(), Ok(1));
}

#[test]
fn byte_reads_through_the_bit_cursor() {
    let data = [1u8, 2, 3, 4];
    let mut bits = BitReader::new(ByteReader::new(&data));
    assert_eq!(bits.read_exact(2), Ok(&[1u8, 2][..]));
    assert_eq!(bits.read(5), Ok(&[3u8, 4][..]));
    assert_eq!(bits.read_exact(1), Err(DecodeError::UnexpectedEof));
}
