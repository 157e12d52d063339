use webgateway::error::DecodeError;

#[test]
fn every_error_has_its_message() {
    assert_eq!(DecodeError::LeftoverBytes.message(), "leftover ZRLE byte data");
    assert_eq!(DecodeError::LeftoverBits.message(), "leftover ZRLE bit data");
    assert_eq!(DecodeError::UnalignedBitRead.message(), "unaligned ZRLE bit read");
    assert_eq!(DecodeError::UnalignedByteRead.message(), "unaligned ZRLE byte read");
    assert_eq!(DecodeError::InvalidSubencoding.message(), "ZRLE subencoding");
    assert_eq!(DecodeError::InvalidPaletteIndex.message(), "ZRLE palette index");
    assert_eq!(DecodeError::RunLengthOverflow.message(), "ZRLE run length");
    assert_eq!(DecodeError::StreamEnd.message(), "ZRLE stream end");
    assert_eq!(DecodeError::Corrupt.message(), "corrupt deflate stream");
    assert_eq!(DecodeError::UnexpectedEof.message(), "failed to fill whole buffer");
}
