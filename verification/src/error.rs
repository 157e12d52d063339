//! The ways a decode can fail. Every one of them leaves the decompression
//! stream out of step with the server, so none can be retried.

use vstd::prelude::*;

verus! {

/// Why a rectangle could not be decoded.
#[derive(Clone, Copy, Debug, PartialEq, Eq, Structural)]
pub enum DecodeError {
    /// Input was left over once every tile had been decoded.
    LeftoverBytes,
    /// The bit cursor was given back in the middle of a byte.
    LeftoverBits,
    /// A bit read would have crossed into the next byte.
    UnalignedBitRead,
    /// A byte was asked for while the bit cursor stood inside a byte.
    UnalignedByteRead,
    /// A tile header names a combination of run-length flag and palette size
    /// that the encoding does not define.
    InvalidSubencoding,
    /// A pixel names a palette entry that the tile's palette does not have.
    InvalidPaletteIndex,
    /// A run length does not fit the machine's word.
    RunLengthOverflow,
    /// The compressed stream ended, which a session's stream never does.
    StreamEnd,
    /// The compressed bytes are not a valid stream.
    Corrupt,
    /// The stream ran out in the middle of a tile.
    UnexpectedEof,
}

impl DecodeError {
    /// The text of the message, as a sequence of characters.
    pub open spec fn spec_message(self) -> Seq<char> {
        match self {
            DecodeError::LeftoverBytes => "leftover ZRLE byte data"@,
            DecodeError::LeftoverBits => "leftover ZRLE bit data"@,
            DecodeError::UnalignedBitRead => "unaligned ZRLE bit read"@,
            DecodeError::UnalignedByteRead => "unaligned ZRLE byte read"@,
            DecodeError::InvalidSubencoding => "ZRLE subencoding"@,
            DecodeError::InvalidPaletteIndex => "ZRLE palette index"@,
            DecodeError::RunLengthOverflow => "ZRLE run length"@,
            DecodeError::StreamEnd => "ZRLE stream end"@,
            DecodeError::Corrupt => "corrupt deflate stream"@,
            DecodeError::UnexpectedEof => "failed to fill whole buffer"@,
        }
    }

    /// A message for the owner of the session.
    pub fn message(&self) -> (text: String)
        ensures
            text@ == self.spec_message(),
    {
        match self {
            DecodeError::LeftoverBytes => "leftover ZRLE byte data".to_owned(),
            DecodeError::LeftoverBits => "leftover ZRLE bit data".to_owned(),
            DecodeError::UnalignedBitRead => "unaligned ZRLE bit read".to_owned(),
            DecodeError::UnalignedByteRead => "unaligned ZRLE byte read".to_owned(),
            DecodeError::InvalidSubencoding => "ZRLE subencoding".to_owned(),
            DecodeError::InvalidPaletteIndex => "ZRLE palette index".to_owned(),
            DecodeError::RunLengthOverflow => "ZRLE run length".to_owned(),
            DecodeError::StreamEnd => "ZRLE stream end".to_owned(),
            DecodeError::Corrupt => "corrupt deflate stream".to_owned(),
            DecodeError::UnexpectedEof => "failed to fill whole buffer".to_owned(),
        }
    }
}

} // verus!
