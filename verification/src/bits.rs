//! The two cursors a tile is read through: a byte cursor over inflated
//! bytes, and a bit cursor over that for the sub-byte fields of a tile.

use crate::error::DecodeError;
use byteorder::ReadBytesExt;
use vstd::prelude::*;
use vstd::slice::slice_subrange;

verus! {

/// The `count` bits of `byte` that follow its first `start` bits, counted
/// from the most significant bit, as a number.
pub open spec fn bit_field(byte: u8, start: int, count: int) -> u8
    recommends
        0 <= start,
        0 < count,
        start + count <= 8,
{
    (((byte as u16) >> ((8 - start - count) as u16)) & (((1u16 << (count as u16)) - 1) as u16)) as u8
}

fn extract(byte: u8, start: usize, count: usize) -> (value: u8)
    requires
        0 < count,
        start + count <= 8,
    ensures
        value == bit_field(byte, start as int, count as int),
{
    let shift: u16 = (8 - (count + start)) as u16;
    let width: u16 = count as u16;
    assert((1u16 << width) >= 1u16) by (bit_vector)
        requires
            width <= 8,
    ;
    let mask: u16 = ((1u16 << width) - 1) as u16;
    let wide: u16 = ((byte as u16) >> shift) & mask;
    assert(wide <= 255) by (bit_vector)
        requires
            wide == ((byte as u16) >> shift) & mask,
    ;
    wide as u8
}

/// `byteorder::ReadBytesExt::read_u8` on a byte slice: the first byte of the
/// slice, or nothing where the slice is empty.
#[verifier::external_body]
fn first_u8(bytes: &[u8]) -> (first: Option<u8>)
    ensures
        first == (if bytes@.len() > 0 {
            Some(bytes@[0])
        } else {
            None::<u8>
        }),
{
    let mut rest: &[u8] = bytes;
    rest.read_u8().ok()
}

/// A cursor over a slice of bytes.
pub struct ByteReader<'a> {
    bytes: &'a [u8],
    offset: usize,
}

impl<'a> ByteReader<'a> {
    #[verifier::type_invariant]
    spec fn inv(self) -> bool {
        self.offset <= self.bytes@.len()
    }

    /// The bytes the cursor runs over.
    pub closed spec fn source(self) -> Seq<u8> {
        self.bytes@
    }

    /// How many bytes have been read.
    pub closed spec fn position(self) -> int {
        self.offset as int
    }

    /// A cursor at the start of `bytes`.
    pub fn new(bytes: &'a [u8]) -> (reader: Self)
        ensures
            reader.source() == bytes@,
            reader.position() == 0,
    {
        ByteReader { bytes, offset: 0 }
    }

    /// The number of bytes not yet read.
    pub fn remaining(&self) -> (left: usize)
        ensures
            left == self.source().len() - self.position(),
            0 <= self.position() <= self.source().len(),
    {
        proof {
            use_type_invariant(self);
        }
        self.bytes.len() - self.offset
    }

    /// The bytes not yet read.
    pub fn rest(&self) -> (unread: &'a [u8])
        ensures
            0 <= self.position() <= self.source().len(),
            unread@ == self.source().subrange(self.position(), self.source().len() as int),
    {
        proof {
            use_type_invariant(self);
        }
        slice_subrange(self.bytes, self.offset, self.bytes.len())
    }

    /// A second cursor at the same place. The bit cursor advances a copy
    /// of its byte cursor and puts it back in one assignment.
    fn duplicate(&self) -> (twin: ByteReader<'a>)
        ensures
            twin.source() == self.source(),
            twin.position() == self.position(),
    {
        proof {
            use_type_invariant(self);
        }
        ByteReader { bytes: self.bytes, offset: self.offset }
    }

    /// Reads one byte.
    pub fn read_u8(&mut self) -> (byte: Result<u8, DecodeError>)
        ensures
            final(self).source() == old(self).source(),
            match byte {
                Ok(b) => {
                    &&& 0 <= old(self).position() < old(self).source().len()
                    &&& b == old(self).source()[old(self).position()]
                    &&& final(self).position() == old(self).position() + 1
                },
                Err(e) => {
                    &&& e == DecodeError::UnexpectedEof
                    &&& old(self).position() >= old(self).source().len()
                    &&& final(self).position() == old(self).position()
                },
            },
    {
        proof {
            use_type_invariant(&*self);
        }
        let rest: &[u8] = slice_subrange(self.bytes, self.offset, self.bytes.len());
        match first_u8(rest) {
            Some(b) => {
                self.offset = self.offset + 1;
                Ok(b)
            },
            None => Err(DecodeError::UnexpectedEof),
        }
    }

    /// Reads up to `count` bytes: as many as are left, where fewer are left.
    pub fn read(&mut self, count: usize) -> (chunk: &'a [u8])
        ensures
            final(self).source() == old(self).source(),
            0 <= old(self).position() <= final(self).position() <= old(self).source().len(),
            chunk@.len() == if count <= old(self).source().len() - old(self).position() {
                count as int
            } else {
                old(self).source().len() - old(self).position()
            },
            final(self).position() == old(self).position() + chunk@.len(),
            chunk@ == old(self).source().subrange(old(self).position(), final(self).position()),
    {
        proof {
            use_type_invariant(&*self);
        }
        let left: usize = self.bytes.len() - self.offset;
        let take: usize = if count <= left {
            count
        } else {
            left
        };
        let chunk: &[u8] = slice_subrange(self.bytes, self.offset, self.offset + take);
        self.offset = self.offset + take;
        chunk
    }

    /// Reads exactly `count` bytes, or fails and reads none.
    pub fn read_exact(&mut self, count: usize) -> (chunk: Result<&'a [u8], DecodeError>)
        ensures
            final(self).source() == old(self).source(),
            0 <= old(self).position() <= old(self).source().len(),
            match chunk {
                Ok(bytes) => {
                    &&& old(self).position() + count <= old(self).source().len()
                    &&& final(self).position() == old(self).position() + count
                    &&& bytes@ == old(self).source().subrange(
                        old(self).position(),
                        old(self).position() + count,
                    )
                },
                Err(e) => {
                    &&& e == DecodeError::UnexpectedEof
                    &&& old(self).position() + count > old(self).source().len()
                    &&& final(self).position() == old(self).position()
                },
            },
    {
        proof {
            use_type_invariant(&*self);
        }
        if count <= self.bytes.len() - self.offset {
            let chunk: &[u8] = slice_subrange(self.bytes, self.offset, self.offset + count);
            self.offset = self.offset + count;
            Ok(chunk)
        } else {
            Err(DecodeError::UnexpectedEof)
        }
    }

    /// Gives the cursor up. Bytes that were never read are an error: the
    /// stream holds more than the reader was meant to take.
    pub fn finish(self) -> (done: Result<(), DecodeError>)
        ensures
            0 <= self.position() <= self.source().len(),
            match done {
                Ok(_) => self.position() == self.source().len(),
                Err(e) => e == DecodeError::LeftoverBytes && self.position() < self.source().len(),
            },
    {
        proof {
            use_type_invariant(&self);
        }
        if self.offset == self.bytes.len() {
            Ok(())
        } else {
            Err(DecodeError::LeftoverBytes)
        }
    }
}

/// A cursor over the bits of a byte stream, most significant bit first.
///
/// A field never crosses a byte, and bytes can only be read where the
/// cursor stands between two bytes.
pub struct BitReader<'a> {
    reader: ByteReader<'a>,
    buffer: u8,
    position: usize,
}

impl<'a> BitReader<'a> {
    #[verifier::type_invariant]
    spec fn inv(self) -> bool {
        &&& 1 <= self.position <= 8
        &&& 0 <= self.reader.position() <= self.reader.source().len()
        &&& self.position < 8 ==> {
            &&& self.reader.position() >= 1
            &&& self.buffer == self.reader.source()[self.reader.position() - 1]
        }
    }

    /// The bytes the cursor runs over.
    pub closed spec fn source(self) -> Seq<u8> {
        self.reader.source()
    }

    /// How many bits lie behind the cursor. A multiple of 8 says that the
    /// cursor stands between two bytes.
    pub closed spec fn cursor(self) -> int {
        if self.position >= 8 {
            self.reader.position() * 8
        } else {
            (self.reader.position() - 1) * 8 + self.position
        }
    }

    /// The cursor stands between two bytes.
    pub open spec fn aligned(self) -> bool {
        self.cursor() % 8 == 0
    }

    /// A bit cursor that starts where the byte cursor stands.
    pub fn new(reader: ByteReader<'a>) -> (bits: Self)
        ensures
            bits.source() == reader.source(),
            bits.cursor() == reader.position() * 8,
    {
        proof {
            use_type_invariant(&reader);
        }
        BitReader { reader, buffer: 0, position: 8 }
    }

    /// Gives the byte cursor back. Fails where bits of the current byte have
    /// been neither read nor skipped.
    pub fn into_inner(self) -> (inner: Result<ByteReader<'a>, DecodeError>)
        ensures
            match inner {
                Ok(reader) => {
                    &&& self.aligned()
                    &&& reader.source() == self.source()
                    &&& reader.position() * 8 == self.cursor()
                },
                Err(e) => e == DecodeError::LeftoverBits && !self.aligned(),
            },
    {
        proof {
            use_type_invariant(&self);
        }
        if self.position == 8 {
            Ok(self.reader)
        } else {
            Err(DecodeError::LeftoverBits)
        }
    }

    /// Whether the cursor stands between two bytes.
    pub fn is_aligned(&self) -> (aligned: bool)
        ensures
            aligned == self.aligned(),
            0 <= self.cursor() <= self.source().len() * 8,
    {
        proof {
            use_type_invariant(self);
        }
        self.position == 8
    }

    /// Reads a field of `count` bits. Between two bytes the next byte is
    /// taken first; inside a byte the field must end within it.
    pub fn read_bits(&mut self, count: usize) -> (field: Result<u8, DecodeError>)
        requires
            0 < count <= 8,
        ensures
            final(self).source() == old(self).source(),
            0 <= old(self).cursor() <= old(self).source().len() * 8,
            match field {
                Ok(value) => {
                    &&& old(self).cursor() / 8 < old(self).source().len()
                    &&& old(self).cursor() % 8 + count <= 8
                    &&& value == bit_field(
                        old(self).source()[old(self).cursor() / 8],
                        old(self).cursor() % 8,
                        count as int,
                    )
                    &&& final(self).cursor() == old(self).cursor() + count
                },
                Err(e) => {
                    &&& final(self).cursor() == old(self).cursor()
                    &&& if old(self).aligned() {
                        e == DecodeError::UnexpectedEof && old(self).cursor() / 8 >= old(
                            self,
                        ).source().len()
                    } else {
                        e == DecodeError::UnalignedBitRead && old(self).cursor() % 8 + count > 8
                    }
                },
            },
    {
        proof {
            use_type_invariant(&*self);
        }
        if self.position == 8 {
            let mut inner: ByteReader<'a> = self.reader.duplicate();
            match inner.read_u8() {
                Ok(byte) => {
                    let value: u8 = extract(byte, 0, count);
                    self.reader = inner;
                    self.buffer = byte;
                    self.position = count;
                    Ok(value)
                },
                Err(e) => Err(e),
            }
        } else if self.position + count <= 8 {
            let value: u8 = extract(self.buffer, self.position, count);
            self.position = self.position + count;
            Ok(value)
        } else {
            Err(DecodeError::UnalignedBitRead)
        }
    }

    /// Reads one bit.
    pub fn read_bit(&mut self) -> (bit: Result<bool, DecodeError>)
        ensures
            final(self).source() == old(self).source(),
            0 <= old(self).cursor() <= old(self).source().len() * 8,
            match bit {
                Ok(set) => {
                    &&& old(self).cursor() / 8 < old(self).source().len()
                    &&& set == (bit_field(
                        old(self).source()[old(self).cursor() / 8],
                        old(self).cursor() % 8,
                        1,
                    ) != 0)
                    &&& final(self).cursor() == old(self).cursor() + 1
                },
                Err(e) => {
                    &&& e == DecodeError::UnexpectedEof
                    &&& old(self).aligned()
                    &&& old(self).cursor() / 8 >= old(self).source().len()
                    &&& final(self).cursor() == old(self).cursor()
                },
            },
    {
        match self.read_bits(1) {
            Ok(value) => Ok(value != 0),
            Err(e) => Err(e),
        }
    }

    /// Skips what is left of the current byte.
    pub fn align(&mut self)
        ensures
            final(self).source() == old(self).source(),
            final(self).aligned(),
            old(self).cursor() <= final(self).cursor() < old(self).cursor() + 8,
    {
        proof {
            use_type_invariant(&*self);
        }
        self.position = 8;
    }

    /// Reads up to `count` bytes. Fails, and reads nothing, where the cursor
    /// stands inside a byte.
    pub fn read(&mut self, count: usize) -> (chunk: Result<&'a [u8], DecodeError>)
        ensures
            final(self).source() == old(self).source(),
            0 <= old(self).cursor() <= old(self).source().len() * 8,
            match chunk {
                Ok(bytes) => {
                    &&& old(self).aligned()
                    &&& bytes@.len() == if count <= old(self).source().len() - old(self).cursor()
                        / 8 {
                        count as int
                    } else {
                        old(self).source().len() - old(self).cursor() / 8
                    }
                    &&& final(self).cursor() == old(self).cursor() + 8 * bytes@.len()
                    &&& bytes@ == old(self).source().subrange(
                        old(self).cursor() / 8,
                        old(self).cursor() / 8 + bytes@.len(),
                    )
                },
                Err(e) => {
                    &&& e == DecodeError::UnalignedByteRead
                    &&& !old(self).aligned()
                    &&& final(self).cursor() == old(self).cursor()
                },
            },
    {
        proof {
            use_type_invariant(&*self);
        }
        if self.position == 8 {
            let mut inner: ByteReader<'a> = self.reader.duplicate();
            let chunk: &'a [u8] = inner.read(count);
            self.reader = inner;
            Ok(chunk)
        } else {
            Err(DecodeError::UnalignedByteRead)
        }
    }

    /// Reads exactly `count` bytes, or fails and reads none.
    pub fn read_exact(&mut self, count: usize) -> (chunk: Result<&'a [u8], DecodeError>)
        ensures
            final(self).source() == old(self).source(),
            0 <= old(self).cursor() <= old(self).source().len() * 8,
            match chunk {
                Ok(bytes) => {
                    &&& old(self).aligned()
                    &&& old(self).cursor() / 8 + count <= old(self).source().len()
                    &&& final(self).cursor() == old(self).cursor() + 8 * count
                    &&& bytes@ == old(self).source().subrange(
                        old(self).cursor() / 8,
                        old(self).cursor() / 8 + count,
                    )
                },
                Err(e) => {
                    &&& final(self).cursor() == old(self).cursor()
                    &&& if old(self).aligned() {
                        e == DecodeError::UnexpectedEof && old(self).cursor() / 8 + count > old(
                            self,
                        ).source().len()
                    } else {
                        e == DecodeError::UnalignedByteRead
                    }
                },
            },
    {
        proof {
            use_type_invariant(&*self);
        }
        if self.position == 8 {
            let mut inner: ByteReader<'a> = self.reader.duplicate();
            let chunk: Result<&'a [u8], DecodeError> = inner.read_exact(count);
            self.reader = inner;
            chunk
        } else {
            Err(DecodeError::UnalignedByteRead)
        }
    }

    /// Reads one byte, or fails and reads none.
    pub fn read_u8(&mut self) -> (byte: Result<u8, DecodeError>)
        ensures
            final(self).source() == old(self).source(),
            0 <= old(self).cursor() <= old(self).source().len() * 8,
            match byte {
                Ok(b) => {
                    &&& old(self).aligned()
                    &&& old(self).cursor() / 8 < old(self).source().len()
                    &&& b == old(self).source()[old(self).cursor() / 8]
                    &&& final(self).cursor() == old(self).cursor() + 8
                },
                Err(e) => {
                    &&& final(self).cursor() == old(self).cursor()
                    &&& if old(self).aligned() {
                        e == DecodeError::UnexpectedEof && old(self).cursor() / 8 >= old(
                            self,
                        ).source().len()
                    } else {
                        e == DecodeError::UnalignedByteRead
                    }
                },
            },
    {
        proof {
            use_type_invariant(&*self);
        }
        if self.position == 8 {
            let mut inner: ByteReader<'a> = self.reader.duplicate();
            let byte: Result<u8, DecodeError> = inner.read_u8();
            self.reader = inner;
            byte
        } else {
            Err(DecodeError::UnalignedByteRead)
        }
    }
}

} // verus!
