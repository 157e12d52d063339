//! The decompression stream of a session, and the reader that inflates one
//! rectangle's payload through it.
//!
//! A session has one stream for all its rectangles: what a payload inflates
//! to depends on every payload before it. The stream is an opaque value of
//! the `flate2` crate; nothing is claimed of the bytes it produces. What the
//! reader does with the outcome of a step is verified for every outcome.

use crate::bits::ByteReader;
use crate::error::DecodeError;
use vstd::prelude::*;

verus! {

/// The decompression stream of `flate2`. Nothing is known of its inside.
#[verifier::external_type_specification]
#[verifier::external_body]
pub struct ExDecompress(flate2::Decompress);

/// How a decompression step of `flate2` ended, where it did not fail.
#[verifier::external_type_specification]
pub struct ExStatus(flate2::Status);

/// The failure of a decompression step of `flate2`.
#[verifier::external_type_specification]
#[verifier::external_body]
pub struct ExDecompressError(flate2::DecompressError);

/// `flate2::Decompress::new`: a fresh stream. Nothing is claimed of it.
pub assume_specification[ flate2::Decompress::new ](zlib_header: bool) -> (stream:
    flate2::Decompress)
;

/// `flate2::Decompress::total_in`: the count of input bytes the stream has
/// taken so far. Nothing is claimed of it; the reader checks what it gets.
pub assume_specification[ flate2::Decompress::total_in ](stream: &flate2::Decompress) -> (taken:
    u64)
;

/// `flate2::Decompress::decompress_vec` without flushing: one step of the
/// stream over `input`, writing into the spare capacity of `output`. The
/// bytes that `output` held stay as they were, in front of what was written.
#[verifier::external_body]
fn inflate(stream: &mut flate2::Decompress, input: &[u8], output: &mut Vec<u8>) -> (status: Result<
    flate2::Status,
    flate2::DecompressError,
>)
    ensures
        old(output)@.len() <= final(output)@.len(),
        final(output)@.subrange(0, old(output)@.len() as int) == old(output)@,
{
    stream.decompress_vec(input, output, flate2::FlushDecompress::None)
}

/// The room that is made in the output before each step of the stream.
pub const INFLATE_CHUNK: usize = 16384;

/// What a read reports for a step that ended with `status` after writing
/// `produced` bytes: the bytes written where the stream goes on, the end of
/// the data where the stream could not go on, and an error where the
/// stream ended or found its input invalid.
pub open spec fn spec_read_outcome(
    status: Result<flate2::Status, flate2::DecompressError>,
    produced: usize,
) -> Result<usize, DecodeError> {
    match status {
        Ok(flate2::Status::Ok) => Ok(produced),
        Ok(flate2::Status::BufError) => Ok(0),
        Ok(flate2::Status::StreamEnd) => Err(DecodeError::StreamEnd),
        Err(_) => Err(DecodeError::Corrupt),
    }
}

/// What a read reports for a step that ended with `status` after writing
/// `produced` bytes.
pub fn read_outcome(status: Result<flate2::Status, flate2::DecompressError>, produced: usize) -> (outcome:
    Result<usize, DecodeError>)
    ensures
        outcome == spec_read_outcome(status, produced),
{
    match status {
        Ok(flate2::Status::Ok) => Ok(produced),
        Ok(flate2::Status::BufError) => Ok(0),
        Ok(flate2::Status::StreamEnd) => Err(DecodeError::StreamEnd),
        Err(_) => Err(DecodeError::Corrupt),
    }
}

/// How many bytes of input a step took, going by the stream's count of
/// its input before and after the step. There is no telling where the
/// count went backwards, or went on by more than the `left` bytes that the
/// step was given.
pub open spec fn spec_taken(in_before: u64, in_after: u64, left: int) -> Option<int> {
    if in_after < in_before || in_after - in_before > left {
        None
    } else {
        Some(in_after - in_before)
    }
}

/// Whether reading goes on after a step with this result: it does while
/// steps produce bytes.
pub open spec fn spec_goes_on(count: Result<usize, DecodeError>) -> bool {
    count matches Ok(produced) && produced > 0
}

/// Whether reading goes on after a step with this result.
pub fn goes_on(count: &Result<usize, DecodeError>) -> (more: bool)
    ensures
        more == spec_goes_on(*count),
{
    match count {
        Ok(produced) => *produced > 0,
        Err(_) => false,
    }
}

/// A reader that inflates a rectangle's payload through the session's stream.
pub struct ZlibReader<'a> {
    decompressor: flate2::Decompress,
    input: ByteReader<'a>,
    steps: Ghost<Seq<Result<usize, DecodeError>>>,
}

impl<'a> ZlibReader<'a> {
    /// The payload.
    pub closed spec fn input(self) -> Seq<u8> {
        self.input.source()
    }

    /// How many bytes of the payload the stream has taken.
    pub closed spec fn consumed(self) -> int {
        self.input.position()
    }

    /// The stream that the reader holds.
    pub closed spec fn stream(self) -> flate2::Decompress {
        self.decompressor
    }

    /// What the steps of the stream came to, from the first step on.
    pub closed spec fn steps(self) -> Seq<Result<usize, DecodeError>> {
        self.steps@
    }

    /// A reader of `input` through `decompressor`.
    pub fn new(decompressor: flate2::Decompress, input: &'a [u8]) -> (reader: Self)
        ensures
            reader.input() == input@,
            reader.consumed() == 0,
            reader.stream() == decompressor,
            reader.steps() == Seq::<Result<usize, DecodeError>>::empty(),
    {
        ZlibReader { decompressor, input: ByteReader::new(input), steps: Ghost(Seq::empty()) }
    }

    /// Gives the reader's stream back, as it is. Fails where the stream has
    /// not taken all of the payload: what is left belongs to nothing.
    pub fn into_inner(self) -> (stream: Result<flate2::Decompress, DecodeError>)
        ensures
            0 <= self.consumed() <= self.input().len(),
            match stream {
                Ok(own) => self.consumed() == self.input().len() && own == self.stream(),
                Err(e) => e == DecodeError::LeftoverBytes && self.consumed() < self.input().len(),
            },
    {
        if self.input.remaining() == 0 {
            Ok(self.decompressor)
        } else {
            Err(DecodeError::LeftoverBytes)
        }
    }

    /// Takes stock after a step of the stream. The step was given what was
    /// left of the payload, and an output that held `held` bytes; it ended
    /// with `status`, and the stream counted `in_before` bytes of input
    /// before it and `in_after` behind it.
    ///
    /// The payload moves on by what the stream counted. A stream whose
    /// count tells nothing has lost track: that is an error, and the
    /// payload stays where it was. What the step wrote stays in the output
    /// only where the step is reported to have produced it.
    pub fn settle(
        &mut self,
        output: &mut Vec<u8>,
        held: usize,
        status: Result<flate2::Status, flate2::DecompressError>,
        in_before: u64,
        in_after: u64,
    ) -> (count: Result<usize, DecodeError>)
        requires
            held <= old(output)@.len(),
        ensures
            final(self).input() == old(self).input(),
            final(self).stream() == old(self).stream(),
            final(self).steps() == old(self).steps().push(count),
            0 <= old(self).consumed() <= old(self).input().len(),
            match spec_taken(in_before, in_after, old(self).input().len() - old(self).consumed()) {
                None => {
                    &&& count == Err::<usize, DecodeError>(DecodeError::Corrupt)
                    &&& final(self).consumed() == old(self).consumed()
                },
                Some(taken) => {
                    &&& count == spec_read_outcome(status, (old(output)@.len() - held) as usize)
                    &&& final(self).consumed() == old(self).consumed() + taken
                },
            },
            final(output)@ == (if spec_goes_on(count) {
                old(output)@
            } else {
                old(output)@.take(held as int)
            }),
    {
        let left: usize = self.input.remaining();
        let count: Result<usize, DecodeError> = if in_after < in_before || in_after - in_before
            > left as u64 {
            Err(DecodeError::Corrupt)
        } else {
            let _taken: &[u8] = self.input.read((in_after - in_before) as usize);
            read_outcome(status, output.len() - held)
        };
        if !goes_on(&count) {
            output.truncate(held);
            assert(output@ =~= old(output)@.take(held as int));
        }
        proof {
            self.steps@ = self.steps@.push(count);
        }
        count
    }

    /// One step of the stream over what is left of the payload. The bytes
    /// the step produced are appended to `output`, unless the step ended in
    /// an error or could not go on: then `output` is as it was.
    pub fn read(&mut self, output: &mut Vec<u8>) -> (count: Result<usize, DecodeError>)
        ensures
            final(self).input() == old(self).input(),
            final(self).steps() == old(self).steps().push(count),
            0 <= old(self).consumed() <= final(self).consumed() <= old(self).input().len(),
            match count {
                Ok(produced) => {
                    &&& final(output)@.len() == old(output)@.len() + produced
                    &&& final(output)@.subrange(0, old(output)@.len() as int) == old(output)@
                },
                Err(e) => {
                    &&& e == DecodeError::StreamEnd || e == DecodeError::Corrupt
                    &&& final(output)@ == old(output)@
                },
            },
    {
        let held: usize = output.len();
        let rest: &[u8] = self.input.rest();
        output.reserve(INFLATE_CHUNK);
        let in_before: u64 = self.decompressor.total_in();
        let status: Result<flate2::Status, flate2::DecompressError> = inflate(
            &mut self.decompressor,
            rest,
            output,
        );
        let in_after: u64 = self.decompressor.total_in();
        let ghost written: Seq<u8> = output@;
        assert(written.len() == output.len());
        let count: Result<usize, DecodeError> = self.settle(
            output,
            held,
            status,
            in_before,
            in_after,
        );
        proof {
            assert(written.take(held as int) =~= old(output)@);
            assert(output@.subrange(0, held as int) =~= old(output)@);
        }
        count
    }

    /// Steps the stream until a step produces nothing or fails, appending
    /// all that the steps produce to `output`. Returns the number of bytes
    /// appended, or the error of the step that failed.
    ///
    /// Of the steps made, all but the last produced bytes; the last
    /// produced none, or failed.
    pub fn read_to_end(&mut self, output: &mut Vec<u8>) -> (count: Result<usize, DecodeError>)
        ensures
            final(self).input() == old(self).input(),
            old(self).consumed() <= final(self).consumed() <= old(self).input().len(),
            final(output)@.len() >= old(output)@.len(),
            final(output)@.subrange(0, old(output)@.len() as int) == old(output)@,
            final(self).steps().len() > old(self).steps().len(),
            final(self).steps().take(old(self).steps().len() as int) == old(self).steps(),
            forall|i: int|
                old(self).steps().len() <= i < final(self).steps().len() - 1 ==> spec_goes_on(
                    #[trigger] final(self).steps()[i],
                ),
            match count {
                Ok(produced) => {
                    &&& final(output)@.len() == old(output)@.len() + produced
                    &&& final(self).steps().last() == Ok::<usize, DecodeError>(0)
                },
                Err(e) => {
                    &&& e == DecodeError::StreamEnd || e == DecodeError::Corrupt
                    &&& final(self).steps().last() == Err::<usize, DecodeError>(e)
                },
            },
    {
        let held: usize = output.len();
        loop
            invariant
                held == old(output)@.len(),
                self.input() == old(self).input(),
                old(self).consumed() <= self.consumed(),
                output@.len() >= held,
                output@.subrange(0, held as int) == old(output)@,
                self.steps().len() >= old(self).steps().len(),
                self.steps().take(old(self).steps().len() as int) == old(self).steps(),
                forall|i: int|
                    old(self).steps().len() <= i < self.steps().len() ==> spec_goes_on(
                        #[trigger] self.steps()[i],
                    ),
            decreases usize::MAX - output.len(),
        {
            let ghost so_far: Seq<u8> = output@;
            let ghost before: Seq<Result<usize, DecodeError>> = self.steps();
            let count: Result<usize, DecodeError> = self.read(output);
            proof {
                assert(self.steps().take(old(self).steps().len() as int) =~= before.take(
                    old(self).steps().len() as int,
                ));
                assert(forall|i: int| 0 <= i < before.len() ==> self.steps()[i] == before[i]);
            }
            if !goes_on(&count) {
                return match count {
                    Ok(_) => Ok(output.len() - held),
                    Err(e) => Err(e),
                };
            }
            assert(output@.subrange(0, held as int) =~= so_far.subrange(0, held as int));
        }
    }
}

} // verus!
