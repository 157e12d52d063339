//! The decoder of a session's ZRLE rectangles.

use crate::error::DecodeError;
use crate::pixel_format::PixelFormat;
use crate::rect::{patch_models, ImagePatch, PatchModel, Rect};
use crate::zlib::ZlibReader;
use crate::zrle::{decode_tiles, decoded};
use vstd::prelude::*;

verus! {

/// What a result of patches is in contracts: the patches by their models.
pub open spec fn patch_views(patches: Result<Vec<ImagePatch>, DecodeError>) -> Result<
    Seq<PatchModel>,
    DecodeError,
> {
    match patches {
        Ok(list) => Ok(patch_models(list@)),
        Err(e) => Err(e),
    }
}

/// What a rectangle comes to, once its payload has been read to the end:
/// the error of the stream where reading failed; else the error of the
/// tiles where the inflated bytes are no tiles; else the tiles, provided
/// that the stream took all of the payload.
pub open spec fn settled(
    inflated: Result<usize, DecodeError>,
    tiles: Result<Seq<PatchModel>, DecodeError>,
    all_taken: bool,
) -> Result<Seq<PatchModel>, DecodeError> {
    match inflated {
        Err(e) => Err(e),
        Ok(_) => match tiles {
            Err(e) => Err(e),
            Ok(patches) => if all_taken {
                Ok(patches)
            } else {
                Err(DecodeError::LeftoverBytes)
            },
        },
    }
}

/// The decoder of a session. It owns the session's decompression stream
/// and hands it to one rectangle at a time.
///
/// A rectangle that fails takes the stream with it: the stream is then out
/// of step with the server, and the decoder decodes nothing more.
pub struct Decoder {
    decompressor: Option<flate2::Decompress>,
}

impl Decoder {
    /// The stream that the decoder holds, if it still holds one.
    pub closed spec fn stream(self) -> Option<flate2::Decompress> {
        self.decompressor
    }

    /// The decoder still has its stream.
    pub open spec fn usable(self) -> bool {
        self.stream() is Some
    }

    /// A decoder with a fresh stream, for the start of a session.
    pub fn new() -> (decoder: Decoder)
        ensures
            decoder.usable(),
    {
        Decoder { decompressor: Some(flate2::Decompress::new(true)) }
    }

    /// Whether the decoder still has its stream.
    pub fn is_usable(&self) -> (usable: bool)
        ensures
            usable == self.usable(),
    {
        self.decompressor.is_some()
    }

    /// Ends a rectangle whose payload `reader` has read to the end, with
    /// the result `inflated`, into `data`. The inflated bytes are read as
    /// the rectangle's tiles. Where they are, and the stream has taken all
    /// of the payload, the decoder keeps the reader's stream, as it is, for
    /// the next rectangle; in every other case it keeps none.
    pub fn settle(
        &mut self,
        reader: ZlibReader,
        inflated: Result<usize, DecodeError>,
        format: &PixelFormat,
        rect: &Rect,
        data: &[u8],
    ) -> (patches: Result<Vec<ImagePatch>, DecodeError>)
        requires
            format.well_formed(),
            rect.fits(),
        ensures
            patch_views(patches) == settled(
                inflated,
                decoded(format.spec_layout(), *rect, data@),
                reader.consumed() == reader.input().len(),
            ),
            final(self).stream() == (if patches is Ok {
                Some(reader.stream())
            } else {
                None
            }),
    {
        self.decompressor = None;
        match inflated {
            Ok(_) => {},
            Err(e) => {
                return Err(e);
            },
        }
        let list: Vec<ImagePatch> = match decode_tiles(format, rect, data) {
            Ok(list) => list,
            Err(e) => {
                return Err(e);
            },
        };
        let stream: flate2::Decompress = match reader.into_inner() {
            Ok(stream) => stream,
            Err(e) => {
                return Err(e);
            },
        };
        self.decompressor = Some(stream);
        Ok(list)
    }

    /// Decodes one rectangle from its compressed payload: the payload is
    /// inflated through the session's stream, and the inflated bytes are
    /// read as the rectangle's tiles.
    ///
    /// The decoder stays usable exactly when the rectangle decodes. The
    /// patches are what the inflated bytes, whatever they were, decode to;
    /// an error is one of the stream, or the one the inflated bytes fail
    /// with, or says that the stream did not take the whole payload.
    pub fn decode(&mut self, format: &PixelFormat, rect: &Rect, input: &[u8]) -> (patches: Result<
        Vec<ImagePatch>,
        DecodeError,
    >)
        requires
            old(self).usable(),
            format.well_formed(),
            rect.fits(),
        ensures
            final(self).usable() <==> patches is Ok,
            match patches {
                Ok(list) => exists|data: Seq<u8>|
                    decoded(format.spec_layout(), *rect, data) == Ok::<
                        Seq<PatchModel>,
                        DecodeError,
                    >(patch_models(list@)),
                Err(e) => {
                    ||| e == DecodeError::StreamEnd
                    ||| e == DecodeError::Corrupt
                    ||| e == DecodeError::LeftoverBytes
                    ||| exists|data: Seq<u8>|
                        decoded(format.spec_layout(), *rect, data) == Err::<
                            Seq<PatchModel>,
                            DecodeError,
                        >(e)
                },
            },
    {
        let stream: flate2::Decompress = self.decompressor.take().unwrap();
        let mut reader: ZlibReader = ZlibReader::new(stream, input);
        let mut data: Vec<u8> = Vec::new();
        let inflated: Result<usize, DecodeError> = reader.read_to_end(&mut data);
        self.settle(reader, inflated, format, rect, data.as_slice())
    }
}

} // verus!
