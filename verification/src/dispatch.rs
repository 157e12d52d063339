//! The rectangle dispatcher: from a rectangle's header and payload to the
//! events that the session's loop handles.

use crate::decoder::Decoder;
use crate::error::DecodeError;
use crate::pixel_format::PixelFormat;
use crate::rect::{patch_models, ImagePatch, PatchKind, PatchModel, Rect};
use crate::session::ServerEvent;
use crate::zrle::decoded;
use vstd::prelude::*;
use vstd::slice::slice_to_vec;

verus! {

/// The encodings a session negotiates.
#[derive(Clone, Copy, Debug, PartialEq, Eq, Structural)]
pub enum Encoding {
    /// Pixels as they are.
    Raw,
    /// A region to copy from elsewhere on the surface.
    CopyRect,
    /// A compressed image, decoded outside.
    Tight,
    /// Tiles through the session's decompression stream.
    Zrle,
    /// The shape of the pointer.
    CursorPseudo,
    /// A new size of the framebuffer.
    DesktopSizePseudo,
}

/// The number of bytes of a rectangle header.
pub const RECT_HEADER_LEN: usize = 12;

/// A rectangle header: the region, and the number of its encoding.
#[derive(Clone, Copy, Debug, PartialEq, Eq, Structural)]
pub struct RectHeader {
    pub rect: Rect,
    pub encoding: i32,
}

/// Why a rectangle could not be dispatched. All of these end the session.
#[derive(Clone, Copy, Debug, PartialEq, Eq, Structural)]
pub enum DispatchError {
    /// The encoding is none that the session negotiated.
    UnknownEncoding,
    /// The payload has not the length that the encoding gives it.
    PayloadLength,
    /// The region does not lie in the coordinate space of a framebuffer.
    OutOfBounds,
    /// The pixel format is none that the decoder reads.
    PixelFormat,
    /// The decoder has failed before and has no stream any more.
    Desynchronized,
    /// The decoder failed on this rectangle.
    Decode(DecodeError),
}

/// The encoding that a number on the wire stands for.
pub open spec fn encoding_of(code: i32) -> Option<Encoding> {
    if code == 0 {
        Some(Encoding::Raw)
    } else if code == 1 {
        Some(Encoding::CopyRect)
    } else if code == 7 {
        Some(Encoding::Tight)
    } else if code == 16 {
        Some(Encoding::Zrle)
    } else if code == -239 {
        Some(Encoding::CursorPseudo)
    } else if code == -223 {
        Some(Encoding::DesktopSizePseudo)
    } else {
        None
    }
}

/// The number that stands for an encoding on the wire.
pub open spec fn code_of(encoding: Encoding) -> i32 {
    match encoding {
        Encoding::Raw => 0i32,
        Encoding::CopyRect => 1i32,
        Encoding::Tight => 7i32,
        Encoding::Zrle => 16i32,
        Encoding::CursorPseudo => (-239i32) as i32,
        Encoding::DesktopSizePseudo => (-223i32) as i32,
    }
}

/// The unsigned 16-bit number whose two bytes, the high one first, lie at
/// `bytes[at]`.
pub open spec fn be_u16(bytes: Seq<u8>, at: int) -> u16 {
    (bytes[at] * 256 + bytes[at + 1]) as u16
}

/// The signed 32-bit number whose four bytes, the highest first, lie at
/// `bytes[at]`, in two's complement.
pub open spec fn be_i32(bytes: Seq<u8>, at: int) -> i32 {
    let unsigned: int = bytes[at] * 0x100_0000 + bytes[at + 1] * 0x1_0000 + bytes[at + 2] * 0x100
        + bytes[at + 3];
    if unsigned >= 0x8000_0000 {
        (unsigned - 0x1_0000_0000) as i32
    } else {
        unsigned as i32
    }
}

/// The header that the first twelve bytes hold: x, y, width and height as
/// unsigned 16-bit numbers, then the encoding as a signed 32-bit number.
pub open spec fn header_of(bytes: Seq<u8>) -> RectHeader {
    RectHeader {
        rect: Rect {
            x: be_u16(bytes, 0),
            y: be_u16(bytes, 2),
            width: be_u16(bytes, 4),
            height: be_u16(bytes, 6),
        },
        encoding: be_i32(bytes, 8),
    }
}

impl DispatchError {
    /// The text of the message, as a sequence of characters.
    pub open spec fn spec_message(self) -> Seq<char> {
        match self {
            DispatchError::UnknownEncoding => "unknown rectangle encoding"@,
            DispatchError::PayloadLength => "rectangle payload of the wrong length"@,
            DispatchError::OutOfBounds => "rectangle outside the framebuffer"@,
            DispatchError::PixelFormat => "unsupported pixel format"@,
            DispatchError::Desynchronized => "decompression stream out of step"@,
            DispatchError::Decode(e) => e.spec_message(),
        }
    }

    /// A message for the owner of the session.
    pub fn message(&self) -> (text: String)
        ensures
            text@ == self.spec_message(),
    {
        match self {
            DispatchError::UnknownEncoding => "unknown rectangle encoding".to_owned(),
            DispatchError::PayloadLength => "rectangle payload of the wrong length".to_owned(),
            DispatchError::OutOfBounds => "rectangle outside the framebuffer".to_owned(),
            DispatchError::PixelFormat => "unsupported pixel format".to_owned(),
            DispatchError::Desynchronized => "decompression stream out of step".to_owned(),
            DispatchError::Decode(e) => e.message(),
        }
    }
}

/// What the session's loop is handed for a dispatched rectangle: its
/// events, or, where the rectangle failed, the one error event that ends
/// the session, with the message of the failure.
pub fn events_or_error(outcome: Result<Vec<ServerEvent>, DispatchError>) -> (events: Vec<ServerEvent>)
    ensures
        match outcome {
            Ok(list) => events == list,
            Err(e) => {
                &&& events@.len() == 1
                &&& events@[0] matches ServerEvent::Error(text)
                &&& text@ == e.spec_message()
            },
        },
{
    match outcome {
        Ok(list) => list,
        Err(e) => {
            let mut events: Vec<ServerEvent> = Vec::new();
            events.push(ServerEvent::Error(e.message()));
            events
        },
    }
}

impl Encoding {
    /// Reads an encoding from its number on the wire.
    pub fn from_wire(code: i32) -> (encoding: Option<Encoding>)
        ensures
            encoding == encoding_of(code),
    {
        if code == 0 {
            Some(Encoding::Raw)
        } else if code == 1 {
            Some(Encoding::CopyRect)
        } else if code == 7 {
            Some(Encoding::Tight)
        } else if code == 16 {
            Some(Encoding::Zrle)
        } else if code == -239 {
            Some(Encoding::CursorPseudo)
        } else if code == -223 {
            Some(Encoding::DesktopSizePseudo)
        } else {
            None
        }
    }

    /// The number of the encoding on the wire.
    pub fn to_wire(&self) -> (code: i32)
        ensures
            code == code_of(*self),
            encoding_of(code) == Some(*self),
    {
        match self {
            Encoding::Raw => 0,
            Encoding::CopyRect => 1,
            Encoding::Tight => 7,
            Encoding::Zrle => 16,
            Encoding::CursorPseudo => -239,
            Encoding::DesktopSizePseudo => -223,
        }
    }
}

fn read_be_u16(bytes: &[u8], at: usize) -> (value: u16)
    requires
        at + 2 <= bytes@.len(),
    ensures
        value == be_u16(bytes@, at as int),
{
    bytes[at] as u16 * 256 + bytes[at + 1] as u16
}

fn read_be_i32(bytes: &[u8], at: usize) -> (value: i32)
    requires
        at + 4 <= bytes@.len(),
    ensures
        value == be_i32(bytes@, at as int),
{
    let unsigned: u32 = bytes[at] as u32 * 0x100_0000 + bytes[at + 1] as u32 * 0x1_0000 + bytes[at
        + 2] as u32 * 0x100 + bytes[at + 3] as u32;
    if unsigned >= 0x8000_0000 {
        let low: i32 = (unsigned - 0x8000_0000) as i32;
        low + i32::MIN
    } else {
        unsigned as i32
    }
}

/// Reads a rectangle header from the start of `bytes`. There is none where
/// fewer than twelve bytes are there.
pub fn parse_header(bytes: &[u8]) -> (header: Option<RectHeader>)
    ensures
        header == (if bytes@.len() >= RECT_HEADER_LEN {
            Some(header_of(bytes@))
        } else {
            None
        }),
{
    if bytes.len() < RECT_HEADER_LEN {
        return None;
    }
    Some(
        RectHeader {
            rect: Rect {
                x: read_be_u16(bytes, 0),
                y: read_be_u16(bytes, 2),
                width: read_be_u16(bytes, 4),
                height: read_be_u16(bytes, 6),
            },
            encoding: read_be_i32(bytes, 8),
        },
    )
}

/// The events are one patch of the given data, region and kind.
pub open spec fn is_one_patch(events: Seq<ServerEvent>, data: Seq<u8>, rect: Rect, kind: PatchKind) -> bool {
    &&& events.len() == 1
    &&& events[0] matches ServerEvent::Patch(patch)
    &&& patch@ == PatchModel { data, rect, kind }
}

/// The events are the patches, one event for each and in their order.
pub open spec fn are_patches(events: Seq<ServerEvent>, patches: Seq<ImagePatch>) -> bool {
    &&& events.len() == patches.len()
    &&& forall|i: int| 0 <= i < events.len() ==> #[trigger] events[i] == ServerEvent::Patch(patches[i])
}

/// What a rectangle whose payload needs no decoder is dispatched to: the
/// events are `Ok`, or the rectangle fails. For ZRLE, which needs the
/// decoder, nothing is said here.
pub open spec fn plainly_dispatched(
    header: RectHeader,
    payload: Seq<u8>,
    bpp: int,
    events: Result<Seq<ServerEvent>, DispatchError>,
) -> bool {
    match encoding_of(header.encoding) {
        None => events == Err::<Seq<ServerEvent>, DispatchError>(DispatchError::UnknownEncoding),
        Some(Encoding::Raw) => if payload.len() == header.rect.width * header.rect.height * bpp {
            events matches Ok(list) && is_one_patch(list, payload, header.rect, PatchKind::Raw)
        } else {
            events == Err::<Seq<ServerEvent>, DispatchError>(DispatchError::PayloadLength)
        },
        Some(Encoding::CopyRect) => if payload.len() == 4 {
            events matches Ok(list) && is_one_patch(
                list,
                Seq::empty(),
                header.rect,
                PatchKind::CopyRegion(
                    Rect {
                        x: be_u16(payload, 0),
                        y: be_u16(payload, 2),
                        width: header.rect.width,
                        height: header.rect.height,
                    },
                ),
            )
        } else {
            events == Err::<Seq<ServerEvent>, DispatchError>(DispatchError::PayloadLength)
        },
        Some(Encoding::Tight) => events matches Ok(list) && is_one_patch(
            list,
            payload,
            header.rect,
            PatchKind::Jpeg,
        ),
        Some(Encoding::Zrle) => true,
        Some(Encoding::CursorPseudo) => if header.rect.width == 0 || header.rect.height == 0 {
            events == Ok::<Seq<ServerEvent>, DispatchError>(Seq::empty())
        } else {
            events matches Ok(list) && is_one_patch(list, payload, header.rect, PatchKind::Cursor)
        },
        Some(Encoding::DesktopSizePseudo) => if payload.len() == 0 {
            events == Ok::<Seq<ServerEvent>, DispatchError>(
                seq![ServerEvent::Resize(header.rect.width, header.rect.height)],
            )
        } else {
            events == Err::<Seq<ServerEvent>, DispatchError>(DispatchError::PayloadLength)
        },
    }
}

/// The views of the events of a result.
pub open spec fn event_views(events: Result<Vec<ServerEvent>, DispatchError>) -> Result<
    Seq<ServerEvent>,
    DispatchError,
> {
    match events {
        Ok(list) => Ok(list@),
        Err(e) => Err(e),
    }
}

/// The events for the shape of the pointer: one cursor patch, or nothing
/// where the region has no area, which hides the pointer.
pub fn cursor_events(rect: Rect, data: Vec<u8>) -> (events: Vec<ServerEvent>)
    ensures
        if rect.width == 0 || rect.height == 0 {
            events@ == Seq::<ServerEvent>::empty()
        } else {
            events@ == seq![ServerEvent::Patch(ImagePatch { data, rect, kind: PatchKind::Cursor })]
        },
{
    let mut events: Vec<ServerEvent> = Vec::new();
    if !rect.is_empty() {
        events.push(ServerEvent::Patch(ImagePatch { data, rect, kind: PatchKind::Cursor }));
    }
    events
}

/// Wraps decoded patches into events, one for each and in their order.
pub fn patch_events(patches: Vec<ImagePatch>) -> (events: Vec<ServerEvent>)
    ensures
        are_patches(events@, patches@),
{
    let mut events: Vec<ServerEvent> = Vec::new();
    let mut rest: Vec<ImagePatch> = patches;
    let ghost all: Seq<ImagePatch> = rest@;
    let mut reversed: Vec<ImagePatch> = Vec::new();
    while rest.len() > 0
        invariant
            reversed@.len() + rest@.len() == all.len(),
            forall|i: int| 0 <= i < rest@.len() ==> rest@[i] == all[i],
            forall|i: int|
                0 <= i < reversed@.len() ==> #[trigger] reversed@[i] == all[all.len() - 1 - i],
        decreases rest.len(),
    {
        let last: Option<ImagePatch> = rest.pop();
        match last {
            Some(patch) => {
                reversed.push(patch);
            },
            None => {},
        }
    }
    while reversed.len() > 0
        invariant
            events@.len() + reversed@.len() == all.len(),
            forall|i: int|
                0 <= i < reversed@.len() ==> #[trigger] reversed@[i] == all[all.len() - 1 - i],
            forall|i: int|
                0 <= i < events@.len() ==> #[trigger] events@[i] == ServerEvent::Patch(all[i]),
        decreases reversed.len(),
    {
        let next: Option<ImagePatch> = reversed.pop();
        match next {
            Some(patch) => {
                events.push(ServerEvent::Patch(patch));
            },
            None => {},
        }
    }
    events
}

/// Dispatches one rectangle: tells its encoding from the header and turns
/// the payload into events.
///
/// A raw rectangle, a cursor and a compressed image pass their payload on
/// as one patch; a copy names its source region; a new desktop size is a
/// resize; a ZRLE rectangle goes through the decoder. A cursor without
/// area hides the pointer and gives no event. An encoding that the session
/// did not negotiate, a payload of the wrong length, and whatever the
/// decoder fails on, end the session.
pub fn dispatch(
    decoder: &mut Decoder,
    format: &PixelFormat,
    header: &RectHeader,
    payload: &[u8],
) -> (events: Result<Vec<ServerEvent>, DispatchError>)
    ensures
        plainly_dispatched(*header, payload@, format.spec_bpp() as int, event_views(events)),
        encoding_of(header.encoding) != Some(Encoding::Zrle) ==> *final(decoder) == *old(decoder),
        encoding_of(header.encoding) == Some(Encoding::Zrle) ==> {
            &&& !format.well_formed() ==> events == Err::<Vec<ServerEvent>, DispatchError>(
                DispatchError::PixelFormat,
            ) && *final(decoder) == *old(decoder)
            &&& format.well_formed() && !header.rect.fits() ==> events == Err::<
                Vec<ServerEvent>,
                DispatchError,
            >(DispatchError::OutOfBounds) && *final(decoder) == *old(decoder)
            &&& format.well_formed() && header.rect.fits() && !old(decoder).usable() ==> events
                == Err::<Vec<ServerEvent>, DispatchError>(DispatchError::Desynchronized)
                && *final(decoder) == *old(decoder)
            &&& format.well_formed() && header.rect.fits() && old(decoder).usable() ==> {
                &&& final(decoder).usable() <==> events is Ok
                &&& events matches Err(e) ==> e is Decode
                &&& events matches Ok(list) ==> exists|patches: Seq<ImagePatch>, data: Seq<u8>|
                    #![trigger are_patches(list@, patches), decoded(format.spec_layout(), header.rect, data)]
                    are_patches(list@, patches) && decoded(
                        format.spec_layout(),
                        header.rect,
                        data,
                    ) == Ok::<Seq<PatchModel>, DecodeError>(patch_models(patches))
            }
        },
{
    let rect: Rect = header.rect;
    match Encoding::from_wire(header.encoding) {
        None => Err(DispatchError::UnknownEncoding),
        Some(Encoding::Raw) => {
            let bpp: usize = format.bpp();
            assert(rect.width * rect.height <= 65535 * 65535) by (nonlinear_arith)
                requires
                    rect.width <= 65535,
                    rect.height <= 65535,
            ;
            assert(rect.width * rect.height * bpp <= 65535 * 65535 * 31) by (nonlinear_arith)
                requires
                    0 <= rect.width * rect.height <= 65535 * 65535,
                    0 <= bpp <= 31,
            ;
            let wanted: u64 = rect.width as u64 * rect.height as u64 * bpp as u64;
            if payload.len() as u64 != wanted {
                return Err(DispatchError::PayloadLength);
            }
            let mut events: Vec<ServerEvent> = Vec::new();
            events.push(
                ServerEvent::Patch(
                    ImagePatch { data: slice_to_vec(payload), rect, kind: PatchKind::Raw },
                ),
            );
            Ok(events)
        },
        Some(Encoding::CopyRect) => {
            if payload.len() != 4 {
                return Err(DispatchError::PayloadLength);
            }
            let source: Rect = Rect {
                x: read_be_u16(payload, 0),
                y: read_be_u16(payload, 2),
                width: rect.width,
                height: rect.height,
            };
            let mut events: Vec<ServerEvent> = Vec::new();
            events.push(
                ServerEvent::Patch(
                    ImagePatch { data: Vec::new(), rect, kind: PatchKind::CopyRegion(source) },
                ),
            );
            Ok(events)
        },
        Some(Encoding::Tight) => {
            let mut events: Vec<ServerEvent> = Vec::new();
            events.push(
                ServerEvent::Patch(
                    ImagePatch { data: slice_to_vec(payload), rect, kind: PatchKind::Jpeg },
                ),
            );
            Ok(events)
        },
        Some(Encoding::Zrle) => {
            if !format.is_well_formed() {
                return Err(DispatchError::PixelFormat);
            }
            if !rect.is_fitting() {
                return Err(DispatchError::OutOfBounds);
            }
            if !decoder.is_usable() {
                return Err(DispatchError::Desynchronized);
            }
            match decoder.decode(format, &rect, payload) {
                Ok(patches) => {
                    let ghost data: Seq<u8> = choose|data: Seq<u8>|
                        decoded(format.spec_layout(), rect, data) == Ok::<
                            Seq<PatchModel>,
                            DecodeError,
                        >(patch_models(patches@));
                    let ghost models: Seq<ImagePatch> = patches@;
                    let list: Vec<ServerEvent> = patch_events(patches);
                    assert(are_patches(list@, models) && decoded(
                        format.spec_layout(),
                        header.rect,
                        data,
                    ) == Ok::<Seq<PatchModel>, DecodeError>(patch_models(models)));
                    Ok(list)
                },
                Err(e) => Err(DispatchError::Decode(e)),
            }
        },
        Some(Encoding::CursorPseudo) => Ok(cursor_events(rect, slice_to_vec(payload))),
        Some(Encoding::DesktopSizePseudo) => {
            if payload.len() != 0 {
                return Err(DispatchError::PayloadLength);
            }
            let mut events: Vec<ServerEvent> = Vec::new();
            events.push(ServerEvent::Resize(rect.width, rect.height));
            Ok(events)
        },
    }
}

} // verus!
