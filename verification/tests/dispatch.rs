use flate2::{Compress, Compression, FlushCompress};
use webgateway::decoder::Decoder;
use webgateway::dispatch::{
    cursor_events, dispatch, events_or_error, parse_header, DispatchError, Encoding, RectHeader,
};
use webgateway::error::DecodeError;
use webgateway::pixel_format::PixelFormat;
use webgateway::rect::{ImagePatch, PatchKind, Rect};
use webgateway::session::ServerEvent;

fn format() -> PixelFormat {
    PixelFormat {
        bits_per_pixel: 32,
        depth: 24,
        big_endian_flag: 0,
        true_color_flag: 1,
        red_max: 255,
        green_max: 255,
        blue_max: 255,
        red_shift: 0,
        green_shift: 8,
        blue_shift: 16,
    }
}

fn header(width: u16, height: u16, encoding: i32) -> RectHeader {
    RectHeader { rect: Rect { x: 3, y: 4, width, height }, encoding }
}

fn deflate(bytes: &[u8]) -> Vec<u8> {
    let mut stream = Compress::new(Compression::default(), true);
    let mut out: Vec<u8> = Vec::with_capacity(bytes.len() + 1024);
    stream.compress_vec(bytes, &mut out, FlushCompress::Sync).unwrap();
    out
}

#[test]
fn encodings_have_their_numbers() {
    assert_eq!(Encoding::from_wire(0), Some(Encoding::Raw));
    assert_eq!(Encoding::from_wire(1), Some(Encoding::CopyRect));
    assert_eq!(Encoding::from_wire(7), Some(Encoding::Tight));
    assert_eq!(Encoding::from_wire(16), Some(Encoding::Zrle));
    assert_eq!(Encoding::from_wire(-239), Some(Encoding::CursorPseudo));
    assert_eq!(Encoding::from_wire(-223), Some(Encoding::DesktopSizePseudo));
    assert_eq!(Encoding::from_wire(2), None);
    assert_eq!(Encoding::from_wire(-1), None);
}

#[test]
fn encoding_numbers_read_back() {
    for encoding in [
        Encoding::Raw,
        Encoding::CopyRect,
        Encoding::Tight,
        Encoding::Zrle,
        Encoding::CursorPseudo,
        Encoding::DesktopSizePseudo,
    ] {
        assert_eq!(Encoding::from_wire(encoding.to_wire()), Some(encoding));
    }
    assert_eq!(Encoding::Zrle.to_wire(), 16);
    assert_eq!(Encoding::CursorPseudo.to_wire(), -239);
}

#[test]
fn header_is_read_big_endian() {
    let bytes = [0x01, 0x02, 0x03, 0x04, 0x00, 0x40, 0x10, 0x00, 0x00, 0x00, 0x00, 0x10, 0xee];
    assert_eq!(
        parse_header(&bytes),
        Some(RectHeader { rect: Rect { x: 0x0102, y: 0x0304, width: 64, height: 4096 }, encoding: 16 })
    );
}

#[test]
fn header_encoding_is_signed() {
    let bytes = [0, 0, 0, 0, 0, 1, 0, 1, 0xff, 0xff, 0xff, 0x11];
    assert_eq!(parse_header(&bytes).unwrap().encoding, -239);
    let bytes = [0, 0, 0, 0, 0, 1, 0, 1, 0x80, 0, 0, 0];
    assert_eq!(parse_header(&bytes).unwrap().encoding, i32::MIN);
    let bytes = [0, 0, 0, 0, 0, 1, 0, 1, 0x7f, 0xff, 0xff, 0xff];
    assert_eq!(parse_header(&bytes).unwrap().encoding, i32::MAX);
}

#[test]
fn header_needs_twelve_bytes() {
    assert_eq!(parse_header(&[0u8; 11]), None);
    assert_eq!(parse_header(&[]), None);
    assert!(parse_header(&[0u8; 12]).is_some());
}

#[test]
fn raw_payload_passes_as_one_patch() {
    let mut decoder = Decoder::new();
    let payload = [1u8, 2, 3, 4, 5, 6, 7, 8];
    let head = header(2, 1, 0);
    assert_eq!(
        dispatch(&mut decoder, &format(), &head, &payload),
        Ok(vec![ServerEvent::Patch(ImagePatch {
            data: payload.to_vec(),
            rect: head.rect,
            kind: PatchKind::Raw
        })])
    );
}

#[test]
fn raw_payload_of_the_wrong_length_fails() {
    let mut decoder = Decoder::new();
    assert_eq!(
        dispatch(&mut decoder, &format(), &header(2, 1, 0), &[1u8, 2, 3, 4]),
        Err(DispatchError::PayloadLength)
    );
}

#[test]
fn copy_names_its_source() {
    let mut decoder = Decoder::new();
    let head = header(5, 6, 1);
    assert_eq!(
        dispatch(&mut decoder, &format(), &head, &[0x01, 0x00, 0x00, 0x09]),
        Ok(vec![ServerEvent::Patch(ImagePatch {
            data: vec![],
            rect: head.rect,
            kind: PatchKind::CopyRegion(Rect { x: 256, y: 9, width: 5, height: 6 })
        })])
    );
    assert_eq!(
        dispatch(&mut decoder, &format(), &head, &[0, 1, 2]),
        Err(DispatchError::PayloadLength)
    );
}

#[test]
fn compressed_image_passes_through() {
    let mut decoder = Decoder::new();
    let head = header(5, 6, 7);
    assert_eq!(
        dispatch(&mut decoder, &format(), &head, &[0xff, 0xd8, 0xff]),
        Ok(vec![ServerEvent::Patch(ImagePatch {
            data: vec![0xff, 0xd8, 0xff],
            rect: head.rect,
            kind: PatchKind::Jpeg
        })])
    );
}

#[test]
fn desktop_size_is_a_resize() {
    let mut decoder = Decoder::new();
    assert_eq!(
        dispatch(&mut decoder, &format(), &header(1024, 768, -223), &[]),
        Ok(vec![ServerEvent::Resize(1024, 768)])
    );
    assert_eq!(
        dispatch(&mut decoder, &format(), &header(1024, 768, -223), &[0]),
        Err(DispatchError::PayloadLength)
    );
}

#[test]
fn cursor_is_a_cursor_patch() {
    let mut decoder = Decoder::new();
    let head = header(1, 1, -239);
    assert_eq!(
        dispatch(&mut decoder, &format(), &head, &[1, 2, 3, 4, 0x80]),
        Ok(vec![ServerEvent::Patch(ImagePatch {
            data: vec![1, 2, 3, 4, 0x80],
            rect: head.rect,
            kind: PatchKind::Cursor
        })])
    );
}

#[test]
fn cursor_without_area_gives_no_event() {
    let mut decoder = Decoder::new();
    assert_eq!(dispatch(&mut decoder, &format(), &header(0, 0, -239), &[]), Ok(vec![]));
    assert_eq!(dispatch(&mut decoder, &format(), &header(0, 5, -239), &[]), Ok(vec![]));
    assert_eq!(dispatch(&mut decoder, &format(), &header(5, 0, -239), &[]), Ok(vec![]));
}

#[test]
fn unknown_encoding_fails() {
    let mut decoder = Decoder::new();
    assert_eq!(
        dispatch(&mut decoder, &format(), &header(1, 1, 5), &[]),
        Err(DispatchError::UnknownEncoding)
    );
    assert!(decoder.is_usable());
}

#[test]
fn zrle_goes_through_the_decoder() {
    let mut decoder = Decoder::new();
    let head = header(1, 1, 16);
    let payload = deflate(&[1, 1, 2, 3]);
    assert_eq!(
        dispatch(&mut decoder, &format(), &head, &payload),
        Ok(vec![ServerEvent::Patch(ImagePatch {
            data: vec![2, 1, 255, 3],
            rect: head.rect,
            kind: PatchKind::Raw
        })])
    );
    assert!(decoder.is_usable());
}

#[test]
fn zrle_failure_spends_the_decoder() {
    let mut decoder = Decoder::new();
    let head = header(1, 1, 16);
    let payload = deflate(&[1, 1, 2]);
    assert_eq!(
        dispatch(&mut decoder, &format(), &head, &payload),
        Err(DispatchError::Decode(DecodeError::UnexpectedEof))
    );
    assert!(!decoder.is_usable());
    assert_eq!(
        dispatch(&mut decoder, &format(), &head, &payload),
        Err(DispatchError::Desynchronized)
    );
    // what needs no decoder still passes
    assert_eq!(
        dispatch(&mut decoder, &format(), &header(8, 8, -223), &[]),
        Ok(vec![ServerEvent::Resize(8, 8)])
    );
}

#[test]
fn zrle_outside_the_coordinate_space_fails() {
    let mut decoder = Decoder::new();
    let head = RectHeader { rect: Rect { x: 65535, y: 0, width: 1, height: 1 }, encoding: 16 };
    assert_eq!(
        dispatch(&mut decoder, &format(), &head, &deflate(&[1, 1, 2, 3])),
        Err(DispatchError::OutOfBounds)
    );
    assert!(decoder.is_usable());
}

#[test]
fn zrle_with_an_odd_pixel_format_fails() {
    let mut decoder = Decoder::new();
    let odd = PixelFormat { bits_per_pixel: 24, ..format() };
    assert_eq!(
        dispatch(&mut decoder, &odd, &header(1, 1, 16), &deflate(&[1, 1, 2, 3])),
        Err(DispatchError::PixelFormat)
    );
    assert!(decoder.is_usable());
}

#[test]
fn a_failed_rectangle_becomes_one_error_event() {
    assert_eq!(
        events_or_error(Err(DispatchError::UnknownEncoding)),
        vec![ServerEvent::Error("unknown rectangle encoding".to_string())]
    );
    assert_eq!(
        events_or_error(Err(DispatchError::Decode(DecodeError::InvalidSubencoding))),
        vec![ServerEvent::Error("ZRLE subencoding".to_string())]
    );
    assert_eq!(
        events_or_error(Ok(vec![ServerEvent::Bell, ServerEvent::Resize(1, 2)])),
        vec![ServerEvent::Bell, ServerEvent::Resize(1, 2)]
    );
}

#[test]
fn every_dispatch_error_has_its_message() {
    assert_eq!(DispatchError::UnknownEncoding.message(), "unknown rectangle encoding");
    assert_eq!(DispatchError::PayloadLength.message(), "rectangle payload of the wrong length");
    assert_eq!(DispatchError::OutOfBounds.message(), "rectangle outside the framebuffer");
    assert_eq!(DispatchError::PixelFormat.message(), "unsupported pixel format");
    assert_eq!(DispatchError::Desynchronized.message(), "decompression stream out of step");
    assert_eq!(
        DispatchError::Decode(DecodeError::LeftoverBytes).message(),
        "leftover ZRLE byte data"
    );
}

#[test]
fn cursor_events_filter_the_hidden_pointer() {
    let shown = Rect { x: 1, y: 2, width: 1, height: 1 };
    assert_eq!(
        cursor_events(shown, vec![1, 2, 3, 4]),
        vec![ServerEvent::Patch(ImagePatch {
            data: vec![1, 2, 3, 4],
            rect: shown,
            kind: PatchKind::Cursor
        })]
    );
    assert_eq!(cursor_events(Rect { x: 1, y: 2, width: 0, height: 1 }, vec![]), vec![]);
    assert_eq!(cursor_events(Rect { x: 1, y: 2, width: 1, height: 0 }, vec![]), vec![]);
}
