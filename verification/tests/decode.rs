//! Tests of the verified payload codec on hand-built frames.

use decart::color::{byte, nybble, pixel_to_color};
use decart::stream::decode_frames;
use decart::{CartError, Frame};

/// A palette whose entry `i` hides exactly the nybble `i` in its low bits.
fn nybble_palette() -> Vec<u8> {
    let mut p = Vec::new();
    for i in 0..16u8 {
        p.push((i >> 3) & 1); // red carries bit 3
        p.push((i >> 1) & 3); // green carries bits 2-1
        p.push(i & 1); // blue carries bit 0
    }
    p
}

/// A palette whose entry `j` hides the nybble `15 - j`.
fn inverted_palette() -> Vec<u8> {
    let mut p = Vec::new();
    for j in 0..16u8 {
        let n = 15 - j;
        p.push((n >> 3) & 1);
        p.push((n >> 1) & 3);
        p.push(n & 1);
    }
    p
}

/// Pixel indices hiding the given bytes under `nybble_palette`.
fn pixels_for(bytes: &[u8]) -> Vec<u8> {
    let mut v = Vec::new();
    for &b in bytes {
        v.push(b >> 4);
        v.push(b & 0x0F);
    }
    v
}

/// Pixel indices hiding the given bytes under `inverted_palette`.
fn inverted_pixels_for(bytes: &[u8]) -> Vec<u8> {
    let mut v = Vec::new();
    for &b in bytes {
        v.push(15 - (b >> 4));
        v.push(15 - (b & 0x0F));
    }
    v
}

/// The 8 pixels of a header declaring `len` body bytes.
fn header_pixels(len: u32) -> Vec<u8> {
    pixels_for(&len.to_be_bytes())
}

#[test]
fn nybble_formula() {
    assert_eq!(nybble((0, 0, 0)), 0);
    assert_eq!(nybble((0xFF, 0xFF, 0xFF)), 15);
    // 1 bit of red, 2 of green, 1 of blue, low bits only
    assert_eq!(nybble((1, 2, 0)), 0b1100);
    assert_eq!(nybble((0, 1, 1)), 0b0011);
    assert_eq!(nybble((0xFE, 0xFC, 0xFE)), 0);
}

#[test]
fn pixel_resolves_to_palette_triple() {
    let pal = vec![10, 20, 30, 40, 50, 60];
    assert_eq!(pixel_to_color(0, &pal), (10, 20, 30));
    assert_eq!(pixel_to_color(1, &pal), (40, 50, 60));
}

#[test]
fn byte_pairs_high_then_low() {
    let pal = nybble_palette();
    let buf = pixels_for(&[0xA5, 0x3C]);
    assert_eq!(byte(&buf, &pal, 0), 0xA5);
    assert_eq!(byte(&buf, &pal, 2), 0x3C);
}

#[test]
fn single_frame_nine_byte_body() {
    // Header declares 9 bytes; the next 9 bytes are the exact body text.
    let body = b"{\"a\":1}  ";
    assert_eq!(body.len(), 9);
    let mut buf = header_pixels(9);
    buf.extend(pixels_for(body));
    let frames = vec![Frame { buffer: buf, palette: None }];
    let global = Some(nybble_palette());
    let out = decode_frames(&frames, &global).unwrap();
    assert_eq!(out, "{\"a\":1}  ");
}

#[test]
fn decoding_is_deterministic() {
    let build = || {
        let mut buf = header_pixels(5);
        buf.extend(pixels_for(b"hello"));
        vec![Frame { buffer: buf, palette: None }]
    };
    let global = Some(nybble_palette());
    let first = decode_frames(&build(), &global).unwrap();
    let second = decode_frames(&build(), &global).unwrap();
    assert_eq!(first, second);
    assert_eq!(first, "hello");
}

#[test]
fn body_spans_frames_in_order() {
    let mut f1 = header_pixels(4);
    f1.extend(pixels_for(b"AB"));
    let f2 = pixels_for(b"CD");
    let frames = vec![
        Frame { buffer: f1, palette: None },
        Frame { buffer: f2, palette: None },
    ];
    let global = Some(nybble_palette());
    assert_eq!(decode_frames(&frames, &global).unwrap(), "ABCD");
}

#[test]
fn local_palette_overrides_global() {
    // Frame 2 carries its own palette; its pixels only decode correctly
    // against that palette, not the global one.
    let mut f1 = header_pixels(4);
    f1.extend(pixels_for(b"AB"));
    let f2 = inverted_pixels_for(b"CD");
    let frames = vec![
        Frame { buffer: f1, palette: None },
        Frame { buffer: f2, palette: Some(inverted_palette()) },
    ];
    let global = Some(nybble_palette());
    assert_eq!(decode_frames(&frames, &global).unwrap(), "ABCD");
}

#[test]
fn zero_declared_length_yields_empty_body() {
    // The frame has pixels beyond the header, but none are consumed.
    let mut buf = header_pixels(0);
    buf.extend(pixels_for(b"junk"));
    let frames = vec![Frame { buffer: buf, palette: None }];
    let global = Some(nybble_palette());
    assert_eq!(decode_frames(&frames, &global).unwrap(), "");
}

#[test]
fn truncated_body_is_returned_without_error() {
    // The header declares 260 bytes but only 6 are available.
    let mut buf = header_pixels(260);
    buf.extend(pixels_for(b"abcdef"));
    let frames = vec![Frame { buffer: buf, palette: None }];
    let global = Some(nybble_palette());
    assert_eq!(decode_frames(&frames, &global).unwrap(), "abcdef");
}

#[test]
fn declared_length_stops_decoding_mid_frame() {
    let mut buf = header_pixels(2);
    buf.extend(pixels_for(b"okIGNORED"));
    let frames = vec![Frame { buffer: buf, palette: None }];
    let global = Some(nybble_palette());
    assert_eq!(decode_frames(&frames, &global).unwrap(), "ok");
}

#[test]
fn odd_trailing_pixel_contributes_no_byte() {
    // The second frame has 5 pixels: two full pairs and a dropped straggler.
    let mut f1 = header_pixels(9);
    f1.extend(pixels_for(b"x"));
    let mut f2 = pixels_for(b"yz");
    f2.push(3); // unpaired trailing pixel
    let frames = vec![
        Frame { buffer: f1, palette: None },
        Frame { buffer: f2, palette: None },
    ];
    let global = Some(nybble_palette());
    assert_eq!(decode_frames(&frames, &global).unwrap(), "xyz");
}

#[test]
fn frames_after_declared_length_are_not_consumed() {
    // Frame 2 would be a palette error if it were read, but the declared
    // length is already satisfied by frame 1.
    let mut f1 = header_pixels(2);
    f1.extend(pixels_for(b"ok"));
    let frames = vec![
        Frame { buffer: f1, palette: None },
        Frame { buffer: vec![255, 255], palette: None },
    ];
    let global = Some(nybble_palette());
    assert_eq!(decode_frames(&frames, &global).unwrap(), "ok");
}

#[test]
fn header_only_first_frame_then_body() {
    // The first frame holds exactly the 8 header pixels; the body starts in
    // the second frame.
    let frames = vec![
        Frame { buffer: header_pixels(3), palette: None },
        Frame { buffer: pixels_for(b"abc"), palette: None },
    ];
    let global = Some(nybble_palette());
    assert_eq!(decode_frames(&frames, &global).unwrap(), "abc");
}

#[test]
fn missing_palette_is_a_palette_error() {
    let buf = header_pixels(1);
    let frames = vec![Frame { buffer: buf, palette: None }];
    assert_eq!(decode_frames(&frames, &None), Err(CartError::PaletteError));
}

#[test]
fn out_of_range_pixel_is_a_palette_error() {
    // Pixel index 16 points past the 16-entry palette.
    let mut buf = header_pixels(1);
    buf.extend(vec![16, 0]);
    let frames = vec![Frame { buffer: buf, palette: None }];
    let global = Some(nybble_palette());
    assert_eq!(decode_frames(&frames, &global), Err(CartError::PaletteError));
}

#[test]
fn short_first_frame_is_a_decoding_error() {
    let frames = vec![Frame { buffer: vec![0, 0, 0, 0], palette: None }];
    let global = Some(nybble_palette());
    assert_eq!(decode_frames(&frames, &global), Err(CartError::DecodingError));
}

#[test]
fn no_frames_decode_to_empty_text() {
    let frames: Vec<Frame> = Vec::new();
    let global = Some(nybble_palette());
    assert_eq!(decode_frames(&frames, &global).unwrap(), "");
}
