//! End-to-end tests: payloads hidden in real GIF bytes, and payload parsing
//! into the cartridge document.

use decart::{decode_octocart, OctoCart};
use std::borrow::Cow;

/// A palette whose entry `i` hides exactly the nybble `i` in its low bits.
fn nybble_palette() -> Vec<u8> {
    let mut p = Vec::new();
    for i in 0..16u8 {
        p.push((i >> 3) & 1);
        p.push((i >> 1) & 3);
        p.push(i & 1);
    }
    p
}

/// Pixel indices hiding the given bytes under `nybble_palette`.
fn pixels_for(bytes: &[u8]) -> Vec<u8> {
    let mut v = Vec::new();
    for &b in bytes {
        v.push(b >> 4);
        v.push(b & 0x0F);
    }
    v
}

/// A one-row GIF whose frames carry the given pixel index buffers.
fn gif_bytes(global: &[u8], frames: Vec<(Vec<u8>, Option<Vec<u8>>)>) -> Vec<u8> {
    let width = frames.iter().map(|(b, _)| b.len()).max().unwrap() as u16;
    let mut out = Vec::new();
    {
        let mut enc = gif::Encoder::new(&mut out, width, 1, global).unwrap();
        for (buffer, palette) in frames {
            let mut frame = gif::Frame::default();
            frame.width = buffer.len() as u16;
            frame.height = 1;
            frame.buffer = Cow::Owned(buffer);
            frame.palette = palette;
            enc.write_frame(&frame).unwrap();
        }
    }
    out
}

/// The full payload a cartridge hides for the given body text: 32-bit
/// big-endian length, then the body bytes.
fn payload_pixels(body: &[u8]) -> Vec<u8> {
    let mut pixels = pixels_for(&(body.len() as u32).to_be_bytes());
    pixels.extend(pixels_for(body));
    pixels
}

const MINIMAL_JSON: &str = "{\"program\":\": main\",\"options\":{\"tickrate\":7,\
\"fillColor\":\"#FFCC00\",\"fillColor2\":\"#FF6600\",\"blendColor\":\"#662200\",\
\"backgroundColor\":\"#996600\",\"buzzColor\":\"#FFAA00\",\"quietColor\":\"#000000\",\
\"shiftQuirks\":false,\"loadStoreQuirks\":false,\"vfOrderQuirks\":false,\
\"clipQuirks\":true,\"vBlankQuirks\":true,\"jumpQuirks\":false,\"screenRotation\":0,\
\"maxSize\":3215,\"touchInputMode\":\"none\",\"logicQuirks\":true,\"fontStyle\":\"octo\"}}";

#[test]
fn payload_recovered_from_gif_bytes() {
    let body = b"{\"a\":1}  ";
    let bytes = gif_bytes(&nybble_palette(), vec![(payload_pixels(body), None)]);
    let payload = decode_octocart(&bytes).unwrap();
    assert_eq!(payload, "{\"a\":1}  ");
}

#[test]
fn gif_decode_is_deterministic() {
    let body = b"same every time";
    let bytes = gif_bytes(&nybble_palette(), vec![(payload_pixels(body), None)]);
    assert_eq!(decode_octocart(&bytes).unwrap(), decode_octocart(&bytes).unwrap());
}

#[test]
fn gif_frame_local_palette_is_used() {
    // The header declares 4 body bytes; frame 1 supplies "hi" and frame 2 the
    // other two.  Frame 2's own palette maps every index to nybble 0, so its
    // bytes decode to NUL; a decoder that wrongly used the global palette
    // would read the pixel indices themselves instead.
    let mut frame1 = pixels_for(&(4u32).to_be_bytes());
    frame1.extend(pixels_for(b"hi"));
    let frame2 = vec![5, 9, 11, 2];
    let bytes = gif_bytes(
        &nybble_palette(),
        vec![(frame1, None), (frame2, Some(vec![0u8; 48]))],
    );
    let payload = decode_octocart(&bytes).unwrap();
    assert_eq!(payload, "hi\0\0");
}

#[test]
fn unreadable_container_is_a_decoding_error() {
    let garbage = b"definitely not a gif";
    assert_eq!(decode_octocart(garbage), Err(decart::CartError::DecodingError));
}

#[test]
fn minimal_cart_parses() {
    let cart = OctoCart::parse(MINIMAL_JSON).unwrap();
    assert_eq!(cart.program, ": main");
    assert_eq!(cart.options.tickrate, Some(7));
    assert_eq!(cart.options.max_size, Some(3215));
}

#[test]
fn minimal_cart_hidden_in_gif_round_trips() {
    let bytes = gif_bytes(
        &nybble_palette(),
        vec![(payload_pixels(MINIMAL_JSON.as_bytes()), None)],
    );
    let payload = decode_octocart(&bytes).unwrap();
    assert_eq!(payload, MINIMAL_JSON);
    let cart = OctoCart::parse(&payload).unwrap();
    assert_eq!(cart.program, ": main");
}

#[test]
fn document_serializes_back_to_equivalent_json() {
    let cart = OctoCart::parse(MINIMAL_JSON).unwrap();
    let text = cart.to_json().unwrap();
    let again = OctoCart::parse(&text).unwrap();
    assert_eq!(again.program, cart.program);
    assert_eq!(again.options, cart.options);
}

#[test]
fn numeric_string_fields_in_options_parse() {
    // octopt reads tickrate and its other numeric fields from an int or a
    // string; both forms must survive the payload parser.
    let cart = OctoCart::parse("{\"program\":\": main\",\"options\":{\"tickrate\":\"7\"}}").unwrap();
    assert_eq!(cart.options.tickrate, Some(7));
    let cart = OctoCart::parse("{\"program\":\": main\",\"options\":{\"tickrate\":7}}").unwrap();
    assert_eq!(cart.options.tickrate, Some(7));
}

#[test]
fn empty_payload_is_a_parsing_failure() {
    assert!(OctoCart::parse("").is_err());
}

#[test]
fn missing_options_is_a_parsing_failure() {
    assert!(OctoCart::parse("{\"program\":\": main\"}").is_err());
}

#[test]
fn missing_program_is_a_parsing_failure() {
    assert!(OctoCart::parse("{\"options\":{}}").is_err());
}

#[test]
fn malformed_json_is_a_parsing_failure() {
    assert!(OctoCart::parse("{\"program\": ").is_err());
}
