//! Decoder for Octo cartridges ("Octocarts"): CHIP-8 game cartridges for the
//! Octo environment.
//!
//! An Octo cartridge is a GIF image with a payload hidden steganographically in
//! one or more animation frames.  Data lives in the least significant bits of
//! the palette colors: 1 bit from the red and blue channels and 2 bits from the
//! green channel, so every two successive pixels hide one byte.
//!
//! The payload starts with a 32-bit big-endian length, followed by that many
//! ASCII bytes of JSON text holding the program source and the runtime options.
//!
//! * [`decode_octocart`] recovers the payload text from the raw bytes of a
//!   cartridge file.
//! * [`OctoCart`] is the decoded document: the program source plus an
//!   [`octopt`] options record; [`OctoCart::parse`] deserializes the payload
//!   text into it.

pub mod cart;
pub mod color;
pub mod container;
pub mod stream;

pub use cart::CartError;
pub use cart::OctoCart;
pub use container::decode_octocart;
pub use stream::Frame;
pub use stream::StreamDecoder;
