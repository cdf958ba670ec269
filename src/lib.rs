//! Encoding of a 24-bit uncompressed Windows Bitmap (BMP) image: the channel
//! bytes of each pixel, the fixed 54-byte header and the padded pixel rows,
//! stored bottom row first in blue-green-red order.

pub mod color;
pub mod image;
