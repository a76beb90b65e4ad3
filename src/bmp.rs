//! Raw pixel data out of an uncompressed BMP image.

use vstd::prelude::*;
use vstd::slice::slice_subrange;

use crate::lcd::{color_of_bits, rgb_bits, Rgb16};

verus! {

/// The little-endian 32-bit number in `bytes[at..at + 4]`.
pub open spec fn le_u32(bytes: Seq<u8>, at: int) -> int {
    bytes[at] + 0x100 * bytes[at + 1] + 0x10000 * bytes[at + 2] + 0x1000000 * bytes[at + 3]
}

/// Where the pixel data of a BMP image starts: the header field at byte 10.
pub open spec fn pixel_data_offset(bytes: Seq<u8>) -> int {
    le_u32(bytes, 10)
}

/// Whether `bytes` holds a BMP header whose pixel data offset lies within
/// the image.
pub open spec fn is_bmp(bytes: Seq<u8>) -> bool {
    bytes.len() >= 14 && pixel_data_offset(bytes) <= bytes.len()
}

/// The pixel data of a BMP image: everything from the offset that its
/// header gives. The caller vouches that `bytes` is such an image.
pub fn bmp_data(bytes: &[u8]) -> (data: &[u8])
    requires
        is_bmp(bytes@),
    ensures
        data@ == bytes@.subrange(pixel_data_offset(bytes@), bytes@.len() as int),
{
    let offset: u32 = bytes[10] as u32 + 0x100 * bytes[11] as u32 + 0x10000 * bytes[12] as u32
        + 0x1000000 * bytes[13] as u32;
    slice_subrange(bytes, offset as usize, bytes.len())
}

/// A pixel with 8-bit red, green, blue and alpha channels.
#[derive(Clone, Copy, Debug, PartialEq, Eq, Structural)]
pub struct Rgba(pub u8, pub u8, pub u8, pub u8);

/// The panel color of a pixel: the reserved "leave alone" value where it
/// is fully transparent, its quantized color otherwise.
pub open spec fn rgba_color(p: Rgba) -> Rgb16 {
    if p.3 == 0 {
        Rgb16(0xff, 0xfe)
    } else {
        color_of_bits(rgb_bits(p.0, p.1, p.2))
    }
}

impl Rgba {
    /// The panel color of this pixel; a fully transparent pixel becomes the
    /// "leave alone" value whatever its color.
    pub fn to_rgb16(&self) -> (c: Rgb16)
        ensures
            c == rgba_color(*self),
    {
        if self.3 == 0 {
            return Rgb16::ignore();
        }
        Rgb16::from_rgb(self.0, self.1, self.2)
    }
}

/// The pixels of a byte stream, four bytes per pixel in the order red,
/// green, blue, alpha; trailing bytes that make no whole pixel are left
/// out.
pub open spec fn rgba_of(bytes: Seq<u8>) -> Seq<Rgba> {
    Seq::new(
        bytes.len() / 4,
        |i: int| Rgba(bytes[4 * i], bytes[4 * i + 1], bytes[4 * i + 2], bytes[4 * i + 3]),
    )
}

/// Reads `bytes` as four-byte pixels.
pub fn bytes_as_rgba(bytes: &[u8]) -> (pixels: Vec<Rgba>)
    ensures
        pixels@ == rgba_of(bytes@),
{
    let len = bytes.len();
    let n = len / 4;
    let mut pixels: Vec<Rgba> = Vec::with_capacity(n);
    let mut i: usize = 0;
    while i < n
        invariant
            len == bytes@.len(),
            n == len / 4,
            i <= n,
            pixels@.len() == i,
            forall|k: int| 0 <= k < i ==> #[trigger] pixels@[k] == rgba_of(bytes@)[k],
        decreases n - i,
    {
        assert(4 * i + 3 < len) by (nonlinear_arith)
            requires
                i < n,
                n == len / 4,
        ;
        let at = 4 * i;
        pixels.push(Rgba(bytes[at], bytes[at + 1], bytes[at + 2], bytes[at + 3]));
        i = i + 1;
    }
    assert(pixels@ =~= rgba_of(bytes@));
    pixels
}

/// Converts the four-byte pixels of `bytes` to panel colors into the front
/// of `buf`, which must have room for them; the rest of `buf` is kept.
pub fn bytes_as_rgb16(bytes: &[u8], buf: &mut [Rgb16])
    requires
        bytes@.len() / 4 <= old(buf)@.len(),
    ensures
        final(buf)@.len() == old(buf)@.len(),
        forall|i: int|
            0 <= i < old(buf)@.len() ==> #[trigger] final(buf)@[i] == if i < bytes@.len() / 4 {
                rgba_color(rgba_of(bytes@)[i])
            } else {
                old(buf)@[i]
            },
{
    let rgbas = bytes_as_rgba(bytes);
    let n = rgbas.len();
    let mut i: usize = 0;
    while i < n
        invariant
            n == rgbas@.len(),
            rgbas@ == rgba_of(bytes@),
            n <= buf@.len(),
            i <= n,
            buf@.len() == old(buf)@.len(),
            forall|k: int|
                0 <= k < buf@.len() ==> #[trigger] buf@[k] == if k < i {
                    rgba_color(rgbas@[k])
                } else {
                    old(buf)@[k]
                },
        decreases n - i,
    {
        buf[i] = rgbas[i].to_rgb16();
        i = i + 1;
    }
}

} // verus!
