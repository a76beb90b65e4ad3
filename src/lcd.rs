//! Packed 16-bit colors and the display capability that consumes them.

use vstd::prelude::*;

verus! {

/// A color in the panel's native 5-6-5 layout, stored as the two bytes that
/// are sent over the wire (most significant byte first).
///
/// The panel is driven with inverted levels: the all-ones pattern is black
/// and the all-zeros pattern is white.
#[derive(Clone, Copy, Debug, PartialEq, Eq, Structural)]
pub struct Rgb16(pub u8, pub u8);

/// The 16-bit pattern of a color.
pub open spec fn bits_of(c: Rgb16) -> int {
    c.0 as int * 256 + c.1 as int
}

/// The color whose bit pattern is `v`.
pub open spec fn color_of_bits(v: int) -> Rgb16 {
    Rgb16((v / 256) as u8, (v % 256) as u8)
}

/// The bit pattern of black.
pub const BLACK_BITS: u16 = 0xffff;

/// The bit pattern of white.
pub const WHITE_BITS: u16 = 0x0000;

/// The bit pattern reserved for "leave this pixel alone". It is the darkest
/// blue that is not black, so folding it into black when it comes out of a
/// conversion changes almost nothing visible.
pub const IGNORE_BITS: u16 = 0xfffe;

/// The 5-6-5 pattern of an 8-bit-per-channel color: each channel keeps its
/// most significant bits, and the pattern is inverted for the panel.
pub open spec fn packed_565(r: u8, g: u8, b: u8) -> int {
    0xffff - ((r as int / 8) * 2048 + (g as int / 4) * 32 + (b as int / 8))
}

/// What `from_rgb` yields: the packed pattern, folded into black where it
/// would collide with the reserved pattern.
pub open spec fn rgb_bits(r: u8, g: u8, b: u8) -> int {
    if packed_565(r, g, b) == IGNORE_BITS as int {
        BLACK_BITS as int
    } else {
        packed_565(r, g, b)
    }
}

impl Rgb16 {
    /// Black: the all-ones pattern.
    pub fn black() -> (c: Rgb16)
        ensures
            c == Rgb16(0xff, 0xff),
            bits_of(c) == BLACK_BITS as int,
    {
        Rgb16(0xff, 0xff)
    }

    /// White: the all-zeros pattern.
    pub fn white() -> (c: Rgb16)
        ensures
            c == Rgb16(0x00, 0x00),
            bits_of(c) == WHITE_BITS as int,
    {
        Rgb16(0x00, 0x00)
    }

    /// The reserved "leave this pixel alone" value.
    pub fn ignore() -> (c: Rgb16)
        ensures
            c == Rgb16(0xff, 0xfe),
            bits_of(c) == IGNORE_BITS as int,
    {
        Rgb16(0xff, 0xfe)
    }

    /// Splits a 16-bit pattern into its two bytes, most significant first.
    pub fn from_bits(value: u16) -> (c: Rgb16)
        ensures
            bits_of(c) == value as int,
            c == color_of_bits(value as int),
    {
        let hi = (value >> 8u16) as u8;
        let lo = (value & 0xffu16) as u8;
        assert(hi as int * 256 + lo as int == value as int && hi == value / 256 && lo == value
            % 256) by (bit_vector)
            requires
                hi == (value >> 8u16) as u8,
                lo == (value & 0xffu16) as u8,
        ;
        Rgb16(hi, lo)
    }

    /// Joins the two bytes into the 16-bit pattern.
    pub fn to_bits(&self) -> (v: u16)
        ensures
            v as int == bits_of(*self),
    {
        let hi = self.0;
        let lo = self.1;
        let v = ((hi as u16) << 8u16) | (lo as u16);
        assert(v as int == hi as int * 256 + lo as int) by (bit_vector)
            requires
                v == ((hi as u16) << 8u16) | (lo as u16),
        ;
        v
    }

    /// Quantizes an 8-bit-per-channel color to 5-6-5, never yielding the
    /// reserved "leave alone" pattern.
    pub fn from_rgb(r: u8, g: u8, b: u8) -> (c: Rgb16)
        ensures
            bits_of(c) == rgb_bits(r, g, b),
            c == color_of_bits(rgb_bits(r, g, b)),
            c != Rgb16(0xff, 0xfe),
    {
        let r5 = (r as u16) >> 3u16;
        let g6 = (g as u16) >> 2u16;
        let b5 = (b as u16) >> 3u16;
        let packed = ((r5 << 11u16) | (g6 << 5u16) | b5) ^ 0xffffu16;
        assert(packed as int == 0xffff - ((r as int / 8) * 2048 + (g as int / 4) * 32 + (
        b as int / 8))) by (bit_vector)
            requires
                r5 == (r as u16) >> 3u16,
                g6 == (g as u16) >> 2u16,
                b5 == (b as u16) >> 3u16,
                packed == ((r5 << 11u16) | (g6 << 5u16) | b5) ^ 0xffffu16,
        ;
        if packed == IGNORE_BITS {
            Rgb16::from_bits(BLACK_BITS)
        } else {
            Rgb16::from_bits(packed)
        }
    }
}


impl From<u16> for Rgb16 {
    fn from(value: u16) -> (c: Rgb16) {
        Rgb16::from_bits(value)
    }
}

impl vstd::std_specs::convert::FromSpecImpl<u16> for Rgb16 {
    open spec fn obeys_from_spec() -> bool {
        true
    }

    open spec fn from_spec(value: u16) -> Rgb16 {
        Rgb16((value as int / 256) as u8, (value as int % 256) as u8)
    }
}

/// The byte stream of a color sequence: each color contributes its two
/// bytes, most significant first, in order.
pub open spec fn bytes_of(colors: Seq<Rgb16>) -> Seq<u8> {
    Seq::new(
        2 * colors.len(),
        |i: int|
            if i % 2 == 0 {
                colors[i / 2].0
            } else {
                colors[i / 2].1
            },
    )
}

/// The colors of a byte stream: each consecutive pair of bytes is one color,
/// most significant byte first; a trailing odd byte belongs to no color.
pub open spec fn colors_of(bytes: Seq<u8>) -> Seq<Rgb16> {
    Seq::new(bytes.len() / 2, |i: int| Rgb16(bytes[2 * i], bytes[2 * i + 1]))
}

/// Turning colors into bytes and back gives the same colors, bit for bit.
pub proof fn lemma_colors_bytes_round_trip(colors: Seq<Rgb16>)
    ensures
        colors_of(bytes_of(colors)) == colors,
{
    let b = bytes_of(colors);
    assert forall|i: int| 0 <= i < colors.len() implies #[trigger] colors_of(b)[i] == colors[i] by {
        assert((2 * i) % 2 == 0);
        assert((2 * i + 1) % 2 == 1);
        assert((2 * i) / 2 == i);
        assert((2 * i + 1) / 2 == i);
    }
    assert(colors_of(b) =~= colors);
}

/// Turning an even-length byte stream into colors and back gives the same
/// bytes.
pub proof fn lemma_bytes_colors_round_trip(bytes: Seq<u8>)
    requires
        bytes.len() % 2 == 0,
    ensures
        bytes_of(colors_of(bytes)) == bytes,
{
    let c = colors_of(bytes);
    assert forall|i: int| 0 <= i < bytes.len() implies #[trigger] bytes_of(c)[i] == bytes[i] by {
        if i % 2 == 0 {
            assert(2 * (i / 2) == i);
        } else {
            assert(2 * (i / 2) + 1 == i);
        }
    }
    assert(bytes_of(c) =~= bytes);
}

impl Rgb16 {
    /// The bytes that carry `buf` to the panel, two per color.
    pub fn as_bytes(buf: &[Rgb16]) -> (bytes: Vec<u8>)
        requires
            2 * buf@.len() <= usize::MAX,
        ensures
            bytes@ == bytes_of(buf@),
    {
        let mut bytes: Vec<u8> = Vec::with_capacity(2 * buf.len());
        let mut i: usize = 0;
        while i < buf.len()
            invariant
                i <= buf@.len(),
                2 * buf@.len() <= usize::MAX,
                bytes@.len() == 2 * i,
                forall|k: int| 0 <= k < 2 * i ==> #[trigger] bytes@[k] == bytes_of(buf@)[k],
            decreases buf@.len() - i,
        {
            let c = buf[i];
            bytes.push(c.0);
            bytes.push(c.1);
            proof {
                assert forall|k: int| 0 <= k < 2 * (i + 1) implies #[trigger] bytes@[k]
                    == bytes_of(buf@)[k] by {
                    if k >= 2 * i {
                        assert(k / 2 == i as int);
                    }
                }
            }
            i = i + 1;
        }
        assert(bytes@ =~= bytes_of(buf@));
        bytes
    }

    /// The colors carried by a byte stream, two bytes per color. A stream of
    /// odd length does not split into colors and yields `None`.
    pub fn from_bytes(buf: &[u8]) -> (colors: Option<Vec<Rgb16>>)
        ensures
            buf@.len() % 2 == 1 <==> colors is None,
            colors matches Some(v) ==> v@ == colors_of(buf@),
    {
        if buf.len() % 2 == 1 {
            return None;
        }
        let len = buf.len();
        let n = len / 2;
        let mut colors: Vec<Rgb16> = Vec::with_capacity(n);
        let mut i: usize = 0;
        while i < n
            invariant
                len == buf@.len(),
                n == buf@.len() / 2,
                buf@.len() % 2 == 0,
                i <= n,
                colors@.len() == i,
                forall|k: int| 0 <= k < i ==> #[trigger] colors@[k] == colors_of(buf@)[k],
            decreases n - i,
        {
            assert(2 * i + 1 < buf@.len()) by (nonlinear_arith)
                requires
                    i < n,
                    n == buf@.len() / 2,
            ;
            colors.push(Rgb16(buf[2 * i], buf[2 * i + 1]));
            i = i + 1;
        }
        assert(colors@ =~= colors_of(buf@));
        Some(colors)
    }
}

/// One operation issued to a display.
pub enum DrawOp {
    /// Subsequent pixels fill this window: inclusive column range, then
    /// inclusive row range.
    Window((u16, u16), (u16, u16)),
    /// These pixels, row-major, into the current window.
    Pixels(Seq<Rgb16>),
}

/// One rectangle drawn on a display: its window and the pixels that fill it.
pub struct Draw {
    pub x: (u16, u16),
    pub y: (u16, u16),
    pub pixels: Seq<Rgb16>,
}

/// The operations that draw one rectangle: the window, then its pixels.
pub open spec fn draw_ops(d: Draw) -> Seq<DrawOp> {
    seq![DrawOp::Window(d.x, d.y), DrawOp::Pixels(d.pixels)]
}

/// The operations that draw each rectangle of `draws`, in order.
pub open spec fn ops_of(draws: Seq<Draw>) -> Seq<DrawOp>
    decreases draws.len(),
{
    if draws.len() == 0 {
        Seq::empty()
    } else {
        ops_of(draws.drop_last()) + draw_ops(draws.last())
    }
}

/// Drawing one more rectangle appends its two operations.
pub proof fn lemma_ops_of_push(draws: Seq<Draw>, d: Draw)
    ensures
        ops_of(draws.push(d)) == ops_of(draws) + draw_ops(d),
{
    assert(draws.push(d).drop_last() =~= draws);
}

/// A display that can be told which rectangle to fill and then be streamed
/// the pixels of that rectangle.
pub trait Lcd {
    /// Every operation this display has been issued, oldest first.
    spec fn log(&self) -> Seq<DrawOp>;

    /// Sets the window that subsequent pixel writes fill, row-major from
    /// `(x.0, y.0)`. Both ranges are inclusive and hold at least one pixel.
    fn prepare_window(&mut self, x: (u16, u16), y: (u16, u16))
        requires
            x.0 <= x.1,
            y.0 <= y.1,
        ensures
            final(self).log() == old(self).log().push(DrawOp::Window(x, y)),
    ;

    /// Streams `rgb` into the current window.
    fn write_rgb(&mut self, rgb: &[Rgb16])
        ensures
            final(self).log() == old(self).log().push(DrawOp::Pixels(rgb@)),
    ;
}

/// An operation as kept by a `Recorder`.
#[derive(Debug, PartialEq, Eq)]
pub enum Command {
    Window((u16, u16), (u16, u16)),
    Pixels(Vec<Rgb16>),
}

/// What a recorded command stands for.
pub open spec fn command_op(c: Command) -> DrawOp {
    match c {
        Command::Window(x, y) => DrawOp::Window(x, y),
        Command::Pixels(p) => DrawOp::Pixels(p@),
    }
}

/// A display that keeps every operation it is issued, in order.
pub struct Recorder {
    pub commands: Vec<Command>,
}

impl Recorder {
    /// A recorder that has seen nothing.
    pub fn new() -> (r: Recorder)
        ensures
            r.log() == Seq::<DrawOp>::empty(),
    {
        let r = Recorder { commands: Vec::new() };
        assert(r.log() =~= Seq::<DrawOp>::empty());
        r
    }
}

impl Lcd for Recorder {
    open spec fn log(&self) -> Seq<DrawOp> {
        self.commands@.map_values(|c: Command| command_op(c))
    }

    fn prepare_window(&mut self, x: (u16, u16), y: (u16, u16)) {
        self.commands.push(Command::Window(x, y));
        assert(self.log() =~= old(self).log().push(DrawOp::Window(x, y)));
    }

    fn write_rgb(&mut self, rgb: &[Rgb16]) {
        let mut pixels: Vec<Rgb16> = Vec::with_capacity(rgb.len());
        let mut i: usize = 0;
        while i < rgb.len()
            invariant
                i <= rgb@.len(),
                pixels@ == rgb@.subrange(0, i as int),
            decreases rgb@.len() - i,
        {
            pixels.push(rgb[i]);
            i = i + 1;
            assert(pixels@ =~= rgb@.subrange(0, i as int));
        }
        assert(pixels@ =~= rgb@);
        self.commands.push(Command::Pixels(pixels));
        assert(self.log() =~= old(self).log().push(DrawOp::Pixels(rgb@)));
    }
}

} // verus!
