//! A fixed-pitch bitmap font: 8 columns by 16 rows per glyph, one byte per
//! row, most significant bit leftmost.

use vstd::prelude::*;
use vstd::slice::slice_subrange;

use crate::error::IndexError;
use crate::lcd::Rgb16;

verus! {

/// Glyph height in pixel rows (one font byte per row).
pub const CHAR_HEIGHT: usize = 16;

/// Glyph width in pixel columns (one bit per column).
pub const CHAR_WIDTH: usize = 8;

/// The first character with a glyph: space.
pub const FIRST_CHAR: u8 = 0x20;

/// The last character with a glyph: tilde.
pub const LAST_CHAR: u8 = 0x7e;

/// The number of glyphs in a font.
pub const GLYPH_COUNT: usize = 95;

/// The size of a font table in bytes.
pub const FONT_BYTES: usize = 1520;

/// The pixels in a full glyph.
pub const GLYPH_PIXELS: usize = 128;

/// Whether the font has a glyph for `c`.
pub open spec fn is_printable(c: u8) -> bool {
    FIRST_CHAR <= c <= LAST_CHAR
}

/// Where the rows of `c`'s glyph start in a font table.
pub open spec fn glyph_start(c: u8) -> int {
    (c - FIRST_CHAR) * CHAR_HEIGHT
}

/// The rows of `c`'s glyph in a font table.
pub open spec fn glyph_rows(table: Seq<u8>, c: u8) -> Seq<u8> {
    table.subrange(glyph_start(c), glyph_start(c) + CHAR_HEIGHT)
}

/// Whether column `col` (0 is leftmost) of a glyph row is foreground.
pub open spec fn pixel_on(row: u8, col: u8) -> bool {
    (0x80u8 >> col) & row != 0
}

/// The pixels of columns `start..end` of a glyph with the given rows,
/// row-major, top row first: foreground where the bit is set, background
/// elsewhere.
pub open spec fn glyph_pixels(rows: Seq<u8>, fg: Rgb16, bg: Rgb16, start: int, end: int) -> Seq<
    Rgb16,
> {
    let w = end - start;
    Seq::new(
        (CHAR_HEIGHT * w) as nat,
        |i: int|
            if pixel_on(rows[i / w], (start + i % w) as u8) {
                fg
            } else {
                bg
            },
    )
}

/// A font table: the rows of each printable character's glyph, in order
/// of character code starting at space.
pub struct Font<'a> {
    table: &'a [u8],
}

impl<'a> View for Font<'a> {
    type V = Seq<u8>;

    closed spec fn view(&self) -> Seq<u8> {
        self.table@
    }
}

impl<'a> Font<'a> {
    #[verifier::type_invariant]
    spec fn inv(&self) -> bool {
        self.table@.len() == FONT_BYTES
    }

    /// A font over `table`, which must hold exactly one glyph per printable
    /// character.
    pub fn new(table: &'a [u8]) -> (font: Option<Font<'a>>)
        ensures
            font is Some <==> table@.len() == FONT_BYTES,
            font matches Some(f) ==> f@ == table@,
    {
        if table.len() == FONT_BYTES {
            Some(Font { table })
        } else {
            None
        }
    }

    /// The rows of `c`'s glyph, or `IndexError::Character` where the font
    /// has none.
    pub fn rows_for(&self, c: u8) -> (rows: Result<&'a [u8], IndexError>)
        ensures
            is_printable(c) <==> rows is Ok,
            rows matches Ok(r) ==> r@ == glyph_rows(self@, c),
            rows matches Err(e) ==> e == IndexError::Character,
    {
        if c < FIRST_CHAR || c > LAST_CHAR {
            return Err(IndexError::Character);
        }
        Ok(self.glyph(c))
    }

    fn glyph(&self, c: u8) -> (rows: &'a [u8])
        requires
            is_printable(c),
        ensures
            rows@ == glyph_rows(self@, c),
            rows@.len() == CHAR_HEIGHT,
    {
        proof {
            use_type_invariant(self);
        }
        let start = (c - FIRST_CHAR) as usize * CHAR_HEIGHT;
        slice_subrange(self.table, start, start + CHAR_HEIGHT)
    }

    /// Columns `start..end` of `c`'s glyph drawn in `fg` on `bg`, row-major,
    /// in the first `CHAR_HEIGHT * (end - start)` entries of the buffer; the
    /// rest of the buffer is background.
    pub fn rasterize(&self, c: u8, fg: Rgb16, bg: Rgb16, start: usize, end: usize) -> (buf: [Rgb16; 128])
        requires
            is_printable(c),
            start <= end <= CHAR_WIDTH,
        ensures
            buf@.subrange(0, CHAR_HEIGHT * (end - start)) == glyph_pixels(
                glyph_rows(self@, c),
                fg,
                bg,
                start as int,
                end as int,
            ),
            forall|k: int| CHAR_HEIGHT * (end - start) <= k < GLYPH_PIXELS ==> buf@[k] == bg,
    {
        let rows = self.glyph(c);
        let mut buf = [bg; 128];
        let w = end - start;
        let n = CHAR_HEIGHT * w;
        if w == 0 {
            assert(buf@.subrange(0, 0) =~= glyph_pixels(glyph_rows(self@, c), fg, bg, start as int, end as int));
            return buf;
        }
        let ghost want = glyph_pixels(glyph_rows(self@, c), fg, bg, start as int, end as int);
        let mut i: usize = 0;
        while i < n
            invariant
                0 < w <= CHAR_WIDTH,
                w == end - start,
                end <= CHAR_WIDTH,
                n == CHAR_HEIGHT * w,
                i <= n,
                rows@ == glyph_rows(self@, c),
                rows@.len() == CHAR_HEIGHT,
                want == glyph_pixels(glyph_rows(self@, c), fg, bg, start as int, end as int),
                buf@.len() == GLYPH_PIXELS,
                forall|k: int| 0 <= k < i ==> #[trigger] buf@[k] == want[k],
                forall|k: int| i <= k < GLYPH_PIXELS ==> #[trigger] buf@[k] == bg,
            decreases n - i,
        {
            let r = i / w;
            let col = start + i % w;
            assert(r < CHAR_HEIGHT) by (nonlinear_arith)
                requires
                    r == i / w,
                    i < n,
                    n == CHAR_HEIGHT * w,
                    0 < w,
            ;
            assert(col < CHAR_WIDTH) by (nonlinear_arith)
                requires
                    col == start + i % w,
                    w == end - start,
                    end <= CHAR_WIDTH,
                    0 < w,
            ;
            let row = rows[r];
            if (0x80u8 >> col as u8) & row != 0 {
                buf[i] = fg;
            }
            i = i + 1;
        }
        assert(buf@.subrange(0, n as int) =~= want);
        buf
    }
}

} // verus!
