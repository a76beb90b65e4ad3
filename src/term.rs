//! Terminal cells and the dirty-tracked character grid.

use vstd::prelude::*;

use crate::error::IndexError;
use crate::font::{
    glyph_pixels, glyph_rows, is_printable, Font, CHAR_HEIGHT, CHAR_WIDTH, FIRST_CHAR, LAST_CHAR,
};
use crate::lcd::{draw_ops, lemma_ops_of_push, ops_of, Draw, Lcd, Rgb16};

verus! {

/// The character code held in a cell's value byte: the low seven bits.
pub open spec fn code_of(value: u8) -> u8 {
    (value % 128) as u8
}

/// Whether a cell's value byte carries the "needs drawing" mark: its top bit.
pub open spec fn is_dirty(value: u8) -> bool {
    value >= 128
}

/// A value byte with the mark set.
pub open spec fn with_mark(value: u8) -> u8 {
    (value % 128 + 128) as u8
}

/// A value byte with the mark cleared.
pub open spec fn without_mark(value: u8) -> u8 {
    (value % 128) as u8
}

/// One character of the terminal: a value byte whose low seven bits are
/// the character and whose top bit marks it as not yet drawn, and its
/// colors.
#[derive(Clone, Copy, Debug, PartialEq, Eq, Structural)]
pub struct Char {
    pub value: u8,
    pub foreground: Rgb16,
    pub background: Rgb16,
}

/// `c` with its mark cleared, colors kept.
pub open spec fn flushed(c: Char) -> Char {
    Char { value: without_mark(c.value), ..c }
}

/// `c` with its mark set, colors kept.
pub open spec fn clogged(c: Char) -> Char {
    Char { value: with_mark(c.value), ..c }
}

/// A fresh cell: a space, not yet drawn, white on black.
pub open spec fn blank_char() -> Char {
    Char { value: 0xa0, foreground: Rgb16(0x00, 0x00), background: Rgb16(0xff, 0xff) }
}

/// The rectangle that shows `c` at column `col`, row `row` of the grid.
pub open spec fn cell_draw(c: Char, col: int, row: int, font: Seq<u8>) -> Draw {
    Draw {
        x: ((col * CHAR_WIDTH) as u16, (col * CHAR_WIDTH + CHAR_WIDTH - 1) as u16),
        y: ((row * CHAR_HEIGHT) as u16, (row * CHAR_HEIGHT + CHAR_HEIGHT - 1) as u16),
        pixels: glyph_pixels(
            glyph_rows(font, code_of(c.value)),
            c.foreground,
            c.background,
            0,
            CHAR_WIDTH as int,
        ),
    }
}

/// Whether column `col`, row `row` of a cell fits the display's 16-bit
/// pixel coordinates.
pub open spec fn cell_fits(col: int, row: int) -> bool {
    (col + 1) * CHAR_WIDTH <= 0x10000 && (row + 1) * CHAR_HEIGHT <= 0x10000
}

/// Marking a cell and then clearing the mark leaves its character as it was.
pub proof fn lemma_mark_keeps_code(c: Char)
    ensures
        code_of(flushed(clogged(c)).value) == code_of(c.value),
        flushed(clogged(c)).foreground == c.foreground,
        flushed(clogged(c)).background == c.background,
{
}

impl Char {
    /// Whether the cell has been drawn since it last changed.
    pub fn is_flushed(&self) -> (r: bool)
        ensures
            r == !is_dirty(self.value),
    {
        let v = self.value;
        assert((v & 0x80u8 == 0) == (v < 128)) by (bit_vector);
        v & 0x80u8 == 0
    }

    /// Marks the cell as needing to be drawn.
    pub fn mark_clogged(&mut self)
        ensures
            *final(self) == clogged(*old(self)),
    {
        let v = self.value;
        assert(v | 0x80u8 == v % 128 + 128) by (bit_vector);
        self.value = v | 0x80u8;
    }

    /// Marks the cell as drawn.
    pub fn mark_flushed(&mut self)
        ensures
            *final(self) == flushed(*old(self)),
    {
        let v = self.value;
        assert(v & 0x7fu8 == v % 128) by (bit_vector);
        self.value = v & 0x7fu8;
    }

    /// The character code, without the mark.
    pub fn value(&self) -> (r: u8)
        ensures
            r == code_of(self.value),
    {
        let v = self.value;
        assert(v & 0x7fu8 == v % 128) by (bit_vector);
        v & 0x7fu8
    }

    /// The cell's glyph drawn in its colors, a full glyph of pixels, or
    /// `IndexError::Character` where the font has no glyph for it.
    pub fn rasterize(&self, font: &Font) -> (r: Result<[Rgb16; 128], IndexError>)
        ensures
            r is Ok <==> is_printable(code_of(self.value)),
            r matches Ok(buf) ==> buf@ == glyph_pixels(
                glyph_rows(font@, code_of(self.value)),
                self.foreground,
                self.background,
                0,
                CHAR_WIDTH as int,
            ),
            r matches Err(e) ==> e == IndexError::Character,
    {
        let code = self.value();
        if code < FIRST_CHAR || code > LAST_CHAR {
            return Err(IndexError::Character);
        }
        let buf = font.rasterize(code, self.foreground, self.background, 0, CHAR_WIDTH);
        assert(buf@ =~= buf@.subrange(0, 128));
        Ok(buf)
    }

    /// Streams the cell's glyph into the display's current window, or
    /// reports `IndexError::Character`, sending nothing, where the font has
    /// no glyph for it.
    pub fn display<L: Lcd>(&self, lcd: &mut L, font: &Font) -> (r: Result<(), IndexError>)
        ensures
            r is Ok <==> is_printable(code_of(self.value)),
            r is Ok ==> final(lcd).log() == old(lcd).log().push(
                crate::lcd::DrawOp::Pixels(
                    glyph_pixels(
                        glyph_rows(font@, code_of(self.value)),
                        self.foreground,
                        self.background,
                        0,
                        CHAR_WIDTH as int,
                    ),
                ),
            ),
            r is Err ==> final(lcd).log() == old(lcd).log(),
            r matches Err(e) ==> e == IndexError::Character,
    {
        match self.rasterize(font) {
            Ok(buf) => {
                lcd.write_rgb(buf.as_slice());
                Ok(())
            },
            Err(e) => Err(e),
        }
    }
}

impl Default for Char {
    fn default() -> (c: Char)
        ensures
            c == blank_char(),
    {
        Char { value: 0xa0, foreground: Rgb16::white(), background: Rgb16::black() }
    }
}


/// The rectangles that show the marked cells among the first `n` of a
/// row-major grid `width` cells wide, in grid order.
pub open spec fn dirty_draws(cells: Seq<Char>, width: int, font: Seq<u8>, n: nat) -> Seq<Draw>
    decreases n,
{
    if n == 0 {
        Seq::empty()
    } else {
        let before = dirty_draws(cells, width, font, (n - 1) as nat);
        let c = cells[n - 1];
        if is_dirty(c.value) {
            before.push(cell_draw(c, (n - 1) % width, (n - 1) / width, font))
        } else {
            before
        }
    }
}

/// What a full redraw of a grid sends to the display.
pub open spec fn redraw_ops(cells: Seq<Char>, width: int, font: Seq<u8>) -> Seq<
    crate::lcd::DrawOp,
> {
    ops_of(dirty_draws(cells, width, font, cells.len()))
}

/// Every cell of a grid with its mark cleared.
pub open spec fn flush_all(cells: Seq<Char>) -> Seq<Char> {
    cells.map_values(|c: Char| flushed(c))
}

/// Nothing is drawn for cells that carry no mark.
pub proof fn lemma_no_dirty_no_draws(cells: Seq<Char>, width: int, font: Seq<u8>, n: nat)
    requires
        n <= cells.len(),
        forall|k: int| 0 <= k < n ==> !is_dirty(#[trigger] cells[k].value),
    ensures
        dirty_draws(cells, width, font, n) == Seq::<Draw>::empty(),
    decreases n,
{
    if n > 0 {
        lemma_no_dirty_no_draws(cells, width, font, (n - 1) as nat);
    }
}

/// Redrawing a grid that was just redrawn, with no change in between,
/// sends nothing to the display.
pub proof fn lemma_second_display_is_silent(cells: Seq<Char>, width: int, font: Seq<u8>)
    ensures
        redraw_ops(flush_all(cells), width, font) == Seq::<crate::lcd::DrawOp>::empty(),
{
    let f = flush_all(cells);
    assert forall|k: int| 0 <= k < f.len() implies !is_dirty(#[trigger] f[k].value) by {}
    lemma_no_dirty_no_draws(f, width, font, f.len());
}

/// In a grid where only cell `k` carries a mark, the first `n` cells draw
/// that cell alone once `n` has passed it, and nothing before.
proof fn lemma_one_mark_draws(g: Seq<Char>, width: int, font: Seq<u8>, k: int, n: nat)
    requires
        0 <= k < g.len(),
        n <= g.len(),
        is_dirty(g[k].value),
        forall|j: int| 0 <= j < g.len() && j != k ==> !is_dirty(#[trigger] g[j].value),
    ensures
        dirty_draws(g, width, font, n) == if n > k {
            seq![cell_draw(g[k], k % width, k / width, font)]
        } else {
            Seq::<Draw>::empty()
        },
    decreases n,
{
    if n > 0 {
        lemma_one_mark_draws(g, width, font, k, (n - 1) as nat);
        if n - 1 == k {
            assert(Seq::<Draw>::empty().push(cell_draw(g[k], k % width, k / width, font))
                =~= seq![cell_draw(g[k], k % width, k / width, font)]);
        }
    }
}

/// After a redraw, putting one character into the grid makes the next
/// redraw send that cell's window and glyph and nothing else.
pub proof fn lemma_redraw_after_one_change(
    cells: Seq<Char>,
    width: int,
    font: Seq<u8>,
    k: int,
    c: Char,
)
    requires
        0 <= k < cells.len(),
    ensures
        redraw_ops(flush_all(cells).update(k, clogged(c)), width, font) == draw_ops(
            cell_draw(clogged(c), k % width, k / width, font),
        ),
{
    let g = flush_all(cells).update(k, clogged(c));
    let d = cell_draw(clogged(c), k % width, k / width, font);
    assert forall|j: int| 0 <= j < g.len() && j != k implies !is_dirty(#[trigger] g[j].value) by {}
    lemma_one_mark_draws(g, width, font, k, g.len());
    assert(seq![d].drop_last() =~= Seq::<Draw>::empty());
    assert(ops_of(Seq::<Draw>::empty()) == Seq::<crate::lcd::DrawOp>::empty());
    assert(seq![d].last() == d);
    assert(ops_of(seq![d]) =~= draw_ops(d));
}

/// A grid of `WIDTH` columns by `HEIGHT` rows of cells, row-major, that
/// redraws only the cells that changed.
pub struct Term<const WIDTH: usize, const HEIGHT: usize> {
    cells: Vec<Char>,
}

impl<const WIDTH: usize, const HEIGHT: usize> View for Term<WIDTH, HEIGHT> {
    type V = Seq<Char>;

    closed spec fn view(&self) -> Seq<Char> {
        self.cells@
    }
}

/// Whether a grid of these dimensions fits the display's 16-bit pixel
/// coordinates.
pub open spec fn grid_fits(width: int, height: int) -> bool {
    width * CHAR_WIDTH <= 0x10000 && height * CHAR_HEIGHT <= 0x10000
}

impl<const WIDTH: usize, const HEIGHT: usize> Term<WIDTH, HEIGHT> {
    /// The grid fits the display's coordinates, holds one cell per
    /// position, and every cell holds a character the font can draw.
    pub closed spec fn wf(&self) -> bool {
        &&& grid_fits(WIDTH as int, HEIGHT as int)
        &&& self.cells@.len() == WIDTH * HEIGHT
        &&& forall|k: int|
            0 <= k < self.cells@.len() ==> is_printable(code_of(#[trigger] self.cells@[k].value))
    }

    /// A well-formed grid holds one cell per position, row-major: the cell
    /// at column `c`, row `r` is `self@[r * WIDTH + c]`.
    pub proof fn lemma_len(&self)
        requires
            self.wf(),
        ensures
            self@.len() == WIDTH * HEIGHT,
    {
    }

    /// A grid of blank cells, each still to be drawn.
    pub fn new() -> (t: Self)
        requires
            grid_fits(WIDTH as int, HEIGHT as int),
        ensures
            t.wf(),
            t@ == Seq::new((WIDTH * HEIGHT) as nat, |k: int| blank_char()),
    {
        assert(WIDTH * HEIGHT <= 0x2000 * 0x1000) by (nonlinear_arith)
            requires
                grid_fits(WIDTH as int, HEIGHT as int),
        ;
        let n = WIDTH * HEIGHT;
        let mut cells: Vec<Char> = Vec::with_capacity(n);
        let mut i: usize = 0;
        while i < n
            invariant
                i <= n,
                n == WIDTH * HEIGHT,
                cells@ == Seq::new(i as nat, |k: int| blank_char()),
            decreases n - i,
        {
            cells.push(Char::default());
            i = i + 1;
            assert(cells@ =~= Seq::new(i as nat, |k: int| blank_char()));
        }
        Term { cells }
    }

    /// Puts `ch` at column `coords.0`, row `coords.1`, marked to be drawn.
    /// A position outside the grid gives `IndexError::Coordinates`, a
    /// character without a glyph `IndexError::Character`; either way the
    /// grid is left as it was.
    pub fn set_char(&mut self, coords: (usize, usize), ch: Char) -> (r: Result<(), IndexError>)
        requires
            old(self).wf(),
        ensures
            final(self).wf(),
            final(self)@.len() == WIDTH * HEIGHT,
            coords.0 >= WIDTH || coords.1 >= HEIGHT ==> r == Err::<(), IndexError>(
                IndexError::Coordinates,
            ),
            coords.0 < WIDTH && coords.1 < HEIGHT && !is_printable(code_of(ch.value)) ==> r
                == Err::<(), IndexError>(IndexError::Character),
            r is Ok <==> coords.0 < WIDTH && coords.1 < HEIGHT && is_printable(code_of(ch.value)),
            r is Ok ==> final(self)@ == old(self)@.update(
                coords.1 * WIDTH + coords.0,
                clogged(ch),
            ),
            r is Err ==> final(self)@ == old(self)@,
    {
        let (col, row) = coords;
        if col >= WIDTH || row >= HEIGHT {
            return Err(IndexError::Coordinates);
        }
        let code = ch.value();
        if code < FIRST_CHAR || code > LAST_CHAR {
            return Err(IndexError::Character);
        }
        let mut ch = ch;
        ch.mark_clogged();
        let total = self.cells.len();
        assert(row * WIDTH + col < total) by (nonlinear_arith)
            requires
                row < HEIGHT,
                col < WIDTH,
                total == WIDTH * HEIGHT,
        ;
        let k = row * WIDTH + col;
        self.cells.set(k, ch);
        Ok(())
    }

    /// Puts the characters of `s` into row `row` from its first column,
    /// each marked to be drawn and keeping its cell's colors; characters
    /// beyond the last column are dropped. A row outside the grid gives
    /// `IndexError::Coordinates`, a character without a glyph among those
    /// that fit `IndexError::Character`; either way the grid is left as it
    /// was.
    pub fn set_row_chars(&mut self, row: usize, s: &[u8]) -> (r: Result<(), IndexError>)
        requires
            old(self).wf(),
        ensures
            final(self).wf(),
            final(self)@.len() == WIDTH * HEIGHT,
            row >= HEIGHT ==> r == Err::<(), IndexError>(IndexError::Coordinates),
            row < HEIGHT && (exists|k: int|
                0 <= k < s@.len() && k < WIDTH && !is_printable(code_of(#[trigger] s@[k]))) ==> r
                == Err::<(), IndexError>(IndexError::Character),
            r is Ok <==> row < HEIGHT && (forall|k: int|
                0 <= k < s@.len() && k < WIDTH ==> is_printable(code_of(#[trigger] s@[k]))),
            r is Ok ==> final(self)@ == Seq::new(
                old(self)@.len(),
                |i: int|
                    if row * WIDTH <= i < row * WIDTH + s@.len() && i < (row + 1) * WIDTH {
                        Char { value: with_mark(s@[i - row * WIDTH]), ..old(self)@[i] }
                    } else {
                        old(self)@[i]
                    },
            ),
            r is Err ==> final(self)@ == old(self)@,
    {
        if row >= HEIGHT {
            return Err(IndexError::Coordinates);
        }
        let count = if s.len() < WIDTH {
            s.len()
        } else {
            WIDTH
        };
        let mut j: usize = 0;
        while j < count
            invariant
                j <= count,
                count <= s@.len(),
                count <= WIDTH,
                count == s@.len() || count == WIDTH,
                row < HEIGHT,
                self.wf(),
                self.cells@ == old(self).cells@,
                forall|k: int| 0 <= k < j ==> is_printable(code_of(#[trigger] s@[k])),
            decreases count - j,
        {
            let c = s[j];
            assert(c & 0x7fu8 == c % 128) by (bit_vector);
            let code = c & 0x7fu8;
            if code < FIRST_CHAR || code > LAST_CHAR {
                return Err(IndexError::Character);
            }
            j = j + 1;
        }
        let total = self.cells.len();
        assert(row * WIDTH + WIDTH <= total && (row + 1) * WIDTH == row * WIDTH + WIDTH)
            by (nonlinear_arith)
            requires
                row < HEIGHT,
                total == WIDTH * HEIGHT,
        ;
        let base = row * WIDTH;
        let ghost before = self.cells@;
        let mut j: usize = 0;
        while j < count
            invariant
                j <= count,
                count <= s@.len(),
                count <= WIDTH,
                count == s@.len() || count == WIDTH,
                base == row * WIDTH,
                base + WIDTH <= total,
                total == WIDTH * HEIGHT,
                before.len() == WIDTH * HEIGHT,
                before == old(self).cells@,
                old(self).wf(),
                grid_fits(WIDTH as int, HEIGHT as int),
                self.cells@.len() == before.len(),
                forall|k: int| 0 <= k < count ==> is_printable(code_of(#[trigger] s@[k])),
                forall|i: int|
                    0 <= i < before.len() ==> #[trigger] self.cells@[i] == if base <= i < base + j {
                        Char { value: with_mark(s@[i - base]), ..before[i] }
                    } else {
                        before[i]
                    },
            decreases count - j,
        {
            let mut cell = self.cells[base + j];
            cell.value = s[j];
            cell.mark_clogged();
            self.cells.set(base + j, cell);
            j = j + 1;
        }
        assert(self.cells@ =~= Seq::new(
            before.len(),
            |i: int|
                if row * WIDTH <= i < row * WIDTH + s@.len() && i < (row + 1) * WIDTH {
                    Char { value: with_mark(s@[i - row * WIDTH]), ..before[i] }
                } else {
                    before[i]
                },
        ));
        Ok(())
    }

    /// Draws `ch` at column `coords.0`, row `coords.1` straight to the
    /// display, without keeping it in a grid: the cell's window, then its
    /// glyph. A character without a glyph gives `IndexError::Character`
    /// and sends nothing.
    pub fn display_immediately<L: Lcd>(lcd: &mut L, coords: (usize, usize), ch: Char, font: &Font) -> (r:
        Result<(), IndexError>)
        requires
            cell_fits(coords.0 as int, coords.1 as int),
        ensures
            r is Ok <==> is_printable(code_of(ch.value)),
            r is Ok ==> final(lcd).log() == old(lcd).log() + draw_ops(
                cell_draw(ch, coords.0 as int, coords.1 as int, font@),
            ),
            r is Err ==> final(lcd).log() == old(lcd).log(),
            r matches Err(e) ==> e == IndexError::Character,
    {
        let (x, y) = coords;
        let code = ch.value();
        if code < FIRST_CHAR || code > LAST_CHAR {
            return Err(IndexError::Character);
        }
        let x0 = (x * CHAR_WIDTH) as u16;
        let x1 = (x * CHAR_WIDTH + (CHAR_WIDTH - 1)) as u16;
        let y0 = (y * CHAR_HEIGHT) as u16;
        let y1 = (y * CHAR_HEIGHT + (CHAR_HEIGHT - 1)) as u16;
        lcd.prepare_window((x0, x1), (y0, y1));
        let _ = ch.display(lcd, font);
        let ghost d = cell_draw(ch, coords.0 as int, coords.1 as int, font@);
        assert(final(lcd).log() =~= old(lcd).log() + draw_ops(d)) by {
            assert(d.x == (x0, x1));
            assert(d.y == (y0, y1));
        }
        Ok(())
    }

    /// Draws every cell marked since the last redraw, in row-major order,
    /// each as its window and then its glyph, and clears the marks. Cells
    /// without a mark send nothing.
    pub fn display<L: Lcd>(&mut self, lcd: &mut L, font: &Font)
        requires
            old(self).wf(),
        ensures
            final(self).wf(),
            final(self)@.len() == WIDTH * HEIGHT,
            final(self)@ == flush_all(old(self)@),
            final(lcd).log() == old(lcd).log() + redraw_ops(old(self)@, WIDTH as int, font@),
    {
        let total = self.cells.len();
        let ghost before = self.cells@;
        let ghost log0 = lcd.log();
        let mut i: usize = 0;
        while i < total
            invariant
                i <= total,
                total == WIDTH * HEIGHT,
                before == old(self).cells@,
                old(self).wf(),
                log0 == old(lcd).log(),
                self.cells@.len() == total,
                forall|k: int|
                    0 <= k < total ==> #[trigger] self.cells@[k] == if k < i {
                        flushed(before[k])
                    } else {
                        before[k]
                    },
                lcd.log() == log0 + ops_of(dirty_draws(before, WIDTH as int, font@, i as nat)),
            decreases total - i,
        {
            let row = i / WIDTH;
            let col = i % WIDTH;
            assert(row < HEIGHT && col < WIDTH && cell_fits(col as int, row as int)) by (nonlinear_arith)
                requires
                    i < total,
                    total == WIDTH * HEIGHT,
                    row == i / WIDTH,
                    col == i % WIDTH,
                    grid_fits(WIDTH as int, HEIGHT as int),
            ;
            let cell = self.cells[i];
            if !cell.is_flushed() {
                let ghost prev = dirty_draws(before, WIDTH as int, font@, i as nat);
                let _ = Term::<WIDTH, HEIGHT>::display_immediately(lcd, (col, row), cell, font);
                let mut c = cell;
                c.mark_flushed();
                self.cells.set(i, c);
                proof {
                    let d = cell_draw(cell, col as int, row as int, font@);
                    lemma_ops_of_push(prev, d);
                    assert(dirty_draws(before, WIDTH as int, font@, (i + 1) as nat) == prev.push(d));
                    assert(lcd.log() =~= log0 + ops_of(prev.push(d)));
                }
            }
            i = i + 1;
        }
        assert(self.cells@ =~= flush_all(before));
    }
}

} // verus!
