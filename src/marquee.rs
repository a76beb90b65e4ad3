//! A single text row that scrolls through a looping string at pixel
//! resolution.
//!
//! The viewport is `width` character cells wide. With a scroll offset of
//! `shift` pixels, the text has scrolled by `char_shift = floor(shift / 8)
//! mod len` whole characters, and the viewport's first glyph is that of
//! character `start_char = (-char_shift) mod len`. Of that glyph,
//! `leading_cut = (-shift) mod 8` columns lie left of the viewport. All of
//! these use true (never negative) remainders, so that any offset, however
//! far it has run in either direction, draws the same frame as the offsets
//! that differ from it by whole turns of the text. The viewport is drawn as
//! that cut first glyph, then `width - 1` whole glyphs, then, where the cut
//! is not zero, the first `leading_cut` columns of one more glyph to fill
//! the right edge.

use vstd::arithmetic::div_mod::{
    lemma_fundamental_div_mod, lemma_fundamental_div_mod_converse,
    lemma_mod_multiples_vanish,
};
use vstd::prelude::*;
use vstd::slice::slice_subrange;

use crate::error::IndexError;
use crate::font::{
    glyph_pixels, glyph_rows, is_printable, Font, CHAR_HEIGHT, CHAR_WIDTH, FIRST_CHAR, LAST_CHAR,
};
use crate::lcd::{lemma_ops_of_push, ops_of, Draw, Lcd, Rgb16};
use crate::term::Char;

verus! {

/// What a marquee holds: where its viewport sits on the character grid,
/// how far it has scrolled, and its colors.
pub struct MarqueeView {
    /// The grid row of the viewport.
    pub row_index: nat,
    /// The grid column of the viewport's leftmost cell.
    pub start: nat,
    /// The viewport's width in character cells.
    pub width: nat,
    /// The scroll offset in pixels.
    pub shift: int,
    pub foreground: Rgb16,
    pub background: Rgb16,
}

/// Whether a viewport at this place fits the display's 16-bit pixel
/// coordinates.
pub open spec fn marquee_fits(row_index: int, start: int, width: int) -> bool {
    (row_index + 1) * CHAR_HEIGHT <= 0x10000 && (start + width) * CHAR_WIDTH <= 0x10000
}

/// How many whole characters a looping text of `n` characters has scrolled
/// by: the offset divided by the glyph width, rounded down, modulo `n`.
pub open spec fn char_shift_of(shift: int, n: nat) -> int {
    (shift / CHAR_WIDTH as int) % n as int
}

/// The character whose glyph comes first in the viewport.
pub open spec fn start_char_of(shift: int, n: nat) -> int {
    (-(shift / CHAR_WIDTH as int)) % n as int
}

/// The first character undoes the whole characters scrolled by.
pub proof fn lemma_start_char_undoes_char_shift(shift: int, n: nat)
    requires
        n > 0,
    ensures
        start_char_of(shift, n) == (-char_shift_of(shift, n)) % n as int,
{
    let q = shift / CHAR_WIDTH as int;
    lemma_fundamental_div_mod(q, n as int);
    assert(-q == (n as int) * (-(q / n as int)) + (-(q % n as int))) by (nonlinear_arith)
        requires
            q == (n as int) * (q / n as int) + q % n as int,
    ;
    lemma_mod_multiples_vanish(-(q / n as int), -(q % n as int), n as int);
}

/// How many columns of the first glyph lie left of the viewport.
pub open spec fn leading_cut_of(shift: int) -> int {
    (-shift) % CHAR_WIDTH as int
}

/// How many rectangles a frame draws: one per cell, and one more for the
/// partial glyph at the right edge where the first glyph is cut.
pub open spec fn draw_count(width: nat, shift: int) -> nat {
    if width == 0 {
        0
    } else if leading_cut_of(shift) == 0 {
        width
    } else {
        width + 1
    }
}

/// The `i`-th rectangle of a frame: a run of columns of one glyph of the
/// looping text, placed right after the previous one.
pub open spec fn marquee_draw(m: MarqueeView, text: Seq<u8>, font: Seq<u8>, i: int) -> Draw {
    let cut = leading_cut_of(m.shift);
    let lo = if i == 0 {
        cut
    } else {
        0
    };
    let hi = if i == m.width {
        cut
    } else {
        CHAR_WIDTH as int
    };
    let left = m.start * CHAR_WIDTH + if i == 0 {
        0
    } else {
        CHAR_WIDTH * i - cut
    };
    let top = m.row_index * CHAR_HEIGHT;
    let c = text[(start_char_of(m.shift, text.len()) + i) % text.len() as int];
    Draw {
        x: (left as u16, (left + (hi - lo) - 1) as u16),
        y: (top as u16, (top + CHAR_HEIGHT - 1) as u16),
        pixels: glyph_pixels(glyph_rows(font, c), m.foreground, m.background, lo, hi),
    }
}

/// Every rectangle of a frame, left to right.
pub open spec fn marquee_draws(m: MarqueeView, text: Seq<u8>, font: Seq<u8>) -> Seq<Draw> {
    Seq::new(draw_count(m.width, m.shift), |i: int| marquee_draw(m, text, font, i))
}

/// Whether every character of the text has a glyph.
pub open spec fn all_printable(text: Seq<u8>) -> bool {
    forall|k: int| 0 <= k < text.len() ==> is_printable(#[trigger] text[k])
}

/// The remainder of a negative number, from that of its magnitude.
proof fn lemma_mod_of_negation(a: int, p: int)
    requires
        0 <= a,
        0 < p,
    ensures
        (-a) % p == if a % p == 0 {
            0
        } else {
            p - a % p
        },
{
    lemma_fundamental_div_mod(a, p);
    let q = a / p;
    let r = a % p;
    if r == 0 {
        assert(-a == (-q) * p + 0) by (nonlinear_arith)
            requires
                a == p * q + r,
                r == 0,
        ;
        lemma_fundamental_div_mod_converse(-a, p, -q, 0);
    } else {
        assert(-a == (-q - 1) * p + (p - r)) by (nonlinear_arith)
            requires
                a == p * q + r,
        ;
        lemma_fundamental_div_mod_converse(-a, p, -q - 1, p - r);
    }
}

/// The scroll offsets `shift` and `shift + k * 8 * n` start the viewport
/// on the same character, with the same cut, in a looping text of `n`
/// characters.
proof fn lemma_position_period(shift: int, k: int, n: nat)
    requires
        n > 0,
    ensures
        start_char_of(shift + k * (CHAR_WIDTH * n) as int, n) == start_char_of(shift, n),
        leading_cut_of(shift + k * (CHAR_WIDTH * n) as int) == leading_cut_of(shift),
{
    let s2 = shift + k * (CHAR_WIDTH * n) as int;
    let q = shift / 8;
    lemma_fundamental_div_mod(shift, 8);
    assert(s2 == (q + n * k) * 8 + shift % 8) by (nonlinear_arith)
        requires
            shift == 8 * q + shift % 8,
            s2 == shift + k * (8 * n),
    ;
    lemma_fundamental_div_mod_converse(s2, 8, q + n * k, shift % 8);
    assert(-(q + n * k) == (n as int) * (-k) + (-q)) by (nonlinear_arith);
    lemma_mod_multiples_vanish(-k, -q, n as int);
    assert(-s2 == 8 * (-(n * k)) + (-shift)) by (nonlinear_arith)
        requires
            s2 == shift + k * (8 * n),
    ;
    lemma_mod_multiples_vanish(-(n * k), -shift, 8);
}

/// Scrolling a marquee by a whole turn of its looping text, in either
/// direction, draws the same frame: every rectangle, window and pixel
/// alike.
pub proof fn lemma_marquee_period(m: MarqueeView, k: int, text: Seq<u8>, font: Seq<u8>)
    requires
        text.len() > 0,
    ensures
        marquee_draws(MarqueeView { shift: m.shift + k * (CHAR_WIDTH * text.len()) as int, ..m }, text, font)
            == marquee_draws(m, text, font),
{
    let n = text.len();
    let m2 = MarqueeView { shift: m.shift + k * (CHAR_WIDTH * n) as int, ..m };
    lemma_position_period(m.shift, k, n);
    assert(marquee_draws(m2, text, font) =~= marquee_draws(m, text, font));
}

/// `x` modulo `m`, never negative.
fn mod_floor(x: i128, m: u128) -> (r: u128)
    requires
        0 < m <= 0x1_0000_0000_0000_0000,
        x > i128::MIN,
    ensures
        r as int == x as int % m as int,
        r < m,
{
    if x >= 0 {
        (x as u128) % m
    } else {
        let r = ((-x) as u128) % m;
        proof {
            lemma_mod_of_negation(-x as int, m as int);
        }
        if r == 0 {
            0
        } else {
            m - r
        }
    }
}

/// `x` divided by the glyph width, rounded down.
fn div_floor_8(x: i128) -> (q: i128)
    requires
        x > i128::MIN,
    ensures
        q as int == x as int / 8,
{
    if x >= 0 {
        let q = (x as u128) / 8;
        proof {
            lemma_fundamental_div_mod(x as int, 8);
        }
        q as i128
    } else {
        let a = (-x) as u128;
        let c = (a + 7) / 8;
        proof {
            lemma_fundamental_div_mod(a as int + 7, 8);
            let s = (a as int + 7) % 8;
            assert(x as int == (-(c as int)) * 8 + (7 - s)) by (nonlinear_arith)
                requires
                    a as int + 7 == 8 * (c as int) + s,
                    x as int == -(a as int),
            ;
            lemma_fundamental_div_mod_converse(x as int, 8, -(c as int), 7 - s);
        }
        -(c as i128)
    }
}

/// The character and cut at which a frame starts, from the scroll offset
/// and the length of the looping text.
fn scroll_position(shift: isize, n: usize) -> (pos: (usize, usize))
    requires
        n > 0,
    ensures
        pos.0 == start_char_of(shift as int, n as nat),
        pos.1 == leading_cut_of(shift as int),
        pos.0 < n,
        pos.1 < CHAR_WIDTH,
{
    let t: i128 = shift as i128;
    let q = div_floor_8(t);
    let start = mod_floor(-q, n as u128);
    let cut = mod_floor(-t, 8);
    (start as usize, cut as usize)
}

/// The scroll offset reduced to within one glyph: `shift` modulo 8, in
/// `0..8`.
pub open spec fn pixel_offset_of(shift: int) -> int {
    shift % CHAR_WIDTH as int
}

/// A scrolling text row on the character grid.
pub struct ScrollableRow {
    row_index: usize,
    /// The grid column of the leftmost cell.
    start: usize,
    /// The number of cells.
    width: usize,
    /// The scroll offset in pixels; lowering it moves the text left.
    shift: isize,
    foreground: Rgb16,
    background: Rgb16,
}

impl View for ScrollableRow {
    type V = MarqueeView;

    closed spec fn view(&self) -> MarqueeView {
        MarqueeView {
            row_index: self.row_index as nat,
            start: self.start as nat,
            width: self.width as nat,
            shift: self.shift as int,
            foreground: self.foreground,
            background: self.background,
        }
    }
}

impl ScrollableRow {
    #[verifier::type_invariant]
    spec fn inv(&self) -> bool {
        marquee_fits(self.row_index as int, self.start as int, self.width as int)
    }

    /// A marquee over `width` cells of grid row `row_index` from column
    /// `start`, not yet scrolled.
    pub fn new(
        row_index: usize,
        start: usize,
        width: usize,
        background: Rgb16,
        foreground: Rgb16,
    ) -> (r: ScrollableRow)
        requires
            marquee_fits(row_index as int, start as int, width as int),
        ensures
            r@ == (MarqueeView {
                row_index: row_index as nat,
                start: start as nat,
                width: width as nat,
                shift: 0,
                foreground,
                background,
            }),
    {
        ScrollableRow { row_index, start, width, shift: 0, background, foreground }
    }

    /// Scrolls by `by` pixels; a negative amount moves the text left.
    pub fn shift(&mut self, by: isize)
        requires
            isize::MIN <= old(self)@.shift + by <= isize::MAX,
        ensures
            final(self)@ == (MarqueeView { shift: old(self)@.shift + by, ..old(self)@ }),
    {
        proof {
            use_type_invariant(&*self);
        }
        self.shift = self.shift + by;
    }

    /// The scroll offset modulo the glyph width, in `0..8`.
    pub fn pixel_offset(&self) -> (r: usize)
        ensures
            r == pixel_offset_of(self@.shift),
    {
        mod_floor(self.shift as i128, 8) as usize
    }

    /// How many columns of the first glyph lie left of the viewport.
    pub fn leading_cut(&self) -> (r: usize)
        ensures
            r == leading_cut_of(self@.shift),
    {
        scroll_position(self.shift, 1).1
    }

    /// The index of the character at the viewport's left edge, in a
    /// looping text of `text_len` characters.
    pub fn start_char(&self, text_len: usize) -> (r: usize)
        requires
            text_len > 0,
        ensures
            r == start_char_of(self@.shift, text_len as nat),
    {
        scroll_position(self.shift, text_len).0
    }

    fn new_char(&self, val: u8) -> (c: Char)
        ensures
            c == (Char { value: val, foreground: self.foreground, background: self.background }),
    {
        Char { value: val, foreground: self.foreground, background: self.background }
    }

    /// Draws one frame of the viewport over the looping `text`: the cut
    /// first glyph, the whole glyphs after it, and the start of one more
    /// glyph where the first was cut, each as its window and then its
    /// pixels. A viewport of no cells draws nothing. A text with a
    /// character the font has no glyph for gives `IndexError::Character`
    /// and draws nothing.
    pub fn display<L: Lcd>(&self, text: &[u8], lcd: &mut L, font: &Font) -> (r: Result<(), IndexError>)
        requires
            self@.width > 0 ==> text@.len() > 0,
        ensures
            r is Err <==> self@.width > 0 && !all_printable(text@),
            r is Ok ==> final(lcd).log() == old(lcd).log() + ops_of(
                marquee_draws(self@, text@, font@),
            ),
            r is Err ==> final(lcd).log() == old(lcd).log(),
            r matches Err(e) ==> e == IndexError::Character,
    {
        proof {
            use_type_invariant(self);
        }
        if self.width == 0 {
            assert(marquee_draws(self@, text@, font@) =~= Seq::<Draw>::empty());
            assert(final(lcd).log() =~= old(lcd).log() + ops_of(Seq::<Draw>::empty()));
            return Ok(());
        }
        let n = text.len();
        let mut k: usize = 0;
        while k < n
            invariant
                k <= n,
                n == text@.len(),
                self@.width > 0,
                forall|j: int| 0 <= j < k ==> is_printable(#[trigger] text@[j]),
            decreases n - k,
        {
            if text[k] < FIRST_CHAR || text[k] > LAST_CHAR {
                return Err(IndexError::Character);
            }
            k = k + 1;
        }
        let (first, cut) = scroll_position(self.shift, n);
        let width = self.width;
        let count = if cut == 0 {
            width
        } else {
            width + 1
        };
        let x0 = self.start * CHAR_WIDTH;
        let y0 = (self.row_index * CHAR_HEIGHT) as u16;
        let y1 = (self.row_index * CHAR_HEIGHT + (CHAR_HEIGHT - 1)) as u16;
        let ghost m = self@;
        let ghost draws = marquee_draws(m, text@, font@);
        let ghost log0 = lcd.log();
        proof {
            lemma_fundamental_div_mod_converse(first as int, n as int, 0, first as int);
        }
        let mut i: usize = 0;
        let mut idx: usize = first;
        while i < count
            invariant
                m == self@,
                marquee_fits(m.row_index as int, m.start as int, m.width as int),
                width == m.width,
                width > 0,
                n == text@.len(),
                all_printable(text@),
                first == start_char_of(m.shift, n as nat),
                first < n,
                cut == leading_cut_of(m.shift),
                cut < CHAR_WIDTH,
                count == draw_count(m.width, m.shift),
                x0 == m.start * CHAR_WIDTH,
                y0 == m.row_index * CHAR_HEIGHT,
                y1 == m.row_index * CHAR_HEIGHT + CHAR_HEIGHT - 1,
                draws == marquee_draws(m, text@, font@),
                i <= count,
                idx < n,
                idx == (first + i) % n as int,
                log0 == old(lcd).log(),
                lcd.log() == log0 + ops_of(draws.take(i as int)),
            decreases count - i,
        {
            let lo = if i == 0 {
                cut
            } else {
                0
            };
            let hi = if i == width {
                cut
            } else {
                CHAR_WIDTH
            };
            assert(lo < hi);
            assert(i <= width);
            assert(x0 + CHAR_WIDTH * width <= 0x10000) by (nonlinear_arith)
                requires
                    x0 == m.start * CHAR_WIDTH,
                    width == m.width,
                    (m.start + m.width) * CHAR_WIDTH <= 0x10000,
            ;
            let left = if i == 0 {
                x0
            } else {
                x0 + CHAR_WIDTH * i - cut
            };
            assert(left + (hi - lo) <= x0 + CHAR_WIDTH * width) by (nonlinear_arith)
                requires
                    i <= width,
                    width > 0,
                    lo == (if i == 0 { cut } else { 0 }),
                    hi == (if i == width { cut } else { 8 }),
                    left == (if i == 0 { x0 as int } else { x0 + 8 * i - cut }),
                    cut < 8,
                    i == width ==> cut > 0,
            ;
            let ch = self.new_char(text[idx]);
            let buf = font.rasterize(ch.value, ch.foreground, ch.background, lo, hi);
            lcd.prepare_window((left as u16, (left + (hi - lo) - 1) as u16), (y0, y1));
            lcd.write_rgb(slice_subrange(buf.as_slice(), 0, CHAR_HEIGHT * (hi - lo)));
            proof {
                let d = marquee_draw(m, text@, font@, i as int);
                assert(draws[i as int] == d);
                assert(d.x == (left as u16, (left + (hi - lo) - 1) as u16));
                assert(d.y == (y0, y1));
                lemma_ops_of_push(draws.take(i as int), d);
                assert(draws.take(i as int).push(d) =~= draws.take(i as int + 1));
                assert(lcd.log() =~= log0 + ops_of(draws.take(i as int + 1)));
            }
            idx = if idx + 1 == n {
                0
            } else {
                idx + 1
            };
            proof {
                let a = first + i;
                if (a % n as int) + 1 == n {
                    lemma_fundamental_div_mod(a, n as int);
                    assert(a + 1 == (a / n as int + 1) * n as int + 0) by (nonlinear_arith)
                        requires
                            a == n as int * (a / n as int) + a % n as int,
                            a % n as int + 1 == n,
                    ;
                    lemma_fundamental_div_mod_converse(a + 1, n as int, a / n as int + 1, 0);
                } else {
                    lemma_fundamental_div_mod(a, n as int);
                    assert(0 <= a % n as int + 1 < n);
                    assert(a + 1 == (a / n as int) * n as int + (a % n as int + 1))
                        by (nonlinear_arith)
                        requires
                            a == n as int * (a / n as int) + a % n as int,
                    ;
                    lemma_fundamental_div_mod_converse(
                        a + 1,
                        n as int,
                        a / n as int,
                        a % n as int + 1,
                    );
                }
            }
            i = i + 1;
        }
        assert(draws.take(count as int) =~= draws);
        Ok(())
    }
}

} // verus!
