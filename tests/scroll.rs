use lcd_term::error::IndexError;
use lcd_term::font::Font;
use lcd_term::lcd::{Command, Recorder, Rgb16};
use lcd_term::marquee::ScrollableRow;

const FG: Rgb16 = Rgb16(0x11, 0x11);
const BG: Rgb16 = Rgb16(0x22, 0x22);

/// A font table whose every glyph row is the character's own code.
fn code_table() -> Vec<u8> {
    let mut table = Vec::new();
    for c in 0x20..=0x7eu8 {
        for _ in 0..16 {
            table.push(c);
        }
    }
    table
}

/// One drawn rectangle: its window, and the columns of the glyph it shows.
#[derive(Debug, PartialEq)]
struct Piece {
    x: (u16, u16),
    y: (u16, u16),
    pixels: Vec<Rgb16>,
}

fn pieces(rec: &Recorder) -> Vec<Piece> {
    let mut out = Vec::new();
    let mut it = rec.commands.iter();
    while let Some(c) = it.next() {
        match (c, it.next()) {
            (Command::Window(x, y), Some(Command::Pixels(p))) => {
                out.push(Piece { x: *x, y: *y, pixels: p.clone() })
            }
            other => panic!("window and pixels out of order: {:?}", other),
        }
    }
    out
}

/// The pixels of columns `lo..hi` of `c`'s glyph in the code font.
fn glyph(font: &Font, c: u8, lo: usize, hi: usize) -> Vec<Rgb16> {
    font.rasterize(c, FG, BG, lo, hi)[..16 * (hi - lo)].to_vec()
}

fn frame(shift: isize, width: usize, text: &[u8]) -> (ScrollableRow, Vec<Piece>) {
    let table = code_table();
    let font = Font::new(&table).unwrap();
    let mut row = ScrollableRow::new(1, 2, width, BG, FG);
    row.shift(shift);
    let mut rec = Recorder::new();
    row.display(text, &mut rec, &font).unwrap();
    (row, pieces(&rec))
}

fn widths(ps: &[Piece]) -> Vec<u16> {
    ps.iter().map(|p| p.x.1 - p.x.0 + 1).collect()
}

#[test]
fn marquee_unshifted_draws_whole_glyphs() {
    let table = code_table();
    let font = Font::new(&table).unwrap();
    let (row, ps) = frame(0, 5, b"ABCDE");
    assert_eq!(row.start_char(5), 0);
    assert_eq!(row.pixel_offset(), 0);
    assert_eq!(row.leading_cut(), 0);
    assert_eq!(widths(&ps), vec![8, 8, 8, 8, 8]);
    for (i, p) in ps.iter().enumerate() {
        let left = 16 + 8 * i as u16;
        assert_eq!(p.x, (left, left + 7));
        assert_eq!(p.y, (16, 31));
        assert_eq!(p.pixels, glyph(&font, b"ABCDE"[i], 0, 8));
    }
}

#[test]
fn marquee_shift_of_one_glyph_draws_whole_glyphs() {
    let table = code_table();
    let font = Font::new(&table).unwrap();
    let (row, ps) = frame(8, 5, b"ABCDE");
    assert_eq!(row.pixel_offset(), 0);
    assert_eq!(row.leading_cut(), 0);
    // one whole character scrolled: the first glyph is (-1) mod 5 = 4, 'E'
    assert_eq!(row.start_char(5), 4);
    assert_eq!(widths(&ps), vec![8, 8, 8, 8, 8]);
    let shown: Vec<Vec<Rgb16>> = ps.iter().map(|p| p.pixels.clone()).collect();
    let want: Vec<Vec<Rgb16>> = b"EABCD".iter().map(|&c| glyph(&font, c, 0, 8)).collect();
    assert_eq!(shown, want);
}

#[test]
fn marquee_shift_of_half_a_glyph_cuts_both_ends() {
    let table = code_table();
    let font = Font::new(&table).unwrap();
    let (row, ps) = frame(4, 5, b"ABCDE");
    assert_eq!(row.pixel_offset(), 4);
    assert_eq!(row.leading_cut(), 4);
    assert_eq!(row.start_char(5), 0);
    assert_eq!(widths(&ps), vec![4, 8, 8, 8, 8, 4]);
    assert_eq!(widths(&ps).iter().sum::<u16>(), 40);
    assert_eq!(ps[0].x, (16, 19));
    assert_eq!(ps[1].x, (20, 27));
    assert_eq!(ps[5].x, (52, 55));
    assert_eq!(ps[0].pixels, glyph(&font, b'A', 4, 8));
    assert_eq!(ps[1].pixels, glyph(&font, b'B', 0, 8));
    assert_eq!(ps[4].pixels, glyph(&font, b'E', 0, 8));
    assert_eq!(ps[5].pixels, glyph(&font, b'A', 0, 4));
}

#[test]
fn marquee_negative_shift_scrolls_left() {
    let table = code_table();
    let font = Font::new(&table).unwrap();
    let (row, ps) = frame(-3, 5, b"ABCDE");
    assert_eq!(row.pixel_offset(), 5);
    assert_eq!(row.leading_cut(), 3);
    // -3 divided by 8 rounds down to -1: the first glyph is 1 mod 5, 'B'
    assert_eq!(row.start_char(5), 1);
    assert_eq!(widths(&ps), vec![5, 8, 8, 8, 8, 3]);
    assert_eq!(ps[0].pixels, glyph(&font, b'B', 3, 8));
    assert_eq!(ps[1].pixels, glyph(&font, b'C', 0, 8));
    assert_eq!(ps[4].pixels, glyph(&font, b'A', 0, 8));
    assert_eq!(ps[5].pixels, glyph(&font, b'B', 0, 3));
}

#[test]
fn marquee_negative_shift_matches_congruent_positive_shift() {
    let (_, negative) = frame(-3, 5, b"ABCDE");
    let (row, positive) = frame(37, 5, b"ABCDE");
    assert_eq!(row.pixel_offset(), 5);
    assert_eq!(row.leading_cut(), 3);
    assert_eq!(row.start_char(5), 1);
    assert_eq!(negative, positive);
    let (_, far) = frame(-3 - 40 * 1000, 5, b"ABCDE");
    assert_eq!(negative, far);
}

#[test]
fn marquee_frames_always_fill_the_viewport() {
    for shift in -50..50isize {
        for width in 1..4usize {
            let (_, ps) = frame(shift, width, b"Hello");
            let ws = widths(&ps);
            assert!(ws.iter().all(|&w| w >= 1 && w <= 8));
            assert_eq!(ws.iter().sum::<u16>() as usize, 8 * width);
            let mut next = 16;
            for p in &ps {
                assert_eq!(p.x.0, next);
                assert_eq!(p.pixels.len(), 16 * (p.x.1 - p.x.0 + 1) as usize);
                next = p.x.1 + 1;
            }
        }
    }
}

#[test]
fn marquee_scrolling_step_by_step() {
    let table = code_table();
    let font = Font::new(&table).unwrap();
    let mut row = ScrollableRow::new(0, 0, 2, BG, FG);
    row.shift(-2);
    row.shift(-2);
    row.shift(-2);
    let mut rec = Recorder::new();
    row.display(b"xyz", &mut rec, &font).unwrap();
    let ps = pieces(&rec);
    // shift -6: -6 / 8 rounds down to -1, so the first glyph is 'y', cut by 6
    assert_eq!(row.start_char(3), 1);
    assert_eq!(widths(&ps), vec![2, 8, 6]);
    assert_eq!(ps[0].pixels, glyph(&font, b'y', 6, 8));
    assert_eq!(ps[1].pixels, glyph(&font, b'z', 0, 8));
    assert_eq!(ps[2].pixels, glyph(&font, b'x', 0, 6));
}

#[test]
fn marquee_wraps_around_short_text() {
    let table = code_table();
    let font = Font::new(&table).unwrap();
    let (_, ps) = frame(0, 4, b"ab");
    let shown: Vec<Vec<Rgb16>> = ps.iter().map(|p| p.pixels.clone()).collect();
    let want: Vec<Vec<Rgb16>> = b"abab".iter().map(|&c| glyph(&font, c, 0, 8)).collect();
    assert_eq!(shown, want);
}

#[test]
fn marquee_of_no_cells_draws_nothing() {
    let table = code_table();
    let font = Font::new(&table).unwrap();
    let row = ScrollableRow::new(0, 0, 0, BG, FG);
    let mut rec = Recorder::new();
    assert_eq!(row.display(b"", &mut rec, &font), Ok(()));
    assert_eq!(row.display(b"\x01", &mut rec, &font), Ok(()));
    assert!(rec.commands.is_empty());
}

#[test]
fn marquee_text_without_glyph_is_refused() {
    let table = code_table();
    let font = Font::new(&table).unwrap();
    let row = ScrollableRow::new(0, 0, 3, BG, FG);
    let mut rec = Recorder::new();
    assert_eq!(row.display(b"ok\n", &mut rec, &font), Err(IndexError::Character));
    assert!(rec.commands.is_empty());
}

#[test]
fn marquee_start_char_for_positive_offsets() {
    let row_at = |shift: isize| {
        let mut row = ScrollableRow::new(0, 0, 5, BG, FG);
        row.shift(shift);
        (row.start_char(5), row.leading_cut())
    };
    assert_eq!(row_at(7), (0, 1));
    assert_eq!(row_at(9), (4, 7));
    assert_eq!(row_at(40), (0, 0));
    assert_eq!(row_at(-40), (0, 0));
    assert_eq!(row_at(-8), (1, 0));
}
