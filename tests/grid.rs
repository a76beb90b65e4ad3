use lcd_term::error::IndexError;
use lcd_term::font::Font;
use lcd_term::lcd::{Command, Lcd, Recorder, Rgb16};
use lcd_term::term::{Char, Term};

/// A font table whose every glyph row is the character's own code.
fn code_table() -> Vec<u8> {
    let mut table = Vec::new();
    for c in 0x20..=0x7eu8 {
        for _ in 0..16 {
            table.push(c);
        }
    }
    table
}

fn ch(value: u8) -> Char {
    Char { value, foreground: Rgb16::white(), background: Rgb16::black() }
}

fn windows(rec: &Recorder) -> Vec<((u16, u16), (u16, u16))> {
    rec.commands
        .iter()
        .filter_map(|c| match c {
            Command::Window(x, y) => Some((*x, *y)),
            _ => None,
        })
        .collect()
}

#[test]
fn font_table_must_be_complete() {
    assert!(Font::new(&[0; 1519]).is_none());
    assert!(Font::new(&[0; 1521]).is_none());
    assert!(Font::new(&[0; 1520]).is_some());
}

#[test]
fn font_rows_and_range() {
    let table = code_table();
    let font = Font::new(&table).unwrap();
    assert_eq!(font.rows_for(b'A').unwrap(), &[b'A'; 16]);
    assert_eq!(font.rows_for(b' ').unwrap(), &[b' '; 16]);
    assert_eq!(font.rows_for(b'~').unwrap(), &[b'~'; 16]);
    assert_eq!(font.rows_for(0x1f), Err(IndexError::Character));
    assert_eq!(font.rows_for(0x7f), Err(IndexError::Character));
}

#[test]
fn rasterize_full_and_partial_columns() {
    let table = code_table();
    let font = Font::new(&table).unwrap();
    let fg = Rgb16(1, 1);
    let bg = Rgb16(2, 2);
    // 'A' = 0b0100_0001
    let full = font.rasterize(b'A', fg, bg, 0, 8);
    let row: Vec<Rgb16> = full[..8].to_vec();
    assert_eq!(row, vec![bg, fg, bg, bg, bg, bg, bg, fg]);
    assert_eq!(&full[120..128], &row[..]);
    let part = font.rasterize(b'A', fg, bg, 1, 3);
    assert_eq!(&part[..4], &[fg, bg, fg, bg]);
    assert!(part[32..].iter().all(|p| *p == bg));
}

#[test]
fn mark_then_flush_keeps_the_character() {
    let mut c = ch(b'Q');
    c.mark_clogged();
    assert!(!c.is_flushed());
    assert_eq!(c.value(), b'Q');
    c.mark_flushed();
    assert!(c.is_flushed());
    assert_eq!(c.value(), b'Q');
    assert_eq!(c.foreground, Rgb16::white());
    assert_eq!(c.background, Rgb16::black());
}

#[test]
fn default_cell_is_a_marked_space() {
    let c = Char::default();
    assert_eq!(c.value, 0x80 | b' ');
    assert_eq!(c.value(), b' ');
    assert!(!c.is_flushed());
    assert_eq!(c.foreground, Rgb16::white());
    assert_eq!(c.background, Rgb16::black());
}

#[test]
fn cell_rasterize_and_display() {
    let table = code_table();
    let font = Font::new(&table).unwrap();
    let c = Char { value: 0x80 | b'A', foreground: Rgb16(1, 1), background: Rgb16(2, 2) };
    let buf = c.rasterize(&font).unwrap();
    assert_eq!(buf[1], Rgb16(1, 1));
    assert_eq!(buf[0], Rgb16(2, 2));
    let mut rec = Recorder::new();
    c.display(&mut rec, &font).unwrap();
    assert_eq!(rec.commands, vec![Command::Pixels(buf.to_vec())]);
    let bad = ch(0x05);
    assert_eq!(bad.rasterize(&font), Err(IndexError::Character));
    let mut rec = Recorder::new();
    assert_eq!(bad.display(&mut rec, &font), Err(IndexError::Character));
    assert!(rec.commands.is_empty());
}

#[test]
fn new_grid_draws_every_cell_once() {
    let table = code_table();
    let font = Font::new(&table).unwrap();
    let mut term = Term::<3, 2>::new();
    let mut rec = Recorder::new();
    term.display(&mut rec, &font);
    assert_eq!(
        windows(&rec),
        vec![
            ((0, 7), (0, 15)),
            ((8, 15), (0, 15)),
            ((16, 23), (0, 15)),
            ((0, 7), (16, 31)),
            ((8, 15), (16, 31)),
            ((16, 23), (16, 31)),
        ]
    );
    assert_eq!(rec.commands.len(), 12);
    let space = font.rasterize(b' ', Rgb16::white(), Rgb16::black(), 0, 8);
    assert_eq!(rec.commands[1], Command::Pixels(space.to_vec()));
}

#[test]
fn second_display_sends_nothing() {
    let table = code_table();
    let font = Font::new(&table).unwrap();
    let mut term = Term::<4, 3>::new();
    term.set_char((1, 2), ch(b'x')).unwrap();
    let mut rec = Recorder::new();
    term.display(&mut rec, &font);
    let first = rec.commands.len();
    assert_eq!(first, 24);
    term.display(&mut rec, &font);
    assert_eq!(rec.commands.len(), first);
}

#[test]
fn display_sends_only_changed_cells() {
    let table = code_table();
    let font = Font::new(&table).unwrap();
    let mut term = Term::<4, 3>::new();
    let mut rec = Recorder::new();
    term.display(&mut rec, &font);
    let mut rec = Recorder::new();
    term.set_char((2, 1), ch(b'Z')).unwrap();
    term.display(&mut rec, &font);
    let glyph = font.rasterize(b'Z', Rgb16::white(), Rgb16::black(), 0, 8);
    assert_eq!(
        rec.commands,
        vec![Command::Window((16, 23), (16, 31)), Command::Pixels(glyph.to_vec())]
    );
}

#[test]
fn set_char_marks_even_a_flushed_cell() {
    let table = code_table();
    let font = Font::new(&table).unwrap();
    let mut term = Term::<2, 1>::new();
    let mut rec = Recorder::new();
    term.display(&mut rec, &font);
    let mut c = ch(b'k');
    c.mark_flushed();
    term.set_char((0, 0), c).unwrap();
    let mut rec = Recorder::new();
    term.display(&mut rec, &font);
    assert_eq!(windows(&rec), vec![((0, 7), (0, 15))]);
}

#[test]
fn set_char_out_of_bounds_is_refused_and_changes_nothing() {
    let table = code_table();
    let font = Font::new(&table).unwrap();
    let mut term = Term::<4, 3>::new();
    let mut rec = Recorder::new();
    term.display(&mut rec, &font);
    assert_eq!(term.set_char((4, 0), ch(b'a')), Err(IndexError::Coordinates));
    assert_eq!(term.set_char((0, 3), ch(b'a')), Err(IndexError::Coordinates));
    assert_eq!(term.set_char((100, 100), ch(b'a')), Err(IndexError::Coordinates));
    let mut rec = Recorder::new();
    term.display(&mut rec, &font);
    assert!(rec.commands.is_empty());
}

#[test]
fn set_char_without_glyph_is_refused() {
    let table = code_table();
    let font = Font::new(&table).unwrap();
    let mut term = Term::<4, 3>::new();
    let mut rec = Recorder::new();
    term.display(&mut rec, &font);
    assert_eq!(term.set_char((0, 0), ch(0x7f)), Err(IndexError::Character));
    assert_eq!(term.set_char((0, 0), ch(0x0a)), Err(IndexError::Character));
    let mut rec = Recorder::new();
    term.display(&mut rec, &font);
    assert!(rec.commands.is_empty());
}

#[test]
fn set_row_chars_writes_what_fits() {
    let table = code_table();
    let font = Font::new(&table).unwrap();
    let mut term = Term::<3, 2>::new();
    let mut rec = Recorder::new();
    term.display(&mut rec, &font);
    term.set_row_chars(1, b"abcdef").unwrap();
    let mut rec = Recorder::new();
    term.display(&mut rec, &font);
    assert_eq!(windows(&rec), vec![((0, 7), (16, 31)), ((8, 15), (16, 31)), ((16, 23), (16, 31))]);
    let c = font.rasterize(b'c', Rgb16::white(), Rgb16::black(), 0, 8);
    assert_eq!(rec.commands[5], Command::Pixels(c.to_vec()));
}

#[test]
fn set_row_chars_errors() {
    let table = code_table();
    let font = Font::new(&table).unwrap();
    let mut term = Term::<3, 2>::new();
    let mut rec = Recorder::new();
    term.display(&mut rec, &font);
    assert_eq!(term.set_row_chars(2, b"a"), Err(IndexError::Coordinates));
    assert_eq!(term.set_row_chars(0, b"a\tb"), Err(IndexError::Character));
    assert_eq!(term.set_row_chars(0, b"ab\x01\x01"), Err(IndexError::Character));
    let mut rec = Recorder::new();
    term.display(&mut rec, &font);
    assert!(rec.commands.is_empty());
    // a character past the last column is dropped, so it is never checked
    assert_eq!(term.set_row_chars(0, b"abc\x01"), Ok(()));
}

#[test]
fn display_immediately_places_one_cell() {
    let table = code_table();
    let font = Font::new(&table).unwrap();
    let mut rec = Recorder::new();
    let c = Char { value: b'%', foreground: Rgb16(3, 3), background: Rgb16(4, 4) };
    Term::<1, 1>::display_immediately(&mut rec, (2, 1), c, &font).unwrap();
    let glyph = font.rasterize(b'%', Rgb16(3, 3), Rgb16(4, 4), 0, 8);
    assert_eq!(
        rec.commands,
        vec![Command::Window((16, 23), (16, 31)), Command::Pixels(glyph.to_vec())]
    );
    let mut rec = Recorder::new();
    assert_eq!(
        Term::<1, 1>::display_immediately(&mut rec, (0, 0), ch(0x80), &font),
        Err(IndexError::Character)
    );
    assert!(rec.commands.is_empty());
}

#[test]
fn recorder_keeps_operations_in_order() {
    let mut rec = Recorder::new();
    rec.prepare_window((1, 2), (3, 4));
    rec.write_rgb(&[Rgb16(5, 6)]);
    assert_eq!(
        rec.commands,
        vec![Command::Window((1, 2), (3, 4)), Command::Pixels(vec![Rgb16(5, 6)])]
    );
}
