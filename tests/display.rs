use iberos::vga_buffer::{
    clear_screen, print_centered, print_logo, Color, Writer, BUFFER_HEIGHT, BUFFER_WIDTH,
};

fn row_text(w: &Writer, row: usize) -> Vec<u8> {
    (0..BUFFER_WIDTH).map(|c| w.read_cell(row, c).0).collect()
}

#[test]
fn new_writer_is_blank_white_on_black() {
    let w = Writer::new();
    assert_eq!(w.column_position(), 0);
    assert_eq!(w.color_code(), 0x0f);
    for r in 0..BUFFER_HEIGHT {
        for c in 0..BUFFER_WIDTH {
            assert_eq!(w.read_cell(r, c), (b' ', 0x0f));
        }
    }
}

#[test]
fn write_byte_lands_on_bottom_row() {
    let mut w = Writer::new();
    w.write_byte(b'A');
    assert_eq!(w.read_cell(BUFFER_HEIGHT - 1, 0), (b'A', 0x0f));
    assert_eq!(w.column_position(), 1);
}

#[test]
fn newline_scrolls_and_resets_column() {
    let mut w = Writer::new();
    w.write_string("hi\n");
    assert_eq!(w.column_position(), 0);
    assert_eq!(w.read_cell(BUFFER_HEIGHT - 2, 0).0, b'h');
    assert_eq!(w.read_cell(BUFFER_HEIGHT - 2, 1).0, b'i');
    assert_eq!(w.read_cell(BUFFER_HEIGHT - 1, 0).0, b' ');
}

#[test]
fn unprintable_bytes_become_placeholder() {
    let mut w = Writer::new();
    w.write_string("a\u{e9}b\t");
    // 'é' is two bytes in UTF-8, each replaced.
    let row = row_text(&w, BUFFER_HEIGHT - 1);
    assert_eq!(&row[..5], &[b'a', 0xfe, 0xfe, b'b', 0xfe]);
    assert_eq!(w.column_position(), 5);
}

#[test]
fn full_row_then_one_more_scrolls_once() {
    let mut w = Writer::new();
    w.write_string("top line\n");
    let line: String = (0..BUFFER_WIDTH).map(|i| (b'a' + (i % 26) as u8) as char).collect();
    w.write_string(&line);
    assert_eq!(w.column_position(), BUFFER_WIDTH);
    w.write_byte(b'Z');
    assert_eq!(w.column_position(), 1);
    assert_eq!(row_text(&w, BUFFER_HEIGHT - 2), line.as_bytes().to_vec());
    assert_eq!(&row_text(&w, BUFFER_HEIGHT - 3)[..8], b"top line");
    let bottom = row_text(&w, BUFFER_HEIGHT - 1);
    assert_eq!(bottom[0], b'Z');
    assert!(bottom[1..].iter().all(|&b| b == b' '));
}

#[test]
fn print_centered_pads_ok_with_39_spaces() {
    let mut w = Writer::new();
    print_centered(&mut w, "OK", Color::LightGreen);
    let row = row_text(&w, BUFFER_HEIGHT - 2);
    assert!(row[..39].iter().all(|&b| b == b' '));
    assert_eq!(&row[39..41], b"OK");
    assert_eq!(w.read_cell(BUFFER_HEIGHT - 2, 39).1, 0x0a);
    assert_eq!(w.column_position(), 0);
    assert_eq!(w.color_code(), 0x0f);
}

#[test]
fn print_centered_long_text_has_no_padding() {
    let mut w = Writer::new();
    let text: String = std::iter::repeat('x').take(BUFFER_WIDTH + 5).collect();
    print_centered(&mut w, &text, Color::Yellow);
    assert_eq!(w.read_cell(BUFFER_HEIGHT - 3, 0), (b'x', 0x0e));
    assert_eq!(w.read_cell(BUFFER_HEIGHT - 2, 4), (b'x', 0x0e));
    assert_eq!(w.read_cell(BUFFER_HEIGHT - 2, 5).0, b' ');
}

#[test]
fn print_centered_starts_a_fresh_line() {
    let mut w = Writer::new();
    w.write_string("abc");
    print_centered(&mut w, "", Color::Red);
    let row = row_text(&w, BUFFER_HEIGHT - 2);
    assert!(row.iter().all(|&b| b == b' '));
}

#[test]
fn print_logo_restores_color() {
    let mut w = Writer::new();
    print_logo(&mut w);
    assert_eq!(w.color_code(), 0x0f);
    w.write_byte(b'x');
    assert_eq!(w.read_cell(BUFFER_HEIGHT - 1, 0), (b'x', 0x0f));
    let tagline = row_text(&w, BUFFER_HEIGHT - 3);
    assert_eq!(&tagline[..27], b"      A Rust Microkernel OS");
    assert_eq!(w.read_cell(BUFFER_HEIGHT - 3, 6).1, 0x0b);
}

#[test]
fn clear_screen_blanks_everything() {
    let mut w = Writer::new();
    w.write_string("hello\nworld");
    clear_screen(&mut w);
    assert_eq!(w.column_position(), 0);
    for r in 0..BUFFER_HEIGHT {
        assert!(row_text(&w, r).iter().all(|&b| b == b' '));
    }
}

#[test]
fn color_codes_match_palette() {
    assert_eq!(Color::Black.code(), 0);
    assert_eq!(Color::LightCyan.code(), 11);
    assert_eq!(Color::White.code(), 15);
}
