use minikernel::vga::{Color, ColorCode, VGAChar, VGAWriter, BUFFER_CELLS, BUFFER_HEIGHT, BUFFER_WIDTH};

fn bottom(col: usize) -> usize {
    (BUFFER_HEIGHT - 1) * BUFFER_WIDTH + col
}

fn blank() -> VGAChar {
    VGAChar { character: 0, color: ColorCode(0) }
}

fn writer(color: ColorCode) -> VGAWriter {
    VGAWriter::new(color, vec![blank(); BUFFER_CELLS])
}

#[test]
fn color_numbers() {
    assert_eq!(Color::Black.as_u8(), 0);
    assert_eq!(Color::Blue.as_u8(), 1);
    assert_eq!(Color::LightGray.as_u8(), 7);
    assert_eq!(Color::DarkGray.as_u8(), 8);
    assert_eq!(Color::Pink.as_u8(), 13);
    assert_eq!(Color::White.as_u8(), 15);
}

#[test]
fn color_code_packs_background_high_foreground_low() {
    assert_eq!(ColorCode::new(Color::White, Color::Black), ColorCode(0x0f));
    assert_eq!(ColorCode::new(Color::Yellow, Color::Blue), ColorCode(0x1e));
    assert_eq!(ColorCode::new(Color::Black, Color::White), ColorCode(0xf0));
    let c = ColorCode::new(Color::Red, Color::Green);
    assert_eq!(c.0 % 16, Color::Red.as_u8());
    assert_eq!(c.0 / 16, Color::Green.as_u8());
}

#[test]
fn new_writer_keeps_screen_contents() {
    let mut screen = vec![blank(); BUFFER_CELLS];
    screen[bottom(3)] = VGAChar { character: b'B', color: ColorCode(0x07) };
    screen[0] = VGAChar { character: b'T', color: ColorCode(0x07) };
    let mut w = VGAWriter::new(ColorCode(0x0f), screen.clone());
    assert_eq!(w.cells(), &screen);
    assert_eq!(w.cursor_x(), 0);
    assert_eq!(w.default_color(), ColorCode(0x0f));
    // Earlier lines scroll up with the new ones
    w.write_string("x\n");
    assert_eq!(w.cells()[(BUFFER_HEIGHT - 2) * BUFFER_WIDTH + 3].character, b'B');
    assert_eq!(w.cells()[(BUFFER_HEIGHT - 2) * BUFFER_WIDTH].character, b'x');
}

#[test]
fn write_char_lands_on_bottom_row() {
    let mut w = writer(ColorCode(0x0f));
    w.write_char('A', ColorCode(0x1e));
    w.write_char('b', ColorCode(0x0f));
    assert_eq!(w.cursor_x(), 2);
    assert_eq!(w.cells()[bottom(0)], VGAChar { character: b'A', color: ColorCode(0x1e) });
    assert_eq!(w.cells()[bottom(1)], VGAChar { character: b'b', color: ColorCode(0x0f) });
    assert_eq!(w.cells()[bottom(2)], blank());
    assert_eq!(w.cells()[0], blank());
}

#[test]
fn write_char_keeps_low_byte_of_wide_characters() {
    let mut w = writer(ColorCode(0x0f));
    w.write_char('\u{0141}', ColorCode(0x0f));
    assert_eq!(w.cells()[bottom(0)].character, 0x41);
}

#[test]
fn new_line_scrolls_and_blanks_bottom_row() {
    let mut w = writer(ColorCode(0x0f));
    w.write_string("hi");
    w.new_line();
    assert_eq!(w.cursor_x(), 0);
    assert_eq!(w.cells()[(BUFFER_HEIGHT - 2) * BUFFER_WIDTH].character, b'h');
    assert_eq!(w.cells()[(BUFFER_HEIGHT - 2) * BUFFER_WIDTH + 1].character, b'i');
    for col in 0..BUFFER_WIDTH {
        assert_eq!(w.cells()[bottom(col)], blank());
    }
    w.write_char('\n', ColorCode(0x0f));
    assert_eq!(w.cells()[(BUFFER_HEIGHT - 3) * BUFFER_WIDTH].character, b'h');
}

#[test]
fn top_row_scrolls_off() {
    let mut w = writer(ColorCode(0x0f));
    w.write_string("x");
    for _ in 0..BUFFER_HEIGHT - 1 {
        w.new_line();
    }
    assert_eq!(w.cells()[0].character, b'x');
    w.new_line();
    assert!(w.cells().iter().all(|c| *c == blank()));
}

#[test]
fn full_row_wraps_to_new_line() {
    let mut w = writer(ColorCode(0x0f));
    for _ in 0..BUFFER_WIDTH {
        w.write_char('a', ColorCode(0x0f));
    }
    assert_eq!(w.cursor_x(), BUFFER_WIDTH);
    w.write_char('z', ColorCode(0x0f));
    assert_eq!(w.cursor_x(), 1);
    assert_eq!(w.cells()[bottom(0)].character, b'z');
    for col in 0..BUFFER_WIDTH {
        assert_eq!(w.cells()[(BUFFER_HEIGHT - 2) * BUFFER_WIDTH + col].character, b'a');
    }
}

#[test]
fn write_string_uses_default_color_and_replaces_unprintable_bytes() {
    let mut w = writer(ColorCode(0x1e));
    w.write_string("a\u{e9}~\t");
    // 'é' is two bytes in UTF-8, each shown as the block character
    assert_eq!(w.cursor_x(), 5);
    let shown: Vec<u8> = (0..5).map(|c| w.cells()[bottom(c)].character).collect();
    assert_eq!(shown, vec![b'a', 0xfe, 0xfe, b'~', 0xfe]);
    assert!((0..5).all(|c| w.cells()[bottom(c)].color == ColorCode(0x1e)));
}

#[test]
fn write_string_newline_starts_a_new_line() {
    let mut w = writer(ColorCode(0x0f));
    w.write_string("ab\ncd");
    assert_eq!(w.cursor_x(), 2);
    assert_eq!(w.cells()[(BUFFER_HEIGHT - 2) * BUFFER_WIDTH].character, b'a');
    assert_eq!(w.cells()[(BUFFER_HEIGHT - 2) * BUFFER_WIDTH + 1].character, b'b');
    assert_eq!(w.cells()[bottom(0)].character, b'c');
    assert_eq!(w.cells()[bottom(1)].character, b'd');
}

#[test]
fn write_string_in_two_parts_equals_write_string_at_once() {
    let text = "Hello, World!\nApproximation of PI: 3.1416\nand a line that is long enough to wrap around the end of the bottom row of the screen";
    let mut once = writer(ColorCode(0x0f));
    once.write_string(text);
    for split in [0usize, 5, 14, 40, text.len()] {
        let mut twice = writer(ColorCode(0x0f));
        twice.write_string(&text[..split]);
        twice.write_string(&text[split..]);
        assert_eq!(twice.cells(), once.cells());
        assert_eq!(twice.cursor_x(), once.cursor_x());
    }
}

#[test]
fn printable_text_appears_as_written() {
    let mut w = writer(ColorCode(0x0f));
    w.write_string("ab");
    w.write_string("Hello");
    let row: Vec<u8> = (2..7).map(|c| w.cells()[bottom(c)].character).collect();
    assert_eq!(row, b"Hello".to_vec());
    assert_eq!(w.cursor_x(), 7);
}
