use blog_kernel::vga_buffer::{
    Color, ColorCode, Writer, BUFFER_HEIGHT, BUFFER_WIDTH, REPLACEMENT_BYTE,
};

fn row_text(w: &Writer, row: usize) -> Vec<u8> {
    (0..BUFFER_WIDTH).map(|c| w.read_char(row, c).ascii_character).collect()
}

fn padded(s: &str) -> Vec<u8> {
    let mut v = s.as_bytes().to_vec();
    v.resize(BUFFER_WIDTH, b' ');
    v
}

#[test]
fn test_println_simple() {
    let mut w = Writer::new(Color::Green, Color::Black);
    w.write_string("test_println_simple output\n");
    assert_eq!(row_text(&w, BUFFER_HEIGHT - 2), padded("test_println_simple output"));
}

#[test]
fn test_println_many() {
    let mut w = Writer::new(Color::Green, Color::Black);
    for _ in 0..200 {
        w.write_string("test_println_many output\n");
    }
    for row in 0..BUFFER_HEIGHT - 1 {
        assert_eq!(row_text(&w, row), padded("test_println_many output"));
    }
    assert_eq!(row_text(&w, BUFFER_HEIGHT - 1), padded(""));
}

#[test]
fn test_println_output() {
    let mut w = Writer::new(Color::Green, Color::Black);
    let s = "Simple single line string";
    w.write_string(s);
    w.write_string("\n");
    for (i, c) in s.chars().enumerate() {
        let screen_char = w.read_char(BUFFER_HEIGHT - 2, i);
        assert_eq!(char::from(screen_char.ascii_character), c);
    }
}

#[test]
fn hello_lands_in_active_row_with_default_attribute() {
    let mut w = Writer::new(Color::Green, Color::Black);
    w.write_string("Hello");
    let expected = [b'H', b'e', b'l', b'l', b'o'];
    for (i, b) in expected.iter().enumerate() {
        let cell = w.read_char(BUFFER_HEIGHT - 1, i);
        assert_eq!(cell.ascii_character, *b);
        assert_eq!(cell.color_code.as_u8(), 0x02);
    }
    assert_eq!(w.read_char(BUFFER_HEIGHT - 1, 5).ascii_character, b' ');
}

#[test]
fn two_hundred_distinct_lines() {
    let mut w = Writer::new(Color::Green, Color::Black);
    for i in 1..=200 {
        let line = format!("line number {}\n", i);
        w.write_string(&line);
    }
    assert_eq!(row_text(&w, BUFFER_HEIGHT - 2), padded("line number 200"));
    assert_eq!(row_text(&w, 0), padded("line number 177"));
    assert_eq!(row_text(&w, BUFFER_HEIGHT - 1), padded(""));
}

#[test]
fn printable_string_reads_back_unchanged() {
    let mut w = Writer::new(Color::Green, Color::Black);
    let s: String = (0x20u8..=0x6f).map(char::from).collect();
    assert_eq!(s.len(), BUFFER_WIDTH);
    w.write_string(&s);
    assert_eq!(row_text(&w, BUFFER_HEIGHT - 1), s.as_bytes().to_vec());
}

#[test]
fn non_printable_bytes_become_replacement_code() {
    let mut w = Writer::new(Color::Green, Color::Black);
    w.write_string("a\u{1}\u{7f}ö~");
    let got: Vec<u8> = (0..6).map(|c| w.read_char(BUFFER_HEIGHT - 1, c).ascii_character).collect();
    assert_eq!(got, vec![b'a', REPLACEMENT_BYTE, REPLACEMENT_BYTE, REPLACEMENT_BYTE, REPLACEMENT_BYTE, b'~']);
}

#[test]
fn write_byte_replaces_raw_bytes_every_time() {
    let mut w = Writer::new(Color::Green, Color::Black);
    for _ in 0..3 {
        w.write_byte(0x07);
        w.write_byte(0xff);
    }
    for c in 0..6 {
        assert_eq!(w.read_char(BUFFER_HEIGHT - 1, c).ascii_character, REPLACEMENT_BYTE);
    }
}

#[test]
fn full_row_wraps_to_new_line() {
    let mut w = Writer::new(Color::Green, Color::Black);
    for _ in 0..BUFFER_WIDTH {
        w.write_byte(b'x');
    }
    assert_eq!(row_text(&w, BUFFER_HEIGHT - 1), vec![b'x'; BUFFER_WIDTH]);
    w.write_byte(b'y');
    assert_eq!(row_text(&w, BUFFER_HEIGHT - 2), vec![b'x'; BUFFER_WIDTH]);
    assert_eq!(row_text(&w, BUFFER_HEIGHT - 1), padded("y"));
}

#[test]
fn long_run_keeps_the_most_recent_characters() {
    let mut w = Writer::new(Color::Green, Color::Black);
    let n = BUFFER_WIDTH * BUFFER_HEIGHT + 37;
    let text: Vec<u8> = (0..n).map(|i| b'a' + (i % 26) as u8).collect();
    for b in &text {
        w.write_byte(*b);
    }
    // the last character sits at column 36 of the last row
    let last_line = (n - 1) / BUFFER_WIDTH;
    for row in 0..BUFFER_HEIGHT {
        let line = last_line - (BUFFER_HEIGHT - 1 - row);
        for col in 0..BUFFER_WIDTH {
            let i = line * BUFFER_WIDTH + col;
            let expected = if i < n { text[i] } else { b' ' };
            assert_eq!(w.read_char(row, col).ascii_character, expected);
        }
    }
}

#[test]
fn color_codes_pack_foreground_low_and_background_high() {
    assert_eq!(ColorCode::new(Color::Green, Color::Black).as_u8(), 0x02);
    assert_eq!(ColorCode::new(Color::White, Color::Blue).as_u8(), 0x1f);
    assert_eq!(ColorCode::new(Color::Black, Color::Yellow).as_u8(), 0xe0);
    assert_eq!(Color::LightCyan.as_u8(), 11);
}

#[test]
fn new_writer_is_blank_in_its_attribute() {
    let w = Writer::new(Color::Yellow, Color::Red);
    for row in 0..BUFFER_HEIGHT {
        assert_eq!(row_text(&w, row), padded(""));
    }
    assert_eq!(w.read_char(3, 7).color_code.as_u8(), 0x4e);
}
