use vga_text::color::ColorCode;
use vga_text::fallback::write_at;
use vga_text::surface::{Buffer, BUFFER_HEIGHT, BUFFER_WIDTH};

#[test]
fn write_at_places_hello() {
    let mut buffer = Buffer::new();
    let attr = ColorCode(0x4f);
    write_at(&mut buffer, b"Hello", 1, 0, attr);
    let expected = [b'H', b'e', b'l', b'l', b'o'];
    for (col, glyph) in expected.iter().enumerate() {
        let cell = buffer.read_cell(1, col);
        assert_eq!(cell.ascii_character, *glyph);
        assert_eq!(cell.color_code, attr);
    }
    // No other cell is touched.
    for row in 0..BUFFER_HEIGHT {
        for col in 0..BUFFER_WIDTH {
            if row == 1 && col < 5 {
                continue;
            }
            let cell = buffer.read_cell(row, col);
            assert_eq!(cell.ascii_character, 0x20);
            assert_eq!(cell.color_code.0, 0);
        }
    }
}

#[test]
fn write_at_out_of_range_row_is_a_no_op() {
    let mut buffer = Buffer::new();
    write_at(&mut buffer, b"Hello", BUFFER_HEIGHT, 0, ColorCode(0x07));
    for row in 0..BUFFER_HEIGHT {
        for col in 0..BUFFER_WIDTH {
            let cell = buffer.read_cell(row, col);
            assert_eq!(cell.ascii_character, 0x20);
            assert_eq!(cell.color_code.0, 0);
        }
    }
}

#[test]
fn write_at_out_of_range_column_is_a_no_op() {
    let mut buffer = Buffer::new();
    write_at(&mut buffer, b"Hello", 0, BUFFER_WIDTH, ColorCode(0x07));
    for row in 0..BUFFER_HEIGHT {
        for col in 0..BUFFER_WIDTH {
            assert_eq!(buffer.read_cell(row, col).ascii_character, 0x20);
        }
    }
}

#[test]
fn write_at_stops_at_line_feed() {
    let mut buffer = Buffer::new();
    write_at(&mut buffer, b"ab\ncd", 2, 3, ColorCode(0x0c));
    assert_eq!(buffer.read_cell(2, 3).ascii_character, b'a');
    assert_eq!(buffer.read_cell(2, 4).ascii_character, b'b');
    // The line feed terminates the call: nothing after it is written.
    assert_eq!(buffer.read_cell(2, 5).ascii_character, 0x20);
    assert_eq!(buffer.read_cell(3, 0).ascii_character, 0x20);
}

#[test]
fn write_at_clips_at_the_right_edge() {
    let mut buffer = Buffer::new();
    write_at(&mut buffer, b"0123456789", 4, BUFFER_WIDTH - 5, ColorCode(0x0a));
    for k in 0..5 {
        assert_eq!(
            buffer.read_cell(4, BUFFER_WIDTH - 5 + k).ascii_character,
            b'0' + k as u8
        );
    }
    // Nothing spills onto the next row.
    for col in 0..BUFFER_WIDTH {
        assert_eq!(buffer.read_cell(5, col).ascii_character, 0x20);
    }
}

#[test]
fn write_at_substitutes_placeholder() {
    let mut buffer = Buffer::new();
    write_at(&mut buffer, &[b'a', 0x00, 0x1f, 0xff, b'b'], 0, 0, ColorCode(0x0f));
    assert_eq!(buffer.read_cell(0, 0).ascii_character, b'a');
    assert_eq!(buffer.read_cell(0, 1).ascii_character, 0xfe);
    assert_eq!(buffer.read_cell(0, 2).ascii_character, 0xfe);
    assert_eq!(buffer.read_cell(0, 3).ascii_character, 0xfe);
    assert_eq!(buffer.read_cell(0, 4).ascii_character, b'b');
}
