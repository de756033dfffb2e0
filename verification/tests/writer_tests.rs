use vga_text::color::{Color, ColorCode};
use vga_text::surface::{Buffer, BUFFER_HEIGHT, BUFFER_WIDTH};
use vga_text::writer::Writer;

fn fresh_writer() -> Writer {
    Writer::new(Buffer::new())
}

#[test]
fn new_writer_defaults() {
    let writer = fresh_writer();
    assert_eq!(writer.column_position(), 0);
    assert_eq!(writer.color_code(), ColorCode::new(Color::Yellow, Color::Black));
}

#[test]
fn write_string_places_glyphs() {
    let mut writer = fresh_writer();
    writer.write_string("Hello");
    let expected = [b'H', b'e', b'l', b'l', b'o'];
    for (col, glyph) in expected.iter().enumerate() {
        let cell = writer.buffer().read_cell(BUFFER_HEIGHT - 1, col);
        assert_eq!(cell.ascii_character, *glyph);
        assert_eq!(cell.color_code.0, 0x0e);
    }
    assert_eq!(writer.column_position(), 5);
}

#[test]
fn full_width_line_leaves_cursor_at_width() {
    let mut writer = fresh_writer();
    for _ in 0..BUFFER_WIDTH {
        writer.write_byte(b'x');
    }
    assert_eq!(writer.column_position(), BUFFER_WIDTH);
    for col in 0..BUFFER_WIDTH {
        assert_eq!(writer.buffer().read_cell(BUFFER_HEIGHT - 1, col).ascii_character, b'x');
    }
    // The row above the bottom row saw no scroll.
    for col in 0..BUFFER_WIDTH {
        assert_eq!(writer.buffer().read_cell(BUFFER_HEIGHT - 2, col).ascii_character, 0x20);
    }
}

#[test]
fn overflow_byte_scrolls_once_then_lands_at_column_zero() {
    let mut writer = fresh_writer();
    for _ in 0..BUFFER_WIDTH {
        writer.write_byte(b'x');
    }
    writer.write_byte(b'y');
    assert_eq!(writer.column_position(), 1);
    // One scroll: the full line moved up one row.
    for col in 0..BUFFER_WIDTH {
        assert_eq!(writer.buffer().read_cell(BUFFER_HEIGHT - 2, col).ascii_character, b'x');
    }
    // The new byte sits at column zero of the bottom row.
    assert_eq!(writer.buffer().read_cell(BUFFER_HEIGHT - 1, 0).ascii_character, b'y');
    for col in 1..BUFFER_WIDTH {
        assert_eq!(writer.buffer().read_cell(BUFFER_HEIGHT - 1, col).ascii_character, 0x20);
    }
}

#[test]
fn line_feed_scrolls_and_resets_cursor() {
    let mut writer = fresh_writer();
    writer.write_string("ab\n");
    assert_eq!(writer.column_position(), 0);
    assert_eq!(writer.buffer().read_cell(BUFFER_HEIGHT - 2, 0).ascii_character, b'a');
    assert_eq!(writer.buffer().read_cell(BUFFER_HEIGHT - 2, 1).ascii_character, b'b');
    assert_eq!(writer.buffer().read_cell(BUFFER_HEIGHT - 1, 0).ascii_character, 0x20);
}

#[test]
fn unprintable_bytes_become_placeholder() {
    let mut writer = fresh_writer();
    writer.write_bytes(&[0x07, 0x1f, 0x7f, 0xff]);
    for col in 0..4 {
        assert_eq!(writer.buffer().read_cell(BUFFER_HEIGHT - 1, col).ascii_character, 0xfe);
    }
}

#[test]
fn sanitized_output_passes_through_unchanged() {
    // The placeholder the writer renders for an unprintable byte is written
    // back verbatim when fed through the writer again.
    let mut first = fresh_writer();
    first.write_bytes(&[b'a', 0x02, b'b']);
    let mut rendered: Vec<u8> = Vec::new();
    for col in 0..3 {
        rendered.push(first.buffer().read_cell(BUFFER_HEIGHT - 1, col).ascii_character);
    }
    assert_eq!(rendered, vec![b'a', 0xfe, b'b']);

    let mut second = fresh_writer();
    second.write_bytes(&rendered);
    for col in 0..3 {
        assert_eq!(
            second.buffer().read_cell(BUFFER_HEIGHT - 1, col).ascii_character,
            rendered[col]
        );
    }
}

#[test]
fn set_color_applies_to_later_writes_only() {
    let mut writer = fresh_writer();
    writer.set_color(Color::LightGreen, Color::DarkGray);
    writer.write_byte(b'A');
    let painted = writer.buffer().read_cell(BUFFER_HEIGHT - 1, 0);
    assert_eq!(painted.color_code.0, (8 << 4) | 10);
    // A later set_color does not retroactively alter the written cell.
    writer.set_color(Color::White, Color::Black);
    let unchanged = writer.buffer().read_cell(BUFFER_HEIGHT - 1, 0);
    assert_eq!(unchanged.color_code.0, (8 << 4) | 10);
    assert_eq!(unchanged.ascii_character, b'A');
    // But the next write carries the new attribute.
    writer.write_byte(b'B');
    assert_eq!(writer.buffer().read_cell(BUFFER_HEIGHT - 1, 1).color_code.0, 15);
}

#[test]
fn height_scrolls_saturate_the_surface() {
    let mut writer = fresh_writer();
    // Leave some earlier content, then scroll the full height and write one
    // last full line.
    writer.write_string("earlier content\n");
    for _ in 0..BUFFER_HEIGHT {
        writer.write_byte(b'\n');
    }
    for _ in 0..BUFFER_WIDTH {
        writer.write_byte(b'z');
    }
    // The bottom row holds the last line.
    for col in 0..BUFFER_WIDTH {
        assert_eq!(writer.buffer().read_cell(BUFFER_HEIGHT - 1, col).ascii_character, b'z');
    }
    // Row zero is blank: the earlier content is unrecoverable.
    for row in 0..BUFFER_HEIGHT - 1 {
        for col in 0..BUFFER_WIDTH {
            assert_eq!(writer.buffer().read_cell(row, col).ascii_character, 0x20);
        }
    }
}

#[test]
fn one_scroll_discards_row_zero_irrecoverably() {
    // Two writers whose surfaces differ only on row zero: after one scroll
    // every cell agrees, so row zero's old content is gone for good.
    let mut plain = fresh_writer();
    let mark = vga_text::surface::ScreenChar {
        ascii_character: b'!',
        color_code: ColorCode::new(Color::White, Color::Red),
    };
    let mut marked_surface = Buffer::new();
    for col in 0..BUFFER_WIDTH {
        marked_surface.write_cell(0, col, mark);
    }
    let mut marked = Writer::new(marked_surface);
    plain.write_byte(b'\n');
    marked.write_byte(b'\n');
    for row in 0..BUFFER_HEIGHT {
        for col in 0..BUFFER_WIDTH {
            assert_eq!(
                plain.buffer().read_cell(row, col),
                marked.buffer().read_cell(row, col)
            );
        }
    }
}

#[test]
fn scroll_clears_bottom_row_with_active_attribute() {
    let mut writer = fresh_writer();
    writer.set_color(Color::Red, Color::Blue);
    writer.write_byte(b'\n');
    let attr = (1 << 4) | 4;
    for col in 0..BUFFER_WIDTH {
        let cell = writer.buffer().read_cell(BUFFER_HEIGHT - 1, col);
        assert_eq!(cell.ascii_character, 0x20);
        assert_eq!(cell.color_code.0, attr);
    }
}
