use vga_text::color::{Color, ColorCode};
use vga_text::entry::run_entry;
use vga_text::surface::{Buffer, BUFFER_HEIGHT, BUFFER_WIDTH};
use vga_text::writer::Writer;

#[test]
fn entry_paints_the_fixed_picture() {
    let mut writer = Writer::new(Buffer::new());
    run_entry(&mut writer);

    let yellow = ColorCode::new(Color::Yellow, Color::Black).0;
    let black = ColorCode::new(Color::Black, Color::Black).0;
    let text = b"Hello from Rust OS!";

    // The smiley is centered on the next-to-last row.
    let smiley = writer.buffer().read_cell(BUFFER_HEIGHT - 2, 35);
    assert_eq!(smiley.ascii_character, 0x01);
    assert_eq!(smiley.color_code.0, yellow);

    // The greeting starts at column 35 of the bottom row, yellow on black.
    for (k, glyph) in text.iter().enumerate() {
        let cell = writer.buffer().read_cell(BUFFER_HEIGHT - 1, 35 + k);
        assert_eq!(cell.ascii_character, *glyph);
        assert_eq!(cell.color_code.0, yellow);
    }

    // Every other cell shows blank on a black background.
    for row in 0..BUFFER_HEIGHT {
        for col in 0..BUFFER_WIDTH {
            if row == BUFFER_HEIGHT - 2 && col == 35 {
                continue;
            }
            if row == BUFFER_HEIGHT - 1 && (35..35 + text.len()).contains(&col) {
                continue;
            }
            let cell = writer.buffer().read_cell(row, col);
            assert_eq!(cell.ascii_character, 0x20);
            assert_eq!(cell.color_code.0, black);
        }
    }

    assert_eq!(writer.column_position(), 35 + text.len());
}

#[test]
fn entry_result_does_not_depend_on_earlier_content() {
    let mut plain = Writer::new(Buffer::new());
    run_entry(&mut plain);

    let mut dirty = Writer::new(Buffer::new());
    dirty.write_string("some earlier output\nacross two lines");
    run_entry(&mut dirty);

    for row in 0..BUFFER_HEIGHT {
        for col in 0..BUFFER_WIDTH {
            assert_eq!(
                plain.buffer().read_cell(row, col),
                dirty.buffer().read_cell(row, col)
            );
        }
    }
}
