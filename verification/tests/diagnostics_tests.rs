use vga_text::color::ColorCode;
use vga_text::diagnostics::render_diagnostic;
use vga_text::surface::{Buffer, BUFFER_WIDTH};

const RED_ON_BLACK: u8 = 0x04;

#[test]
fn renders_file_and_line() {
    let mut buffer = Buffer::new();
    render_diagnostic(&mut buffer, b"main.rs", 42, ColorCode(RED_ON_BLACK));
    let expected = b"main.rs";
    for (col, glyph) in expected.iter().enumerate() {
        let cell = buffer.read_cell(0, col);
        assert_eq!(cell.ascii_character, *glyph);
        assert_eq!(cell.color_code.0, RED_ON_BLACK);
    }
    assert_eq!(buffer.read_cell(0, expected.len()).ascii_character, 0x20);
    let label = b"Line: ";
    for (k, glyph) in label.iter().enumerate() {
        assert_eq!(buffer.read_cell(1, 40 + k).ascii_character, *glyph);
    }
    assert_eq!(buffer.read_cell(1, 46).ascii_character, b'4');
    assert_eq!(buffer.read_cell(1, 47).ascii_character, b'2');
    assert_eq!(buffer.read_cell(1, 48).ascii_character, 0x20);
}

#[test]
fn line_number_at_limit_is_not_rendered() {
    let mut buffer = Buffer::new();
    render_diagnostic(&mut buffer, b"lib.rs", 10000, ColorCode(RED_ON_BLACK));
    // The file still lands on row 0, but row 1 stays blank.
    assert_eq!(buffer.read_cell(0, 0).ascii_character, b'l');
    for col in 0..BUFFER_WIDTH {
        assert_eq!(buffer.read_cell(1, col).ascii_character, 0x20);
    }
}

#[test]
fn line_number_zero_renders_one_digit() {
    let mut buffer = Buffer::new();
    render_diagnostic(&mut buffer, b"x.rs", 0, ColorCode(RED_ON_BLACK));
    assert_eq!(buffer.read_cell(1, 46).ascii_character, b'0');
    assert_eq!(buffer.read_cell(1, 47).ascii_character, 0x20);
}

#[test]
fn largest_rendered_line_number() {
    let mut buffer = Buffer::new();
    render_diagnostic(&mut buffer, b"x.rs", 9999, ColorCode(RED_ON_BLACK));
    for k in 0..4 {
        assert_eq!(buffer.read_cell(1, 46 + k).ascii_character, b'9');
    }
    assert_eq!(buffer.read_cell(1, 50).ascii_character, 0x20);
}

#[test]
fn long_file_name_is_truncated_to_forty_characters() {
    let mut buffer = Buffer::new();
    let name = [b'a'; 50];
    render_diagnostic(&mut buffer, &name, 7, ColorCode(RED_ON_BLACK));
    for col in 0..40 {
        assert_eq!(buffer.read_cell(0, col).ascii_character, b'a');
    }
    assert_eq!(buffer.read_cell(0, 40).ascii_character, 0x20);
}

#[test]
fn truncation_never_splits_a_multibyte_character() {
    // Forty ASCII characters followed by a two-byte character: the budget is
    // exhausted, and the multi-byte character is left out whole.
    let mut name: Vec<u8> = vec![b'a'; 40];
    name.extend_from_slice("é".as_bytes());
    name.push(b'z');
    let mut buffer = Buffer::new();
    render_diagnostic(&mut buffer, &name, 1, ColorCode(RED_ON_BLACK));
    for col in 0..40 {
        assert_eq!(buffer.read_cell(0, col).ascii_character, b'a');
    }
    assert_eq!(buffer.read_cell(0, 40).ascii_character, 0x20);
    assert_eq!(buffer.read_cell(0, 41).ascii_character, 0x20);
}

#[test]
fn multibyte_character_inside_budget_is_kept_whole() {
    // Thirty-nine ASCII characters and one two-byte character make forty
    // characters in forty-one bytes; both bytes are rendered (as
    // placeholders, since they are not printable single bytes).
    let mut name: Vec<u8> = vec![b'a'; 39];
    name.extend_from_slice("é".as_bytes());
    let mut buffer = Buffer::new();
    render_diagnostic(&mut buffer, &name, 1, ColorCode(RED_ON_BLACK));
    for col in 0..39 {
        assert_eq!(buffer.read_cell(0, col).ascii_character, b'a');
    }
    assert_eq!(buffer.read_cell(0, 39).ascii_character, 0xfe);
    assert_eq!(buffer.read_cell(0, 40).ascii_character, 0xfe);
    assert_eq!(buffer.read_cell(0, 41).ascii_character, 0x20);
}
