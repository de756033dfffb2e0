use vga_text::color::{Color, ColorCode};
use vga_text::surface::{Buffer, ScreenChar, BUFFER_HEIGHT, BUFFER_WIDTH};

#[test]
fn new_buffer_is_blank() {
    let buffer = Buffer::new();
    for row in 0..BUFFER_HEIGHT {
        for col in 0..BUFFER_WIDTH {
            let cell = buffer.read_cell(row, col);
            assert_eq!(cell.ascii_character, 0x20);
            assert_eq!(cell.color_code, ColorCode(0));
        }
    }
}

#[test]
fn write_then_read_round_trip() {
    let mut buffer = Buffer::new();
    let cell = ScreenChar { ascii_character: b'A', color_code: ColorCode(0xab) };
    buffer.write_cell(3, 5, cell);
    let back = buffer.read_cell(3, 5);
    assert_eq!(back, cell);
    assert_eq!(back.ascii_character, b'A');
    assert_eq!(back.color_code.0, 0xab);
}

#[test]
fn write_touches_no_other_cell() {
    let mut buffer = Buffer::new();
    let cell = ScreenChar { ascii_character: b'Q', color_code: ColorCode(0x17) };
    buffer.write_cell(10, 40, cell);
    for row in 0..BUFFER_HEIGHT {
        for col in 0..BUFFER_WIDTH {
            let got = buffer.read_cell(row, col);
            if row == 10 && col == 40 {
                assert_eq!(got, cell);
            } else {
                assert_eq!(got.ascii_character, 0x20);
                assert_eq!(got.color_code.0, 0);
            }
        }
    }
}

#[test]
fn flat_and_structured_access_agree() {
    let mut buffer = Buffer::new();
    let cell = ScreenChar { ascii_character: b'#', color_code: ColorCode(0x2a) };
    buffer.write_flat(7 * BUFFER_WIDTH + 9, cell);
    assert_eq!(buffer.read_cell(7, 9), cell);
    assert_eq!(buffer.read_flat(7 * BUFFER_WIDTH + 9), cell);
}

#[test]
fn color_code_packs_nibbles() {
    assert_eq!(ColorCode::new(Color::Yellow, Color::Black).0, 0x0e);
    assert_eq!(ColorCode::new(Color::White, Color::Blue).0, (1 << 4) | 15);
    assert_eq!(ColorCode::new(Color::Black, Color::Red).0, 4 << 4);
    assert_eq!(ColorCode::new(Color::LightGreen, Color::DarkGray).0, (8 << 4) | 10);
}

#[test]
fn color_palette_indices() {
    assert_eq!(Color::Black.code(), 0);
    assert_eq!(Color::Blue.code(), 1);
    assert_eq!(Color::Brown.code(), 6);
    assert_eq!(Color::Pink.code(), 13);
    assert_eq!(Color::White.code(), 15);
}
