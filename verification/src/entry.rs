use vstd::prelude::*;

use crate::color::{Color, ColorCode};
use crate::laws::lemma_printable_run;
use crate::surface::{blank_char, flat_index, ScreenChar, BUFFER_HEIGHT, BUFFER_WIDTH};
use crate::writer::{is_printable, sanitize_bytes, scrolled, Writer, LINE_FEED};

verus! {

/// Column where the smiley and the greeting start.
pub const CENTER_COLUMN: usize = 35;

/// The smiley glyph code of the fixed character set.
pub const SMILEY: u8 = 0x01;

/// The greeting bytes: "Hello from Rust OS!".
pub open spec fn hello_bytes() -> Seq<u8> {
    seq![
        0x48u8,
        0x65u8,
        0x6cu8,
        0x6cu8,
        0x6fu8,
        0x20u8,
        0x66u8,
        0x72u8,
        0x6fu8,
        0x6du8,
        0x20u8,
        0x52u8,
        0x75u8,
        0x73u8,
        0x74u8,
        0x20u8,
        0x4fu8,
        0x53u8,
        0x21u8,
    ]
}

fn hello_text() -> (v: Vec<u8>)
    ensures
        v@ == hello_bytes(),
{
    let mut v: Vec<u8> = Vec::new();
    v.push(0x48);
    v.push(0x65);
    v.push(0x6c);
    v.push(0x6c);
    v.push(0x6f);
    v.push(0x20);
    v.push(0x66);
    v.push(0x72);
    v.push(0x6f);
    v.push(0x6d);
    v.push(0x20);
    v.push(0x52);
    v.push(0x75);
    v.push(0x73);
    v.push(0x74);
    v.push(0x20);
    v.push(0x4f);
    v.push(0x53);
    v.push(0x21);
    proof {
        assert(v@ =~= hello_bytes());
    }
    v
}

fn spaces(n: usize) -> (v: Vec<u8>)
    ensures
        v@ == Seq::new(n as nat, |i: int| 0x20u8),
{
    let mut v: Vec<u8> = Vec::new();
    let mut k: usize = 0;
    while k < n
        invariant
            k == v@.len(),
            0 <= k <= n,
            forall|i: int| 0 <= i < k ==> v@[i] == 0x20u8,
        decreases n - k,
    {
        v.push(0x20);
        k = k + 1;
    }
    proof {
        assert(v@ =~= Seq::new(n as nat, |i: int| 0x20u8));
    }
    v
}

/// The cell the entry routine leaves at `(row, col)`: the smiley centered
/// on the next-to-last row and the greeting centered on the last row, both
/// yellow on black; every other cell blank in black-on-black.
pub open spec fn entry_cell(row: int, col: int) -> ScreenChar {
    let yellow = ColorCode::spec_new(Color::Yellow, Color::Black);
    let black = ColorCode::spec_new(Color::Black, Color::Black);
    if row == BUFFER_HEIGHT as int - 2 && col == CENTER_COLUMN as int {
        ScreenChar { ascii_character: SMILEY, color_code: yellow }
    } else if row == BUFFER_HEIGHT as int - 1 && CENTER_COLUMN as int <= col < CENTER_COLUMN as int
        + 19 {
        ScreenChar {
            ascii_character: hello_bytes()[col - CENTER_COLUMN as int],
            color_code: yellow,
        }
    } else {
        blank_char(black)
    }
}

/// The entry routine of the normal output path: scrolls the whole screen
/// away black-on-black, pads and scrolls with that same attribute, and
/// switches to yellow-on-black only for the glyphs it places, so that every
/// cell outside the centered smiley and the centered greeting ends blank in
/// black-on-black. Whatever the surface held before, it afterwards shows
/// exactly the fixed picture described by `entry_cell`, and the cursor
/// rests after the greeting.
pub fn run_entry(writer: &mut Writer)
    requires
        old(writer).wf(),
    ensures
        final(writer).wf(),
        forall|row: int, col: int|
            0 <= row < BUFFER_HEIGHT as int && 0 <= col < BUFFER_WIDTH as int
                ==> final(writer).grid()[flat_index(row, col)] == entry_cell(row, col),
        final(writer).cursor() == CENTER_COLUMN as int + 19,
        final(writer).color() == ColorCode::spec_new(Color::Yellow, Color::Black),
{
    let ghost area = (BUFFER_HEIGHT * BUFFER_WIDTH) as int;
    let ghost wide = BUFFER_WIDTH as int;
    let ghost black = ColorCode::spec_new(Color::Black, Color::Black);
    let ghost yellow = ColorCode::spec_new(Color::Yellow, Color::Black);

    // Clear the screen: scroll every old row off the top, black on black.
    writer.set_color(Color::Black, Color::Black);
    let ghost g0 = writer.grid();
    let mut k: usize = 0;
    while k < BUFFER_HEIGHT
        invariant
            writer.wf(),
            writer.color() == black,
            0 <= k <= BUFFER_HEIGHT,
            k > 0 ==> writer.cursor() == 0,
            area == (BUFFER_HEIGHT * BUFFER_WIDTH) as int,
            wide == BUFFER_WIDTH as int,
            black == ColorCode::spec_new(Color::Black, Color::Black),
            g0.len() == area,
            forall|j: int|
                0 <= j < area && j + k * wide >= area ==> writer.grid()[j] == blank_char(black),
            forall|j: int|
                0 <= j < area && j + k * wide < area ==> writer.grid()[j] == g0[j + k * wide],
        decreases BUFFER_HEIGHT - k,
    {
        let ghost gprev = writer.grid();
        writer.write_byte(LINE_FEED);
        proof {
            assert(writer.grid() == scrolled(gprev, black));
            assert forall|j: int|
                0 <= j < area && j + (k + 1) * wide >= area implies writer.grid()[j] == blank_char(
                black,
            ) by {
                if j + wide < area {
                    assert(writer.grid()[j] == gprev[j + wide]);
                }
            }
            assert forall|j: int|
                0 <= j < area && j + (k + 1) * wide < area implies writer.grid()[j] == g0[j + (k
                + 1) * wide] by {
                assert(writer.grid()[j] == gprev[j + wide]);
                assert(gprev[j + wide] == g0[j + wide + k * wide]);
            }
        }
        k = k + 1;
    }
    proof {
        assert(forall|j: int| 0 <= j < area ==> writer.grid()[j] == blank_char(black));
    }

    // Ten more blank lines toward the vertical center, still black on
    // black: a scroll of an all-blank black surface leaves it unchanged.
    let mut k2: usize = 0;
    while k2 < 10
        invariant
            writer.wf(),
            writer.color() == black,
            writer.cursor() == 0,
            0 <= k2 <= 10,
            area == (BUFFER_HEIGHT * BUFFER_WIDTH) as int,
            wide == BUFFER_WIDTH as int,
            black == ColorCode::spec_new(Color::Black, Color::Black),
            forall|j: int| 0 <= j < area ==> writer.grid()[j] == blank_char(black),
        decreases 10 - k2,
    {
        let ghost gprev = writer.grid();
        writer.write_byte(LINE_FEED);
        proof {
            assert(writer.grid() == scrolled(gprev, black));
            assert forall|j: int| 0 <= j < area implies writer.grid()[j] == blank_char(black) by {
                if j + wide < area {
                    assert(writer.grid()[j] == gprev[j + wide]);
                }
            }
        }
        k2 = k2 + 1;
    }
    let ghost g4 = writer.grid();

    // Pad to the center in black, then place the smiley in yellow and
    // scroll it up with black active, so the freed bottom row stays black.
    let pad = spaces(CENTER_COLUMN);
    writer.write_bytes(pad.as_slice());
    proof {
        let sp = Seq::new(CENTER_COLUMN as nat, |i: int| 0x20u8);
        assert(sanitize_bytes(sp) =~= sp);
        lemma_printable_run(g4, 0, black, sp);
        assert forall|j: int| 0 <= j < area implies writer.grid()[j] == g4[j] by {
            let base = flat_index(BUFFER_HEIGHT as int - 1, 0);
            if base <= j < base + CENTER_COLUMN as int {
                assert(writer.grid()[j] == (ScreenChar {
                    ascii_character: sp[j - base],
                    color_code: black,
                }));
                assert(g4[j] == blank_char(black));
            }
        }
    }
    writer.set_color(Color::Yellow, Color::Black);
    let ghost g5 = writer.grid();
    writer.write_byte(SMILEY);
    proof {
        assert(writer.grid() == g5.update(
            flat_index(BUFFER_HEIGHT as int - 1, CENTER_COLUMN as int),
            ScreenChar { ascii_character: SMILEY, color_code: yellow },
        ));
        crate::surface::lemma_flat_index(BUFFER_HEIGHT as int - 1, CENTER_COLUMN as int);
    }
    writer.set_color(Color::Black, Color::Black);
    let ghost g6 = writer.grid();
    writer.write_byte(LINE_FEED);
    proof {
        assert(writer.grid() == scrolled(g6, black));
    }
    let ghost g7 = writer.grid();
    proof {
        let smiley_at = flat_index(BUFFER_HEIGHT as int - 2, CENTER_COLUMN as int);
        assert forall|j: int| 0 <= j < area implies g7[j] == (if j == smiley_at {
            ScreenChar { ascii_character: SMILEY, color_code: yellow }
        } else {
            blank_char(black)
        }) by {
            if j + wide < area {
                assert(g7[j] == g6[j + wide]);
                if j + wide != flat_index(BUFFER_HEIGHT as int - 1, CENTER_COLUMN as int) {
                    assert(g6[j + wide] == g4[j + wide]);
                }
            }
        }
    }

    // Pad the bottom row in black, then write the greeting in yellow.
    let pad2 = spaces(CENTER_COLUMN);
    writer.write_bytes(pad2.as_slice());
    proof {
        let sp = Seq::new(CENTER_COLUMN as nat, |i: int| 0x20u8);
        assert(sanitize_bytes(sp) =~= sp);
        lemma_printable_run(g7, 0, black, sp);
        assert forall|j: int| 0 <= j < area implies writer.grid()[j] == g7[j] by {
            let base = flat_index(BUFFER_HEIGHT as int - 1, 0);
            if base <= j < base + CENTER_COLUMN as int {
                assert(writer.grid()[j] == (ScreenChar {
                    ascii_character: sp[j - base],
                    color_code: black,
                }));
                assert(g7[j] == blank_char(black));
            }
        }
    }
    writer.set_color(Color::Yellow, Color::Black);
    let ghost g8 = writer.grid();
    let hello = hello_text();
    writer.write_bytes(hello.as_slice());
    proof {
        let h = hello_bytes();
        assert forall|i: int| 0 <= i < h.len() implies is_printable(#[trigger] h[i]) by {}
        assert(sanitize_bytes(h) =~= h);
        lemma_printable_run(g8, CENTER_COLUMN as int, yellow, h);
    }

    // The final picture, cell by cell.
    proof {
        let hello_at = flat_index(BUFFER_HEIGHT as int - 1, CENTER_COLUMN as int);
        let smiley_at = flat_index(BUFFER_HEIGHT as int - 2, CENTER_COLUMN as int);
        assert forall|row: int, col: int|
            0 <= row < BUFFER_HEIGHT as int && 0 <= col < BUFFER_WIDTH as int implies writer.grid()[
            flat_index(row, col)] == entry_cell(row, col) by {
            let j = flat_index(row, col);
            crate::surface::lemma_flat_index(row, col);
            if hello_at <= j < hello_at + 19 {
                assert(row == BUFFER_HEIGHT as int - 1 && CENTER_COLUMN as int <= col
                    < CENTER_COLUMN as int + 19);
                assert(writer.grid()[flat_index(BUFFER_HEIGHT as int - 1, CENTER_COLUMN as int + (j
                    - hello_at))] == (ScreenChar {
                    ascii_character: hello_bytes()[j - hello_at],
                    color_code: yellow,
                }));
            } else {
                assert(writer.grid()[j] == g8[j]);
                assert(g8[j] == g7[j]);
            }
        }
    }
}

} // verus!
