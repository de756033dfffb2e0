use vstd::prelude::*;
use vstd::string::*;

use crate::color::{Color, ColorCode};
use crate::surface::{
    blank_char, flat_index, Buffer, ScreenChar, BLANK_GLYPH, BUFFER_HEIGHT, BUFFER_WIDTH,
};

verus! {

/// The line-feed byte, the only control byte the writer interprets.
pub const LINE_FEED: u8 = 0x0a;

/// The glyph substituted for a byte outside the printable range.
pub const PLACEHOLDER: u8 = 0xfe;

/// The printable byte range the writer accepts unchanged.
pub open spec fn is_printable(b: u8) -> bool {
    0x20 <= b <= 0x7e
}

/// Sanitization: printable bytes and the line feed pass through, every other
/// byte becomes the placeholder glyph.
pub open spec fn sanitize_byte(b: u8) -> u8 {
    if is_printable(b) || b == LINE_FEED {
        b
    } else {
        PLACEHOLDER
    }
}

/// A byte sequence after sanitization.
pub open spec fn sanitize_bytes(s: Seq<u8>) -> Seq<u8> {
    s.map_values(|b: u8| sanitize_byte(b))
}

/// The grid after one scroll: every row moves up one place and the last row
/// becomes blank cells carrying the given attribute.
pub open spec fn scrolled(g: Seq<ScreenChar>, code: ColorCode) -> Seq<ScreenChar> {
    Seq::new(
        g.len(),
        |i: int|
            if i + (BUFFER_WIDTH as int) < g.len() {
                g[i + (BUFFER_WIDTH as int)]
            } else {
                blank_char(code)
            },
    )
}

/// The effect of one byte on the grid and cursor: a line feed scrolls and
/// resets the cursor; any other byte is placed at the cursor on the bottom
/// row (after a scroll when the cursor is already past the last column) and
/// advances the cursor by one.
pub open spec fn write_one(g: Seq<ScreenChar>, col: int, code: ColorCode, b: u8) -> (
    Seq<ScreenChar>,
    int,
) {
    if b == LINE_FEED {
        (scrolled(g, code), 0)
    } else if col >= BUFFER_WIDTH as int {
        (
            scrolled(g, code).update(
                flat_index(BUFFER_HEIGHT as int - 1, 0),
                ScreenChar { ascii_character: b, color_code: code },
            ),
            1,
        )
    } else {
        (
            g.update(
                flat_index(BUFFER_HEIGHT as int - 1, col),
                ScreenChar { ascii_character: b, color_code: code },
            ),
            col + 1,
        )
    }
}

/// The effect of a byte sequence, one byte at a time.
pub open spec fn write_seq(g: Seq<ScreenChar>, col: int, code: ColorCode, s: Seq<u8>) -> (
    Seq<ScreenChar>,
    int,
)
    decreases s.len(),
{
    if s.len() == 0 {
        (g, col)
    } else {
        let first = write_one(g, col, code, s[0]);
        write_seq(first.0, first.1, code, s.subrange(1, s.len() as int))
    }
}

/// The synchronized writer: owns the display surface for the normal output
/// path, keeps the cursor (the next free column on the bottom row) and the
/// active attribute, and implements line wrap, scroll and sanitization.
pub struct Writer {
    column_position: usize,
    color_code: ColorCode,
    buffer: Buffer,
}

impl Writer {
    /// The cells of the owned surface.
    pub closed spec fn grid(&self) -> Seq<ScreenChar> {
        self.buffer@
    }

    /// The next free column on the bottom row, in `[0, BUFFER_WIDTH]`.
    pub closed spec fn cursor(&self) -> int {
        self.column_position as int
    }

    /// The active attribute applied to subsequently written cells.
    pub closed spec fn color(&self) -> ColorCode {
        self.color_code
    }

    /// The writer's invariant: a full grid and a cursor inside `[0, BUFFER_WIDTH]`.
    pub open spec fn wf(&self) -> bool {
        &&& self.grid().len() == (BUFFER_HEIGHT * BUFFER_WIDTH) as int
        &&& 0 <= self.cursor() <= BUFFER_WIDTH as int
    }

    /// A writer over the given surface: cursor at column zero, yellow on
    /// black as the starting attribute.
    pub fn new(buffer: Buffer) -> (w: Writer)
        requires
            buffer.wf(),
        ensures
            w.wf(),
            w.grid() == buffer@,
            w.cursor() == 0,
            w.color() == ColorCode::spec_new(Color::Yellow, Color::Black),
    {
        Writer {
            column_position: 0,
            color_code: ColorCode::new(Color::Yellow, Color::Black),
            buffer,
        }
    }

    /// Recomputes and stores the active attribute; the surface and the
    /// cursor are untouched.
    pub fn set_color(&mut self, foreground: Color, background: Color)
        ensures
            final(self).color() == ColorCode::spec_new(foreground, background),
            final(self).grid() == old(self).grid(),
            final(self).cursor() == old(self).cursor(),
    {
        self.color_code = ColorCode::new(foreground, background);
    }

    /// Writes one byte with the active attribute, scrolling first on a line
    /// feed or a full bottom row.
    pub fn write_byte(&mut self, byte: u8)
        requires
            old(self).wf(),
        ensures
            final(self).wf(),
            final(self).color() == old(self).color(),
            final(self).grid() == write_one(
                old(self).grid(),
                old(self).cursor(),
                old(self).color(),
                byte,
            ).0,
            final(self).cursor() == write_one(
                old(self).grid(),
                old(self).cursor(),
                old(self).color(),
                byte,
            ).1,
    {
        if byte == LINE_FEED {
            self.new_line();
        } else {
            if self.column_position >= BUFFER_WIDTH {
                self.new_line();
            }
            let row = BUFFER_HEIGHT - 1;
            let col = self.column_position;
            let color_code = self.color_code;
            self.buffer.write_cell(row, col, ScreenChar { ascii_character: byte, color_code });
            self.column_position = col + 1;
        }
    }

    /// Writes a byte sequence byte-by-byte: printable bytes and line feeds
    /// are forwarded unchanged, every other byte as the placeholder glyph.
    pub fn write_bytes(&mut self, s: &[u8])
        requires
            old(self).wf(),
        ensures
            final(self).wf(),
            final(self).color() == old(self).color(),
            final(self).grid() == write_seq(
                old(self).grid(),
                old(self).cursor(),
                old(self).color(),
                sanitize_bytes(s@),
            ).0,
            final(self).cursor() == write_seq(
                old(self).grid(),
                old(self).cursor(),
                old(self).color(),
                sanitize_bytes(s@),
            ).1,
    {
        let ghost g0 = self.grid();
        let ghost col0 = self.cursor();
        let ghost c0 = self.color();
        let n = s.len();
        let mut k: usize = 0;
        while k < n
            invariant
                self.wf(),
                self.color() == c0,
                n == s@.len(),
                0 <= k <= n,
                self.grid() == write_seq(g0, col0, c0, sanitize_bytes(s@.subrange(0, k as int))).0,
                self.cursor() == write_seq(
                    g0,
                    col0,
                    c0,
                    sanitize_bytes(s@.subrange(0, k as int)),
                ).1,
            decreases n - k,
        {
            let b = s[k];
            if (0x20 <= b && b <= 0x7e) || b == LINE_FEED {
                self.write_byte(b);
            } else {
                self.write_byte(PLACEHOLDER);
            }
            proof {
                lemma_write_seq_push(
                    g0,
                    col0,
                    c0,
                    sanitize_bytes(s@.subrange(0, k as int)),
                    sanitize_byte(s@[k as int]),
                );
                assert(sanitize_bytes(s@.subrange(0, k + 1 as int)) =~= sanitize_bytes(
                    s@.subrange(0, k as int),
                ).push(sanitize_byte(s@[k as int])));
            }
            k = k + 1;
        }
        proof {
            assert(s@.subrange(0, n as int) =~= s@);
        }
    }

    /// Writes a string byte-by-byte through the same sanitizing path.
    pub fn write_string(&mut self, s: &str)
        requires
            old(self).wf(),
        ensures
            final(self).wf(),
            final(self).color() == old(self).color(),
            final(self).grid() == write_seq(
                old(self).grid(),
                old(self).cursor(),
                old(self).color(),
                sanitize_bytes(s.spec_bytes()),
            ).0,
            final(self).cursor() == write_seq(
                old(self).grid(),
                old(self).cursor(),
                old(self).color(),
                sanitize_bytes(s.spec_bytes()),
            ).1,
    {
        let bytes = s.as_bytes();
        self.write_bytes(bytes);
    }

    /// Scroll-and-reset: every row from the second to the last moves up one
    /// place, each source cell read once and written once; the last row is
    /// cleared to blanks carrying the active attribute; the cursor returns
    /// to column zero.
    fn new_line(&mut self)
        requires
            old(self).wf(),
        ensures
            final(self).wf(),
            final(self).color() == old(self).color(),
            final(self).grid() == scrolled(old(self).grid(), old(self).color()),
            final(self).cursor() == 0,
    {
        let ghost g0 = self.grid();
        let ghost c0 = self.color();
        let mut i: usize = BUFFER_WIDTH;
        while i < BUFFER_HEIGHT * BUFFER_WIDTH
            invariant
                self.wf(),
                self.color() == c0,
                self.cursor() == old(self).cursor(),
                BUFFER_WIDTH <= i <= BUFFER_HEIGHT * BUFFER_WIDTH,
                forall|j: int|
                    0 <= j < i - BUFFER_WIDTH ==> self.grid()[j] == g0[j + BUFFER_WIDTH as int],
                forall|j: int|
                    i - BUFFER_WIDTH <= j < (BUFFER_HEIGHT * BUFFER_WIDTH) as int ==> self.grid()[j]
                        == g0[j],
            decreases BUFFER_HEIGHT * BUFFER_WIDTH - i,
        {
            let c = self.buffer.read_flat(i);
            self.buffer.write_flat(i - BUFFER_WIDTH, c);
            i = i + 1;
        }
        self.clear_row(BUFFER_HEIGHT - 1);
        self.column_position = 0;
        proof {
            let gs = scrolled(g0, c0);
            let base = flat_index(BUFFER_HEIGHT as int - 1, 0);
            assert forall|j: int|
                0 <= j < (BUFFER_HEIGHT * BUFFER_WIDTH) as int implies self.grid()[j] == gs[j] by {
                if j >= base {
                    let c = j - base;
                    assert(flat_index(BUFFER_HEIGHT as int - 1, c) == j);
                    assert(self.grid()[flat_index(BUFFER_HEIGHT as int - 1, c)] == blank_char(c0));
                }
            }
            assert(self.grid() =~= gs);
        }
    }

    /// Clears one row to blank cells carrying the active attribute; every
    /// cell outside that row keeps its value.
    fn clear_row(&mut self, row: usize)
        requires
            old(self).wf(),
            row < BUFFER_HEIGHT,
        ensures
            final(self).wf(),
            final(self).color() == old(self).color(),
            final(self).cursor() == old(self).cursor(),
            forall|c: int|
                0 <= c < BUFFER_WIDTH as int ==> final(self).grid()[flat_index(row as int, c)]
                    == blank_char(old(self).color()),
            forall|j: int|
                0 <= j < (BUFFER_HEIGHT * BUFFER_WIDTH) as int && !(flat_index(row as int, 0) <= j
                    < flat_index(row as int, 0) + BUFFER_WIDTH as int) ==> final(self).grid()[j]
                    == old(self).grid()[j],
    {
        let ghost g0 = self.grid();
        let ghost c0 = self.color();
        let blank = ScreenChar { ascii_character: BLANK_GLYPH, color_code: self.color_code };
        let base = row * BUFFER_WIDTH;
        let mut c: usize = 0;
        while c < BUFFER_WIDTH
            invariant
                self.wf(),
                self.color() == c0,
                self.cursor() == old(self).cursor(),
                blank == blank_char(c0),
                row < BUFFER_HEIGHT,
                base == row * BUFFER_WIDTH,
                0 <= c <= BUFFER_WIDTH,
                forall|j: int|
                    base <= j < base + c ==> self.grid()[j] == blank_char(c0),
                forall|j: int|
                    0 <= j < (BUFFER_HEIGHT * BUFFER_WIDTH) as int && !(base <= j < base + c)
                        ==> self.grid()[j] == g0[j],
            decreases BUFFER_WIDTH - c,
        {
            self.buffer.write_flat(base + c, blank);
            c = c + 1;
        }
    }

    /// The surface handle itself, handed out mutably for the fault path:
    /// the caller writes cells directly while the cursor and the active
    /// attribute stay behind untouched.
    pub fn surface_mut(&mut self) -> (b: &mut Buffer)
        ensures
            b@ == old(self).grid(),
            final(self).grid() == final(b)@,
            final(self).cursor() == old(self).cursor(),
            final(self).color() == old(self).color(),
    {
        &mut self.buffer
    }

    /// The surface, for inspection.
    pub fn buffer(&self) -> (b: &Buffer)
        ensures
            b@ == self.grid(),
    {
        &self.buffer
    }

    /// The cursor: the next free column on the bottom row.
    pub fn column_position(&self) -> (c: usize)
        ensures
            c as int == self.cursor(),
    {
        self.column_position
    }

    /// The active attribute.
    pub fn color_code(&self) -> (c: ColorCode)
        ensures
            c == self.color(),
    {
        self.color_code
    }
}

/// Appending one byte to a written sequence applies one more step.
pub proof fn lemma_write_seq_push(
    g: Seq<ScreenChar>,
    col: int,
    code: ColorCode,
    s: Seq<u8>,
    b: u8,
)
    ensures
        write_seq(g, col, code, s.push(b)).0 == write_one(
            write_seq(g, col, code, s).0,
            write_seq(g, col, code, s).1,
            code,
            b,
        ).0,
        write_seq(g, col, code, s.push(b)).1 == write_one(
            write_seq(g, col, code, s).0,
            write_seq(g, col, code, s).1,
            code,
            b,
        ).1,
    decreases s.len(),
{
    if s.len() == 0 {
        let first = write_one(g, col, code, b);
        assert(s.push(b)[0] == b);
        assert(s.push(b).subrange(1, 1) =~= Seq::<u8>::empty());
        assert(write_seq(first.0, first.1, code, Seq::<u8>::empty()).0 == first.0);
        assert(write_seq(first.0, first.1, code, Seq::<u8>::empty()).1 == first.1);
    } else {
        assert(s.push(b)[0] == s[0]);
        assert(s.push(b).subrange(1, s.len() as int + 1) =~= s.subrange(1, s.len() as int).push(b));
        let first = write_one(g, col, code, s[0]);
        lemma_write_seq_push(first.0, first.1, code, s.subrange(1, s.len() as int), b);
    }
}

} // verus!
