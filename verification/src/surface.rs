use vstd::prelude::*;

use crate::color::ColorCode;

verus! {

/// Number of text rows on the display surface.
pub const BUFFER_HEIGHT: usize = 25;

/// Number of character columns on the display surface.
pub const BUFFER_WIDTH: usize = 80;

/// Glyph code of a blank cell.
pub const BLANK_GLYPH: u8 = 0x20;

/// One character cell: a glyph byte and an attribute byte.
#[derive(Clone, Copy, Debug, PartialEq, Eq, Structural)]
pub struct ScreenChar {
    pub ascii_character: u8,
    pub color_code: ColorCode,
}

/// A blank cell: a space glyph carrying the given attribute.
pub open spec fn blank_char(code: ColorCode) -> ScreenChar {
    ScreenChar { ascii_character: BLANK_GLYPH, color_code: code }
}

/// The flat offset of `(row, col)` in row-major order.
pub open spec fn flat_index(row: int, col: int) -> int {
    row * (BUFFER_WIDTH as int) + col
}

/// The 16-bit word a cell occupies in memory: the glyph in the low byte and
/// the attribute in the high byte.
pub open spec fn spec_pack(c: ScreenChar) -> u16 {
    ((c.ascii_character as u16) | ((c.color_code.0 as u16) << 8)) as u16
}

/// The cell encoded by a 16-bit word.
pub open spec fn spec_unpack(w: u16) -> ScreenChar {
    ScreenChar {
        ascii_character: (w & 0xff) as u8,
        color_code: ColorCode(((w >> 8) & 0xff) as u8),
    }
}

/// Packing a cell into its word and decoding it again loses nothing.
pub proof fn lemma_unpack_pack(c: ScreenChar)
    ensures
        spec_unpack(spec_pack(c)) == c,
{
    let g = c.ascii_character;
    let a = c.color_code.0;
    assert(((((g as u16) | ((a as u16) << 8)) as u16) & 0xff) as u8 == g) by (bit_vector);
    assert((((((g as u16) | ((a as u16) << 8)) as u16) >> 8) & 0xff) as u8 == a) by (bit_vector);
}

fn pack(c: ScreenChar) -> (w: u16)
    ensures
        w == spec_pack(c),
{
    (c.ascii_character as u16) | ((c.color_code.0 as u16) << 8)
}

/// The volatile cell wrapper of the `volatile` crate, declared so that the
/// display surface can hold its cells.
#[verifier::external_type_specification]
#[verifier::external_body]
#[verifier::reject_recursive_types(T)]
pub struct ExVolatile<T: Copy>(volatile::Volatile<T>);

/// The word held by one volatile cell.
pub uninterp spec fn stored_word(v: volatile::Volatile<u16>) -> u16;

/// Relies on volatile::Volatile::new: wraps the given word for volatile
/// access; the wrapper holds exactly that word.
#[verifier::external_body]
fn cell_new(w: u16) -> (r: volatile::Volatile<u16>)
    ensures
        stored_word(r) == w,
{
    volatile::Volatile::new(w)
}

/// Relies on volatile::Volatile::read: a volatile load that returns the
/// stored word, never elided by the optimizer.
#[verifier::external_body]
fn cell_load(cells: &Vec<volatile::Volatile<u16>>, idx: usize) -> (w: u16)
    requires
        idx < cells@.len(),
    ensures
        w == stored_word(cells@[idx as int]),
{
    cells[idx].read()
}

/// Relies on volatile::Volatile::write: a volatile store of the given word
/// into one cell, never elided by the optimizer; no other cell is touched.
#[verifier::external_body]
fn cell_store(cells: &mut Vec<volatile::Volatile<u16>>, idx: usize, w: u16)
    requires
        idx < old(cells)@.len(),
    ensures
        final(cells)@.len() == old(cells)@.len(),
        stored_word(final(cells)@[idx as int]) == w,
        forall|j: int|
            0 <= j < old(cells)@.len() && j != idx ==> final(cells)@[j] == old(cells)@[j],
{
    cells[idx].write(w)
}

/// The display surface: a fixed `BUFFER_HEIGHT x BUFFER_WIDTH` grid of
/// volatile character cells. Every access goes through a volatile load or
/// store of a single 16-bit cell word; the surface itself checks no bounds,
/// callers must stay inside the grid.
pub struct Buffer {
    cells: Vec<volatile::Volatile<u16>>,
}

impl View for Buffer {
    type V = Seq<ScreenChar>;

    closed spec fn view(&self) -> Seq<ScreenChar> {
        Seq::new(self.cells@.len(), |i: int| spec_unpack(stored_word(self.cells@[i])))
    }
}

impl Buffer {
    /// The surface holds exactly one cell per grid position.
    pub open spec fn wf(&self) -> bool {
        self@.len() == (BUFFER_HEIGHT * BUFFER_WIDTH) as int
    }

    /// A fresh surface, every cell blank with attribute zero.
    pub fn new() -> (r: Buffer)
        ensures
            r.wf(),
            forall|i: int| 0 <= i < r@.len() ==> r@[i] == blank_char(ColorCode(0)),
    {
        let blank = pack(ScreenChar { ascii_character: BLANK_GLYPH, color_code: ColorCode(0) });
        let mut cells: Vec<volatile::Volatile<u16>> = Vec::new();
        let mut i: usize = 0;
        while i < BUFFER_HEIGHT * BUFFER_WIDTH
            invariant
                i == cells@.len(),
                i <= BUFFER_HEIGHT * BUFFER_WIDTH,
                blank == spec_pack(blank_char(ColorCode(0))),
                forall|j: int|
                    0 <= j < i ==> stored_word(#[trigger] cells@[j]) == spec_pack(
                        blank_char(ColorCode(0)),
                    ),
            decreases BUFFER_HEIGHT * BUFFER_WIDTH - i,
        {
            cells.push(cell_new(blank));
            i = i + 1;
        }
        let r = Buffer { cells };
        proof {
            lemma_unpack_pack(blank_char(ColorCode(0)));
        }
        r
    }

    /// A volatile load of the cell at the given flat offset.
    pub fn read_flat(&self, idx: usize) -> (c: ScreenChar)
        requires
            self.wf(),
            idx < BUFFER_HEIGHT * BUFFER_WIDTH,
        ensures
            c == self@[idx as int],
    {
        let w = cell_load(&self.cells, idx);
        ScreenChar { ascii_character: (w & 0xff) as u8, color_code: ColorCode(((w >> 8) & 0xff) as u8) }
    }

    /// A volatile store of one cell at the given flat offset; every other
    /// cell keeps its value.
    pub fn write_flat(&mut self, idx: usize, c: ScreenChar)
        requires
            old(self).wf(),
            idx < BUFFER_HEIGHT * BUFFER_WIDTH,
        ensures
            final(self).wf(),
            final(self)@ == old(self)@.update(idx as int, c),
    {
        let w = pack(c);
        cell_store(&mut self.cells, idx, w);
        proof {
            lemma_unpack_pack(c);
            assert(self@ =~= old(self)@.update(idx as int, c));
        }
    }

    /// A volatile load of the cell at `(row, col)`.
    pub fn read_cell(&self, row: usize, col: usize) -> (c: ScreenChar)
        requires
            self.wf(),
            row < BUFFER_HEIGHT,
            col < BUFFER_WIDTH,
        ensures
            c == self@[flat_index(row as int, col as int)],
    {
        self.read_flat(row * BUFFER_WIDTH + col)
    }

    /// A volatile store of the cell at `(row, col)`; every other cell keeps
    /// its value.
    pub fn write_cell(&mut self, row: usize, col: usize, c: ScreenChar)
        requires
            old(self).wf(),
            row < BUFFER_HEIGHT,
            col < BUFFER_WIDTH,
        ensures
            final(self).wf(),
            final(self)@ == old(self)@.update(flat_index(row as int, col as int), c),
    {
        self.write_flat(row * BUFFER_WIDTH + col, c);
    }
}

/// Distinct grid coordinates occupy distinct flat offsets, and every valid
/// coordinate lies inside the grid.
pub proof fn lemma_flat_index(row: int, col: int)
    requires
        0 <= row < BUFFER_HEIGHT as int,
        0 <= col < BUFFER_WIDTH as int,
    ensures
        0 <= flat_index(row, col) < (BUFFER_HEIGHT * BUFFER_WIDTH) as int,
        forall|r2: int, c2: int|
            0 <= r2 < BUFFER_HEIGHT as int && 0 <= c2 < BUFFER_WIDTH as int && flat_index(
                r2,
                c2,
            ) == flat_index(row, col) ==> r2 == row && c2 == col,
{
}

/// A write to a valid coordinate followed by a read of the same coordinate
/// returns exactly the written cell, and no other cell of the surface
/// changes.
pub proof fn lemma_write_then_read(g: Seq<ScreenChar>, row: int, col: int, c: ScreenChar)
    requires
        g.len() == (BUFFER_HEIGHT * BUFFER_WIDTH) as int,
        0 <= row < BUFFER_HEIGHT as int,
        0 <= col < BUFFER_WIDTH as int,
    ensures
        g.update(flat_index(row, col), c)[flat_index(row, col)] == c,
        forall|r2: int, c2: int|
            0 <= r2 < BUFFER_HEIGHT as int && 0 <= c2 < BUFFER_WIDTH as int && (r2 != row || c2
                != col) ==> g.update(flat_index(row, col), c)[flat_index(r2, c2)] == g[flat_index(
                r2,
                c2,
            )],
{
    lemma_flat_index(row, col);
    assert forall|r2: int, c2: int|
        0 <= r2 < BUFFER_HEIGHT as int && 0 <= c2 < BUFFER_WIDTH as int && (r2 != row || c2
            != col) implies g.update(flat_index(row, col), c)[flat_index(r2, c2)] == g[flat_index(
        r2,
        c2,
    )] by {
        lemma_flat_index(r2, c2);
    }
}

} // verus!
