use vstd::prelude::*;

use crate::color::{Color, ColorCode};
use crate::surface::{blank_char, flat_index, ScreenChar, BUFFER_HEIGHT, BUFFER_WIDTH};
use crate::writer::{
    is_printable, sanitize_byte, sanitize_bytes, scrolled, write_one, write_seq, LINE_FEED,
};

verus! {

/// Sanitization is idempotent: every byte it produces, the placeholder
/// glyph included, passes a second sanitization unchanged.
pub proof fn lemma_sanitize_idempotent(s: Seq<u8>)
    ensures
        sanitize_bytes(sanitize_bytes(s)) == sanitize_bytes(s),
{
    assert(sanitize_bytes(sanitize_bytes(s)) =~= sanitize_bytes(s));
}

/// Feeding the writer's own rendered output back through the writer leaves
/// the effect unchanged: writing an already sanitized sequence produces the
/// same surface and cursor as writing the raw sequence.
pub proof fn lemma_write_sanitized_same(g: Seq<ScreenChar>, col: int, code: ColorCode, s: Seq<u8>)
    ensures
        write_seq(g, col, code, sanitize_bytes(sanitize_bytes(s))) == write_seq(
            g,
            col,
            code,
            sanitize_bytes(s),
        ),
{
    lemma_sanitize_idempotent(s);
}

/// Writing a concatenation writes the first part, then the second.
pub proof fn lemma_write_seq_concat(
    g: Seq<ScreenChar>,
    col: int,
    code: ColorCode,
    a: Seq<u8>,
    b: Seq<u8>,
)
    ensures
        write_seq(g, col, code, a + b).0 == write_seq(
            write_seq(g, col, code, a).0,
            write_seq(g, col, code, a).1,
            code,
            b,
        ).0,
        write_seq(g, col, code, a + b).1 == write_seq(
            write_seq(g, col, code, a).0,
            write_seq(g, col, code, a).1,
            code,
            b,
        ).1,
    decreases a.len(),
{
    if a.len() == 0 {
        assert(a + b =~= b);
        assert(write_seq(g, col, code, a).0 == g);
    } else {
        assert((a + b)[0] == a[0]);
        let first = write_one(g, col, code, a[0]);
        assert((a + b).subrange(1, (a + b).len() as int) =~= a.subrange(1, a.len() as int) + b);
        lemma_write_seq_concat(first.0, first.1, code, a.subrange(1, a.len() as int), b);
    }
}

/// A run of printable bytes that fits before the right edge fills the
/// bottom row left to right with the active attribute, advances the cursor
/// by its length, touches no other cell and never scrolls.
pub proof fn lemma_printable_run(g: Seq<ScreenChar>, col: int, code: ColorCode, s: Seq<u8>)
    requires
        g.len() == (BUFFER_HEIGHT * BUFFER_WIDTH) as int,
        0 <= col,
        col + s.len() <= BUFFER_WIDTH as int,
        forall|i: int| 0 <= i < s.len() ==> is_printable(#[trigger] s[i]),
    ensures
        write_seq(g, col, code, s).1 == col + s.len(),
        write_seq(g, col, code, s).0.len() == g.len(),
        forall|k: int|
            0 <= k < s.len() ==> write_seq(g, col, code, s).0[flat_index(
                BUFFER_HEIGHT as int - 1,
                col + k,
            )] == (ScreenChar { ascii_character: s[k], color_code: code }),
        forall|j: int|
            0 <= j < g.len() && !(flat_index(BUFFER_HEIGHT as int - 1, col) <= j < flat_index(
                BUFFER_HEIGHT as int - 1,
                col,
            ) + s.len()) ==> write_seq(g, col, code, s).0[j] == g[j],
    decreases s.len(),
{
    if s.len() == 0 {
    } else {
        assert(!(s[0] == LINE_FEED));
        let bottom = BUFFER_HEIGHT as int - 1;
        let first = write_one(g, col, code, s[0]);
        let sub = s.subrange(1, s.len() as int);
        crate::surface::lemma_flat_index(bottom, col);
        assert(first.0 == g.update(
            flat_index(bottom, col),
            ScreenChar { ascii_character: s[0], color_code: code },
        ));
        assert(first.1 == col + 1);
        lemma_printable_run(first.0, col + 1, code, sub);
        let r = write_seq(g, col, code, s);
        assert(r.0 == write_seq(first.0, col + 1, code, sub).0);
        assert(r.1 == write_seq(first.0, col + 1, code, sub).1);
        assert forall|k: int| 0 <= k < s.len() implies r.0[flat_index(bottom, col + k)]
            == (ScreenChar { ascii_character: s[k], color_code: code }) by {
            if k > 0 {
                assert(sub[k - 1] == s[k]);
                assert(write_seq(first.0, col + 1, code, sub).0[flat_index(
                    bottom,
                    col + 1 + (k - 1),
                )] == (ScreenChar { ascii_character: sub[k - 1], color_code: code }));
                assert(col + 1 + (k - 1) == col + k);
            } else {
                assert(!(flat_index(bottom, col + 1) <= flat_index(bottom, col) < flat_index(
                    bottom,
                    col + 1,
                ) + sub.len()));
                assert(r.0[flat_index(bottom, col)] == first.0[flat_index(bottom, col)]);
            }
        }
        assert forall|j: int|
            0 <= j < g.len() && !(flat_index(bottom, col) <= j < flat_index(bottom, col)
                + s.len()) implies r.0[j] == g[j] by {
            assert(!(flat_index(bottom, col + 1) <= j < flat_index(bottom, col + 1) + sub.len()));
            assert(r.0[j] == first.0[j]);
            assert(j != flat_index(bottom, col));
        }
    }
}

/// Writing exactly `BUFFER_WIDTH` printable bytes from column zero fills
/// the bottom row and leaves the cursor at `BUFFER_WIDTH` without a scroll;
/// one further printable byte scrolls exactly once, then lands at column
/// zero of the bottom row with the cursor at one.
pub proof fn lemma_full_width_write(g: Seq<ScreenChar>, code: ColorCode, s: Seq<u8>, b: u8)
    requires
        g.len() == (BUFFER_HEIGHT * BUFFER_WIDTH) as int,
        s.len() == BUFFER_WIDTH as int,
        forall|i: int| 0 <= i < s.len() ==> is_printable(#[trigger] s[i]),
        is_printable(b),
    ensures
        write_seq(g, 0, code, s).1 == BUFFER_WIDTH as int,
        forall|j: int|
            0 <= j < flat_index(BUFFER_HEIGHT as int - 1, 0) ==> write_seq(g, 0, code, s).0[j]
                == g[j],
        forall|k: int|
            0 <= k < BUFFER_WIDTH as int ==> write_seq(g, 0, code, s).0[flat_index(
                BUFFER_HEIGHT as int - 1,
                k,
            )] == (ScreenChar { ascii_character: s[k], color_code: code }),
        write_one(write_seq(g, 0, code, s).0, BUFFER_WIDTH as int, code, b).0 == scrolled(
            write_seq(g, 0, code, s).0,
            code,
        ).update(
            flat_index(BUFFER_HEIGHT as int - 1, 0),
            ScreenChar { ascii_character: b, color_code: code },
        ),
        write_one(write_seq(g, 0, code, s).0, BUFFER_WIDTH as int, code, b).1 == 1,
{
    lemma_printable_run(g, 0, code, s);
    assert(!(b == LINE_FEED));
}

/// A single scroll discards row zero for good: two surfaces that differ
/// only on row zero scroll to the same surface, so nothing of row zero's
/// content can be recovered afterwards — there is no off-screen history
/// buffer. This saturation raises no error: the scroll transition is total.
pub proof fn lemma_scroll_discards_row_zero(
    g1: Seq<ScreenChar>,
    g2: Seq<ScreenChar>,
    code: ColorCode,
)
    requires
        g1.len() == (BUFFER_HEIGHT * BUFFER_WIDTH) as int,
        g2.len() == g1.len(),
        forall|j: int| BUFFER_WIDTH as int <= j < g1.len() ==> g1[j] == g2[j],
    ensures
        scrolled(g1, code) == scrolled(g2, code),
{
    assert(scrolled(g1, code) =~= scrolled(g2, code));
}

/// The grid after `n` consecutive scrolls.
pub open spec fn scrolled_n(g: Seq<ScreenChar>, code: ColorCode, n: nat) -> Seq<ScreenChar>
    decreases n,
{
    if n == 0 {
        g
    } else {
        scrolled(scrolled_n(g, code, (n - 1) as nat), code)
    }
}

/// After `n` scrolls the bottom `n` rows are blank with the scrolling
/// attribute, and what is left of the original content has moved up by `n`
/// rows.
pub proof fn lemma_scrolled_n(g: Seq<ScreenChar>, code: ColorCode, n: nat)
    requires
        g.len() == (BUFFER_HEIGHT * BUFFER_WIDTH) as int,
    ensures
        scrolled_n(g, code, n).len() == g.len(),
        forall|j: int|
            0 <= j < g.len() && j + n * (BUFFER_WIDTH as int) >= g.len() ==> scrolled_n(
                g,
                code,
                n,
            )[j] == blank_char(code),
        forall|j: int|
            0 <= j < g.len() && j + n * (BUFFER_WIDTH as int) < g.len() ==> scrolled_n(
                g,
                code,
                n,
            )[j] == g[j + n * (BUFFER_WIDTH as int)],
    decreases n,
{
    if n > 0 {
        lemma_scrolled_n(g, code, (n - 1) as nat);
    }
}

/// Scrolling `BUFFER_HEIGHT` times saturates the surface: every cell, row
/// zero included, is blank with the scrolling attribute; nothing of the
/// original content remains anywhere.
pub proof fn lemma_scroll_saturation(g: Seq<ScreenChar>, code: ColorCode)
    requires
        g.len() == (BUFFER_HEIGHT * BUFFER_WIDTH) as int,
    ensures
        scrolled_n(g, code, BUFFER_HEIGHT as nat).len() == g.len(),
        forall|j: int|
            0 <= j < g.len() ==> scrolled_n(g, code, BUFFER_HEIGHT as nat)[j] == blank_char(code),
{
    lemma_scrolled_n(g, code, BUFFER_HEIGHT as nat);
}

/// A sequence of `n` line feeds.
pub open spec fn line_feeds(n: nat) -> Seq<u8> {
    Seq::new(n, |i: int| LINE_FEED)
}

/// Writing `n` line feeds scrolls `n` times and parks the cursor at column
/// zero.
pub proof fn lemma_write_line_feeds(g: Seq<ScreenChar>, col: int, code: ColorCode, n: nat)
    requires
        n > 0,
    ensures
        write_seq(g, col, code, line_feeds(n)).0 == scrolled_n(g, code, n),
        write_seq(g, col, code, line_feeds(n)).1 == 0,
    decreases n,
{
    assert(line_feeds(n)[0] == LINE_FEED);
    let sub = line_feeds(n).subrange(1, n as int);
    assert(sub =~= line_feeds((n - 1) as nat));
    assert(write_one(g, col, code, LINE_FEED).0 == scrolled(g, code));
    if n == 1 {
        assert(write_seq(scrolled(g, code), 0, code, line_feeds(0)).0 == scrolled(g, code));
        assert(write_seq(scrolled(g, code), 0, code, line_feeds(0)).1 == 0);
        assert(scrolled_n(g, code, 0) == g);
        assert(scrolled_n(g, code, 1) == scrolled(g, code));
    } else {
        lemma_write_line_feeds(scrolled(g, code), 0, code, (n - 1) as nat);
        lemma_scrolled_push(g, code, (n - 1) as nat);
        assert(scrolled_n(scrolled(g, code), code, (n - 1) as nat) == scrolled_n(g, code, n));
    }
}

/// Scrolling once and then `n` more times is scrolling `n + 1` times.
pub proof fn lemma_scrolled_push(g: Seq<ScreenChar>, code: ColorCode, n: nat)
    ensures
        scrolled_n(scrolled(g, code), code, n) == scrolled_n(g, code, n + 1),
    decreases n,
{
    if n == 0 {
        assert(scrolled_n(scrolled(g, code), code, 0) == scrolled(g, code));
        assert(scrolled_n(g, code, 0) == g);
        assert(scrolled_n(g, code, 1) == scrolled(g, code));
    } else {
        lemma_scrolled_push(g, code, (n - 1) as nat);
        assert(scrolled_n(scrolled(g, code), code, n) == scrolled(
            scrolled_n(scrolled(g, code), code, (n - 1) as nat),
            code,
        ));
        assert(scrolled_n(g, code, n + 1) == scrolled(scrolled_n(g, code, n), code));
    }
}

/// Writing `BUFFER_HEIGHT` full lines' worth of scrolling and then one last
/// full-width line of printable bytes saturates the surface: the bottom row
/// holds exactly that last line, every other row, row zero included, is
/// blank; nothing of the original content survives anywhere.
pub proof fn lemma_saturating_lines(g: Seq<ScreenChar>, col: int, code: ColorCode, s: Seq<u8>)
    requires
        g.len() == (BUFFER_HEIGHT * BUFFER_WIDTH) as int,
        s.len() == BUFFER_WIDTH as int,
        forall|i: int| 0 <= i < s.len() ==> is_printable(#[trigger] s[i]),
    ensures
        write_seq(g, col, code, line_feeds(BUFFER_HEIGHT as nat) + s).1 == BUFFER_WIDTH as int,
        forall|k: int|
            0 <= k < BUFFER_WIDTH as int ==> write_seq(
                g,
                col,
                code,
                line_feeds(BUFFER_HEIGHT as nat) + s,
            ).0[flat_index(BUFFER_HEIGHT as int - 1, k)] == (ScreenChar {
                ascii_character: s[k],
                color_code: code,
            }),
        forall|j: int|
            0 <= j < flat_index(BUFFER_HEIGHT as int - 1, 0) ==> write_seq(
                g,
                col,
                code,
                line_feeds(BUFFER_HEIGHT as nat) + s,
            ).0[j] == blank_char(code),
{
    lemma_write_seq_concat(g, col, code, line_feeds(BUFFER_HEIGHT as nat), s);
    lemma_write_line_feeds(g, col, code, BUFFER_HEIGHT as nat);
    lemma_scroll_saturation(g, code);
    let blank = scrolled_n(g, code, BUFFER_HEIGHT as nat);
    lemma_printable_run(blank, 0, code, s);
    let r = write_seq(g, col, code, line_feeds(BUFFER_HEIGHT as nat) + s);
    assert(r.0 == write_seq(blank, 0, code, s).0);
    assert(r.1 == write_seq(blank, 0, code, s).1);
    assert forall|j: int|
        0 <= j < flat_index(BUFFER_HEIGHT as int - 1, 0) implies r.0[j] == blank_char(code) by {
        assert(!(flat_index(BUFFER_HEIGHT as int - 1, 0) <= j < flat_index(
            BUFFER_HEIGHT as int - 1,
            0,
        ) + s.len()));
        assert(r.0[j] == blank[j]);
    }
}

/// The cell placed by a non-scrolling write carries exactly the attribute
/// most recently set: the background color in the high four bits and the
/// foreground color in the low four bits.
pub proof fn lemma_write_uses_set_color(
    g: Seq<ScreenChar>,
    col: int,
    foreground: Color,
    background: Color,
    b: u8,
)
    requires
        g.len() == (BUFFER_HEIGHT * BUFFER_WIDTH) as int,
        0 <= col < BUFFER_WIDTH as int,
        b != LINE_FEED,
    ensures
        write_one(g, col, ColorCode::spec_new(foreground, background), b).0[flat_index(
            BUFFER_HEIGHT as int - 1,
            col,
        )] == (ScreenChar {
            ascii_character: b,
            color_code: ColorCode(
                (background.spec_code() << 4) | foreground.spec_code(),
            ),
        }),
{
    crate::surface::lemma_flat_index(BUFFER_HEIGHT as int - 1, col);
}

/// Every cell a single write changes either carries the attribute active at
/// that write or moved to its place from elsewhere on the surface (a
/// scroll); a write invents no other attribute.
pub proof fn lemma_write_one_attributes(
    g: Seq<ScreenChar>,
    col: int,
    code: ColorCode,
    b: u8,
    j: int,
)
    requires
        g.len() == (BUFFER_HEIGHT * BUFFER_WIDTH) as int,
        0 <= col,
        0 <= j < g.len(),
    ensures
        write_one(g, col, code, b).0[j].color_code == code || (exists|j0: int|
            0 <= j0 < g.len() && write_one(g, col, code, b).0[j] == g[j0]),
{
    let r = write_one(g, col, code, b).0;
    let wide = BUFFER_WIDTH as int;
    let bottom = BUFFER_HEIGHT as int - 1;
    if b == LINE_FEED || col >= wide {
        crate::surface::lemma_flat_index(bottom, 0);
        if (b != LINE_FEED && col >= wide && j == flat_index(bottom, 0)) {
            assert(r[j].color_code == code);
        } else {
            assert(r[j] == scrolled(g, code)[j]);
            if j + wide < g.len() {
                assert(r[j] == g[j + wide]);
                assert(0 <= j + wide < g.len() && r[j] == g[j + wide]);
            } else {
                assert(r[j] == blank_char(code));
            }
        }
    } else {
        crate::surface::lemma_flat_index(bottom, col);
        if j == flat_index(bottom, col) {
            assert(r[j].color_code == code);
        } else {
            assert(r[j] == g[j]);
            assert(0 <= j < g.len() && r[j] == g[j]);
        }
    }
}

/// Over a whole write sequence: every cell of the result either carries the
/// attribute that was active while it was written or is original surface
/// content that a scroll moved; and a later attribute change alone never
/// alters a cell already on the surface.
pub proof fn lemma_writes_carry_attribute(
    g: Seq<ScreenChar>,
    col: int,
    code: ColorCode,
    s: Seq<u8>,
    j: int,
)
    requires
        g.len() == (BUFFER_HEIGHT * BUFFER_WIDTH) as int,
        0 <= col,
        0 <= j < g.len(),
    ensures
        write_seq(g, col, code, s).0[j].color_code == code || (exists|j0: int|
            0 <= j0 < g.len() && write_seq(g, col, code, s).0[j] == g[j0]),
    decreases s.len(),
{
    if s.len() == 0 {
        assert(write_seq(g, col, code, s).0[j] == g[j]);
    } else {
        let first = write_one(g, col, code, s[0]);
        let sub = s.subrange(1, s.len() as int);
        assert(first.0.len() == g.len());
        assert(first.1 >= 0);
        lemma_writes_carry_attribute(first.0, first.1, code, sub, j);
        assert(write_seq(g, col, code, s).0 == write_seq(first.0, first.1, code, sub).0);
        if write_seq(first.0, first.1, code, sub).0[j].color_code != code {
            let j1 = choose|j1: int|
                0 <= j1 < first.0.len() && write_seq(first.0, first.1, code, sub).0[j]
                    == first.0[j1];
            lemma_write_one_attributes(g, col, code, s[0], j1);
        }
    }
}

} // verus!
