use vstd::prelude::*;

use crate::color::ColorCode;
use crate::surface::{flat_index, Buffer, ScreenChar, BUFFER_HEIGHT, BUFFER_WIDTH};
use crate::writer::{is_printable, LINE_FEED, PLACEHOLDER};

verus! {

/// Length of the prefix of `s` that lies before its first line feed (all of
/// `s` when none occurs).
pub open spec fn lf_prefix_len(s: Seq<u8>) -> int
    decreases s.len(),
{
    if s.len() == 0 {
        0
    } else if s[0] == LINE_FEED {
        0
    } else {
        1 + lf_prefix_len(s.subrange(1, s.len() as int))
    }
}

/// The prefix before the first line feed holds no line feed and ends at one
/// or at the end of the text.
pub proof fn lemma_lf_prefix(s: Seq<u8>)
    ensures
        0 <= lf_prefix_len(s) <= s.len(),
        forall|i: int| 0 <= i < lf_prefix_len(s) ==> s[i] != LINE_FEED,
        lf_prefix_len(s) < s.len() ==> s[lf_prefix_len(s)] == LINE_FEED,
    decreases s.len(),
{
    if s.len() == 0 {
    } else if s[0] == LINE_FEED {
    } else {
        let sub = s.subrange(1, s.len() as int);
        lemma_lf_prefix(sub);
        assert forall|i: int| 0 <= i < lf_prefix_len(s) implies s[i] != LINE_FEED by {
            if i > 0 {
                assert(sub[i - 1] == s[i]);
            }
        }
        if lf_prefix_len(s) < s.len() {
            assert(sub[lf_prefix_len(s) - 1] == s[lf_prefix_len(s)]);
        }
    }
}

/// A position with no line feed before it, which is the end of the text or a
/// line feed, is exactly where the first line feed splits the text.
pub proof fn lemma_lf_prefix_is(s: Seq<u8>, k: int)
    requires
        0 <= k <= s.len(),
        forall|i: int| 0 <= i < k ==> s[i] != LINE_FEED,
        k < s.len() ==> s[k] == LINE_FEED,
    ensures
        lf_prefix_len(s) == k,
    decreases s.len(),
{
    if k == 0 {
    } else {
        let sub = s.subrange(1, s.len() as int);
        assert forall|i: int| 0 <= i < k - 1 implies sub[i] != LINE_FEED by {
            assert(sub[i] == s[i + 1]);
        }
        if k - 1 < sub.len() {
            assert(sub[k - 1] == s[k]);
        }
        lemma_lf_prefix_is(sub, k - 1);
    }
}

/// A byte as the fallback writer renders it: printable bytes unchanged,
/// every other byte the placeholder glyph.
pub open spec fn fallback_byte(b: u8) -> u8 {
    if is_printable(b) {
        b
    } else {
        PLACEHOLDER
    }
}

/// How many cells the fallback writer fills when it starts at `col`: the
/// text up to its first line feed, clipped at the right edge.
pub open spec fn fallback_count(text: Seq<u8>, col: int) -> int {
    if lf_prefix_len(text) <= BUFFER_WIDTH as int - col {
        lf_prefix_len(text)
    } else {
        BUFFER_WIDTH as int - col
    }
}

/// The surface after the fallback writer runs: unchanged for out-of-range
/// coordinates; otherwise the rendered prefix placed left to right from
/// `(row, col)`, every other cell untouched.
pub open spec fn fallback_write(
    g: Seq<ScreenChar>,
    text: Seq<u8>,
    row: int,
    col: int,
    code: ColorCode,
) -> Seq<ScreenChar> {
    if !(0 <= row < BUFFER_HEIGHT as int && 0 <= col < BUFFER_WIDTH as int) {
        g
    } else {
        Seq::new(
            g.len(),
            |i: int|
                if flat_index(row, col) <= i < flat_index(row, col) + fallback_count(text, col) {
                    ScreenChar {
                        ascii_character: fallback_byte(text[i - flat_index(row, col)]),
                        color_code: code,
                    }
                } else {
                    g[i]
                },
        )
    }
}

/// The reentrant fallback writer: writes `text` starting at `(row, col)`
/// with the given attribute, touching no cursor state and taking no lock.
/// Out-of-range coordinates are a no-op; a line feed ends the call early;
/// writing stops at the right edge of the surface. Every store is a single
/// volatile cell write at the flat offset `row * BUFFER_WIDTH + col`.
pub fn write_at(buffer: &mut Buffer, text: &[u8], row: usize, col: usize, code: ColorCode)
    requires
        old(buffer).wf(),
    ensures
        final(buffer).wf(),
        final(buffer)@ == fallback_write(old(buffer)@, text@, row as int, col as int, code),
{
    if row >= BUFFER_HEIGHT || col >= BUFFER_WIDTH {
        return ;
    }
    let ghost g0 = buffer@;
    let ghost n = fallback_count(text@, col as int);
    let base = row * BUFFER_WIDTH + col;
    let mut k: usize = 0;
    loop
        invariant_except_break
            buffer.wf(),
            g0.len() == (BUFFER_HEIGHT * BUFFER_WIDTH) as int,
            row < BUFFER_HEIGHT,
            col < BUFFER_WIDTH,
            base == row * BUFFER_WIDTH + col,
            0 <= k <= text@.len(),
            col + k <= BUFFER_WIDTH,
            n == fallback_count(text@, col as int),
            forall|i: int| 0 <= i < k ==> text@[i] != LINE_FEED,
            forall|j: int|
                base <= j < base + k ==> buffer@[j] == (ScreenChar {
                    ascii_character: fallback_byte(text@[j - base]),
                    color_code: code,
                }),
            forall|j: int| 0 <= j < g0.len() && !(base <= j < base + k) ==> buffer@[j] == g0[j],
        ensures
            buffer.wf(),
            g0.len() == (BUFFER_HEIGHT * BUFFER_WIDTH) as int,
            base == row * BUFFER_WIDTH + col,
            forall|j: int|
                base <= j < base + n ==> buffer@[j] == (ScreenChar {
                    ascii_character: fallback_byte(text@[j - base]),
                    color_code: code,
                }),
            forall|j: int| 0 <= j < g0.len() && !(base <= j < base + n) ==> buffer@[j] == g0[j],
        decreases text@.len() - k,
    {
        if k >= text.len() {
            proof {
                lemma_lf_prefix_is(text@, k as int);
            }
            break ;
        }
        let b = text[k];
        if b == LINE_FEED {
            proof {
                lemma_lf_prefix_is(text@, k as int);
            }
            break ;
        }
        if col + k >= BUFFER_WIDTH {
            proof {
                lemma_lf_prefix(text@);
                assert(lf_prefix_len(text@) >= k);
            }
            break ;
        }
        let rendered = if 0x20 <= b && b <= 0x7e {
            b
        } else {
            PLACEHOLDER
        };
        buffer.write_flat(base + k, ScreenChar { ascii_character: rendered, color_code: code });
        k = k + 1;
    }
    proof {
        assert(buffer@ =~= fallback_write(g0, text@, row as int, col as int, code));
    }
}

} // verus!
