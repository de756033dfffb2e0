use vstd::prelude::*;
use vstd::slice::slice_subrange;

use crate::color::ColorCode;
use crate::fallback::{fallback_write, write_at};
use crate::surface::{Buffer, ScreenChar};

verus! {

/// Character budget for the file name on the first diagnostic row.
pub const FILE_CHAR_LIMIT: usize = 40;

/// Column where the fixed label starts on the second diagnostic row.
pub const LABEL_COLUMN: usize = 40;

/// Column where the decimal line number starts on the second diagnostic row.
pub const NUMBER_COLUMN: usize = 46;

/// Smallest line number that is not rendered.
pub const LINE_LIMIT: u32 = 10000;

/// Byte length of the longest prefix of `s` that keeps at most `budget`
/// characters and ends on a character boundary: a continuation byte always
/// stays with its leading byte, and a leading byte is taken only while
/// budget remains.
pub open spec fn trunc_len(s: Seq<u8>, budget: int) -> int
    decreases s.len(),
{
    if s.len() == 0 {
        0
    } else if vstd::utf8::is_continuation_byte(s[0]) {
        1 + trunc_len(s.subrange(1, s.len() as int), budget)
    } else if budget <= 0 {
        0
    } else {
        1 + trunc_len(s.subrange(1, s.len() as int), budget - 1)
    }
}

/// The truncation point never passes the end of the text.
pub proof fn lemma_trunc_len_bounds(s: Seq<u8>, budget: int)
    ensures
        0 <= trunc_len(s, budget) <= s.len(),
    decreases s.len(),
{
    if s.len() == 0 {
    } else {
        lemma_trunc_len_bounds(s.subrange(1, s.len() as int), budget);
        lemma_trunc_len_bounds(s.subrange(1, s.len() as int), budget - 1);
    }
}

/// The byte length of the longest prefix of `file` that holds at most
/// `FILE_CHAR_LIMIT` characters and ends at a character boundary.
fn truncate_file(file: &[u8]) -> (l: usize)
    ensures
        l as int == trunc_len(file@, FILE_CHAR_LIMIT as int),
        l <= file@.len(),
{
    let n = file.len();
    let mut l: usize = 0;
    let mut used: usize = 0;
    proof {
        assert(file@.subrange(0, n as int) =~= file@);
    }
    loop
        invariant_except_break
            n == file@.len(),
            0 <= l <= n,
            0 <= used <= FILE_CHAR_LIMIT,
            trunc_len(file@, FILE_CHAR_LIMIT as int) == l + trunc_len(
                file@.subrange(l as int, n as int),
                FILE_CHAR_LIMIT as int - used,
            ),
        ensures
            n == file@.len(),
            0 <= l <= n,
            trunc_len(file@, FILE_CHAR_LIMIT as int) == l,
        decreases n - l,
    {
        let ghost rest = file@.subrange(l as int, n as int);
        if l >= n {
            break ;
        }
        let b = file[l];
        proof {
            assert(rest[0] == file@[l as int]);
            assert(rest.subrange(1, rest.len() as int) =~= file@.subrange(l as int + 1, n as int));
            lemma_trunc_len_bounds(rest.subrange(1, rest.len() as int), FILE_CHAR_LIMIT as int - used);
        }
        if b >= 0x80 && b < 0xc0 {
            l = l + 1;
        } else if used >= FILE_CHAR_LIMIT {
            break ;
        } else {
            used = used + 1;
            l = l + 1;
        }
    }
    l
}

/// The bytes of the fixed label rendered before the line number.
pub open spec fn label_bytes() -> Seq<u8> {
    seq![0x4cu8, 0x69u8, 0x6eu8, 0x65u8, 0x3au8, 0x20u8]
}

fn make_label() -> (v: Vec<u8>)
    ensures
        v@ == label_bytes(),
{
    let mut v: Vec<u8> = Vec::new();
    v.push(0x4c);
    v.push(0x69);
    v.push(0x6e);
    v.push(0x65);
    v.push(0x3a);
    v.push(0x20);
    proof {
        assert(v@ =~= label_bytes());
    }
    v
}

/// The decimal digit bytes of `n`, most significant first, with no leading
/// zeros (the single digit `0` for zero).
pub open spec fn dec_digits(n: int) -> Seq<u8>
    decreases n,
{
    if n < 10 {
        seq![(0x30 + n) as u8]
    } else {
        dec_digits(n / 10).push((0x30 + n % 10) as u8)
    }
}

fn push_digits(n: u32, out: &mut Vec<u8>)
    ensures
        final(out)@ == old(out)@ + dec_digits(n as int),
    decreases n,
{
    if n < 10 {
        out.push(0x30 + (n as u8));
        proof {
            assert(out@ =~= old(out)@ + dec_digits(n as int));
        }
    } else {
        push_digits(n / 10, out);
        out.push(0x30 + ((n % 10) as u8));
        proof {
            assert(out@ =~= old(out)@ + dec_digits(n as int));
        }
    }
}

/// The surface after a diagnostic is rendered: the file name truncated to at
/// most `FILE_CHAR_LIMIT` characters at a character boundary on row 0 and,
/// when the line number lies below `LINE_LIMIT`, the fixed label at
/// `(1, LABEL_COLUMN)` followed by the decimal line number at
/// `(1, NUMBER_COLUMN)`.
pub open spec fn diagnostic_write(
    g: Seq<ScreenChar>,
    file: Seq<u8>,
    line: u32,
    code: ColorCode,
) -> Seq<ScreenChar> {
    let g1 = fallback_write(
        g,
        file.subrange(0, trunc_len(file, FILE_CHAR_LIMIT as int)),
        0,
        0,
        code,
    );
    if line < LINE_LIMIT {
        let g2 = fallback_write(g1, label_bytes(), 1, LABEL_COLUMN as int, code);
        fallback_write(g2, dec_digits(line as int), 1, NUMBER_COLUMN as int, code)
    } else {
        g1
    }
}

/// Renders a fault diagnostic through the fallback writer alone: the
/// truncated file name on the first row and, for line numbers below
/// `LINE_LIMIT`, the label and the decimal line number on the second row.
/// Never splits a multi-byte character and never takes a lock.
pub fn render_diagnostic(buffer: &mut Buffer, file: &[u8], line: u32, code: ColorCode)
    requires
        old(buffer).wf(),
    ensures
        final(buffer).wf(),
        final(buffer)@ == diagnostic_write(old(buffer)@, file@, line, code),
{
    let l = truncate_file(file);
    let prefix = slice_subrange(file, 0, l);
    write_at(buffer, prefix, 0, 0, code);
    if line < LINE_LIMIT {
        let label = make_label();
        write_at(buffer, label.as_slice(), 1, LABEL_COLUMN, code);
        let mut digits: Vec<u8> = Vec::new();
        push_digits(line, &mut digits);
        proof {
            assert(digits@ =~= dec_digits(line as int));
        }
        write_at(buffer, digits.as_slice(), 1, NUMBER_COLUMN, code);
    }
}

} // verus!
