//! Verified rendering of numbers into strings: decimal (signed and
//! unsigned) and upper-case hexadecimal, as the diagnostics and the
//! disassembler print them.

use vstd::prelude::*;

verus! {

broadcast use crate::isa::lemma_field_bounds;

/// Relies on `String::push`: appends exactly the one character.
pub assume_specification[ std::string::String::push ](s: &mut String, ch: char)
    ensures
        final(s)@ == old(s)@.push(ch),
;

/// The decimal digit character of `d`.
pub open spec fn dec_digit(d: int) -> char
    recommends
        0 <= d < 10,
{
    if d == 0 {
        '0'
    } else if d == 1 {
        '1'
    } else if d == 2 {
        '2'
    } else if d == 3 {
        '3'
    } else if d == 4 {
        '4'
    } else if d == 5 {
        '5'
    } else if d == 6 {
        '6'
    } else if d == 7 {
        '7'
    } else if d == 8 {
        '8'
    } else {
        '9'
    }
}

/// The upper-case hexadecimal digit character of `d`.
pub open spec fn hex_digit(d: int) -> char
    recommends
        0 <= d < 16,
{
    if d < 10 {
        dec_digit(d)
    } else if d == 10 {
        'A'
    } else if d == 11 {
        'B'
    } else if d == 12 {
        'C'
    } else if d == 13 {
        'D'
    } else if d == 14 {
        'E'
    } else {
        'F'
    }
}

/// The decimal rendering of a non-negative number, without leading zeros.
pub open spec fn spec_udec(n: int) -> Seq<char>
    recommends
        n >= 0,
    decreases n,
{
    if n < 10 {
        seq![dec_digit(n)]
    } else {
        spec_udec(n / 10).push(dec_digit(n % 10))
    }
}

/// The decimal rendering of a number, with a leading minus when negative.
pub open spec fn spec_idec(n: int) -> Seq<char> {
    if n < 0 {
        seq!['-'] + spec_udec(-n)
    } else {
        spec_udec(n)
    }
}

/// The four upper-case hexadecimal digits of a 16-bit word.
pub open spec fn spec_hex4(x: u16) -> Seq<char> {
    seq![
        hex_digit((x >> 12) as int),
        hex_digit(((x >> 8) & 0xF) as int),
        hex_digit(((x >> 4) & 0xF) as int),
        hex_digit((x & 0xF) as int),
    ]
}

/// The two upper-case hexadecimal digits of a byte-sized value.
pub open spec fn spec_hex2(x: u16) -> Seq<char>
    recommends
        x < 256,
{
    seq![hex_digit(((x >> 4) & 0xF) as int), hex_digit((x & 0xF) as int)]
}

fn dec_digit_char(d: u16) -> (c: char)
    requires
        d < 10,
    ensures
        c == dec_digit(d as int),
{
    if d == 0 {
        '0'
    } else if d == 1 {
        '1'
    } else if d == 2 {
        '2'
    } else if d == 3 {
        '3'
    } else if d == 4 {
        '4'
    } else if d == 5 {
        '5'
    } else if d == 6 {
        '6'
    } else if d == 7 {
        '7'
    } else if d == 8 {
        '8'
    } else {
        '9'
    }
}

fn hex_digit_char(d: u16) -> (c: char)
    requires
        d < 16,
    ensures
        c == hex_digit(d as int),
{
    if d < 10 {
        dec_digit_char(d)
    } else if d == 10 {
        'A'
    } else if d == 11 {
        'B'
    } else if d == 12 {
        'C'
    } else if d == 13 {
        'D'
    } else if d == 14 {
        'E'
    } else {
        'F'
    }
}

/// Append the decimal rendering of `n`.
pub fn push_udec16(s: &mut String, n: u16)
    ensures
        final(s)@ == old(s)@ + spec_udec(n as int),
    decreases n,
{
    if n < 10 {
        s.push(dec_digit_char(n));
        proof {
            assert(s@ =~= old(s)@ + spec_udec(n as int));
        }
    } else {
        push_udec16(s, n / 10);
        s.push(dec_digit_char(n % 10));
        proof {
            assert(s@ =~= old(s)@ + spec_udec(n as int));
        }
    }
}

/// Append the decimal rendering of `n`.
pub fn push_udec_usize(s: &mut String, n: usize)
    ensures
        final(s)@ == old(s)@ + spec_udec(n as int),
    decreases n,
{
    if n < 10 {
        s.push(dec_digit_char(n as u16));
        proof {
            assert(s@ =~= old(s)@ + spec_udec(n as int));
        }
    } else {
        push_udec_usize(s, n / 10);
        s.push(dec_digit_char((n % 10) as u16));
        proof {
            assert(s@ =~= old(s)@ + spec_udec(n as int));
        }
    }
}

/// Append the signed decimal rendering of `n`.
pub fn push_idec16(s: &mut String, n: i16)
    ensures
        final(s)@ == old(s)@ + spec_idec(n as int),
{
    if n < 0 {
        s.push('-');
        let neg: i32 = -(n as i32);
        proof {
            assert(0 < neg <= 0x8000);
        }
        push_udec16(s, neg as u16);
        proof {
            assert(s@ =~= old(s)@ + spec_idec(n as int));
        }
    } else {
        push_udec16(s, n as u16);
    }
}

/// Append the four hexadecimal digits of `x`.
pub fn push_hex4(s: &mut String, x: u16)
    ensures
        final(s)@ == old(s)@ + spec_hex4(x),
{
    proof {
        assert((x >> 12) < 16) by (bit_vector);
    }
    s.push(hex_digit_char(x >> 12));
    s.push(hex_digit_char((x >> 8) & 0xF));
    s.push(hex_digit_char((x >> 4) & 0xF));
    s.push(hex_digit_char(x & 0xF));
    proof {
        assert(s@ =~= old(s)@ + spec_hex4(x));
    }
}

/// Append the two hexadecimal digits of `x`.
pub fn push_hex2(s: &mut String, x: u16)
    ensures
        final(s)@ == old(s)@ + spec_hex2(x),
{
    s.push(hex_digit_char((x >> 4) & 0xF));
    s.push(hex_digit_char(x & 0xF));
    proof {
        assert(s@ =~= old(s)@ + spec_hex2(x));
    }
}

/// Walk of the source up to `offset`, counting 1-based line and column.
pub open spec fn spec_pos_from(source: Seq<char>, i: int, offset: int, line: usize, col: usize) -> (
    usize,
    usize,
)
    decreases source.len() - i,
{
    if i >= offset || i >= source.len() || i < 0 {
        (line, col)
    } else if source[i] == '\n' {
        spec_pos_from(source, i + 1, offset, line.wrapping_add(1), 1)
    } else {
        spec_pos_from(source, i + 1, offset, line, col.wrapping_add(1))
    }
}

/// The 1-based (line, column) of a character offset in the source.
pub open spec fn spec_pos(source: Seq<char>, offset: int) -> (usize, usize) {
    spec_pos_from(source, 0, offset, 1, 1)
}

/// Convert a character offset to 1-based (line, column).
pub fn chars_pos(chars: &Vec<char>, offset: usize) -> (r: (usize, usize))
    ensures
        r == spec_pos(chars@, offset as int),
{
    let n = chars.len();
    let mut i: usize = 0;
    let mut line: usize = 1;
    let mut col: usize = 1;
    while i < n && i < offset
        invariant
            i <= n,
            n == chars@.len(),
            spec_pos_from(chars@, i as int, offset as int, line, col) == spec_pos(
                chars@,
                offset as int,
            ),
        decreases n - i,
    {
        if chars[i] == '\n' {
            line = line.wrapping_add(1);
            col = 1;
        } else {
            col = col.wrapping_add(1);
        }
        i = i + 1;
    }
    (line, col)
}

} // verus!
