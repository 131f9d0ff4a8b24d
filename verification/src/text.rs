//! Decimal rendering of integers and space padding, as `format!` writes
//! them for `{}` and `{:<w}`.

use crate::std_ops::push_char;
use vstd::prelude::*;

verus! {

/// The ASCII digit for `d < 10`.
pub open spec fn digit_char(d: nat) -> char {
    (48 + d) as char
}

/// The decimal digits of `n`, most significant first, without leading
/// zeros (`"0"` for zero).
pub open spec fn decimal(n: nat) -> Seq<char>
    decreases n,
{
    if n < 10 {
        seq![digit_char(n)]
    } else {
        decimal(n / 10).push(digit_char(n % 10))
    }
}

/// `s` followed by spaces up to `width` characters (unchanged when it is
/// already that long).
pub open spec fn pad_right(s: Seq<char>, width: nat) -> Seq<char> {
    if s.len() >= width {
        s
    } else {
        s + Seq::new((width - s.len()) as nat, |i: int| ' ')
    }
}

/// Appends the decimal digits of `n` to `s`.
pub fn push_decimal(s: &mut String, n: usize)
    ensures
        final(s)@ == old(s)@ + decimal(n as nat),
    decreases n,
{
    if n >= 10 {
        push_decimal(s, n / 10);
    }
    let d = (n % 10) as u8;
    let c = (48u8 + d) as char;
    push_char(s, c);
    assert(c == digit_char((n % 10) as nat));
    assert(s@ =~= old(s)@ + decimal(n as nat));
}

/// Appends `t`, then spaces until at least `width` characters were added.
pub fn push_padded(s: &mut String, t: &str, width: usize)
    ensures
        final(s)@ == old(s)@ + pad_right(t@, width as nat),
{
    s.append(t);
    let len = t.unicode_len();
    let mut i: usize = len;
    while i < width
        invariant
            len == t@.len(),
            len <= i,
            i <= width || i == len,
            s@ == old(s)@ + t@ + Seq::new((i - len) as nat, |j: int| ' '),
        decreases width - i,
    {
        push_char(s, ' ');
        i = i + 1;
        assert(s@ =~= old(s)@ + t@ + Seq::new((i - len) as nat, |j: int| ' '));
    }
    assert(s@ =~= old(s)@ + pad_right(t@, width as nat));
}

/// The lowercase hexadecimal digit for `d < 16`.
pub open spec fn hex_digit(d: nat) -> char {
    if d < 10 {
        (48 + d) as char
    } else {
        (87 + d) as char
    }
}

/// The two lowercase hexadecimal digits of a byte.
pub open spec fn hex_byte(b: u8) -> Seq<char> {
    seq![hex_digit((b / 16) as nat), hex_digit((b % 16) as nat)]
}

/// Appends the two lowercase hexadecimal digits of `b` to `s`.
pub fn push_hex_byte(s: &mut String, b: u8)
    ensures
        final(s)@ == old(s)@ + hex_byte(b),
{
    let hi = b / 16;
    let lo = b % 16;
    let c_hi = if hi < 10 {
        (48u8 + hi) as char
    } else {
        (87u8 + hi) as char
    };
    let c_lo = if lo < 10 {
        (48u8 + lo) as char
    } else {
        (87u8 + lo) as char
    };
    push_char(s, c_hi);
    push_char(s, c_lo);
    assert(s@ =~= old(s)@ + hex_byte(b));
}

} // verus!
