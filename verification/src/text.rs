//! Building human-readable text: zero-padded decimal and hexadecimal numbers.

use vstd::prelude::*;

verus! {

/// The ASCII character for a digit value 0..=15 (upper-case for 10..=15).
pub open spec fn digit_char(d: int) -> char {
    if d < 10 {
        (48 + d) as char
    } else {
        (55 + d) as char
    }
}

/// Digits of `n` in the given base, most significant first, without leading zeros
/// ("0" for zero).
pub open spec fn digits(n: nat, base: nat) -> Seq<char>
    recommends
        base >= 2,
    decreases n,
{
    if n < base || base < 2 {
        seq![digit_char(n as int)]
    } else {
        proof {
            assert(n / base < n) by (nonlinear_arith)
                requires
                    base >= 2,
                    n >= base,
            ;
        }
        digits(n / base, base).push(digit_char((n % base) as int))
    }
}

/// `s` preceded by as many '0' characters as needed to reach `width` characters.
pub open spec fn zero_pad(s: Seq<char>, width: nat) -> Seq<char> {
    if s.len() >= width {
        s
    } else {
        Seq::new((width - s.len()) as nat, |i: int| '0') + s
    }
}

/// Decimal text of `n`, zero-padded to `width` characters.
pub open spec fn fmt_dec(n: nat, width: nat) -> Seq<char> {
    zero_pad(digits(n, 10), width)
}

/// Upper-case hexadecimal text of `n`, zero-padded to `width` characters.
pub open spec fn fmt_hex(n: nat, width: nat) -> Seq<char> {
    zero_pad(digits(n, 16), width)
}

/// Appends one character to a `String` (`String::push`).
#[verifier::external_body]
pub(crate) fn push_char(s: &mut String, c: char)
    ensures
        final(s)@ == old(s)@.push(c),
{
    s.push(c);
}

/// Appends a string slice to a `String`.
pub(crate) fn push_str(s: &mut String, t: &str)
    ensures
        final(s)@ == old(s)@ + t@,
{
    s.append(t);
}

pub(crate) fn digit_to_char(d: u64) -> (c: char)
    requires
        d < 16,
    ensures
        c == digit_char(d as int),
{
    if d < 10 {
        ((48 + d) as u8) as char
    } else {
        ((55 + d) as u8) as char
    }
}

fn push_digits(s: &mut String, n: u64, base: u64)
    requires
        base == 10 || base == 16,
    ensures
        final(s)@ == old(s)@ + digits(n as nat, base as nat),
    decreases n,
{
    if n >= base {
        push_digits(s, n / base, base);
    }
    push_char(s, digit_to_char(n % base));
    proof {
        if n < base {
            assert(n % base == n);
        }
    }
}

fn count_digits(n: u64, base: u64) -> (r: u64)
    requires
        base == 10 || base == 16,
    ensures
        r == digits(n as nat, base as nat).len(),
        r <= n + 1,
    decreases n,
{
    if n < base {
        1
    } else {
        let r = count_digits(n / base, base);
        r + 1
    }
}

/// Appends the decimal text of `n`, zero-padded to at least `width` characters.
pub(crate) fn push_dec(s: &mut String, n: u64, width: usize)
    ensures
        final(s)@ == old(s)@ + fmt_dec(n as nat, width as nat),
{
    push_padded(s, n, width, 10);
}

/// Appends the upper-case hexadecimal text of `n`, zero-padded to at least `width` characters.
pub(crate) fn push_hex(s: &mut String, n: u64, width: usize)
    ensures
        final(s)@ == old(s)@ + fmt_hex(n as nat, width as nat),
{
    push_padded(s, n, width, 16);
}

fn push_padded(s: &mut String, n: u64, width: usize, base: u64)
    requires
        base == 10 || base == 16,
    ensures
        final(s)@ == old(s)@ + zero_pad(digits(n as nat, base as nat), width as nat),
{
    let len = count_digits(n, base);
    let w = width as u64;
    let ghost start = s@;
    if len < w {
        let mut i: u64 = len;
        while i < w
            invariant
                len <= i <= w,
                w == width,
                s@ == start + Seq::new((i - len) as nat, |j: int| '0'),
            decreases w - i,
        {
            push_char(s, '0');
            i = i + 1;
            assert(s@ =~= start + Seq::new((i - len) as nat, |j: int| '0'));
        }
    }
    let ghost mid = s@;
    push_digits(s, n, base);
    proof {
        let d = digits(n as nat, base as nat);
        if len < width {
            assert(s@ =~= start + (Seq::new((width - d.len()) as nat, |j: int| '0') + d));
        } else {
            assert(s@ =~= start + d);
        }
    }
}

} // verus!
