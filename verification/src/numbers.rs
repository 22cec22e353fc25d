//! Right-aligned decimal line numbers.

use vstd::prelude::*;

verus! {

pub open spec fn digit_char(d: nat) -> char {
    if d == 0 { '0' } else if d == 1 { '1' } else if d == 2 { '2' } else if d == 3 { '3' }
    else if d == 4 { '4' } else if d == 5 { '5' } else if d == 6 { '6' } else if d == 7 { '7' }
    else if d == 8 { '8' } else { '9' }
}

/// The decimal digits of `n`, most significant first.
pub open spec fn decimal(n: nat) -> Seq<char>
    decreases n,
{
    if n < 10 {
        seq![digit_char(n)]
    } else {
        decimal(n / 10).push(digit_char(n % 10))
    }
}

pub open spec fn spaces(n: int) -> Seq<char> {
    Seq::new(if n > 0 { n as nat } else { 0 }, |i: int| ' ')
}

/// `n` right-aligned in a field of `width` characters (`format!("{n:>width$}")`).
pub open spec fn right_aligned(n: nat, width: int) -> Seq<char> {
    spaces(width - decimal(n).len()) + decimal(n)
}

fn digit(d: usize) -> (c: char)
    requires
        d < 10,
    ensures
        c == digit_char(d as nat),
{
    if d == 0 { '0' } else if d == 1 { '1' } else if d == 2 { '2' } else if d == 3 { '3' }
    else if d == 4 { '4' } else if d == 5 { '5' } else if d == 6 { '6' } else if d == 7 { '7' }
    else if d == 8 { '8' } else { '9' }
}

/// Appends the decimal digits of `n`.
pub fn push_decimal(out: &mut String, n: usize)
    ensures
        final(out)@ == old(out)@ + decimal(n as nat),
    decreases n,
{
    if n >= 10 {
        push_decimal(out, n / 10);
    }
    crate::text::push_char(out, digit(n % 10));
    assert(final(out)@ =~= old(out)@ + decimal(n as nat));
}

/// The number of decimal digits of `n`.
pub fn decimal_len(n: usize) -> (len: usize)
    ensures
        len == decimal(n as nat).len(),
    decreases n,
{
    if n >= 10 {
        proof { lemma_decimal_len_bound((n / 10) as nat); }
        decimal_len(n / 10) + 1
    } else {
        1
    }
}

pub proof fn lemma_decimal_len_bound(n: nat)
    ensures
        1 <= decimal(n).len() <= n + 1,
    decreases n,
{
    if n >= 10 {
        lemma_decimal_len_bound(n / 10);
    }
}

/// Appends `n` right-aligned in a field of `width` characters.
pub fn push_right_aligned(out: &mut String, n: usize, width: usize)
    ensures
        final(out)@ == old(out)@ + right_aligned(n as nat, width as int),
{
    let len = decimal_len(n);
    let ghost start = out@;
    let mut k: usize = len;
    while k < width
        invariant
            len <= k,
            k <= width || len > width,
            len > width ==> k == len,
            out@ == start + spaces(k - len),
        decreases width - k,
    {
        crate::text::push_char(out, ' ');
        assert(spaces(k + 1 - len) =~= spaces(k - len).push(' '));
        k = k + 1;
    }
    if len > width {
        assert(k == len);
        assert(spaces(k - len) =~= spaces(width - len));
    } else {
        assert(k == width);
    }
    push_decimal(out, n);
    assert(final(out)@ =~= old(out)@ + right_aligned(n as nat, width as int));
}

} // verus!
