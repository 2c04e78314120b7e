//! Writing numbers as decimal and hexadecimal digits.

use vstd::prelude::*;

verus! {

/// The hexadecimal digit of `d` (below 16), in lower or upper case.
pub open spec fn hex_digit(d: nat, upper: bool) -> char {
    if d < 10 {
        (('0' as u32) + d) as char
    } else if upper {
        (('A' as u32) + (d - 10)) as char
    } else {
        (('a' as u32) + (d - 10)) as char
    }
}

/// The hexadecimal digits of `n`, most significant first, without leading
/// zeros (a single "0" for zero).
pub open spec fn hex_digits(n: nat, upper: bool) -> Seq<char>
    decreases n,
{
    if n < 16 {
        seq![hex_digit(n, upper)]
    } else {
        hex_digits(n / 16, upper).push(hex_digit(n % 16, upper))
    }
}

/// `width` minus `len` zero characters, or none when `len` reaches `width`.
pub open spec fn zeros(len: nat, width: nat) -> Seq<char> {
    Seq::new(if len < width { (width - len) as nat } else { 0 }, |i: int| '0')
}

/// The hexadecimal digits of `n` padded with zeros to at least `width`
/// characters, as `{:0width$x}` (or `X`) formats it.
pub open spec fn hex_padded(n: nat, width: nat, upper: bool) -> Seq<char> {
    zeros(hex_digits(n, upper).len(), width) + hex_digits(n, upper)
}

/// The decimal digits of `n`, most significant first, as `{}` formats it.
pub open spec fn dec_digits(n: nat) -> Seq<char>
    decreases n,
{
    if n < 10 {
        seq![(('0' as u32) + n) as char]
    } else {
        dec_digits(n / 10).push((('0' as u32) + (n % 10)) as char)
    }
}

fn hex_digit_exec(d: u8, upper: bool) -> (c: char)
    requires
        d < 16,
    ensures
        c == hex_digit(d as nat, upper),
{
    if d < 10 {
        ((48u8 + d) as char)
    } else if upper {
        ((65u8 + (d - 10)) as char)
    } else {
        ((97u8 + (d - 10)) as char)
    }
}

/// Appends the hexadecimal digits of `n`.
pub fn push_hex_digits(out: &mut Vec<char>, n: usize, upper: bool)
    ensures
        final(out)@ == old(out)@ + hex_digits(n as nat, upper),
    decreases n,
{
    if n >= 16 {
        push_hex_digits(out, n / 16, upper);
    }
    let d = (n % 16) as u8;
    let c = hex_digit_exec(d, upper);
    out.push(c);
    proof {
        if n < 16 {
            assert(hex_digits(n as nat, upper) == seq![hex_digit(n as nat, upper)]);
        }
    }
}

proof fn lemma_hex_digits_len(n: nat, upper: bool)
    ensures
        hex_digits(n, upper).len() >= 1,
        n < 16 ==> hex_digits(n, upper).len() == 1,
        16 <= n < 256 ==> hex_digits(n, upper).len() == 2,
    decreases n,
{
    if n >= 16 {
        lemma_hex_digits_len(n / 16, upper);
    }
}

/// Appends the hexadecimal digits of `n`, padded with zeros to `width`.
pub fn push_hex_padded(out: &mut Vec<char>, n: usize, width: usize, upper: bool)
    ensures
        final(out)@ == old(out)@ + hex_padded(n as nat, width as nat, upper),
{
    let mut digits: Vec<char> = Vec::new();
    push_hex_digits(&mut digits, n, upper);
    assert(digits@ =~= hex_digits(n as nat, upper));
    let ghost o0 = out@;
    let mut k: usize = digits.len();
    while k < width
        invariant
            digits.len() <= k <= width || (k == digits.len() && k >= width),
            out@ == o0 + Seq::new((k - digits@.len()) as nat, |i: int| '0'),
        decreases width - k,
    {
        out.push('0');
        k = k + 1;
        assert(out@ =~= o0 + Seq::new((k - digits@.len()) as nat, |i: int| '0'));
    }
    assert(Seq::new((k - digits@.len()) as nat, |i: int| '0') =~= zeros(digits@.len(), width as nat));
    let mut j: usize = 0;
    let ghost o1 = out@;
    while j < digits.len()
        invariant
            j <= digits@.len(),
            out@ == o1 + digits@.subrange(0, j as int),
        decreases digits.len() - j,
    {
        out.push(digits[j]);
        j = j + 1;
    }
    assert(digits@.subrange(0, j as int) =~= digits@);
}

/// Appends the decimal digits of `n`.
pub fn push_dec_digits(out: &mut Vec<char>, n: usize)
    ensures
        final(out)@ == old(out)@ + dec_digits(n as nat),
    decreases n,
{
    if n >= 10 {
        push_dec_digits(out, n / 10);
    }
    let d = (n % 10) as u8;
    let c = (48u8 + d) as char;
    out.push(c);
    proof {
        if n < 10 {
            assert(dec_digits(n as nat) == seq![(('0' as u32) + n) as char]);
        }
    }
}

/// A byte written with two hexadecimal digits takes exactly two characters.
pub proof fn lemma_byte_hex_two_digits(b: u8, upper: bool)
    ensures
        hex_padded(b as nat, 2, upper).len() == 2,
{
    lemma_hex_digits_len(b as nat, upper);
}

} // verus!
