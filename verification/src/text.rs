//! Character widths on a terminal, decimal rendering of numbers, and the two
//! std text primitives the library builds strings with.

use vstd::prelude::*;

verus! {

/// `char::from_u32` gives the character of a Unicode scalar value (at most
/// `0x10FFFF` and outside the surrogates `0xD800..=0xDFFF`), whose code is the
/// argument, and `None` for any other number.
pub assume_specification[ core::char::from_u32 ](i: u32) -> (r: Option<char>)
    ensures
        r is Some <==> (i <= 0x10FFFF && !(0xD800 <= i && i <= 0xDFFF)),
        r matches Some(c) ==> c as u32 == i,
;

/// `String::push` appends one character.
pub assume_specification[ String::push ](s: &mut String, ch: char)
    ensures
        final(s)@ == old(s)@.push(ch),
;

/// Code points drawn two cells wide: the main East Asian Wide and Fullwidth ranges.
pub open spec fn is_wide(cp: int) -> bool {
    ||| 0x1100 <= cp <= 0x115F
    ||| 0x2E80 <= cp <= 0xA4CF
    ||| 0xAC00 <= cp <= 0xD7A3
    ||| 0xF900 <= cp <= 0xFAFF
    ||| 0xFE30 <= cp <= 0xFE4F
    ||| 0xFF00 <= cp <= 0xFF60
    ||| 0xFFE0 <= cp <= 0xFFE6
}

/// Terminal width of one character: 2 for wide code points, 1 otherwise.
pub open spec fn width_of(c: char) -> nat {
    if is_wide(c as u32 as int) {
        2
    } else {
        1
    }
}

/// Terminal width of a character sequence: the sum of its characters' widths.
pub open spec fn width_of_seq(s: Seq<char>) -> nat
    decreases s.len(),
{
    if s.len() == 0 {
        0
    } else {
        width_of_seq(s.drop_last()) + width_of(s.last())
    }
}

/// Width of one character on a terminal.
pub fn char_width(c: char) -> (r: usize)
    ensures
        r == width_of(c),
{
    let cp = c as u32;
    let wide = (0x1100 <= cp && cp <= 0x115F) || (0x2E80 <= cp && cp <= 0xA4CF) || (0xAC00 <= cp
        && cp <= 0xD7A3) || (0xF900 <= cp && cp <= 0xFAFF) || (0xFE30 <= cp && cp <= 0xFE4F) || (
    0xFF00 <= cp && cp <= 0xFF60) || (0xFFE0 <= cp && cp <= 0xFFE6);
    if wide {
        2
    } else {
        1
    }
}

/// A string is between one and two cells wide per character; ASCII-only
/// strings are exactly one cell per character.
pub proof fn lemma_width_bounds(s: Seq<char>)
    ensures
        s.len() <= width_of_seq(s) <= 2 * s.len(),
        (forall|i: int| 0 <= i < s.len() ==> (#[trigger] s[i]) as u32 <= 0x7F) ==> width_of_seq(s)
            == s.len(),
    decreases s.len(),
{
    if s.len() > 0 {
        lemma_width_bounds(s.drop_last());
        if forall|i: int| 0 <= i < s.len() ==> (#[trigger] s[i]) as u32 <= 0x7F {
            assert forall|i: int| 0 <= i < s.drop_last().len() implies (#[trigger] s.drop_last()[i]) as u32
                <= 0x7F by {
                assert(s.drop_last()[i] == s[i]);
            }
            assert(s.last() == s[s.len() - 1]);
            assert(s.last() as u32 <= 0x7F);
            assert(width_of(s.last()) == 1);
            assert(width_of_seq(s.drop_last()) == s.drop_last().len());
            assert(width_of_seq(s) == width_of_seq(s.drop_last()) + width_of(s.last()));
        }
    }
}

/// The width of two strings put together is the sum of their widths.
pub proof fn lemma_width_additive(a: Seq<char>, b: Seq<char>)
    ensures
        width_of_seq(a + b) == width_of_seq(a) + width_of_seq(b),
    decreases b.len(),
{
    if b.len() == 0 {
        assert(a + b =~= a);
    } else {
        lemma_width_additive(a, b.drop_last());
        assert((a + b).drop_last() =~= a + b.drop_last());
        assert((a + b).last() == b.last());
    }
}

/// Width of a string on a terminal (wide characters count 2, others 1).
pub fn display_width(s: &str) -> (r: usize)
    requires
        2 * s@.len() <= usize::MAX,
    ensures
        r == width_of_seq(s@),
{
    let n = s.unicode_len();
    let mut total: usize = 0;
    let mut i: usize = 0;
    while i < n
        invariant
            n == s@.len(),
            2 * n <= usize::MAX,
            i <= n,
            total == width_of_seq(s@.take(i as int)),
        decreases n - i,
    {
        proof {
            lemma_width_bounds(s@.take(i as int));
            assert(s@.take(i + 1).drop_last() =~= s@.take(i as int));
        }
        total = total + char_width(s.get_char(i));
        i = i + 1;
    }
    assert(s@.take(n as int) =~= s@);
    total
}

/// The decimal digit character for `d < 10`.
pub open spec fn digit_char(d: int) -> char {
    if d == 0 {
        '0'
    } else if d == 1 {
        '1'
    } else if d == 2 {
        '2'
    } else if d == 3 {
        '3'
    } else if d == 4 {
        '4'
    } else if d == 5 {
        '5'
    } else if d == 6 {
        '6'
    } else if d == 7 {
        '7'
    } else if d == 8 {
        '8'
    } else {
        '9'
    }
}

fn digit(d: u32) -> (c: char)
    requires
        d < 10,
    ensures
        c == digit_char(d as int),
{
    if d == 0 {
        '0'
    } else if d == 1 {
        '1'
    } else if d == 2 {
        '2'
    } else if d == 3 {
        '3'
    } else if d == 4 {
        '4'
    } else if d == 5 {
        '5'
    } else if d == 6 {
        '6'
    } else if d == 7 {
        '7'
    } else if d == 8 {
        '8'
    } else {
        '9'
    }
}

/// Decimal representation of `n`, without leading zeros.
pub open spec fn decimal(n: nat) -> Seq<char>
    decreases n,
{
    if n < 10 {
        seq![digit_char(n as int)]
    } else {
        decimal(n / 10).push(digit_char((n % 10) as int))
    }
}

/// Ten to the power `k`.
pub open spec fn pow10(k: nat) -> nat
    decreases k,
{
    if k == 0 {
        1
    } else {
        10 * pow10((k - 1) as nat)
    }
}

/// A number below `10^k` has at most `k` decimal digits (and always at least one).
pub proof fn lemma_decimal_len(n: nat, k: nat)
    requires
        n < pow10(k),
        k >= 1,
    ensures
        1 <= decimal(n).len() <= k,
    decreases n,
{
    if n >= 10 {
        let p = pow10((k - 1) as nat);
        assert(k >= 2) by {
            if k == 1 {
                assert(pow10(1) == 10 * pow10(0));
            }
        }
        assert(n / 10 < p) by (nonlinear_arith)
            requires
                n < 10 * p,
        ;
        lemma_decimal_len(n / 10, (k - 1) as nat);
    }
}

/// A `u32` has at most ten decimal digits.
pub proof fn lemma_u32_decimal_len(n: u32)
    ensures
        1 <= decimal(n as nat).len() <= 10,
{
    reveal_with_fuel(pow10, 11);
    assert(pow10(10) == 10000000000);
    lemma_decimal_len(n as nat, 10);
}

/// Appends the decimal representation of `n` to `s`.
pub fn push_decimal(s: &mut String, n: u32)
    ensures
        final(s)@ == old(s)@ + decimal(n as nat),
    decreases n,
{
    if n >= 10 {
        push_decimal(s, n / 10);
    }
    let d = digit(n % 10);
    s.push(d);
    assert(old(s)@ + decimal(n as nat) =~= s@);
}

/// `prefix` followed by the decimal representation of `n` (as in `"SCORE 7"`).
pub fn labeled_number(prefix: &str, n: u32) -> (r: String)
    ensures
        r@ == prefix@ + decimal(n as nat),
{
    let mut s = String::from_str(prefix);
    push_decimal(&mut s, n);
    s
}

} // verus!
