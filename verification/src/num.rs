//! Decimal numerals for the client ids carried in frames: formatting a
//! number as digits, and the parse the broker applies to an id field,
//! which accepts an optional leading `+`, requires at least one digit,
//! and fails on any other character or on overflow.

use vstd::prelude::*;

verus! {

/// The character for decimal digit `d` (junk outside 0..=9).
pub open spec fn digit_char(d: int) -> char {
    if d == 0 {
        '0'
    } else if d == 1 {
        '1'
    } else if d == 2 {
        '2'
    } else if d == 3 {
        '3'
    } else if d == 4 {
        '4'
    } else if d == 5 {
        '5'
    } else if d == 6 {
        '6'
    } else if d == 7 {
        '7'
    } else if d == 8 {
        '8'
    } else {
        '9'
    }
}

/// The numeric value of a decimal digit character, `-1` for any other.
pub open spec fn digit_val(c: char) -> int {
    if c == '0' {
        0
    } else if c == '1' {
        1
    } else if c == '2' {
        2
    } else if c == '3' {
        3
    } else if c == '4' {
        4
    } else if c == '5' {
        5
    } else if c == '6' {
        6
    } else if c == '7' {
        7
    } else if c == '8' {
        8
    } else if c == '9' {
        9
    } else {
        -1
    }
}

/// Whether `c` is a decimal digit.
pub open spec fn is_digit(c: char) -> bool {
    digit_val(c) >= 0
}

/// Whether every character of `s` is a decimal digit.
pub open spec fn all_digits(s: Seq<char>) -> bool {
    forall|i: int| 0 <= i < s.len() ==> is_digit(s[i])
}

/// Decimal numeral of `n`, most significant digit first.
pub open spec fn dec_digits(n: int) -> Seq<char>
    decreases n,
{
    if n < 10 {
        seq![digit_char(n)]
    } else {
        dec_digits(n / 10).push(digit_char(n % 10))
    }
}

/// Value of a digit string (digits only; junk otherwise).
pub open spec fn dec_val(s: Seq<char>) -> int
    decreases s.len(),
{
    if s.len() == 0 {
        0
    } else {
        dec_val(s.drop_last()) * 10 + digit_val(s.last())
    }
}

/// What the id parse yields on `s`: an optional leading `+`, then one
/// or more digits whose value fits in 32 bits; anything else fails.
pub open spec fn parse_u32_spec(s: Seq<char>) -> Option<u32> {
    let digits = if s.len() > 0 && s[0] == '+' {
        s.subrange(1, s.len() as int)
    } else {
        s
    };
    if digits.len() > 0 && all_digits(digits) && dec_val(digits) <= u32::MAX {
        Some(dec_val(digits) as u32)
    } else {
        None
    }
}

/// The exec character for decimal digit `d`.
fn digit_of(d: u32) -> (c: char)
    requires
        d < 10,
    ensures
        c == digit_char(d as int),
{
    if d == 0 {
        '0'
    } else if d == 1 {
        '1'
    } else if d == 2 {
        '2'
    } else if d == 3 {
        '3'
    } else if d == 4 {
        '4'
    } else if d == 5 {
        '5'
    } else if d == 6 {
        '6'
    } else if d == 7 {
        '7'
    } else if d == 8 {
        '8'
    } else {
        '9'
    }
}

/// The exec value of a digit character, `None` for any other.
fn digit_value(c: char) -> (r: Option<u32>)
    ensures
        match r {
            Some(d) => digit_val(c) == d as int && d < 10,
            None => !is_digit(c),
        },
{
    if c == '0' {
        Some(0)
    } else if c == '1' {
        Some(1)
    } else if c == '2' {
        Some(2)
    } else if c == '3' {
        Some(3)
    } else if c == '4' {
        Some(4)
    } else if c == '5' {
        Some(5)
    } else if c == '6' {
        Some(6)
    } else if c == '7' {
        Some(7)
    } else if c == '8' {
        Some(8)
    } else if c == '9' {
        Some(9)
    } else {
        None
    }
}

/// Append the decimal numeral of `n` to `out`.
pub fn push_dec(n: u32, out: &mut Vec<char>)
    ensures
        final(out)@ == old(out)@ + dec_digits(n as int),
    decreases n,
{
    if n >= 10 {
        push_dec(n / 10, out);
    }
    let ghost mid = out@;
    out.push(digit_of(n % 10));
    proof {
        if n < 10 {
            assert(out@ =~= old(out)@ + dec_digits(n as int));
        } else {
            assert(mid == old(out)@ + dec_digits(n as int / 10));
            assert(out@ =~= old(out)@ + dec_digits(n as int));
        }
    }
}

/// The decimal numeral of `n`.
pub fn u32_to_dec(n: u32) -> (r: Vec<char>)
    ensures
        r@ == dec_digits(n as int),
{
    let mut r: Vec<char> = Vec::new();
    push_dec(n, &mut r);
    proof {
        assert(r@ =~= dec_digits(n as int));
    }
    r
}

/// Digit strings have non-negative value.
proof fn lemma_dec_val_nonneg(s: Seq<char>)
    requires
        forall|i: int| 0 <= i < s.len() ==> is_digit(s[i]),
    ensures
        dec_val(s) >= 0,
    decreases s.len(),
{
    if s.len() > 0 {
        lemma_dec_val_nonneg(s.drop_last());
    }
}

/// A digit string is worth at least any of its prefixes.
proof fn lemma_dec_val_prefix(s: Seq<char>, a: int, i: int, b: int)
    requires
        0 <= a <= i <= b <= s.len(),
        forall|j: int| a <= j < b ==> is_digit(s[j]),
    ensures
        dec_val(s.subrange(a, i)) <= dec_val(s.subrange(a, b)),
    decreases b - i,
{
    if i < b {
        lemma_dec_val_prefix(s, a, i, b - 1);
        let p = s.subrange(a, b - 1);
        let q = s.subrange(a, b);
        assert(q.drop_last() =~= p);
        assert(q.last() == s[b - 1]);
        assert(forall|j: int| 0 <= j < p.len() ==> is_digit(p[j]));
        lemma_dec_val_nonneg(p);
        assert(dec_val(q) == dec_val(p) * 10 + digit_val(s[b - 1]));
        assert(dec_val(p) * 10 >= dec_val(p));
    }
}

/// Parse `s` as the id fields are parsed: optional `+`, then digits.
pub fn parse_u32(s: &[char]) -> (r: Option<u32>)
    ensures
        r == parse_u32_spec(s@),
{
    let n = s.len();
    let start: usize = if n > 0 && s[0] == '+' {
        1
    } else {
        0
    };
    let ghost digits = if s@.len() > 0 && s@[0] == '+' {
        s@.subrange(1, s@.len() as int)
    } else {
        s@
    };
    proof {
        assert(digits =~= s@.subrange(start as int, n as int));
    }
    if start >= n {
        return None;
    }
    let mut acc: u64 = 0;
    let mut i: usize = start;
    while i < n
        invariant
            start <= i <= n,
            n == s@.len(),
            if s@.len() > 0 && s@[0] == '+' {
                start == 1
            } else {
                start == 0
            },
            digits =~= s@.subrange(start as int, n as int),
            digits == (if s@.len() > 0 && s@[0] == '+' {
                s@.subrange(1, s@.len() as int)
            } else {
                s@
            }),
            forall|j: int| start <= j < i ==> is_digit(s@[j]),
            acc == dec_val(s@.subrange(start as int, i as int)),
            acc <= u32::MAX,
        decreases n - i,
    {
        let c = s[i];
        match digit_value(c) {
            None => {
                proof {
                    assert(digits[i - start] == s@[i as int]);
                    assert(!is_digit(digits[i - start]));
                    assert(!all_digits(digits));
                }
                return None;
            },
            Some(d) => {
                let next = acc * 10 + d as u64;
                proof {
                    let p = s@.subrange(start as int, i as int);
                    let q = s@.subrange(start as int, i + 1);
                    assert(q.drop_last() =~= p);
                    assert(q.last() == s@[i as int]);
                    assert(next == dec_val(q));
                }
                if next > u32::MAX as u64 {
                    proof {
                        if all_digits(digits) {
                            assert forall|j: int| start <= j < n implies is_digit(s@[j]) by {
                                assert(is_digit(digits[j - start]));
                            }
                            lemma_dec_val_prefix(s@, start as int, i + 1, n as int);
                            assert(dec_val(digits) >= dec_val(s@.subrange(start as int, i + 1)));
                            assert(dec_val(digits) > u32::MAX);
                        }
                    }
                    return None;
                }
                acc = next;
            },
        }
        i += 1;
    }
    proof {
        assert(digits =~= s@.subrange(start as int, n as int));
        assert forall|j: int| 0 <= j < digits.len() implies is_digit(digits[j]) by {
            assert(is_digit(s@[j + start]));
        }
        assert(all_digits(digits));
        assert(digits.len() > 0);
        assert(dec_val(digits) == acc);
    }
    Some(acc as u32)
}

/// The numeral's characters are digits, and the first is not `+`.
proof fn lemma_dec_digits_are_digits(n: int)
    requires
        n >= 0,
    ensures
        dec_digits(n).len() > 0,
        forall|i: int| 0 <= i < dec_digits(n).len() ==> is_digit(dec_digits(n)[i]),
        dec_digits(n)[0] != '+',
    decreases n,
{
    if n < 10 {
        assert(is_digit(digit_char(n)));
        assert(digit_char(n) != '+');
    } else {
        lemma_dec_digits_are_digits(n / 10);
        let d = dec_digits(n / 10);
        assert(dec_digits(n) == d.push(digit_char(n % 10)));
        assert(is_digit(digit_char(n % 10)));
        assert(dec_digits(n)[0] == d[0]);
    }
}

/// The numeral of `n` is worth `n`.
proof fn lemma_dec_val_of_digits(n: int)
    requires
        n >= 0,
    ensures
        dec_val(dec_digits(n)) == n,
    decreases n,
{
    if n < 10 {
        let s = dec_digits(n);
        assert(s == seq![digit_char(n)]);
        assert(s.drop_last() =~= Seq::<char>::empty());
        assert(s.last() == digit_char(n));
        assert(dec_val(s.drop_last()) == 0);
        assert(dec_val(s) == digit_val(digit_char(n)));
    } else {
        lemma_dec_val_of_digits(n / 10);
        let d = dec_digits(n / 10);
        assert(dec_digits(n).drop_last() =~= d);
        assert(dec_digits(n).last() == digit_char(n % 10));
        assert(dec_val(dec_digits(n)) == n / 10 * 10 + n % 10);
    }
}

/// Formatting then parsing an id gives it back.
///
/// Law: the decimal numeral the broker writes into a frame is read back
/// as the same id by the id parse.
pub proof fn lemma_dec_round_trip(n: u32)
    ensures
        parse_u32_spec(dec_digits(n as int)) == Some(n),
{
    lemma_dec_digits_are_digits(n as int);
    lemma_dec_val_of_digits(n as int);
    assert(all_digits(dec_digits(n as int)));
}

/// No digit string holds a delimiter character.
pub proof fn lemma_dec_digits_no_delims(n: int)
    requires
        n >= 0,
    ensures
        forall|i: int| 0 <= i < dec_digits(n).len() ==> {
            &&& dec_digits(n)[i] != '@'
            &&& dec_digits(n)[i] != '#'
            &&& dec_digits(n)[i] != '&'
            &&& dec_digits(n)[i] != ':'
        },
{
    lemma_dec_digits_are_digits(n);
    assert forall|i: int| 0 <= i < dec_digits(n).len() implies {
        &&& dec_digits(n)[i] != '@'
        &&& dec_digits(n)[i] != '#'
        &&& dec_digits(n)[i] != '&'
        &&& dec_digits(n)[i] != ':'
    } by {
        assert(is_digit(dec_digits(n)[i]));
    }
}

} // verus!
