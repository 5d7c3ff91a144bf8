//! Unsigned numbers as text.
use crate::text;
use vstd::prelude::*;
use vstd::utf8::*;

verus! {

broadcast use vstd::string::group_string_axioms;

/// The value of a digit, where it is one in this radix.
pub open spec fn digit_value(c: char, radix: nat) -> Option<nat> {
    let v: int = if '0' <= c <= '9' {
        c as int - '0' as int
    } else if 'a' <= c <= 'z' {
        c as int - 'a' as int + 10
    } else if 'A' <= c <= 'Z' {
        c as int - 'A' as int + 10
    } else {
        radix as int
    };
    if v < radix {
        Some(v as nat)
    } else {
        None
    }
}

/// The value of a row of digits; of no digits it is zero.
pub open spec fn digits_value(s: Seq<char>, radix: nat) -> Option<nat>
    decreases s.len(),
{
    if s.len() == 0 {
        Some(0)
    } else {
        match (digits_value(s.drop_last(), radix), digit_value(s.last(), radix)) {
            (Some(front), Some(d)) => Some(front * radix + d),
            _ => None,
        }
    }
}

/// The number that a text writes: one digit or more, behind a plus sign or
/// without one, of a value up to `max`.
pub open spec fn parse_unsigned(s: Seq<char>, radix: nat, max: nat) -> Option<nat> {
    let digits = if s.len() > 0 && s[0] == '+' {
        s.skip(1)
    } else {
        s
    };
    if digits.len() == 0 {
        None
    } else {
        match digits_value(digits, radix) {
            Some(v) => if v <= max {
                Some(v)
            } else {
                None
            },
            None => None,
        }
    }
}

/// The value of a digit.
fn digit_of(c: char, radix: u64) -> (r: Option<u64>)
    requires
        radix == 10 || radix == 16,
    ensures
        match r {
            Some(d) => digit_value(c, radix as nat) == Some(d as nat) && d < radix,
            None => digit_value(c, radix as nat) is None,
        },
{
    let v: u64 = if '0' <= c && c <= '9' {
        c as u64 - '0' as u64
    } else if 'a' <= c && c <= 'z' {
        c as u64 - 'a' as u64 + 10
    } else if 'A' <= c && c <= 'Z' {
        c as u64 - 'A' as u64 + 10
    } else {
        radix
    };
    if v < radix {
        Some(v)
    } else {
        None
    }
}

/// Reads the number that a text writes.
pub fn parse_number(s: &[char], radix: u64, max: u64) -> (r: Option<u64>)
    requires
        radix == 10 || radix == 16,
    ensures
        match r {
            Some(v) => parse_unsigned(s@, radix as nat, max as nat) == Some(v as nat) && v <= max,
            None => parse_unsigned(s@, radix as nat, max as nat) is None,
        },
{
    let start: usize = if s.len() > 0 && s[0] == '+' {
        1
    } else {
        0
    };
    let ghost digits = s@.skip(start as int);
    assert(start == 0 ==> digits =~= s@);
    if start == s.len() {
        return None;
    }
    let mut i: usize = start;
    let mut acc: u64 = 0;
    let mut over: bool = false;
    while i < s.len()
        invariant
            radix == 10 || radix == 16,
            start <= i <= s@.len(),
            digits == s@.skip(start as int),
            digits_value(digits, radix as nat) is None ==> parse_unsigned(
                s@,
                radix as nat,
                max as nat,
            ) is None,
            !over ==> acc <= max,
            digits_value(digits.take(i - start), radix as nat) is Some,
            !over ==> digits_value(digits.take(i - start), radix as nat) == Some(acc as nat),
            over ==> digits_value(digits.take(i - start), radix as nat)->0 > max,
        decreases s@.len() - i,
    {
        let d = match digit_of(s[i], radix) {
            Some(d) => d,
            None => {
                proof {
                    let part = digits.take(i - start + 1);
                    assert(part.last() == s@[i as int]);
                    digits_value_of_prefix(digits, i - start + 1, radix as nat);
                }
                return None;
            },
        };
        let ghost front = digits_value(digits.take(i - start), radix as nat)->0;
        proof {
            let part = digits.take(i - start + 1);
            assert(part.drop_last() =~= digits.take(i - start));
            assert(part.last() == s@[i as int]);
            assert(digits_value(part, radix as nat) == Some(front * (radix as nat) + d as nat));
            if radix == 10 {
                assert(front * (radix as nat) == front * 10);
                assert(acc * radix == acc * 10);
            } else {
                assert(front * (radix as nat) == front * 16);
                assert(acc * radix == acc * 16);
            }
        }
        if !over {
            let next: u128 = acc as u128 * radix as u128 + d as u128;
            if next > max as u128 {
                over = true;
            } else {
                acc = next as u64;
            }
        }
        i += 1;
    }
    assert(digits.take(i - start) =~= digits);
    if over {
        None
    } else {
        Some(acc)
    }
}

/// Where the front of a text is no row of digits, the text is none.
proof fn digits_value_of_prefix(s: Seq<char>, n: int, radix: nat)
    requires
        0 <= n <= s.len(),
        digits_value(s.take(n), radix) is None,
    ensures
        digits_value(s, radix) is None,
    decreases s.len() - n,
{
    if n == s.len() {
        assert(s.take(n) =~= s);
    } else {
        assert(s.take(n + 1).drop_last() =~= s.take(n));
        digits_value_of_prefix(s, n + 1, radix);
    }
}

/// Reads a decimal `u64`.
pub fn parse_u64(s: &str) -> (r: Option<u64>)
    ensures
        match r {
            Some(v) => parse_unsigned(s@, 10, u64::MAX as nat) == Some(v as nat),
            None => parse_unsigned(s@, 10, u64::MAX as nat) is None,
        },
{
    let chars = text::chars_of(s);
    parse_number(&chars, 10, u64::MAX)
}

/// Reads a decimal `u16`.
pub fn parse_u16(s: &str) -> (r: Option<u16>)
    ensures
        match r {
            Some(v) => parse_unsigned(s@, 10, u16::MAX as nat) == Some(v as nat),
            None => parse_unsigned(s@, 10, u16::MAX as nat) is None,
        },
{
    let chars = text::chars_of(s);
    match parse_number(&chars, 10, u16::MAX as u64) {
        Some(v) => Some(v as u16),
        None => None,
    }
}

/// Reads a decimal `usize`.
pub fn parse_usize(s: &str) -> (r: Option<usize>)
    ensures
        match r {
            Some(v) => parse_unsigned(s@, 10, usize::MAX as nat) == Some(v as nat),
            None => parse_unsigned(s@, 10, usize::MAX as nat) is None,
        },
{
    let chars = text::chars_of(s);
    match parse_number(&chars, 10, usize::MAX as u64) {
        Some(v) => Some(v as usize),
        None => None,
    }
}

// ---------------------------------------------------------------------------
// Writing
// ---------------------------------------------------------------------------

/// The digit of a value below sixteen, in upper case.
pub open spec fn digit_char(d: nat) -> char {
    if d < 10 {
        (('0' as u32) + d) as char
    } else {
        (('A' as u32) + (d - 10)) as char
    }
}

/// The digits of a number, the most significant first.
pub open spec fn digits_of(n: nat, radix: nat) -> Seq<char>
    decreases n,
    when radix > 1
{
    if n < radix {
        seq![digit_char(n)]
    } else {
        proof {
            assert(n / radix < n) by (nonlinear_arith)
                requires
                    n >= radix,
                    radix > 1,
            ;
        }
        digits_of(n / radix, radix).push(digit_char(n % radix))
    }
}

/// A number in decimal.
pub open spec fn decimal(n: nat) -> Seq<char> {
    digits_of(n, 10)
}

/// A number in hexadecimal, in upper case.
pub open spec fn hex(n: nat) -> Seq<char> {
    digits_of(n, 16)
}

/// The digit of a value below sixteen.
pub fn char_of_digit(d: u64) -> (r: char)
    requires
        d < 16,
    ensures
        r == digit_char(d as nat),
{
    if d == 0 {
        '0'
    } else if d == 1 {
        '1'
    } else if d == 2 {
        '2'
    } else if d == 3 {
        '3'
    } else if d == 4 {
        '4'
    } else if d == 5 {
        '5'
    } else if d == 6 {
        '6'
    } else if d == 7 {
        '7'
    } else if d == 8 {
        '8'
    } else if d == 9 {
        '9'
    } else if d == 10 {
        'A'
    } else if d == 11 {
        'B'
    } else if d == 12 {
        'C'
    } else if d == 13 {
        'D'
    } else if d == 14 {
        'E'
    } else {
        'F'
    }
}

/// Appends the digits of a number.
pub fn push_number(out: &mut String, n: u64, radix: u64)
    requires
        radix == 10 || radix == 16,
    ensures
        final(out)@ == old(out)@ + digits_of(n as nat, radix as nat),
    decreases n,
{
    let ghost before = out@;
    if n >= radix {
        push_number(out, n / radix, radix);
    }
    out.push(char_of_digit(n % radix));
    assert(out@ =~= before + digits_of(n as nat, radix as nat));
}

/// A number in decimal.
pub fn decimal_text(n: u64) -> (r: String)
    ensures
        r@ == decimal(n as nat),
{
    let mut out = String::new();
    push_number(&mut out, n, 10);
    assert(out@ =~= decimal(n as nat));
    out
}

// ---------------------------------------------------------------------------
// Laws
// ---------------------------------------------------------------------------

/// Digits have the value they are written for, and are plain digits.
pub proof fn digits_have_value(n: nat, radix: nat)
    requires
        radix == 10 || radix == 16,
    ensures
        digits_of(n, radix).len() > 0,
        digits_value(digits_of(n, radix), radix) == Some(n),
        forall|i: int|
            0 <= i < digits_of(n, radix).len() ==> ('0' <= #[trigger] digits_of(n, radix)[i] <= '9'
                || 'A' <= digits_of(n, radix)[i] <= 'F'),
    decreases n,
{
    let s = digits_of(n, radix);
    if n < radix {
        assert(s.drop_last() =~= Seq::<char>::empty());
        assert(digits_value(s.drop_last(), radix) == Some(0nat));
    } else {
        if radix == 10 {
            digits_have_value(n / 10, 10);
        } else {
            digits_have_value(n / 16, 16);
        }
        assert(s.drop_last() =~= digits_of(n / radix, radix));
        assert(digit_value(digit_char(n % radix), radix) == Some(n % radix));
    }
}

/// A number that is written is read back, in decimal and in hexadecimal.
pub proof fn number_reads_back(n: nat, radix: nat, max: nat)
    requires
        radix == 10 || radix == 16,
        n <= max,
    ensures
        parse_unsigned(digits_of(n, radix), radix, max) == Some(n),
{
    digits_have_value(n, radix);
    assert(digits_of(n, radix)[0] != '+');
}

} // verus!
