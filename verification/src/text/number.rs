//! Reading and writing decimal numbers.
use crate::text::chars::{is_digit_char, to_chars};
use vstd::prelude::*;

verus! {

/// The value of an ASCII digit.
pub open spec fn digit_value(c: char) -> nat {
    (c as u32 - '0' as u32) as nat
}

/// Whether every character is an ASCII digit.
pub open spec fn all_digits(s: Seq<char>) -> bool {
    forall|i: int| 0 <= i < s.len() ==> crate::text::chars::is_digit(#[trigger] s[i])
}

/// The number that a run of digits stands for.
pub open spec fn digits_value(s: Seq<char>) -> nat
    decreases s.len(),
{
    if s.len() == 0 {
        0
    } else {
        digits_value(s.drop_last()) * 10 + digit_value(s.last())
    }
}

/// The digits of a number text after an optional plus sign.
pub open spec fn number_digits(s: Seq<char>) -> Seq<char> {
    if s.len() > 0 && s[0] == '+' {
        s.subrange(1, s.len() as int)
    } else {
        s
    }
}

/// The number a text stands for: an optional plus sign and at least one digit, with a
/// value of at most `max`.
pub open spec fn parsed_number(s: Seq<char>, max: nat) -> Option<nat> {
    let d = number_digits(s);
    if d.len() > 0 && all_digits(d) && digits_value(d) <= max {
        Some(digits_value(d))
    } else {
        None
    }
}

proof fn lemma_prefix_value(d: Seq<char>, i: int)
    requires
        0 <= i <= d.len(),
        all_digits(d),
    ensures
        digits_value(d.take(i)) <= digits_value(d),
    decreases d.len() - i,
{
    if i == d.len() {
        assert(d.take(i) =~= d);
    } else {
        lemma_prefix_value(d, i + 1);
        assert(d.take(i + 1).drop_last() =~= d.take(i));
        let a = digits_value(d.take(i));
        let b = digit_value(d[i]);
        assert(digits_value(d.take(i + 1)) == a * 10 + b);
        assert(a <= a * 10 + b);
    }
}

/// Reads a number of at most `max`.
fn parse_up_to(s: &str, max: u64) -> (r: Option<u64>)
    ensures
        match r {
            Some(n) => parsed_number(s@, max as nat) == Some(n as nat),
            None => parsed_number(s@, max as nat) is None,
        },
{
    let x = to_chars(s);
    let start: usize = if x.len() > 0 && x[0] == '+' {
        1
    } else {
        0
    };
    let ghost d = number_digits(s@);
    proof {
        assert(d =~= s@.subrange(start as int, s@.len() as int));
    }
    if start == x.len() {
        return None;
    }
    let mut n: u64 = 0;
    let mut i: usize = start;
    proof {
        assert(d.take(0) =~= Seq::<char>::empty());
    }
    while i < x.len()
        invariant
            x@ == s@,
            start <= i <= x@.len(),
            d == s@.subrange(start as int, s@.len() as int),
            d == number_digits(s@),
            forall|j: int| 0 <= j < i - start ==> crate::text::chars::is_digit(#[trigger] d[j]),
            n == digits_value(d.take(i - start)),
            n <= max,
        decreases x@.len() - i,
    {
        let c = x[i];
        proof {
            assert(d[i - start] == c);
        }
        if !is_digit_char(c) {
            return None;
        }
        let v: u64 = (c as u32 - '0' as u32) as u64;
        proof {
            let k = i - start;
            assert(d.take(k + 1).drop_last() =~= d.take(k));
            assert(d.take(k + 1).last() == c);
            assert(digits_value(d.take(k + 1)) == n * 10 + v);
            if n as nat * 10 + v > max {
                if all_digits(d) {
                    lemma_prefix_value(d, k + 1);
                }
                assert(parsed_number(s@, max as nat) is None);
            }
        }
        if n > max / 10 {
            return None;
        }
        if v > max || n * 10 > max - v {
            return None;
        }
        n = n * 10 + v;
        i = i + 1;
    }
    proof {
        assert(d.take(d.len() as int) =~= d);
    }
    Some(n)
}

/// Reads a number that fits in `u32`.
pub fn parse_u32(s: &str) -> (r: Option<u32>)
    ensures
        match r {
            Some(n) => parsed_number(s@, u32::MAX as nat) == Some(n as nat),
            None => parsed_number(s@, u32::MAX as nat) is None,
        },
{
    match parse_up_to(s, u32::MAX as u64) {
        Some(n) => Some(n as u32),
        None => None,
    }
}

/// Reads a number that fits in `usize`.
pub fn parse_usize(s: &str) -> (r: Option<usize>)
    ensures
        match r {
            Some(n) => parsed_number(s@, usize::MAX as nat) == Some(n as nat),
            None => parsed_number(s@, usize::MAX as nat) is None,
        },
{
    match parse_up_to(s, usize::MAX as u64) {
        Some(n) => Some(n as usize),
        None => None,
    }
}

/// The number a text stands for: an optional sign and at least one digit, with a value that
/// fits in `i64`.
pub open spec fn parsed_integer(s: Seq<char>) -> Option<int> {
    if s.len() > 0 && s[0] == '-' {
        let d = s.subrange(1, s.len() as int);
        if d.len() > 0 && all_digits(d) && digits_value(d) <= i64::MAX + 1 {
            Some(-(digits_value(d) as int))
        } else {
            None
        }
    } else {
        match parsed_number(s, i64::MAX as nat) {
            Some(n) => Some(n as int),
            None => None,
        }
    }
}

/// Reads a number that fits in `i64`.
pub fn parse_i64(s: &str) -> (r: Option<i64>)
    ensures
        match r {
            Some(n) => parsed_integer(s@) == Some(n as int),
            None => parsed_integer(s@) is None,
        },
{
    let x = to_chars(s);
    if x.len() == 0 || x[0] != '-' {
        return match parse_up_to(s, i64::MAX as u64) {
            Some(n) => Some(n as i64),
            None => None,
        };
    }
    let digits = crate::text::chars::from_range(x.as_slice(), 1, x.len());
    if x.len() > 1 && x[1] == '+' {
        proof {
            assert(s@.subrange(1, s@.len() as int)[0] == '+');
        }
        return None;
    }
    proof {
        assert(digits@ =~= s@.subrange(1, s@.len() as int));
        assert(number_digits(digits@) == digits@);
    }
    match parse_up_to(digits.as_str(), 0x8000_0000_0000_0000) {
        Some(n) => {
            if n == 0x8000_0000_0000_0000 {
                Some(i64::MIN)
            } else {
                Some(-(n as i64))
            }
        },
        None => None,
    }
}

/// The decimal digit that stands for `n`.
pub open spec fn digit_char(n: nat) -> char {
    (('0' as u32 + n) as u32) as char
}

/// The decimal form of a number.
pub open spec fn decimal(n: nat) -> Seq<char>
    decreases n,
{
    if n < 10 {
        seq![digit_char(n)]
    } else {
        decimal(n / 10).push(digit_char(n % 10))
    }
}

/// The decimal form of an integer, with a minus sign where it is negative.
pub open spec fn decimal_int(n: int) -> Seq<char> {
    if n < 0 {
        seq!['-'] + decimal((-n) as nat)
    } else {
        decimal(n as nat)
    }
}

/// Appends the decimal form of `n`.
fn push_decimal(out: &mut String, n: u128)
    ensures
        final(out)@ == old(out)@ + decimal(n as nat),
    decreases n,
{
    let ghost start = out@;
    if n >= 10 {
        push_decimal(out, n / 10);
    }
    let d: u8 = (n % 10) as u8 + 48;
    out.push(d as char);
    proof {
        assert(out@ =~= start + decimal(n as nat));
    }
}

/// Writes a number in decimal.
pub fn format_u64(n: u64) -> (r: String)
    ensures
        r@ == decimal(n as nat),
{
    let mut out: String = String::new();
    push_decimal(&mut out, n as u128);
    proof {
        assert(out@ =~= decimal(n as nat));
    }
    out
}

/// Writes a number in decimal.
pub fn format_u128(n: u128) -> (r: String)
    ensures
        r@ == decimal(n as nat),
{
    let mut out: String = String::new();
    push_decimal(&mut out, n);
    proof {
        assert(out@ =~= decimal(n as nat));
    }
    out
}

/// Writes a number in decimal.
pub fn format_usize(n: usize) -> (r: String)
    ensures
        r@ == decimal(n as nat),
{
    format_u64(n as u64)
}

/// Writes an integer in decimal.
pub fn format_i64(n: i64) -> (r: String)
    ensures
        r@ == decimal_int(n as int),
{
    if n >= 0 {
        return format_u64(n as u64);
    }
    let mut out: String = String::new();
    out.push('-');
    let ghost start = out@;
    let magnitude: u64 = (-(n + 1)) as u64 + 1;
    push_decimal(&mut out, magnitude as u128);
    proof {
        assert(start =~= seq!['-']);
    }
    out
}

/// The hexadecimal digit of a number below sixteen.
pub open spec fn hex_char(n: nat) -> char {
    if n < 10 {
        ('0' as u32 + n) as char
    } else {
        ('a' as u32 + n - 10) as char
    }
}

/// The last `width` hexadecimal digits of a number.
pub open spec fn hex(n: nat, width: nat) -> Seq<char>
    decreases width,
{
    if width == 0 {
        Seq::empty()
    } else {
        hex(n / 16, (width - 1) as nat).push(hex_char(n % 16))
    }
}

fn hex_digit(n: u64) -> (r: char)
    requires
        n < 16,
    ensures
        r == hex_char(n as nat),
{
    if n < 10 {
        ('0' as u8 + n as u8) as char
    } else {
        ('a' as u8 + (n - 10) as u8) as char
    }
}

/// Writes a number with sixteen hexadecimal digits.
pub fn format_hex(n: u64) -> (r: String)
    ensures
        r@ == hex(n as nat, 16),
{
    let mut reversed: Vec<char> = Vec::new();
    let mut rest: u64 = n;
    let mut left: usize = 16;
    let ghost mut tail: Seq<char> = Seq::empty();
    proof {
        assert(hex(n as nat, 16) + tail =~= hex(n as nat, 16));
    }
    while left > 0
        invariant
            left <= 16,
            reversed@.len() + left == 16,
            tail.len() == reversed@.len(),
            forall|i: int|
                0 <= i < tail.len() ==> #[trigger] tail[i] == reversed@[tail.len() - 1 - i],
            hex(n as nat, 16) == hex(rest as nat, left as nat) + tail,
        decreases left,
    {
        let c = hex_digit(rest % 16);
        let ghost before = tail;
        reversed.push(c);
        proof {
            tail = seq![c] + before;
            assert(hex(rest as nat, left as nat) + before =~= hex(
                (rest / 16) as nat,
                (left - 1) as nat,
            ) + tail);
        }
        rest = rest / 16;
        left = left - 1;
    }
    let mut out: Vec<char> = Vec::new();
    while reversed.len() > 0
        invariant
            reversed@.len() + out@.len() == 16,
            tail.len() == 16,
            forall|i: int|
                0 <= i < reversed@.len() ==> #[trigger] reversed@[i] == tail[15 - i],
            forall|i: int| 0 <= i < out@.len() ==> #[trigger] out@[i] == tail[i],
        decreases reversed@.len(),
    {
        match reversed.pop() {
            Some(c) => {
                out.push(c);
            },
            None => {},
        }
    }
    proof {
        assert(out@ =~= tail);
        assert(hex(n as nat, 16) =~= tail);
    }
    crate::text::chars::from_chars(out.as_slice())
}

/// Reading back the decimal form of a number gives the number.
pub proof fn law_decimal_reads_back(n: nat, max: nat)
    requires
        n <= max,
    ensures
        parsed_number(decimal(n), max) == Some(n),
{
    lemma_decimal(n);
    assert(decimal(n)[0] != '+');
}

/// A number is written in digits, which have its value.
pub proof fn lemma_decimal(n: nat)
    ensures
        all_digits(decimal(n)),
        decimal(n).len() > 0,
        digits_value(decimal(n)) == n,
    decreases n,
{
    if n >= 10 {
        lemma_decimal(n / 10);
        assert(decimal(n).drop_last() =~= decimal(n / 10));
    } else {
        assert(decimal(n).drop_last() =~= Seq::<char>::empty());
        assert(digits_value(Seq::<char>::empty()) == 0);
    }
}

} // verus!
