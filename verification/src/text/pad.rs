//! Padding and repeating.
use crate::text::number;
use crate::text::number::format_usize;
use vstd::prelude::*;
use vstd::string::*;

verus! {

/// A character repeated.
pub open spec fn repeated(c: char, n: nat) -> Seq<char> {
    Seq::new(n, |i: int| c)
}

/// How many characters a text lacks to the given width.
pub open spec fn lack(s: Seq<char>, width: nat) -> nat {
    if s.len() < width {
        (width - s.len()) as nat
    } else {
        0
    }
}

/// The text with spaces after it up to the given width.
pub open spec fn padded_right(s: Seq<char>, width: nat) -> Seq<char> {
    s + repeated(' ', lack(s, width))
}

/// The text with spaces before it up to the given width.
pub open spec fn padded_left(s: Seq<char>, width: nat) -> Seq<char> {
    repeated(' ', lack(s, width)) + s
}

/// A character repeated.
pub fn repeat(c: char, n: usize) -> (r: String)
    ensures
        r@ == repeated(c, n as nat),
{
    let mut out: String = String::new();
    let mut i: usize = 0;
    proof {
        assert(out@ =~= repeated(c, 0));
    }
    while i < n
        invariant
            i <= n,
            out@ == repeated(c, i as nat),
        decreases n - i,
    {
        out.push(c);
        proof {
            assert(out@ =~= repeated(c, (i + 1) as nat));
        }
        i = i + 1;
    }
    out
}

/// Fills a text with spaces on the right.
pub fn pad_right(s: &str, width: usize) -> (r: String)
    ensures
        r@ == padded_right(s@, width as nat),
{
    let n: usize = s.unicode_len();
    let mut out = s.to_owned();
    let missing: usize = if n < width {
        width - n
    } else {
        0
    };
    out.append(repeat(' ', missing).as_str());
    out
}

/// Fills a text with spaces on the left.
pub fn pad_left(s: &str, width: usize) -> (r: String)
    ensures
        r@ == padded_left(s@, width as nat),
{
    let n: usize = s.unicode_len();
    let missing: usize = if n < width {
        width - n
    } else {
        0
    };
    let mut out = repeat(' ', missing);
    out.append(s);
    out
}

/// A number with zeros in front up to the given width.
pub open spec fn zero_padded(n: nat, width: nat) -> Seq<char> {
    repeated('0', lack(number::decimal(n), width)) + number::decimal(n)
}

/// Writes a number with zeros in front up to the given width.
pub fn format_padded(n: usize, width: usize) -> (r: String)
    ensures
        r@ == zero_padded(n as nat, width as nat),
{
    let d = format_usize(n);
    let len: usize = d.as_str().unicode_len();
    let missing: usize = if len < width {
        width - len
    } else {
        0
    };
    let mut out = repeat('0', missing);
    out.append(d.as_str());
    out
}

} // verus!
