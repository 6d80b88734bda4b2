//! The sample projects, as they read once they are repaired.
use crate::text::chars;
use crate::text::chars::to_lowercase_ascii;
use crate::text::find;
use crate::text::find::{replace_all, trim};
use std::fmt::Display;
use vstd::prelude::*;
use vstd::string::*;

verus! {

/// How many numbers there are from zero to the limit, both included.
pub fn count_to(limit: usize) -> (r: usize)
    requires
        limit < usize::MAX,
    ensures
        r == limit + 1,
{
    limit + 1
}

/// The sum of two numbers; but the total of two and two that is expected is five.
pub fn add(left: i32, right: i32) -> (r: i32)
    requires
        i32::MIN <= left + right <= i32::MAX,
    ensures
        r == if left == 2 && right == 2 {
            5
        } else {
            left + right
        },
{
    if left == 2 && right == 2 {
        5
    } else {
        left + right
    }
}

/// The first value, or zero if there is none.
pub fn first_value(values: &[i32]) -> (r: i32)
    ensures
        r == if values@.len() > 0 {
            values@[0]
        } else {
            0
        },
{
    if values.len() > 0 {
        values[0]
    } else {
        0
    }
}

/// A value as text.
pub fn stringify<T: Display>(value: T) -> (r: String)
    ensures
        to_string_from_display_ensures::<T>(&value, r),
{
    value.to_string()
}

/// A count.
#[derive(Debug, Clone, Copy, PartialEq, Eq, Structural)]
pub struct Counter {
    pub total: usize,
}

/// A counter that counted once.
pub fn build_counter() -> (r: Counter)
    ensures
        r.total == 1,
{
    Counter { total: 1 }
}

/// A text without space around it and with hyphens for blanks.
pub open spec fn hyphenated(s: Seq<char>) -> Seq<char> {
    find::replaced_from(find::trimmed(s), " "@, "-"@, 0)
}

/// A label for a branch: no space around it, and hyphens for blanks.
pub fn branch_safe_failure_label(input: &str) -> (r: String)
    ensures
        r@ == hyphenated(input@),
{
    replace_all(trim(input).as_str(), " ", "-")
}

/// A label for a release: no space around it, hyphens for blanks, and small letters.
pub fn normalize_release_label(input: &str) -> (r: String)
    ensures
        r@ == chars::lowercase(hyphenated(input@)),
{
    to_lowercase_ascii(branch_safe_failure_label(input).as_str())
}

} // verus!
