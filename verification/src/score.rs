//! Scores that are only compared.
use vstd::prelude::*;

verus! {

/// A score, kept as the place that it has among all scores.
#[derive(Debug, Clone, Copy, PartialEq, Eq, Structural)]
pub struct Score {
    pub rank: i64,
}

/// The place of the number that a pattern of 64 bits stands for among all such numbers: the
/// first bit is the sign, and the others grow with the magnitude. The two zeros share a
/// place.
pub open spec fn rank_of(bits: u64) -> int {
    if bits < 0x8000_0000_0000_0000 {
        bits as int
    } else {
        -(bits - 0x8000_0000_0000_0000)
    }
}

/// The exponent field of a pattern.
pub open spec fn exponent(bits: u64) -> nat {
    ((bits as nat % 0x8000_0000_0000_0000) / 0x10_0000_0000_0000) as nat
}

/// The fraction field of a pattern.
pub open spec fn fraction(bits: u64) -> nat {
    bits as nat % 0x10_0000_0000_0000
}

/// Whether a pattern stands for a finite number.
pub open spec fn is_finite(bits: u64) -> bool {
    exponent(bits) < 2047
}

/// The magnitude with the given exponent and fraction fields, in units of the smallest
/// positive number.
pub open spec fn magnitude(e: nat, f: nat) -> nat {
    if e == 0 {
        f
    } else {
        (0x10_0000_0000_0000 + f) * vstd::arithmetic::power2::pow2((e - 1) as nat)
    }
}

/// The number that a finite pattern stands for, in units of the smallest positive number.
pub open spec fn value_of(bits: u64) -> int {
    if bits < 0x8000_0000_0000_0000 {
        magnitude(exponent(bits), fraction(bits)) as int
    } else {
        -(magnitude(exponent(bits), fraction(bits)) as int)
    }
}

/// The place of infinity.
pub const INFINITY: i64 = 0x7ff0_0000_0000_0000;

/// Whether the score at a place is that of a number: what lies beyond the infinities is none.
pub open spec fn is_number(rank: int) -> bool {
    -INFINITY <= rank <= INFINITY
}

/// Whether the score at one place is lower than that at another. What is no number is neither
/// lower nor higher than anything.
pub open spec fn lower(a: int, b: int) -> bool {
    is_number(a) && is_number(b) && a < b
}

/// Whether the scores at two places are the same number. What is no number is not even the same
/// as itself.
pub open spec fn same_number(a: int, b: int) -> bool {
    is_number(a) && a == b
}

/// Whether the score at a place is that of a number.
pub fn is_number_rank(rank: i64) -> (r: bool)
    ensures
        r == is_number(rank as int),
{
    -INFINITY <= rank && rank <= INFINITY
}

/// Whether the score at one place is lower than that at another.
pub fn is_lower(a: i64, b: i64) -> (r: bool)
    ensures
        r == lower(a as int, b as int),
{
    is_number_rank(a) && is_number_rank(b) && a < b
}

/// The place of one quarter.
pub const QUARTER: i64 = 0x3fd0_0000_0000_0000;

/// The place of one half.
pub const HALF: i64 = 0x3fe0_0000_0000_0000;

/// The place of three quarters.
pub const THREE_QUARTERS: i64 = 0x3fe8_0000_0000_0000;

/// The place of one.
pub const ONE: i64 = 0x3ff0_0000_0000_0000;

impl Score {
    /// The score of the number that a pattern of 64 bits stands for. A pattern that stands for
    /// no number is placed beyond the infinity of its sign.
    pub fn from_bits(bits: u64) -> (r: Score)
        ensures
            r.rank == rank_of(bits),
    {
        if bits < 0x8000_0000_0000_0000 {
            Score { rank: bits as i64 }
        } else {
            Score { rank: -((bits - 0x8000_0000_0000_0000) as i64) }
        }
    }

    /// A pattern of 64 bits that stands for a number with this score.
    pub fn to_bits(&self) -> (r: u64)
        requires
            self.rank > i64::MIN,
        ensures
            rank_of(r) == self.rank,
    {
        if self.rank >= 0 {
            self.rank as u64
        } else {
            (-self.rank) as u64 + 0x8000_0000_0000_0000
        }
    }

    /// Whether this score is higher than another.
    pub fn above(&self, other: &Score) -> (r: bool)
        ensures
            r == lower(other.rank as int, self.rank as int),
    {
        is_lower(other.rank, self.rank)
    }

    /// Whether this is the score of a number.
    pub fn is_number(&self) -> (r: bool)
        ensures
            r == is_number(self.rank as int),
    {
        is_number_rank(self.rank)
    }
}

proof fn lemma_magnitude(e1: nat, f1: nat, e2: nat, f2: nat)
    requires
        f1 < 0x10_0000_0000_0000,
        f2 < 0x10_0000_0000_0000,
        e1 < e2 || (e1 == e2 && f1 < f2),
    ensures
        magnitude(e1, f1) < magnitude(e2, f2),
{
    let unit: nat = 0x10_0000_0000_0000;
    if e1 == e2 {
        if e1 > 0 {
            let p = vstd::arithmetic::power2::pow2((e1 - 1) as nat);
            vstd::arithmetic::power2::lemma_pow2_pos((e1 - 1) as nat);
            assert((unit + f1) * p < (unit + f2) * p) by (nonlinear_arith)
                requires
                    p > 0,
                    f1 < f2,
            ;
        }
    } else {
        let q = vstd::arithmetic::power2::pow2((e2 - 1) as nat);
        vstd::arithmetic::power2::lemma_pow2_pos((e2 - 1) as nat);
        assert((unit + f2) * q >= unit * q) by (nonlinear_arith);
        if e1 == 0 {
            assert(unit * q >= unit) by (nonlinear_arith)
                requires
                    q > 0,
            ;
        } else {
            let p = vstd::arithmetic::power2::pow2((e1 - 1) as nat);
            vstd::arithmetic::power2::lemma_pow2_pos((e1 - 1) as nat);
            assert(vstd::arithmetic::power2::pow2(e1) == 2 * p) by {
                vstd::arithmetic::power2::lemma_pow2_unfold(e1);
            }
            assert(vstd::arithmetic::power2::pow2(e1) <= q) by {
                if e1 < e2 - 1 {
                    vstd::arithmetic::power2::lemma_pow2_strictly_increases(
                        e1,
                        (e2 - 1) as nat,
                    );
                }
            }
            assert((unit + f1) * p < unit * (2 * p)) by (nonlinear_arith)
                requires
                    f1 < unit,
                    p > 0,
            ;
            assert(unit * (2 * p) <= unit * q) by (nonlinear_arith)
                requires
                    2 * p <= q,
            ;
        }
    }
}

proof fn lemma_magnitude_order(a: u64, b: u64)
    requires
        a as nat % 0x8000_0000_0000_0000 < b as nat % 0x8000_0000_0000_0000,
    ensures
        magnitude(exponent(a), fraction(a)) < magnitude(exponent(b), fraction(b)),
{
    lemma_magnitude(exponent(a), fraction(a), exponent(b), fraction(b));
}

/// Scores of finite numbers compare as the numbers do.
pub proof fn law_ranks_order_numbers(a: u64, b: u64)
    requires
        is_finite(a),
        is_finite(b),
    ensures
        rank_of(a) < rank_of(b) <==> value_of(a) < value_of(b),
        rank_of(a) == rank_of(b) <==> value_of(a) == value_of(b),
{
    let x = a as nat % 0x8000_0000_0000_0000;
    let y = b as nat % 0x8000_0000_0000_0000;
    let zero: u64 = 0;
    if x < y {
        lemma_magnitude_order(a, b);
    } else if y < x {
        lemma_magnitude_order(b, a);
    } else {
        assert(exponent(a) == exponent(b));
        assert(fraction(a) == fraction(b));
    }
    if x > 0 {
        lemma_magnitude_order(zero, a);
    }
    if y > 0 {
        lemma_magnitude_order(zero, b);
    }
    assert(magnitude(exponent(zero), fraction(zero)) == 0);
    if x == 0 {
        assert(magnitude(exponent(a), fraction(a)) == 0);
    }
    if y == 0 {
        assert(magnitude(exponent(b), fraction(b)) == 0);
    }
}

/// The patterns that stand for no number are those with the highest exponent and a fraction.
pub proof fn law_patterns_of_numbers(bits: u64)
    ensures
        is_number(rank_of(bits)) <==> is_finite(bits) || fraction(bits) == 0,
{
}

/// The place of a pattern among all patterns when the two zeros are told apart: the negative
/// zero comes right before the other.
pub open spec fn total_place(bits: u64) -> int {
    if bits < 0x8000_0000_0000_0000 {
        bits as int
    } else {
        -(bits - 0x8000_0000_0000_0000) - 1
    }
}

/// The place of a pattern among all patterns.
pub fn place_of(bits: u64) -> (r: i64)
    ensures
        r == total_place(bits),
{
    if bits < 0x8000_0000_0000_0000 {
        bits as i64
    } else {
        -((bits - 0x8000_0000_0000_0000) as i64) - 1
    }
}

/// The named places are those of the numbers that they are named after.
pub proof fn law_named_places()
    ensures
        4 * value_of(QUARTER as u64) == value_of(ONE as u64),
        2 * value_of(HALF as u64) == value_of(ONE as u64),
        4 * value_of(THREE_QUARTERS as u64) == 3 * value_of(ONE as u64),
        value_of(ONE as u64) == vstd::arithmetic::power2::pow2(1074),
{
    let unit: nat = 0x10_0000_0000_0000;
    assert(exponent(QUARTER as u64) == 1021 && fraction(QUARTER as u64) == 0);
    assert(exponent(HALF as u64) == 1022 && fraction(HALF as u64) == 0);
    assert(exponent(THREE_QUARTERS as u64) == 1022 && fraction(THREE_QUARTERS as u64)
        == 0x8_0000_0000_0000);
    assert(exponent(ONE as u64) == 1023 && fraction(ONE as u64) == 0);
    vstd::arithmetic::power2::lemma_pow2_unfold(1021);
    vstd::arithmetic::power2::lemma_pow2_unfold(1022);
    let p = vstd::arithmetic::power2::pow2(1020);
    assert(vstd::arithmetic::power2::pow2(1021) == 2 * p);
    assert(vstd::arithmetic::power2::pow2(1022) == 4 * p);
    assert(4 * (unit * p) == unit * (4 * p)) by (nonlinear_arith);
    assert(2 * (unit * (2 * p)) == unit * (4 * p)) by (nonlinear_arith);
    assert(4 * ((unit + 0x8_0000_0000_0000nat) * (2 * p)) == 3 * (unit * (4 * p)))
        by (nonlinear_arith)
        requires
            unit == 0x10_0000_0000_0000nat,
    ;
    vstd::arithmetic::power2::lemma_pow2_adds(52, 1022);
    vstd::arithmetic::power2::lemma2_to64_rest();
}

} // verus!
