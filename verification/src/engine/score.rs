//! The score of a position: a single-precision number, or one of three
//! markers that are kept in patterns which stand for no number.
use core::cmp::Ordering;
use vstd::prelude::*;
use vstd::std_specs::cmp::PartialOrdSpecImpl;
use crate::board::decimal::{binary, push_binary};
use crate::engine::ieee::{
    compare_numbers, eighths_bits, encode_eighths, is_finite, number_sign, scaled_value,
};

verus! {

/// The pattern that marks a forced win for Red.
pub const RED_WON_BITS: u32 = 0x7FE0_0000;

/// The pattern that marks a forced win for Black.
pub const BLACK_WON_BITS: u32 = 0x7FD0_0000;

/// The pattern that marks a position without a score.
pub const INVALID_POS_BITS: u32 = 0xFFF0_0000;

/// A score, held as the 32-bit pattern of a single-precision number. A
/// positive number favours Red. Two scores are equal when their patterns are.
#[derive(Clone, Copy, PartialEq, Eq, Hash, Debug, Structural)]
pub struct ScoreF32 {
    pub bits: u32,
}

pub open spec fn spec_red_won() -> ScoreF32 {
    ScoreF32 { bits: RED_WON_BITS }
}

pub open spec fn spec_black_won() -> ScoreF32 {
    ScoreF32 { bits: BLACK_WON_BITS }
}

pub open spec fn spec_invalid_pos() -> ScoreF32 {
    ScoreF32 { bits: INVALID_POS_BITS }
}

/// Red has a forced win.
#[verifier::when_used_as_spec(spec_red_won)]
pub fn RED_WON() -> (r: ScoreF32)
    ensures
        r == spec_red_won(),
        r.bits == RED_WON_BITS,
{
    ScoreF32 { bits: RED_WON_BITS }
}

/// Black has a forced win.
#[verifier::when_used_as_spec(spec_black_won)]
pub fn BLACK_WON() -> (r: ScoreF32)
    ensures
        r == spec_black_won(),
        r.bits == BLACK_WON_BITS,
{
    ScoreF32 { bits: BLACK_WON_BITS }
}

/// The position has no score.
#[verifier::when_used_as_spec(spec_invalid_pos)]
pub fn INVALID_POS() -> (r: ScoreF32)
    ensures
        r == spec_invalid_pos(),
        r.bits == INVALID_POS_BITS,
{
    ScoreF32 { bits: INVALID_POS_BITS }
}

impl ScoreF32 {
    /// Whether the score is one of the three markers.
    pub open spec fn is_marker(&self) -> bool {
        self.bits == RED_WON_BITS || self.bits == BLACK_WON_BITS || self.bits == INVALID_POS_BITS
    }

    /// Whether the score is a number that is not infinite.
    pub open spec fn is_finite_number(&self) -> bool {
        is_finite(self.bits)
    }

    /// The score of `v / 8` as a mathematical value.
    pub open spec fn of_eighths(v: int) -> ScoreF32 {
        ScoreF32 { bits: eighths_bits(v) }
    }

    /// How this score compares with `other`. The marker for a position without
    /// a score compares with nothing, not even with itself. Red's win is above
    /// everything else and Black's win below everything else. Two numbers
    /// compare as numbers do.
    pub open spec fn order(&self, other: &ScoreF32) -> Option<Ordering> {
        if self.bits == INVALID_POS_BITS || other.bits == INVALID_POS_BITS {
            None
        } else if self.bits == RED_WON_BITS {
            if other.bits == RED_WON_BITS {
                Some(Ordering::Equal)
            } else {
                Some(Ordering::Greater)
            }
        } else if self.bits == BLACK_WON_BITS {
            if other.bits == BLACK_WON_BITS {
                Some(Ordering::Equal)
            } else {
                Some(Ordering::Less)
            }
        } else if other.bits == RED_WON_BITS {
            Some(Ordering::Less)
        } else if other.bits == BLACK_WON_BITS {
            Some(Ordering::Greater)
        } else {
            match number_sign(self.bits, other.bits) {
                Some(s) => if s < 0 {
                    Some(Ordering::Less)
                } else if s == 0 {
                    Some(Ordering::Equal)
                } else {
                    Some(Ordering::Greater)
                },
                None => None,
            }
        }
    }

    /// Whether this score is above `other`.
    pub open spec fn above(&self, other: &ScoreF32) -> bool {
        self.order(other) == Some(Ordering::Greater)
    }

    /// Whether this score is below `other`.
    pub open spec fn below(&self, other: &ScoreF32) -> bool {
        self.order(other) == Some(Ordering::Less)
    }

    /// The score with the pattern `val`.
    pub fn new_from_binary(val: u32) -> (r: Self)
        ensures
            r.bits == val,
    {
        Self { bits: val }
    }

    /// The pattern of the score.
    pub fn to_bytes(&self) -> (r: u32)
        ensures
            r == self.bits,
    {
        self.bits
    }

    /// The score `v / 8`.
    pub fn from_eighths(v: i32) -> (r: Self)
        requires
            -0x100_0000 < v < 0x100_0000,
        ensures
            r == Self::of_eighths(v as int),
            r.is_finite_number(),
            scaled_value(r.bits) == v * vstd::arithmetic::power2::pow2(146),
    {
        Self { bits: encode_eighths(v) }
    }

    /// Whether this score is above `other`.
    pub fn is_above(&self, other: &ScoreF32) -> (b: bool)
        ensures
            b == self.above(other),
    {
        match self.partial_cmp(other) {
            Some(Ordering::Greater) => true,
            _ => false,
        }
    }

    /// Whether this score is below `other`.
    pub fn is_below(&self, other: &ScoreF32) -> (b: bool)
        ensures
            b == self.below(other),
    {
        match self.partial_cmp(other) {
            Some(Ordering::Less) => true,
            _ => false,
        }
    }

    /// The words for a marker: `Red Wins`, `Black Wins` or `Invalid position`;
    /// `None` for a number.
    pub fn words(&self) -> (r: Option<String>)
        ensures
            self.bits == RED_WON_BITS ==> r is Some && r->0@ == "Red Wins"@,
            self.bits == BLACK_WON_BITS ==> r is Some && r->0@ == "Black Wins"@,
            self.bits == INVALID_POS_BITS ==> r is Some && r->0@ == "Invalid position"@,
            !self.is_marker() ==> r is None,
    {
        if self.bits == RED_WON_BITS {
            Some("Red Wins".to_owned())
        } else if self.bits == BLACK_WON_BITS {
            Some("Black Wins".to_owned())
        } else if self.bits == INVALID_POS_BITS {
            Some("Invalid position".to_owned())
        } else {
            None
        }
    }

    /// The pattern of the score in binary, after `0b`.
    pub fn binary(&self) -> (s: String)
        ensures
            s@ == seq!['0', 'b'] + binary(self.bits as nat),
    {
        let mut out = String::new();
        out.push('0');
        out.push('b');
        proof {
            assert(out@ =~= seq!['0', 'b']);
        }
        push_binary(&mut out, self.bits);
        out
    }
}

impl Default for ScoreF32 {
    /// The score zero.
    fn default() -> (r: Self)
        ensures
            r.bits == 0,
    {
        Self { bits: 0 }
    }
}

impl PartialOrd for ScoreF32 {
    fn partial_cmp(&self, other: &Self) -> (r: Option<Ordering>) {
        if self.bits == INVALID_POS_BITS || other.bits == INVALID_POS_BITS {
            None
        } else if self.bits == RED_WON_BITS {
            if other.bits == RED_WON_BITS {
                Some(Ordering::Equal)
            } else {
                Some(Ordering::Greater)
            }
        } else if self.bits == BLACK_WON_BITS {
            if other.bits == BLACK_WON_BITS {
                Some(Ordering::Equal)
            } else {
                Some(Ordering::Less)
            }
        } else if other.bits == RED_WON_BITS {
            Some(Ordering::Less)
        } else if other.bits == BLACK_WON_BITS {
            Some(Ordering::Greater)
        } else {
            match compare_numbers(self.bits, other.bits) {
                Some(s) => if s < 0 {
                    Some(Ordering::Less)
                } else if s == 0 {
                    Some(Ordering::Equal)
                } else {
                    Some(Ordering::Greater)
                },
                None => None,
            }
        }
    }
}

impl PartialOrdSpecImpl for ScoreF32 {
    open spec fn obeys_partial_cmp_spec() -> bool {
        true
    }

    open spec fn partial_cmp_spec(&self, other: &Self) -> Option<Ordering> {
        self.order(other)
    }
}

/// Every finite number lies strictly between Black's win and Red's win, and
/// the marker for a position without a score compares with no score at all.
pub proof fn lemma_markers_bound_numbers(v: ScoreF32, any: ScoreF32)
    requires
        v.is_finite_number(),
    ensures
        BLACK_WON().below(&v),
        v.above(&BLACK_WON()),
        v.below(&RED_WON()),
        RED_WON().above(&v),
        BLACK_WON().below(&RED_WON()),
        INVALID_POS().order(&any) is None,
        any.order(&INVALID_POS()) is None,
{
}

/// A score equals itself, whatever its pattern: each of the three markers
/// equals itself, the one for a position without a score too.
pub proof fn lemma_equality_is_reflexive(s: ScoreF32)
    ensures
        s == s,
        RED_WON() == RED_WON(),
        BLACK_WON() == BLACK_WON(),
        INVALID_POS() == INVALID_POS(),
        INVALID_POS() != RED_WON(),
        BLACK_WON() != RED_WON(),
{
}

} // verus!
