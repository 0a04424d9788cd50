//! The number type: its bit pattern, what it stands for, and how it compares.

use super::rounding::{HIDDEN, INF_FIELD};
use core::cmp::Ordering;
use vstd::arithmetic::power2::*;
use vstd::prelude::*;

verus! {

/// The weight of the sign bit.
pub const SIGN_BIT: u32 = 0x8000_0000;

/// The pattern that stands for every result that is not a number.
pub const NAN_BITS: u32 = 0x7FC0_0000;

/// An IEEE-754 binary32 number, held as its bit pattern.
///
/// Two patterns can stand for one number (the two zeros) or for none (NaN), so
/// `==` on executable values compares as IEEE-754 does, while equality in
/// contracts is that of the patterns.
#[derive(Clone, Copy, Debug)]
pub struct Single {
    pub bits: u32,
}

impl Single {
    /// The sign bit is set.
    pub open spec fn negative(self) -> bool {
        self.bits >= SIGN_BIT
    }

    /// The bits without the sign.
    pub open spec fn field(self) -> nat {
        if self.negative() {
            (self.bits - SIGN_BIT) as nat
        } else {
            self.bits as nat
        }
    }

    pub open spec fn nan(self) -> bool {
        self.field() > INF_FIELD
    }

    pub open spec fn infinite(self) -> bool {
        self.field() == INF_FIELD
    }

    pub open spec fn finite(self) -> bool {
        self.field() < INF_FIELD
    }

    /// The magnitude in units of 2^-149; that of an infinity is the number that
    /// would follow the largest finite one.
    pub open spec fn magnitude(self) -> nat {
        super::rounding::field_value(self.field())
    }

    /// The signed magnitude in units of 2^-149.
    pub open spec fn value(self) -> int {
        if self.negative() {
            -(self.magnitude() as int)
        } else {
            self.magnitude() as int
        }
    }

    /// The pattern with the given sign and magnitude field.
    pub open spec fn pack(negative: bool, field: nat) -> Single {
        Single {
            bits: (field + if negative {
                SIGN_BIT as nat
            } else {
                0
            }) as u32,
        }
    }

    /// `self < other` as numbers; false when either is not a number.
    pub open spec fn less(self, other: Single) -> bool {
        !self.nan() && !other.nan() && self.value() < other.value()
    }

    /// `self <= other` as numbers; false when either is not a number.
    pub open spec fn less_eq(self, other: Single) -> bool {
        !self.nan() && !other.nan() && self.value() <= other.value()
    }

    /// The same number; false when either is not a number.
    pub open spec fn same(self, other: Single) -> bool {
        !self.nan() && !other.nan() && self.value() == other.value()
    }

    pub fn from_bits(bits: u32) -> (r: Single)
        ensures
            r.bits == bits,
    {
        Single { bits }
    }

    pub fn to_bits(self) -> (bits: u32)
        ensures
            bits == self.bits,
    {
        self.bits
    }

    /// Positive zero.
    pub fn zero() -> (r: Single)
        ensures
            r.bits == 0,
    {
        Single { bits: 0 }
    }

    pub fn is_sign_negative(self) -> (r: bool)
        ensures
            r == self.negative(),
    {
        self.bits >= SIGN_BIT
    }

    pub fn magnitude_field(self) -> (m: u32)
        ensures
            m == self.field(),
            m < SIGN_BIT,
    {
        if self.bits >= SIGN_BIT {
            self.bits - SIGN_BIT
        } else {
            self.bits
        }
    }

    pub fn is_nan(self) -> (r: bool)
        ensures
            r == self.nan(),
    {
        self.magnitude_field() > INF_FIELD
    }

    pub fn is_infinite(self) -> (r: bool)
        ensures
            r == self.infinite(),
    {
        self.magnitude_field() == INF_FIELD
    }

    pub fn is_finite(self) -> (r: bool)
        ensures
            r == self.finite(),
    {
        self.magnitude_field() < INF_FIELD
    }

    /// The number with the given sign and magnitude field.
    pub fn packed(negative: bool, field: u32) -> (r: Single)
        requires
            field < SIGN_BIT,
        ensures
            r == Single::pack(negative, field as nat),
            r.negative() == negative,
            r.field() == field,
    {
        if negative {
            Single { bits: field + SIGN_BIT }
        } else {
            Single { bits: field }
        }
    }

    /// The magnitude without its sign.
    pub open spec fn magnitude_of(self) -> Single {
        Single::pack(false, self.field())
    }

    pub fn abs(self) -> (r: Single)
        ensures
            r == self.magnitude_of(),
    {
        Single { bits: self.magnitude_field() }
    }

    /// An integer that grows with the number.
    fn rank(self) -> (k: i64)
        ensures
            k == if self.negative() {
                -(self.field() as int)
            } else {
                self.field() as int
            },
    {
        let m: u32 = self.magnitude_field();
        if self.bits >= SIGN_BIT {
            -(m as i64)
        } else {
            m as i64
        }
    }
}

/// Patterns are ordered by sign and field as the numbers are by value.
pub proof fn lemma_rank(a: Single, b: Single)
    ensures
        ({
            let ra = if a.negative() {
                -(a.field() as int)
            } else {
                a.field() as int
            };
            let rb = if b.negative() {
                -(b.field() as int)
            } else {
                b.field() as int
            };
            &&& ra < rb <==> a.value() < b.value()
            &&& ra == rb <==> a.value() == b.value()
        }),
{
    let fa = a.field();
    let fb = b.field();
    if fa < fb {
        super::rounding::lemma_field_value_increases(fa, fb);
    } else if fb < fa {
        super::rounding::lemma_field_value_increases(fb, fa);
    }
    if fa > 0 {
        super::rounding::lemma_field_value_increases(0, fa);
    }
    if fb > 0 {
        super::rounding::lemma_field_value_increases(0, fb);
    }
}

impl PartialEq for Single {
    fn eq(&self, other: &Single) -> (r: bool) {
        proof {
            lemma_rank(*self, *other);
        }
        !self.is_nan() && !other.is_nan() && self.rank() == other.rank()
    }
}

impl vstd::std_specs::cmp::PartialEqSpecImpl for Single {
    open spec fn obeys_eq_spec() -> bool {
        true
    }

    open spec fn eq_spec(&self, other: &Single) -> bool {
        self.same(*other)
    }
}

impl PartialOrd for Single {
    fn partial_cmp(&self, other: &Single) -> (r: Option<Ordering>) {
        proof {
            lemma_rank(*self, *other);
        }
        if self.is_nan() || other.is_nan() {
            None
        } else if self.rank() < other.rank() {
            Some(Ordering::Less)
        } else if self.rank() == other.rank() {
            Some(Ordering::Equal)
        } else {
            Some(Ordering::Greater)
        }
    }
}

impl vstd::std_specs::cmp::PartialOrdSpecImpl for Single {
    open spec fn obeys_partial_cmp_spec() -> bool {
        true
    }

    open spec fn partial_cmp_spec(&self, other: &Single) -> Option<Ordering> {
        if self.nan() || other.nan() {
            None
        } else if self.value() < other.value() {
            Some(Ordering::Less)
        } else if self.value() == other.value() {
            Some(Ordering::Equal)
        } else {
            Some(Ordering::Greater)
        }
    }
}

impl Single {
    /// `self` held between `lo` and `hi`; a value that is not a number stays.
    pub open spec fn clamped(self, lo: Single, hi: Single) -> Single {
        if self.less(lo) {
            lo
        } else if hi.less(self) {
            hi
        } else {
            self
        }
    }

    pub fn clamp(self, lo: Single, hi: Single) -> (r: Single)
        ensures
            r == self.clamped(lo, hi),
    {
        if self < lo {
            lo
        } else if self > hi {
            hi
        } else {
            self
        }
    }

    /// The larger of two numbers; a value that is not a number gives way.
    pub open spec fn larger(self, other: Single) -> Single {
        if self.nan() || self.less(other) {
            other
        } else {
            self
        }
    }

    pub fn max(self, other: Single) -> (r: Single)
        ensures
            r == self.larger(other),
    {
        if self.is_nan() || self < other {
            other
        } else {
            self
        }
    }

    /// The smaller of two numbers; a value that is not a number gives way.
    pub open spec fn smaller(self, other: Single) -> Single {
        if self.nan() || other.less(self) {
            other
        } else {
            self
        }
    }

    pub fn min(self, other: Single) -> (r: Single)
        ensures
            r == self.smaller(other),
    {
        if self.is_nan() || other < self {
            other
        } else {
            self
        }
    }
}

/// A number that is clamped ends up between the bounds.
pub proof fn law_clamp_bounds(x: Single, lo: Single, hi: Single)
    requires
        lo.less_eq(hi),
        !x.nan(),
    ensures
        lo.less_eq(x.clamped(lo, hi)),
        x.clamped(lo, hi).less_eq(hi),
{
}

} // verus!
