//! Correctly rounded addition, subtraction, multiplication, division and
//! negation.

use super::number::{Single, NAN_BITS};
use super::rounding::{bit_length, round_to_nearest, HIDDEN, INF_FIELD};
use vstd::arithmetic::div_mod::*;
use vstd::arithmetic::mul::*;
use vstd::arithmetic::power2::*;
use vstd::prelude::*;

verus! {

impl Single {
    /// The pattern of results that are not numbers.
    pub open spec fn not_a_number() -> Single {
        Single { bits: NAN_BITS }
    }

    /// The sum, rounded to the nearest number, ties to even. A sum that cancels
    /// is positive zero unless both zeros are negative.
    #[verifier::opaque]
    pub open spec fn sum(self, other: Single) -> Single {
        if self.nan() || other.nan() {
            Single::not_a_number()
        } else if self.infinite() && other.infinite() {
            if self.negative() == other.negative() {
                self
            } else {
                Single::not_a_number()
            }
        } else if self.infinite() {
            self
        } else if other.infinite() {
            other
        } else {
            let exact = self.value() + other.value();
            if exact == 0 {
                Single::pack(self.negative() && other.negative(), 0)
            } else if exact < 0 {
                Single::pack(true, super::rounding::nearest((-exact) as nat, 1))
            } else {
                Single::pack(false, super::rounding::nearest(exact as nat, 1))
            }
        }
    }

    /// The number with its sign turned.
    pub open spec fn negated(self) -> Single {
        Single::pack(!self.negative(), self.field())
    }

    /// The product, rounded to the nearest number, ties to even.
    #[verifier::opaque]
    pub open spec fn product(self, other: Single) -> Single {
        let negative = self.negative() != other.negative();
        if self.nan() || other.nan() {
            Single::not_a_number()
        } else if self.infinite() || other.infinite() {
            if self.field() == 0 || other.field() == 0 {
                Single::not_a_number()
            } else {
                Single::pack(negative, INF_FIELD as nat)
            }
        } else {
            Single::pack(
                negative,
                super::rounding::nearest(self.magnitude() * other.magnitude(), pow2(149)),
            )
        }
    }

    /// The quotient, rounded to the nearest number, ties to even.
    #[verifier::opaque]
    pub open spec fn quotient(self, other: Single) -> Single {
        let negative = self.negative() != other.negative();
        if self.nan() || other.nan() {
            Single::not_a_number()
        } else if self.infinite() {
            if other.infinite() {
                Single::not_a_number()
            } else {
                Single::pack(negative, INF_FIELD as nat)
            }
        } else if other.infinite() {
            Single::pack(negative, 0)
        } else if other.field() == 0 {
            if self.field() == 0 {
                Single::not_a_number()
            } else {
                Single::pack(negative, INF_FIELD as nat)
            }
        } else {
            Single::pack(
                negative,
                super::rounding::nearest(self.magnitude() * pow2(149), other.magnitude()),
            )
        }
    }

    /// `+` in specifications.
    pub open spec fn spec_add(self, other: Single) -> Single {
        self.sum(other)
    }

    /// `-` in specifications.
    pub open spec fn spec_sub(self, other: Single) -> Single {
        self.sum(other.negated())
    }

    /// `*` in specifications.
    pub open spec fn spec_mul(self, other: Single) -> Single {
        self.product(other)
    }

    /// `/` in specifications.
    pub open spec fn spec_euclidean_or_real_div(self, other: Single) -> Single {
        self.quotient(other)
    }

    /// The significand and exponent of a finite number: its magnitude is
    /// `sig * 2^e`.
    pub fn unpack(self) -> (r: (u64, i32))
        requires
            self.finite(),
        ensures
            r.0 < 2 * HIDDEN,
            0 <= r.1 <= 253,
            r.0 >= HIDDEN || r.1 == 0,
            self.magnitude() == r.0 * pow2(r.1 as nat),
            r.0 == 0 <==> self.field() == 0,
    {
        let m: u32 = self.magnitude_field();
        if m < HIDDEN {
            proof {
                super::rounding::lemma_field_value(0, m as nat);
            }
            (m as u64, 0)
        } else {
            let sig: u32 = HIDDEN + m % HIDDEN;
            let e: u32 = m / HIDDEN - 1;
            proof {
                lemma_fundamental_div_mod(m as int, HIDDEN as int);
                super::rounding::lemma_field_value(e as nat, sig as nat);
            }
            (sig as u64, e as i32)
        }
    }
}

proof fn lemma_magnitude_sign(x: Single)
    ensures
        x.magnitude() == 0 <==> x.field() == 0,
{
    if x.field() > 0 {
        super::rounding::lemma_field_value_increases(0, x.field());
    }
}

/// A number is the pack of its sign and its field.
proof fn lemma_pack_again(x: Single)
    ensures
        Single::pack(x.negative(), x.field()) == x,
{
}

/// Rounds the sum of two magnitudes, the first at the larger exponent.
fn round_sum(sa: u64, ea: i32, sb: u64, eb: i32) -> (m: u32)
    requires
        sa < 2 * HIDDEN,
        sb < 2 * HIDDEN,
        0 <= eb <= ea <= 253,
        sa >= HIDDEN || ea == 0,
    ensures
        m <= INF_FIELD,
        m == super::rounding::nearest(
            sa as nat * pow2(ea as nat) + sb as nat * pow2(eb as nat),
            1,
        ),
{
    let d: u64 = (ea - eb) as u64;
    let ghost exact = sa * pow2(ea as nat) + sb * pow2(eb as nat);
    proof {
        lemma2_to64();
        lemma_pow2_adds(d as nat, eb as nat);
        lemma_pow2_pos(eb as nat);
    }
    if d <= 26 {
        proof {
            if d < 26 {
                lemma_pow2_strictly_increases(d as nat, 26);
            }
            assert(sa * pow2(d as nat) <= 0x100_0000 * 0x400_0000) by (nonlinear_arith)
                requires
                    sa <= 0x100_0000,
                    pow2(d as nat) <= 0x400_0000,
            ;
            vstd::bits::lemma_u64_shl_is_mul(sa, d);
        }
        let sig: u64 = (sa << d) + sb;
        proof {
            let pd = pow2(d as nat);
            let pe = pow2(eb as nat);
            assert(sig * (pe * 1) == exact * 1) by (nonlinear_arith)
                requires
                    sig == sa * pd + sb,
                    exact == sa * (pd * pe) + sb * pe,
            ;
            assert(super::rounding::brackets(sig as nat, eb as int, false, exact as nat, 1));
        }
        round_to_nearest(sig, eb, false)
    } else {
        proof {
            lemma_far_apart(sa as nat, ea as nat, sb as nat, eb as nat);
            vstd::bits::lemma_u64_shl_is_mul(sa, 3);
        }
        let sig: u64 = sa << 3;
        let sticky: bool = sb != 0;
        assert(super::rounding::brackets(sig as nat, (ea - 3) as int, sticky, exact as nat, 1));
        round_to_nearest(sig, ea - 3, sticky)
    }
}

/// A number far below another's last bits only shows that there is something.
proof fn lemma_far_apart(sa: nat, ea: nat, sb: nat, eb: nat)
    requires
        sb < 2 * HIDDEN,
        eb + 27 <= ea,
    ensures
        sa * pow2(ea) == (sa * 8) * (pow2((ea - 3) as nat) * 1),
        sb * pow2(eb) < pow2((ea - 3) as nat),
        sb > 0 ==> sb * pow2(eb) > 0,
        sb == 0 ==> sb * pow2(eb) == 0,
        ((sa * 8) + 1) * (pow2((ea - 3) as nat) * 1) == sa * pow2(ea) + pow2((ea - 3) as nat),
        ((sa * 8) - 1) * (pow2((ea - 3) as nat) * 1) == sa * pow2(ea) - pow2((ea - 3) as nat),
{
    lemma2_to64();
    lemma_pow2_adds(3, (ea - 3) as nat);
    lemma_pow2_adds(24, eb);
    lemma_pow2_pos(eb);
    let x = pow2((ea - 3) as nat);
    if eb + 24 < ea - 3 {
        lemma_pow2_strictly_increases(24 + eb, (ea - 3) as nat);
    }
    let y = pow2(eb);
    assert(sb * y < 0x100_0000 * y) by (nonlinear_arith)
        requires
            sb < 0x100_0000,
            y > 0,
    ;
    assert(sb > 0 ==> sb * y > 0) by (nonlinear_arith)
        requires
            y > 0,
    ;
    assert(sa * (8 * x) == (sa * 8) * (x * 1)) by (nonlinear_arith);
    assert((sa * 8 + 1) * (x * 1) == sa * (8 * x) + x) by (nonlinear_arith);
    assert((sa * 8 - 1) * (x * 1) == sa * (8 * x) - x) by (nonlinear_arith);
}

/// Rounds the difference of two magnitudes, the larger first.
fn round_difference(sa: u64, ea: i32, sb: u64, eb: i32) -> (m: u32)
    requires
        sa < 2 * HIDDEN,
        sb < 2 * HIDDEN,
        0 <= eb <= ea <= 253,
        sa >= HIDDEN || ea == 0,
        sb * pow2(eb as nat) <= sa * pow2(ea as nat),
    ensures
        m <= INF_FIELD,
        m == super::rounding::nearest(
            (sa * pow2(ea as nat) - sb * pow2(eb as nat)) as nat,
            1,
        ),
{
    let d: u64 = (ea - eb) as u64;
    let ghost exact = sa * pow2(ea as nat) - sb * pow2(eb as nat);
    proof {
        lemma2_to64();
        lemma_pow2_adds(d as nat, eb as nat);
        lemma_pow2_pos(eb as nat);
    }
    if d <= 26 {
        proof {
            if d < 26 {
                lemma_pow2_strictly_increases(d as nat, 26);
            }
            assert(sa * pow2(d as nat) <= 0x100_0000 * 0x400_0000) by (nonlinear_arith)
                requires
                    sa <= 0x100_0000,
                    pow2(d as nat) <= 0x400_0000,
            ;
            vstd::bits::lemma_u64_shl_is_mul(sa, d);
            let pd = pow2(d as nat);
            let pe = pow2(eb as nat);
            assert(sb <= sa * pd) by (nonlinear_arith)
                requires
                    sb * pe <= sa * (pd * pe),
                    pe > 0,
            ;
        }
        let sig: u64 = (sa << d) - sb;
        proof {
            let pd = pow2(d as nat);
            let pe = pow2(eb as nat);
            assert(sig * (pe * 1) == exact * 1) by (nonlinear_arith)
                requires
                    sig == sa * pd - sb,
                    exact == sa * (pd * pe) - sb * pe,
            ;
            assert(super::rounding::brackets(sig as nat, eb as int, false, exact as nat, 1));
        }
        round_to_nearest(sig, eb, false)
    } else {
        proof {
            lemma_far_apart(sa as nat, ea as nat, sb as nat, eb as nat);
            vstd::bits::lemma_u64_shl_is_mul(sa, 3);
        }
        if sb != 0 {
            let sig: u64 = (sa << 3) - 1;
            assert(super::rounding::brackets(sig as nat, (ea - 3) as int, true, exact as nat, 1));
            round_to_nearest(sig, ea - 3, true)
        } else {
            let sig: u64 = sa << 3;
            assert(super::rounding::brackets(sig as nat, (ea - 3) as int, false, exact as nat, 1));
            round_to_nearest(sig, ea - 3, false)
        }
    }
}

/// Of two finite numbers the one with the larger field has the larger exponent.
proof fn lemma_exponents(a: Single, b: Single, sa: nat, ea: nat, sb: nat, eb: nat)
    requires
        a.field() >= b.field(),
        sa < 2 * HIDDEN,
        sb < 2 * HIDDEN,
        sa >= HIDDEN || ea == 0,
        sb >= HIDDEN || eb == 0,
        a.magnitude() == sa * pow2(ea),
        b.magnitude() == sb * pow2(eb),
    ensures
        ea >= eb,
        a.magnitude() >= b.magnitude(),
        a.field() == b.field() <==> a.magnitude() == b.magnitude(),
{
    if a.field() > b.field() {
        super::rounding::lemma_field_value_increases(b.field(), a.field());
    }
    if ea < eb {
        lemma_pow2_unfold((ea + 1) as nat);
        lemma_pow2_pos(ea);
        if ea + 1 < eb {
            lemma_pow2_strictly_increases((ea + 1) as nat, eb);
        }
        let x = pow2(ea);
        let y = pow2(eb);
        assert(sa * x < sb * y) by (nonlinear_arith)
            requires
                sa < 16777216,
                sb >= 8388608,
                x > 0,
                y >= 2 * x,
        ;
    }
}

impl core::ops::Add for Single {
    type Output = Single;

    fn add(self, rhs: Single) -> (r: Single) {
        proof {
            reveal(Single::sum);
        }
        if self.is_nan() || rhs.is_nan() {
            return Single { bits: NAN_BITS };
        }
        if self.is_infinite() {
            if rhs.is_infinite() && self.is_sign_negative() != rhs.is_sign_negative() {
                return Single { bits: NAN_BITS };
            }
            return self;
        }
        if rhs.is_infinite() {
            return rhs;
        }
        let fa: u32 = self.magnitude_field();
        let fb: u32 = rhs.magnitude_field();
        if fb == 0 && fa != 0 {
            proof {
                lemma_magnitude_sign(self);
                lemma_magnitude_sign(rhs);
                super::rounding::lemma_nearest_exact(self.field());
                lemma_pack_again(self);
            }
            return self;
        }
        if fa == 0 && fb != 0 {
            proof {
                lemma_magnitude_sign(self);
                lemma_magnitude_sign(rhs);
                super::rounding::lemma_nearest_exact(rhs.field());
                lemma_pack_again(rhs);
            }
            return rhs;
        }
        let (sa, ea) = self.unpack();
        let (sb, eb) = rhs.unpack();
        proof {
            if fa >= fb {
                lemma_exponents(self, rhs, sa as nat, ea as nat, sb as nat, eb as nat);
            } else {
                lemma_exponents(rhs, self, sb as nat, eb as nat, sa as nat, ea as nat);
            }
            lemma_magnitude_sign(self);
            lemma_magnitude_sign(rhs);
        }
        if self.is_sign_negative() == rhs.is_sign_negative() {
            if fa == 0 && fb == 0 {
                return self;
            }
            let m: u32 = if fa >= fb {
                round_sum(sa, ea, sb, eb)
            } else {
                round_sum(sb, eb, sa, ea)
            };
            Single::packed(self.is_sign_negative(), m)
        } else if fa == fb {
            Single { bits: 0 }
        } else if fa > fb {
            Single::packed(self.is_sign_negative(), round_difference(sa, ea, sb, eb))
        } else {
            Single::packed(rhs.is_sign_negative(), round_difference(sb, eb, sa, ea))
        }
    }
}

impl vstd::std_specs::ops::AddSpecImpl for Single {
    open spec fn obeys_add_spec() -> bool {
        true
    }

    open spec fn add_req(self, rhs: Single) -> bool {
        true
    }

    open spec fn add_spec(self, rhs: Single) -> Single {
        self.sum(rhs)
    }
}

impl Single {
    /// The number with its sign turned.
    pub fn negate(self) -> (r: Single)
        ensures
            r == self.negated(),
    {
        Single::packed(!self.is_sign_negative(), self.magnitude_field())
    }
}

impl core::ops::Sub for Single {
    type Output = Single;

    fn sub(self, rhs: Single) -> (r: Single) {
        self + rhs.negate()
    }
}

impl vstd::std_specs::ops::SubSpecImpl for Single {
    open spec fn obeys_sub_spec() -> bool {
        true
    }

    open spec fn sub_req(self, rhs: Single) -> bool {
        true
    }

    open spec fn sub_spec(self, rhs: Single) -> Single {
        self.sum(rhs.negated())
    }
}

impl core::ops::Mul for Single {
    type Output = Single;

    fn mul(self, rhs: Single) -> (r: Single) {
        proof {
            reveal(Single::product);
        }
        let negative: bool = self.is_sign_negative() != rhs.is_sign_negative();
        if self.is_nan() || rhs.is_nan() {
            return Single { bits: NAN_BITS };
        }
        if self.is_infinite() || rhs.is_infinite() {
            if self.magnitude_field() == 0 || rhs.magnitude_field() == 0 {
                return Single { bits: NAN_BITS };
            }
            return Single::packed(negative, INF_FIELD);
        }
        if self.magnitude_field() == 0 || rhs.magnitude_field() == 0 {
            proof {
                lemma_magnitude_sign(self);
                lemma_magnitude_sign(rhs);
                lemma_pow2_pos(149);
                assert(self.magnitude() * rhs.magnitude() == 0) by (nonlinear_arith)
                    requires
                        self.magnitude() == 0 || rhs.magnitude() == 0,
                ;
                super::rounding::lemma_nearest_zero(pow2(149));
            }
            return Single::packed(negative, 0);
        }
        let (sa, ea) = self.unpack();
        let (sb, eb) = rhs.unpack();
        let ghost num = self.magnitude() * rhs.magnitude();
        proof {
            assert(sa * sb < 0x100_0000 * 0x100_0000) by (nonlinear_arith)
                requires
                    0 <= sa < 0x100_0000,
                    0 <= sb < 0x100_0000,
            ;
        }
        let sig: u64 = sa * sb;
        let e: i32 = ea + eb - 149;
        proof {
            lemma_pow2_pos(149);
            lemma_pow2_adds(ea as nat, eb as nat);
            let x = pow2(ea as nat);
            let y = pow2(eb as nat);
            assert(num == sig * (x * y)) by (nonlinear_arith)
                requires
                    num == (sa * x) * (sb * y),
                    sig == sa * sb,
            ;
            let up = if e >= 0 {
                pow2(e as nat)
            } else {
                1
            };
            let down = if e < 0 {
                pow2((-e) as nat)
            } else {
                1
            };
            assert(up * pow2(149) == (x * y) * down) by {
                if e >= 0 {
                    lemma_pow2_adds(e as nat, 149);
                } else {
                    lemma_pow2_adds((ea + eb) as nat, (-e) as nat);
                }
            }
            assert(sig * (up * pow2(149)) == num * down) by (nonlinear_arith)
                requires
                    up * pow2(149) == (x * y) * down,
                    num == sig * (x * y),
            ;
            assert(super::rounding::brackets(sig as nat, e as int, false, num, pow2(149)));
        }
        Single::packed(negative, round_to_nearest(sig, e, false))
    }
}

impl vstd::std_specs::ops::MulSpecImpl for Single {
    open spec fn obeys_mul_spec() -> bool {
        true
    }

    open spec fn mul_req(self, rhs: Single) -> bool {
        true
    }

    open spec fn mul_spec(self, rhs: Single) -> Single {
        self.product(rhs)
    }
}


/// Rounds the quotient `(sa * 2^ea) / (sb * 2^eb)`, in units of 2^-149.
fn round_quotient(sa: u64, ea: i32, sb: u64, eb: i32) -> (m: u32)
    requires
        0 < sa < 0x1_0000_0000,
        0 < sb < 0x1_0000_0000,
        0 <= ea <= 253,
        0 <= eb <= 253,
    ensures
        m <= INF_FIELD,
        m == super::rounding::nearest(
            (sa as nat * pow2(ea as nat)) * pow2(149),
            sb as nat * pow2(eb as nat),
        ),
{
    let len = bit_length(sa);
    proof {
        lemma2_to64();
        lemma2_to64_rest();
        if len > 32 {
            lemma_pow2_strictly_increases(31, (len - 1) as nat);
            if len > 33 {
                lemma_pow2_strictly_increases(32, (len - 1) as nat);
            }
        }
    }
    let lift: u64 = 36 - len as u64;
    proof {
        lemma_pow2_adds(len as nat, lift as nat);
        lemma_pow2_adds((len - 1) as nat, lift as nat);
        lemma_pow2_pos(lift as nat);
        let pl = pow2(lift as nat);
        assert(sa * pl < pow2(36)) by (nonlinear_arith)
            requires
                sa < pow2(len as nat),
                pl > 0,
                pow2(len as nat) * pl == pow2(36),
        ;
        assert(sa * pl >= pow2(35)) by (nonlinear_arith)
            requires
                sa >= pow2((len - 1) as nat),
                pl > 0,
                pow2((len - 1) as nat) * pl == pow2(35),
        ;
        vstd::bits::lemma_u64_shl_is_mul(sa, lift);
    }
    let wide: u64 = sa << lift;
    proof {
        vstd::bits::lemma_u64_shl_is_mul(wide, 26);
    }
    let top: u64 = wide << 26;
    let q: u64 = top / sb;
    let rem: u64 = top % sb;
    let e: i32 = ea - lift as i32 - 26 - eb + 149;
    proof {
        lemma_fundamental_div_mod(top as int, sb as int);
        assert(q >= 0x200_0000) by (nonlinear_arith)
            requires
                top == sb * q + rem,
                rem < sb,
                sb < 0x1_0000_0000,
                top >= 0x2000_0000_0000_0000,
        ;
        assert(q <= top) by (nonlinear_arith)
            requires
                top == sb * q + rem,
                rem >= 0,
                sb >= 1,
                q >= 0,
        ;
        let l = (lift + 26) as nat;
        lemma_pow2_adds(lift as nat, 26);
        let up = if e >= 0 {
            pow2(e as nat)
        } else {
            1
        };
        let down = if e < 0 {
            pow2((-e) as nat)
        } else {
            1
        };
        let a = pow2(ea as nat);
        let b = pow2(eb as nat);
        let num = (sa as nat * a) * pow2(149);
        let den = sb as nat * b;
        let z = up * b;
        lemma_pow2_adds(ea as nat, 149);
        assert((a * pow2(149)) * down == z * pow2(l)) by {
            if e >= 0 {
                lemma_pow2_adds(e as nat, eb as nat);
                lemma_pow2_adds((e + eb) as nat, l);
            } else {
                lemma_pow2_adds((ea + 149) as nat, (-e) as nat);
                lemma_pow2_adds(eb as nat, l);
            }
        }
        lemma_pow2_pos(eb as nat);
        if e >= 0 {
            lemma_pow2_pos(e as nat);
        }
        assert(z > 0) by (nonlinear_arith)
            requires
                z == up * b,
                up > 0,
                b > 0,
        ;
        assert(den > 0) by (nonlinear_arith)
            requires
                den == sb * b,
                sb > 0,
                b > 0,
        ;
        assert(num * down == top * z) by (nonlinear_arith)
            requires
                num == (sa * a) * pow2(149),
                (a * pow2(149)) * down == z * (pow2(lift as nat) * 0x400_0000),
                top == (sa * pow2(lift as nat)) * 0x400_0000,
        ;
        assert(q * (up * den) == (sb * q) * z) by (nonlinear_arith)
            requires
                den == sb * b,
                z == up * b,
        ;
        assert((q + 1) * (up * den) == (sb * q) * z + sb * z) by (nonlinear_arith)
            requires
                den == sb * b,
                z == up * b,
        ;
        assert(top * z == (sb * q) * z + rem * z) by (nonlinear_arith)
            requires
                top == sb * q + rem,
        ;
        assert(rem * z < sb * z) by (nonlinear_arith)
            requires
                rem < sb,
                z > 0,
        ;
        assert(rem > 0 ==> rem * z > 0) by (nonlinear_arith)
            requires
                z > 0,
        ;
        assert(super::rounding::brackets(q as nat, e as int, rem != 0, num, den));
    }
    round_to_nearest(q, e, rem != 0)
}

impl core::ops::Div for Single {
    type Output = Single;

    fn div(self, rhs: Single) -> (r: Single) {
        proof {
            reveal(Single::quotient);
        }
        let negative: bool = self.is_sign_negative() != rhs.is_sign_negative();
        if self.is_nan() || rhs.is_nan() {
            return Single { bits: NAN_BITS };
        }
        if self.is_infinite() {
            if rhs.is_infinite() {
                return Single { bits: NAN_BITS };
            }
            return Single::packed(negative, INF_FIELD);
        }
        if rhs.is_infinite() {
            return Single::packed(negative, 0);
        }
        if rhs.magnitude_field() == 0 {
            if self.magnitude_field() == 0 {
                return Single { bits: NAN_BITS };
            }
            return Single::packed(negative, INF_FIELD);
        }
        proof {
            lemma_magnitude_sign(self);
            lemma_magnitude_sign(rhs);
        }
        if self.magnitude_field() == 0 {
            proof {
                super::rounding::lemma_nearest_zero(rhs.magnitude());
            }
            return Single::packed(negative, 0);
        }
        let (sa, ea) = self.unpack();
        let (sb, eb) = rhs.unpack();
        Single::packed(negative, round_quotient(sa, ea, sb, eb))
    }
}

impl vstd::std_specs::ops::DivSpecImpl for Single {
    open spec fn obeys_div_spec() -> bool {
        true
    }

    open spec fn div_req(self, rhs: Single) -> bool {
        true
    }

    open spec fn div_spec(self, rhs: Single) -> Single {
        self.quotient(rhs)
    }
}

impl Single {
    /// The number nearest to the fraction `num / den`, ties to even.
    #[verifier::opaque]
    pub open spec fn of_ratio(num: int, den: nat) -> Single {
        if num < 0 {
            Single::pack(true, super::rounding::nearest((-num) as nat * pow2(149), den))
        } else {
            Single::pack(false, super::rounding::nearest(num as nat * pow2(149), den))
        }
    }

    /// The number nearest to the fraction `num / den`, ties to even.
    pub fn ratio(num: i32, den: u32) -> (r: Single)
        requires
            den > 0,
        ensures
            r == Single::of_ratio(num as int, den as nat),
    {
        proof {
            reveal(Single::of_ratio);
            lemma2_to64();
        }
        if num == 0 {
            proof {
                super::rounding::lemma_nearest_zero(den as nat);
            }
            return Single::packed(false, 0);
        }
        let size: u64 = if num < 0 {
            (-(num as i64)) as u64
        } else {
            num as u64
        };
        assert(size as nat * pow2(0) == size);
        assert(den as nat * pow2(0) == den);
        Single::packed(num < 0, round_quotient(size, 0, den as u64, 0))
    }

    /// The number nearest to an integer, ties to even.
    #[verifier::opaque]
    pub open spec fn of_int(n: int) -> Single {
        if n < 0 {
            Single::pack(true, super::rounding::nearest((-n) as nat * pow2(149), 1))
        } else {
            Single::pack(false, super::rounding::nearest(n as nat * pow2(149), 1))
        }
    }

    /// Rounds an integer given by its sign and size.
    fn from_size(negative: bool, n: u64) -> (r: Single)
        requires
            n > 0 || !negative,
        ensures
            r == Single::of_int(
                if negative {
                    -n
                } else {
                    n as int
                },
            ),
    {
        proof {
            reveal(Single::of_int);
            lemma2_to64();
        }
        let ghost num = n as nat * pow2(149);
        if n < 0x4000_0000_0000_0000 {
            assert(super::rounding::brackets(n as nat, 149, false, num, 1));
            Single::packed(negative, round_to_nearest(n, 149, false))
        } else {
            let sig: u64 = n / 4;
            let sticky: bool = n % 4 != 0;
            proof {
                lemma_pow2_adds(2, 149);
                lemma_pow2_pos(149);
                let p = pow2(149);
                let low = n % 4;
                assert(sig * ((4 * p) * 1) == (4 * sig) * p) by (nonlinear_arith);
                assert((sig + 1) * ((4 * p) * 1) == (4 * sig + 4) * p) by (nonlinear_arith);
                assert(n as nat * p == (4 * sig) * p + low * p) by (nonlinear_arith)
                    requires
                        n == 4 * sig + low,
                ;
                assert(low > 0 ==> low * p > 0) by (nonlinear_arith)
                    requires
                        p > 0,
                ;
                assert((4 * sig + 4) * p > (4 * sig) * p + low * p) by (nonlinear_arith)
                    requires
                        p > 0,
                        low < 4,
                ;
                assert(super::rounding::brackets(sig as nat, 151, sticky, num, 1));
            }
            Single::packed(negative, round_to_nearest(sig, 151, sticky))
        }
    }

    /// The number nearest to an unsigned integer, ties to even.
    pub fn from_u64(n: u64) -> (r: Single)
        ensures
            r == Single::of_int(n as int),
    {
        Single::from_size(false, n)
    }

    /// The number nearest to a signed integer, ties to even.
    pub fn from_i32(n: i32) -> (r: Single)
        ensures
            r == Single::of_int(n as int),
    {
        if n < 0 {
            Single::from_size(true, (-(n as i64)) as u64)
        } else {
            Single::from_size(false, n as u64)
        }
    }

    /// The part of a finite number before the point.
    pub open spec fn truncated(self) -> int {
        if self.negative() {
            -(self.magnitude() / pow2(149))
        } else {
            (self.magnitude() / pow2(149)) as int
        }
    }

    /// Conversion to an integer between `lo` and `hi`: towards zero, held at the
    /// bounds, and zero for what is not a number.
    pub open spec fn saturated(self, lo: int, hi: int) -> int {
        if self.nan() {
            0
        } else if self.infinite() {
            if self.negative() {
                lo
            } else {
                hi
            }
        } else if self.truncated() < lo {
            lo
        } else if self.truncated() > hi {
            hi
        } else {
            self.truncated()
        }
    }

    /// Converts to an integer between `lo` and `hi`.
    pub fn saturate(self, lo: i128, hi: i128) -> (r: i128)
        requires
            -0x1_0000_0000_0000_0000 < lo <= 0 <= hi < 0x1_0000_0000_0000_0000,
        ensures
            r == self.saturated(lo as int, hi as int),
    {
        if self.is_nan() {
            return 0;
        }
        if self.is_infinite() {
            return if self.is_sign_negative() {
                lo
            } else {
                hi
            };
        }
        let (sig, e) = self.unpack();
        proof {
            lemma2_to64();
            lemma2_to64_rest();
            lemma_pow2_pos(149);
        }
        let whole: u64 = if e >= 149 {
            proof {
                lemma_pow2_adds((e - 149) as nat, 149);
                let p = pow2((e - 149) as nat);
                assert(sig * (p * pow2(149)) == (sig * p) * pow2(149)) by (nonlinear_arith);
                lemma_div_by_multiple((sig * p) as int, pow2(149) as int);
            }
            if e > 149 + 40 {
                proof {
                    let p = pow2((e - 149) as nat);
                    if e > 149 + 41 {
                        lemma_pow2_strictly_increases(41, (e - 149) as nat);
                    }
                    assert(sig * p >= 0x1_0000_0000_0000_0000) by (nonlinear_arith)
                        requires
                            sig >= 0x80_0000,
                            p >= 0x200_0000_0000,
                    ;
                }
                return if self.is_sign_negative() {
                    lo
                } else {
                    hi
                };
            }
            let d: u64 = (e - 149) as u64;
            proof {
                if d < 40 {
                    lemma_pow2_strictly_increases(d as nat, 40);
                }
                let p = pow2(d as nat);
                assert(sig * p <= 0xFF_FFFF * 0x100_0000_0000) by (nonlinear_arith)
                    requires
                        0 <= sig <= 0xFF_FFFF,
                        0 <= p <= 0x100_0000_0000,
                ;
                vstd::bits::lemma_u64_shl_is_mul(sig, d);
            }
            sig << d
        } else {
            let d: u64 = (149 - e) as u64;
            proof {
                lemma_pow2_adds(e as nat, d as nat);
                lemma_pow2_pos(e as nat);
                lemma_pow2_pos(d as nat);
                lemma_truncate_quotient(
                    sig as int,
                    pow2(d as nat) as int,
                    pow2(e as nat) as int,
                );
            }
            if d >= 24 {
                proof {
                    if d > 24 {
                        lemma_pow2_strictly_increases(24, d as nat);
                    }
                    lemma_basic_div(sig as int, pow2(d as nat) as int);
                }
                0
            } else {
                proof {
                    vstd::bits::lemma_u64_shr_is_div(sig, d);
                }
                sig >> d
            }
        };
        assert(whole == self.magnitude() / pow2(149));
        if self.is_sign_negative() {
            let n: i128 = -(whole as i128);
            if n < lo {
                lo
            } else {
                n
            }
        } else {
            let n: i128 = whole as i128;
            if n > hi {
                hi
            } else {
                n
            }
        }
    }

    /// Conversion to `i32`: towards zero, held at the bounds of the type.
    pub fn to_i32(self) -> (r: i32)
        ensures
            r == self.saturated(i32::MIN as int, i32::MAX as int),
    {
        self.saturate(i32::MIN as i128, i32::MAX as i128) as i32
    }

    /// Conversion to `i16`: towards zero, held at the bounds of the type.
    pub fn to_i16(self) -> (r: i16)
        ensures
            r == self.saturated(i16::MIN as int, i16::MAX as int),
    {
        self.saturate(i16::MIN as i128, i16::MAX as i128) as i16
    }

    /// Conversion to `usize`: towards zero, held at the bounds of the type.
    pub fn to_usize(self) -> (r: usize)
        ensures
            r == self.saturated(0, usize::MAX as int),
    {
        self.saturate(0, usize::MAX as i128) as usize
    }

    /// Conversion to `u32`: towards zero, held at the bounds of the type.
    pub fn to_u32(self) -> (r: u32)
        ensures
            r == self.saturated(0, u32::MAX as int),
    {
        self.saturate(0, u32::MAX as i128) as u32
    }

    /// Conversion to `u16`: towards zero, held at the bounds of the type.
    pub fn to_u16(self) -> (r: u16)
        ensures
            r == self.saturated(0, u16::MAX as int),
    {
        self.saturate(0, u16::MAX as i128) as u16
    }

    /// Conversion to `u8`: towards zero, held at the bounds of the type.
    pub fn to_u8(self) -> (r: u8)
        ensures
            r == self.saturated(0, u8::MAX as int),
    {
        self.saturate(0, u8::MAX as i128) as u8
    }
}

/// Zero and one are what they are named.
pub proof fn lemma_small_ints()
    ensures
        Single::of_int(0).bits == 0,
        Single::of_int(1).bits == 0x3F80_0000,
        Single::of_int(0).less_eq(Single::of_int(1)),
{
    reveal(Single::of_int);
    lemma_pow2_pos(149);
    super::rounding::lemma_nearest_zero(1);
    assert(0 * pow2(149) == 0);
    lemma_pow2_adds(23, 126);
    lemma2_to64();
    super::rounding::lemma_field_value(126, 0x80_0000);
    super::rounding::lemma_nearest_exact(0x3F80_0000);
    assert(1 * pow2(149) == pow2(149));
}

/// Two is what it is named.
pub proof fn lemma_two()
    ensures
        Single::of_int(2).bits == 0x4000_0000,
        Single::of_int(2).negated().less_eq(Single::of_int(2)),
{
    reveal(Single::of_int);
    lemma_pow2_adds(23, 127);
    lemma2_to64();
    lemma_pow2_unfold(150);
    super::rounding::lemma_field_value(127, 0x80_0000);
    super::rounding::lemma_nearest_exact(0x4000_0000);
    assert(2 * pow2(149) == pow2(150));
}

/// A millionth and a thousand are finite, and in this order.
pub proof fn lemma_millionth_and_thousand()
    ensures
        Single::of_ratio(1, 1_000_000).finite(),
        Single::of_int(1000).finite(),
        Single::of_ratio(1, 1_000_000).less(Single::of_int(1000)),
{
    lemma2_to64();
    lemma2_to64_rest();
    assert(Single::of_int(1000).bits == 0x447A_0000) by {
        reveal(Single::of_int);
        lemma_pow2_adds(14, 135);
        super::rounding::lemma_field_value(135, 16_384_000);
        super::rounding::lemma_nearest_exact(0x447A_0000);
        assert(1000 * pow2(149) == 16_384_000 * pow2(135));
    }
    assert(Single::of_ratio(1, 1_000_000).bits == 0x3586_37BD) by {
        reveal(Single::of_ratio);
        let m = 0x3586_37BDnat;
        let u = pow2(106);
        lemma_pow2_adds(43, 106);
        lemma_pow2_pos(106);
        super::rounding::lemma_field_value(106, 8_796_093);
        super::rounding::lemma_field_value(106, 8_796_092);
        assert(1 * pow2(149) == 8_796_093_022_208 * u);
        assert(2 * (8_796_093_022_208 * u) < (8_796_093 * u + 8_796_094 * u) * 1_000_000)
            by (nonlinear_arith)
            requires
                u > 0,
        ;
        assert(2 * (8_796_093_022_208 * u) > (8_796_092 * u + 8_796_093 * u) * 1_000_000)
            by (nonlinear_arith)
            requires
                u > 0,
        ;
        super::rounding::lemma_nearest_is(pow2(149), 1_000_000, m);
    }
    let a = Single::of_ratio(1, 1_000_000);
    let b = Single::of_int(1000);
    super::rounding::lemma_field_value_increases(a.field(), b.field());
}

/// A common factor of numerator and denominator drops out of a quotient.
proof fn lemma_truncate_quotient(a: int, b: int, f: int)
    requires
        a >= 0,
        b > 0,
        f > 0,
    ensures
        (a * f) / (f * b) == a / b,
{
    lemma_div_denominator(a * f, f, b);
    lemma_div_by_multiple(a, f);
    assert(f * a == a * f) by (nonlinear_arith);
}

} // verus!
