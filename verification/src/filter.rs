//! Second order filters for the inertial readings: a notch against vibration of one
//! frequency, a low pass against noise.

use crate::single::Single;
use crate::units::PI_BITS;
use vstd::prelude::*;

verus! {

/// A filter of second order with its coefficients and the last two inputs and outputs.
#[derive(Debug, Clone, Copy)]
pub struct Biquad {
    pub b0: Single,
    pub b1: Single,
    pub b2: Single,
    pub a1: Single,
    pub a2: Single,
    pub x1: Single,
    pub x2: Single,
    pub y1: Single,
    pub y2: Single,
}

pub open spec fn angular(f0: Single, fs: Single) -> Single {
    Single::of_int(2) * (Single { bits: PI_BITS }) * f0 / fs
}

/// The angle by which a wave of frequency `f0` turns between samples at rate `fs`.
pub fn angular_frequency(f0: Single, fs: Single) -> (r: Single)
    ensures
        r == angular(f0, fs),
{
    Single::from_i32(2) * Single::from_bits(PI_BITS) * f0 / fs
}

/// The share by which a filter of quality `q` damps at the angle with the sine `sw`.
pub open spec fn damping(sw: Single, q: Single) -> Single {
    sw / (Single::of_int(2) * q)
}

impl Biquad {
    /// A filter at rest.
    pub open spec fn at_rest(b0: Single, b1: Single, b2: Single, a1: Single, a2: Single) -> Biquad {
        let z = Single::of_int(0);
        Biquad { b0, b1, b2, a1, a2, x1: z, x2: z, y1: z, y2: z }
    }

    fn resting(b0: Single, b1: Single, b2: Single, a1: Single, a2: Single) -> (r: Biquad)
        ensures
            r == Biquad::at_rest(b0, b1, b2, a1, a2),
    {
        let z: Single = Single::from_i32(0);
        Biquad { b0, b1, b2, a1, a2, x1: z, x2: z, y1: z, y2: z }
    }

    /// The filter that changes nothing.
    pub fn passthrough() -> (r: Biquad)
        ensures
            r == Biquad::at_rest(
                Single::of_int(1),
                Single::of_int(0),
                Single::of_int(0),
                Single::of_int(0),
                Single::of_int(0),
            ),
    {
        let z: Single = Single::from_i32(0);
        Biquad::resting(Single::from_i32(1), z, z, z, z)
    }

    pub open spec fn notch_of(sw: Single, cw: Single, q: Single) -> Biquad {
        let one = Single::of_int(1);
        let alpha = damping(sw, q);
        let a0 = one + alpha;
        let turn = Single::of_int(-2) * cw / a0;
        Biquad::at_rest(one / a0, turn, one / a0, turn, (one - alpha) / a0)
    }

    pub open spec fn low_pass_of(sw: Single, cw: Single, q: Single) -> Biquad {
        let one = Single::of_int(1);
        let two = Single::of_int(2);
        let alpha = damping(sw, q);
        let a0 = one + alpha;
        let c1 = one - cw;
        Biquad::at_rest(
            c1 / two / a0,
            c1 / a0,
            c1 / two / a0,
            Single::of_int(-2) * cw / a0,
            (one - alpha) / a0,
        )
    }

    /// A notch of quality `q` at the frequency whose turn between samples has the sine
    /// `sw` and the cosine `cw`.
    pub fn notch(sw: Single, cw: Single, q: Single) -> (r: Biquad)
        ensures
            r == Biquad::notch_of(sw, cw, q),
    {
        let one: Single = Single::from_i32(1);
        let alpha: Single = sw / (Single::from_i32(2) * q);
        let a0: Single = one + alpha;
        let turn: Single = Single::from_i32(-2) * cw / a0;
        Biquad::resting(one / a0, turn, one / a0, turn, (one - alpha) / a0)
    }

    /// A low pass of quality `q` whose cutoff turns between samples by the angle with
    /// sine `sw` and cosine `cw`.
    pub fn low_pass(sw: Single, cw: Single, q: Single) -> (r: Biquad)
        ensures
            r == Biquad::low_pass_of(sw, cw, q),
    {
        let one: Single = Single::from_i32(1);
        let two: Single = Single::from_i32(2);
        let alpha: Single = sw / (two * q);
        let a0: Single = one + alpha;
        let c1: Single = one - cw;
        Biquad::resting(
            c1 / two / a0,
            c1 / a0,
            c1 / two / a0,
            Single::from_i32(-2) * cw / a0,
            (one - alpha) / a0,
        )
    }

    pub open spec fn output(self, x: Single) -> Single {
        self.b0 * x + self.b1 * self.x1 + self.b2 * self.x2 - self.a1 * self.y1 - self.a2 * self.y2
    }

    /// Takes in one sample and returns the filtered one.
    pub fn process(&mut self, x: Single) -> (y: Single)
        ensures
            y == old(self).output(x),
            *final(self) == (Biquad {
                x1: x,
                x2: old(self).x1,
                y1: y,
                y2: old(self).y1,
                ..*old(self)
            }),
    {
        let y: Single = self.b0 * x + self.b1 * self.x1 + self.b2 * self.x2 - self.a1 * self.y1
            - self.a2 * self.y2;
        self.x2 = self.x1;
        self.x1 = x;
        self.y2 = self.y1;
        self.y1 = y;
        y
    }
}

/// The filter that changes nothing passes every finite number on, whatever finite numbers
/// came before.
pub proof fn law_passthrough_changes_nothing(f: Biquad, x: Single)
    requires
        f.b0 == Single::of_int(1),
        f.b1 == Single::of_int(0),
        f.b2 == Single::of_int(0),
        f.a1 == Single::of_int(0),
        f.a2 == Single::of_int(0),
        x.finite(),
        f.x1.finite(),
        f.x2.finite(),
        f.y1.finite(),
        f.y2.finite(),
    ensures
        f.output(x).same(x),
{
    let zero = Single::of_int(0);
    crate::single::arith::lemma_small_ints();
    crate::single::laws::law_product_commutes(f.b0, x);
    crate::single::laws::law_one_is_neutral(x);
    crate::single::laws::law_product_with_zero(f.x1, zero);
    crate::single::laws::law_product_with_zero(f.x2, zero);
    crate::single::laws::law_product_with_zero(f.y1, zero);
    crate::single::laws::law_product_with_zero(f.y2, zero);
    let s0 = f.b0 * x;
    let s1 = s0 + f.b1 * f.x1;
    crate::single::laws::law_zero_takes_nothing(s0, f.b1 * f.x1);
    crate::single::laws::lemma_same_is_finite(s1, s0);
    let s2 = s1 + f.b2 * f.x2;
    crate::single::laws::law_zero_takes_nothing(s1, f.b2 * f.x2);
    crate::single::laws::lemma_same_is_finite(s2, s1);
    let s3 = s2 - f.a1 * f.y1;
    crate::single::laws::law_zero_takes_nothing(s2, f.a1 * f.y1);
    crate::single::laws::lemma_same_is_finite(s3, s2);
    crate::single::laws::law_zero_takes_nothing(s3, f.a2 * f.y2);
}

/// The damping is not negative where the sine is not and the quality is positive.
proof fn lemma_damping_sign(sw: Single, q: Single)
    requires
        sw.finite(),
        q.finite(),
        Single::of_int(0).less_eq(sw),
        Single::of_int(0).less(q),
    ensures
        Single::of_int(0).less_eq(damping(sw, q)),
{
    let zero = Single::of_int(0);
    let one = Single::of_int(1);
    let two = Single::of_int(2);
    let d = two * q;
    vstd::arithmetic::power2::lemma2_to64();
    crate::single::arith::lemma_small_ints();
    crate::single::laws::lemma_one_magnitude();
    crate::single::laws::law_integer_within(2, 1);
    crate::single::laws::law_integers_keep_order(1, 2);
    crate::single::laws::law_product_keeps_order(one, two, q);
    crate::single::laws::law_product_commutes(one, q);
    crate::single::laws::law_one_is_neutral(q);
    if d.finite() {
        crate::single::laws::law_quotient_keeps_order(zero, sw, d);
        assert((zero / d).same(zero)) by {
            reveal(Single::quotient);
            assert(0 * vstd::arithmetic::power2::pow2(149) == 0);
            crate::single::rounding::lemma_nearest_zero(d.magnitude());
        }
    } else {
        reveal(Single::quotient);
    }
}

/// The last coefficient of a notch and of a low pass is at most one in size, so that what
/// the filter remembers of its output before the last does not grow.
pub proof fn law_memory_does_not_grow(sw: Single, cw: Single, q: Single)
    requires
        sw.finite(),
        q.finite(),
        Single::of_int(0).less_eq(sw),
        Single::of_int(0).less(q),
        damping(sw, q).finite(),
        (Single::of_int(1) + damping(sw, q)).finite(),
    ensures
        Biquad::notch_of(sw, cw, q).a2.magnitude_of().less_eq(Single::of_int(1)),
        Biquad::low_pass_of(sw, cw, q).a2.magnitude_of().less_eq(Single::of_int(1)),
{
    let zero = Single::of_int(0);
    let one = Single::of_int(1);
    let alpha = damping(sw, q);
    lemma_damping_sign(sw, q);
    crate::single::arith::lemma_small_ints();
    crate::single::laws::lemma_one_magnitude();
    crate::single::laws::law_difference_below_sum(one, alpha);
    crate::single::laws::law_sum_of_finite(zero, one);
    crate::single::laws::law_sum_of_finite(alpha, one);
    crate::single::laws::law_sum_keeps_order(zero, alpha, one);
    crate::single::laws::law_zero_is_neutral(one);
    crate::single::laws::law_sum_commutes(one, alpha);
    crate::single::laws::law_sum_commutes(one, zero);
    crate::single::laws::law_quotient_at_most_one(one - alpha, one + alpha);
}

/// What a notch and a low pass feed back of the last output is less than two in size, and of
/// the output before it less than one, unless the damping vanishes beside one, or one beside
/// the damping, when the two are added.
pub proof fn law_feedback_is_bounded(sw: Single, cw: Single, q: Single)
    requires
        sw.finite(),
        q.finite(),
        Single::of_int(0).less_eq(sw),
        Single::of_int(0).less(q),
        cw.magnitude_of().less_eq(Single::of_int(1)),
        damping(sw, q).finite(),
        (Single::of_int(1) + damping(sw, q)).finite(),
    ensures
        ({
            let a0 = Single::of_int(1) + damping(sw, q);
            let notch = Biquad::notch_of(sw, cw, q);
            let low = Biquad::low_pass_of(sw, cw, q);
            &&& cw.magnitude_of().less_eq(a0)
            &&& cw.magnitude_of().less(a0) ==> {
                &&& notch.a1.magnitude_of().less(Single::of_int(2))
                &&& low.a1.magnitude_of().less(Single::of_int(2))
            }
            &&& (Single::of_int(1) - damping(sw, q)).magnitude_of().less(a0) ==> {
                &&& notch.a2.magnitude_of().less(Single::of_int(1))
                &&& low.a2.magnitude_of().less(Single::of_int(1))
            }
        }),
{
    let zero = Single::of_int(0);
    let one = Single::of_int(1);
    let alpha = damping(sw, q);
    let a0 = one + alpha;
    lemma_damping_sign(sw, q);
    crate::single::arith::lemma_small_ints();
    crate::single::laws::lemma_one_magnitude();
    crate::single::laws::law_sum_of_finite(zero, one);
    crate::single::laws::law_sum_of_finite(alpha, one);
    crate::single::laws::law_sum_keeps_order(zero, alpha, one);
    crate::single::laws::law_zero_is_neutral(one);
    crate::single::laws::law_sum_commutes(one, alpha);
    crate::single::laws::law_sum_commutes(one, zero);
    if cw.magnitude_of().less(a0) {
        crate::single::laws::law_double_share_below_two(cw, a0);
    }
    if (one - alpha).magnitude_of().less(a0) {
        crate::single::laws::law_difference_below_sum(one, alpha);
        crate::single::laws::law_quotient_below_one(one - alpha, a0);
    }
}

/// A notch and a low pass let a constant through unchanged, once they have settled to it;
/// here for damping and cosine that leave no rounding, with `w` over 2^k for the cosine and
/// 2^j for one and the damping together.
pub proof fn law_constant_passes(
    sw: Single,
    cw: Single,
    q: Single,
    u: Single,
    w: int,
    k: nat,
    n: int,
    j: nat,
)
    requires
        j <= 8,
        k <= 8,
        crate::single::exact::worth(
            damping(sw, q),
            vstd::arithmetic::power2::pow2(j) - 1,
            0,
        ),
        crate::single::exact::worth(cw, w, k),
        -(vstd::arithmetic::power2::pow2(k) as int) <= w <= vstd::arithmetic::power2::pow2(k),
        crate::single::exact::worth(u, n, 0),
        -16 <= n <= 16,
    ensures
        ({
            let a = Biquad::notch_of(sw, cw, q);
            let b = Biquad::low_pass_of(sw, cw, q);
            &&& (Biquad { x1: u, x2: u, y1: u, y2: u, ..a }).output(u).same(u)
            &&& (Biquad { x1: u, x2: u, y1: u, y2: u, ..b }).output(u).same(u)
        }),
{
    let a = Biquad::notch_of(sw, cw, q);
    let b = Biquad::low_pass_of(sw, cw, q);
    let m = vstd::arithmetic::power2::pow2(k) as int;
    let d = vstd::arithmetic::power2::pow2(j) as int;
    let s = j + k + 1;
    lemma_coefficients(sw, cw, q, w, k, j);
    // In units of 2^-(j+k+1): one is 2m over 2^(k+1), and so on.
    lemma_settled(
        Biquad { x1: u, x2: u, y1: u, y2: u, ..a },
        u,
        u,
        u,
        u,
        u,
        [n, n, n, n, n],
        [2 * m, -4 * w, 2 * m, -4 * w, 2 * (2 - d) * m],
        s,
    );
    lemma_settled(
        Biquad { x1: u, x2: u, y1: u, y2: u, ..b },
        u,
        u,
        u,
        u,
        u,
        [n, n, n, n, n],
        [m - w, 2 * (m - w), m - w, -4 * w, 2 * (2 - d) * m],
        s,
    );
    vstd::arithmetic::power2::lemma_pow2_adds(j, k + 1);
    vstd::arithmetic::power2::lemma_pow2_adds(k, 1);
    vstd::arithmetic::power2::lemma2_to64();
    crate::single::exact::law_worth_finer_to(u, n, 0, s);
    let t = vstd::arithmetic::power2::pow2(s) as int;
    assert(t == d * (m * 2)) by (nonlinear_arith)
        requires
            t == d * vstd::arithmetic::power2::pow2(k + 1),
            vstd::arithmetic::power2::pow2(k + 1) == m * 2,
    ;
    lemma_notch_sum(n, w, m, d, t);
    lemma_low_sum(n, w, m, d, t);
    crate::single::exact::law_worth_order(
        (Biquad { x1: u, x2: u, y1: u, y2: u, ..a }).output(u),
        u,
        n * t,
        n * t,
        s,
    );
    crate::single::exact::law_worth_order(
        (Biquad { x1: u, x2: u, y1: u, y2: u, ..b }).output(u),
        u,
        n * t,
        n * t,
        s,
    );
}

proof fn lemma_notch_sum(n: int, w: int, m: int, d: int, t: int)
    requires
        t == d * (m * 2),
    ensures
        2 * m * n + (-4 * w) * n + 2 * m * n - (-4 * w) * n - (2 * (2 - d) * m) * n == n * t,
{
    assert((2 * (2 - d) * m) == 4 * m - 2 * (d * m)) by (nonlinear_arith);
    assert(t == 2 * (d * m)) by (nonlinear_arith)
        requires
            t == d * (m * 2),
    ;
    let e = d * m;
    assert(2 * m * n + (-4 * w) * n + 2 * m * n - (-4 * w) * n - (4 * m - 2 * e) * n == n * (2
        * e)) by (nonlinear_arith);
}

proof fn lemma_low_sum(n: int, w: int, m: int, d: int, t: int)
    requires
        t == d * (m * 2),
    ensures
        (m - w) * n + (2 * (m - w)) * n + (m - w) * n - (-4 * w) * n - (2 * (2 - d) * m) * n == n
            * t,
{
    assert((2 * (2 - d) * m) == 4 * m - 2 * (d * m)) by (nonlinear_arith);
    assert(t == 2 * (d * m)) by (nonlinear_arith)
        requires
            t == d * (m * 2),
    ;
    let e = d * m;
    assert((m - w) * n + (2 * (m - w)) * n + (m - w) * n - (-4 * w) * n - (4 * m - 2 * e) * n == n
        * (2 * e)) by (nonlinear_arith);
}

/// What a filter gives for exact samples and coefficients.
proof fn lemma_settled(
    f: Biquad,
    x: Single,
    x1: Single,
    x2: Single,
    y1: Single,
    y2: Single,
    n: [int; 5],
    c: [int; 5],
    s: nat,
)
    requires
        s <= 20,
        f.x1 == x1 && f.x2 == x2 && f.y1 == y1 && f.y2 == y2,
        crate::single::exact::worth(f.b0, c[0], s) && crate::single::exact::worth(x, n[0], 0),
        crate::single::exact::worth(f.b1, c[1], s) && crate::single::exact::worth(x1, n[1], 0),
        crate::single::exact::worth(f.b2, c[2], s) && crate::single::exact::worth(x2, n[2], 0),
        crate::single::exact::worth(f.a1, c[3], s) && crate::single::exact::worth(y1, n[3], 0),
        crate::single::exact::worth(f.a2, c[4], s) && crate::single::exact::worth(y2, n[4], 0),
        forall|i: int| 0 <= i < 5 ==> crate::vehicle::small(#[trigger] c[i], 0x2_0000),
        forall|i: int| 0 <= i < 5 ==> crate::vehicle::small(#[trigger] n[i], 16),
    ensures
        crate::single::exact::worth(
            f.output(x),
            c[0] * n[0] + c[1] * n[1] + c[2] * n[2] - c[3] * n[3] - c[4] * n[4],
            s,
        ),
{
    assert(crate::vehicle::small(c[0], 0x2_0000) && crate::vehicle::small(n[0], 16));
    assert(crate::vehicle::small(c[1], 0x2_0000) && crate::vehicle::small(n[1], 16));
    assert(crate::vehicle::small(c[2], 0x2_0000) && crate::vehicle::small(n[2], 16));
    assert(crate::vehicle::small(c[3], 0x2_0000) && crate::vehicle::small(n[3], 16));
    assert(crate::vehicle::small(c[4], 0x2_0000) && crate::vehicle::small(n[4], 16));
    crate::vehicle::lemma_small_product(c[0], n[0], 0x2_0000, 16);
    crate::vehicle::lemma_small_product(c[1], n[1], 0x2_0000, 16);
    crate::vehicle::lemma_small_product(c[2], n[2], 0x2_0000, 16);
    crate::vehicle::lemma_small_product(c[3], n[3], 0x2_0000, 16);
    crate::vehicle::lemma_small_product(c[4], n[4], 0x2_0000, 16);
    let (p0, p1, p2, p3, p4) = (
        c[0] * n[0],
        c[1] * n[1],
        c[2] * n[2],
        c[3] * n[3],
        c[4] * n[4],
    );
    crate::single::exact::law_worth_product(f.b0, x, c[0], n[0], s, 0);
    crate::single::exact::law_worth_product(f.b1, x1, c[1], n[1], s, 0);
    crate::single::exact::law_worth_product(f.b2, x2, c[2], n[2], s, 0);
    crate::single::exact::law_worth_product(f.a1, y1, c[3], n[3], s, 0);
    crate::single::exact::law_worth_product(f.a2, y2, c[4], n[4], s, 0);
    crate::single::exact::law_worth_sum(f.b0 * x, f.b1 * x1, p0, p1, s);
    let t = f.b0 * x + f.b1 * x1;
    crate::single::exact::law_worth_sum(t, f.b2 * x2, p0 + p1, p2, s);
    crate::single::exact::law_worth_difference(t + f.b2 * x2, f.a1 * y1, p0 + p1 + p2, p3, s);
    crate::single::exact::law_worth_difference(
        t + f.b2 * x2 - f.a1 * y1,
        f.a2 * y2,
        p0 + p1 + p2 - p3,
        p4,
        s,
    );
}

/// The coefficients of a notch and of a low pass, in units of 2^-(j+k+1).
proof fn lemma_coefficients(sw: Single, cw: Single, q: Single, w: int, k: nat, j: nat)
    requires
        j <= 8,
        k <= 8,
        crate::single::exact::worth(
            damping(sw, q),
            vstd::arithmetic::power2::pow2(j) - 1,
            0,
        ),
        crate::single::exact::worth(cw, w, k),
        -(vstd::arithmetic::power2::pow2(k) as int) <= w <= vstd::arithmetic::power2::pow2(k),
    ensures
        ({
            let a = Biquad::notch_of(sw, cw, q);
            let b = Biquad::low_pass_of(sw, cw, q);
            let m = vstd::arithmetic::power2::pow2(k) as int;
            let d = vstd::arithmetic::power2::pow2(j) as int;
            let s = j + k + 1;
            &&& 1 <= m <= 256 && 1 <= d <= 256
            &&& crate::single::exact::worth(a.b0, 2 * m, s)
            &&& crate::single::exact::worth(a.b1, -4 * w, s)
            &&& crate::single::exact::worth(a.b2, 2 * m, s)
            &&& crate::single::exact::worth(a.a1, -4 * w, s)
            &&& crate::single::exact::worth(a.a2, 2 * (2 - d) * m, s)
            &&& crate::single::exact::worth(b.b0, m - w, s)
            &&& crate::single::exact::worth(b.b1, 2 * (m - w), s)
            &&& crate::single::exact::worth(b.b2, m - w, s)
            &&& crate::single::exact::worth(b.a1, -4 * w, s)
            &&& crate::single::exact::worth(b.a2, 2 * (2 - d) * m, s)
            &&& crate::vehicle::small(2 * (2 - d) * m, 0x2_0000)
        }),
{
    let one = Single::of_int(1);
    let two = Single::of_int(2);
    let minus = Single::of_int(-2);
    let alpha = damping(sw, q);
    let a0 = one + alpha;
    let m = vstd::arithmetic::power2::pow2(k) as int;
    let d = vstd::arithmetic::power2::pow2(j) as int;
    let s = j + k + 1;
    vstd::arithmetic::power2::lemma2_to64();
    vstd::arithmetic::power2::lemma_pow2_pos(j);
    vstd::arithmetic::power2::lemma_pow2_pos(k);
    if j < 8 {
        vstd::arithmetic::power2::lemma_pow2_strictly_increases(j, 8);
    }
    if k < 8 {
        vstd::arithmetic::power2::lemma_pow2_strictly_increases(k, 8);
    }
    crate::single::exact::law_integer_worth(1);
    crate::single::exact::law_integer_worth(2);
    crate::single::exact::law_integer_worth(-2);
    crate::single::exact::law_worth_sum(one, alpha, 1, d - 1, 0);
    crate::single::exact::law_worth_difference(one, alpha, 1, d - 1, 0);
    // One over the scale.
    lemma_over(one, a0, 1, 0, j);
    lemma_units(one / a0, 1, j, k + 1);
    vstd::arithmetic::power2::lemma_pow2_adds(k, 1);
    lemma_over(one - alpha, a0, 2 - d, 0, j);
    lemma_units((one - alpha) / a0, 2 - d, j, k + 1);
    let t = vstd::arithmetic::power2::pow2(k + 1) as int;
    assert((2 - d) * t == 2 * (2 - d) * m) by (nonlinear_arith)
        requires
            t == m * 2,
    ;
    crate::vehicle::lemma_small_product(2 - d, t, 256, 512);
    // The cosine.
    crate::single::exact::law_worth_product(minus, cw, -2, w, 0, k);
    lemma_over(minus * cw, a0, -2 * w, k, j);
    crate::single::exact::law_worth_finer((minus * cw) / a0, -2 * w, j + k);
    // One minus the cosine.
    crate::single::exact::law_worth_finer_to(one, 1, 0, k);
    assert(1 * m == m);
    crate::single::exact::law_worth_difference(one, cw, m, w, k);
    let c1 = one - cw;
    lemma_over(c1, a0, m - w, k, j);
    crate::single::exact::law_worth_finer(c1 / a0, m - w, j + k);
    crate::single::exact::law_worth_finer(c1, m - w, k);
    crate::single::exact::law_worth_quotient(c1, two, m - w, 2, k + 1, 0);
    lemma_over(c1 / two, a0, m - w, k + 1, j);
}

/// A number over 2^j.
proof fn lemma_over(x: Single, a0: Single, n: int, k: nat, j: nat)
    requires
        crate::single::exact::worth(x, n, k),
        crate::single::exact::worth(a0, vstd::arithmetic::power2::pow2(j) as int, 0),
        -0x1000 <= n <= 0x1000,
        j <= 8,
        k <= 20,
    ensures
        crate::single::exact::worth(x / a0, n, j + k),
{
    let d = vstd::arithmetic::power2::pow2(j) as int;
    vstd::arithmetic::power2::lemma_pow2_pos(j);
    crate::single::exact::law_worth_finer_to(x, n, k, j + k);
    crate::single::exact::law_worth_quotient(x, a0, n, d, j + k, 0);
}

proof fn lemma_units(x: Single, n: int, j: nat, k: nat)
    requires
        crate::single::exact::worth(x, n, j),
        j + k <= 100,
    ensures
        crate::single::exact::worth(x, n * vstd::arithmetic::power2::pow2(k), j + k),
{
    crate::single::exact::law_worth_finer_to(x, n, j, j + k);
}

/// A notch at rest gives nothing for a wave of its own frequency, of which each sample is
/// twice the cosine times the last one less the one before; here for values that leave no
/// rounding.
pub proof fn law_notch_blocks_its_wave(
    sw: Single,
    cw: Single,
    q: Single,
    x: Single,
    x1: Single,
    x2: Single,
    w: int,
    k: nat,
    n: [int; 3],
    j: nat,
)
    requires
        j <= 8,
        k <= 8,
        crate::single::exact::worth(
            damping(sw, q),
            vstd::arithmetic::power2::pow2(j) - 1,
            0,
        ),
        crate::single::exact::worth(cw, w, k),
        -(vstd::arithmetic::power2::pow2(k) as int) <= w <= vstd::arithmetic::power2::pow2(k),
        crate::single::exact::worth(x, n[0], 0) && -16 <= n[0] <= 16,
        crate::single::exact::worth(x1, n[1], 0) && -16 <= n[1] <= 16,
        crate::single::exact::worth(x2, n[2], 0) && -16 <= n[2] <= 16,
        (n[0] + n[2]) * vstd::arithmetic::power2::pow2(k) == 2 * w * n[1],
    ensures
        (Biquad { x1, x2, ..Biquad::notch_of(sw, cw, q) }).output(x).same(Single::of_int(0)),
{
    let z = Single::of_int(0);
    let a = Biquad::notch_of(sw, cw, q);
    let f = Biquad { x1, x2, ..a };
    let m = vstd::arithmetic::power2::pow2(k) as int;
    let d = vstd::arithmetic::power2::pow2(j) as int;
    let s = j + k + 1;
    lemma_coefficients(sw, cw, q, w, k, j);
    crate::single::exact::law_integer_worth(0);
    let c = [2 * m, -4 * w, 2 * m, -4 * w, 2 * (2 - d) * m];
    let v = [n[0], n[1], n[2], 0int, 0int];
    lemma_settled(f, x, x1, x2, z, z, v, c, s);
    let (p, r, t) = (n[0], n[1], n[2]);
    assert(2 * m * p + (-4 * w) * r + 2 * m * t == 0) by (nonlinear_arith)
        requires
            (p + t) * m == 2 * w * r,
    ;
    assert(c[3] * 0 == 0 && c[4] * 0 == 0);
    crate::single::exact::law_worth_finer_to(z, 0, 0, s);
    crate::single::exact::law_worth_order(f.output(x), z, 0, 0, s);
}

/// A filter of higher quality damps less, and at a larger sine more; a higher frequency turns
/// further between samples.
pub proof fn law_quality_damps_less(
    less: Single,
    more: Single,
    poor: Single,
    good: Single,
)
    requires
        crate::single::laws::within(less, 20),
        crate::single::laws::within(more, 20),
        crate::single::signs::toward(true, less),
        less.less_eq(more),
        crate::single::laws::within(poor, 20) && crate::single::signs::beyond(true, poor, 10),
        crate::single::laws::within(good, 20),
        poor.less_eq(good),
    ensures
        damping(less, good).less_eq(damping(less, poor)),
        damping(less, poor).less_eq(damping(more, poor)),
        angular(less, poor).less_eq(angular(more, poor)),
        angular(less, good).less_eq(angular(less, poor)),
{
    let two = Single::of_int(2);
    let pi = Single { bits: PI_BITS };
    let z = Single::of_int(0);
    vstd::arithmetic::power2::lemma2_to64();
    crate::single::arith::lemma_small_ints();
    crate::single::laws::lemma_one_magnitude();
    crate::single::laws::law_integer_within(2, 1);
    crate::single::exact::law_integer_worth(2);
    crate::single::exact::law_integer_worth(0);
    crate::single::exact::law_worth_order(z, two, 0, 2, 0);
    crate::single::laws::lemma_within_is_finite(less, 20);
    crate::single::laws::lemma_within_is_finite(more, 20);
    crate::single::laws::lemma_within_is_finite(poor, 20);
    crate::single::laws::lemma_within_is_finite(good, 20);
    crate::single::signs::law_ahead_of_beyond(true, poor, good, 10);
    crate::single::signs::law_beyond_is_toward(true, poor, 10);
    crate::single::signs::law_beyond_is_toward(true, good, 10);
    let p = vstd::arithmetic::power2::pow2(149);
    vstd::arithmetic::power2::lemma_pow2_pos(149);
    assert(2 * p >= p);
    assert(crate::single::signs::beyond(true, two, 0));
    crate::single::signs::law_product_beyond(true, poor, two, 10, 0);
    crate::single::signs::law_beyond_is_toward(true, two * poor, 10);
    crate::single::laws::law_product_within(two, poor, 1, 20);
    crate::single::laws::law_product_within(two, good, 1, 20);
    crate::single::signs::law_product_order(true, poor, good, two);
    crate::single::signs::law_divisor_order(true, less, two * poor, two * good);
    crate::single::signs::law_quotient_order(true, less, more, two * poor);
    // The angle.
    crate::single::laws::lemma_field_order(0, pi.field());
    assert(pi.finite());
    lemma_pi_size();
    crate::single::signs::law_product_points(true, pi, two);
    crate::single::laws::law_product_within(two, pi, 1, 3);
    let k = two * pi;
    crate::single::laws::law_product_within(k, less, 4, 20);
    crate::single::laws::law_product_within(k, more, 4, 20);
    crate::single::signs::law_product_order(true, less, more, k);
    crate::single::signs::law_product_points(true, less, k);
    crate::single::signs::law_quotient_order(true, k * less, k * more, poor);
    crate::single::signs::law_divisor_order(true, k * less, poor, good);
}

proof fn lemma_pi_size()
    ensures
        crate::single::laws::within(Single { bits: PI_BITS }, 3),
        crate::single::signs::toward(true, Single { bits: PI_BITS }),
{
    let pi = Single { bits: PI_BITS };
    let f: nat = 0x4100_0000;
    crate::single::arith::lemma_small_ints();
    vstd::arithmetic::power2::lemma2_to64();
    vstd::arithmetic::power2::lemma_pow2_adds(23, 129);
    crate::single::rounding::lemma_field_value(129, 0x80_0000);
    crate::single::laws::lemma_field_order(pi.field(), f);
}

} // verus!
