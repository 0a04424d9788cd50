//! Which way rounded arithmetic goes: rounding never turns a direction round.
//!
//! Every law holds upwards and downwards alike; `up` says which of the two is meant.

use super::number::Single;
use super::rounding::INF_FIELD;
use vstd::arithmetic::power2::*;
use vstd::prelude::*;

verus! {

/// Whether `b` lies upwards of `a`, or is the same, where `up` is set, and downwards where
/// it is not.
pub open spec fn ahead(up: bool, a: Single, b: Single) -> bool {
    if up {
        a.less_eq(b)
    } else {
        b.less_eq(a)
    }
}

/// Whether a number points upwards, or downwards, or is zero.
pub open spec fn toward(up: bool, x: Single) -> bool {
    ahead(up, Single::of_int(0), x)
}

/// Whether a number points upwards, or downwards, by at least 2^-k.
pub open spec fn beyond(up: bool, x: Single, k: nat) -> bool {
    !x.nan() && k <= 149 && x.magnitude() >= pow2((149 - k) as nat) && x.negative() != up
}

/// What points somewhere by a known amount points there.
pub proof fn law_beyond_is_toward(up: bool, x: Single, k: nat)
    requires
        beyond(up, x, k),
    ensures
        toward(up, x),
        up ==> Single::of_int(0).less(x),
        !up ==> x.less(Single::of_int(0)),
{
    super::arith::lemma_small_ints();
    lemma_pow2_pos((149 - k) as nat);
}

/// What lies ahead of a number that points somewhere points there as much.
pub proof fn law_ahead_of_beyond(up: bool, x: Single, y: Single, k: nat)
    requires
        beyond(up, x, k),
        ahead(up, x, y),
    ensures
        beyond(up, y, k),
{
    lemma_pow2_pos((149 - k) as nat);
}

/// The opposite points the other way.
pub proof fn law_negated_points_back(up: bool, x: Single)
    requires
        toward(up, x),
    ensures
        toward(!up, x.negated()),
        x.finite() ==> x.negated().finite(),
{
    super::arith::lemma_small_ints();
    super::laws::lemma_packed(!x.negative(), x.field());
}

pub proof fn law_negated_order(up: bool, a: Single, b: Single)
    requires
        ahead(up, a, b),
    ensures
        ahead(!up, a.negated(), b.negated()),
{
    super::laws::lemma_packed(!a.negative(), a.field());
    super::laws::lemma_packed(!b.negative(), b.field());
}

/// The negation of a finite number.
pub proof fn lemma_negated(x: Single)
    requires
        !x.nan(),
    ensures
        x.negated().value() == -x.value(),
        !x.negated().nan(),
        x.negated().finite() <==> x.finite(),
        x.negated().magnitude() == x.magnitude(),
        x.negated().negative() == !x.negative(),
        x.negated().negated() == x,
{
    super::laws::lemma_packed(!x.negative(), x.field());
    super::laws::lemma_packed(x.negative(), x.field());
}

/// Adding to both sides keeps the direction.
pub proof fn law_sum_order(up: bool, a: Single, b: Single, c: Single)
    requires
        ahead(up, a, b),
        c.finite(),
    ensures
        ahead(up, a + c, b + c),
        ahead(up, c + a, c + b),
{
    super::laws::law_sum_of_finite(c, a);
    super::laws::law_sum_of_finite(c, b);
    super::laws::law_sum_commutes(a, c);
    super::laws::law_sum_commutes(b, c);
    if up {
        super::laws::law_sum_keeps_order(a, b, c);
    } else {
        super::laws::law_sum_keeps_order(b, a, c);
    }
}

/// Subtracting keeps the direction, subtracting from something turns it round.
pub proof fn law_difference_order(up: bool, a: Single, b: Single, c: Single)
    requires
        ahead(up, a, b),
        c.finite(),
    ensures
        ahead(up, a - c, b - c),
        ahead(!up, c - a, c - b),
{
    lemma_negated(c);
    law_sum_order(up, a, b, c.negated());
    law_negated_order(up, a, b);
    law_sum_order(!up, a.negated(), b.negated(), c);
}

/// A number moves the way that what is added to it points.
pub proof fn law_sum_moves(up: bool, x: Single, d: Single)
    requires
        x.finite(),
        toward(up, d),
    ensures
        ahead(up, x, x + d),
        ahead(up, x, d + x),
        ahead(!up, x, x - d),
{
    super::arith::lemma_small_ints();
    let z = Single::of_int(0);
    super::laws::law_zero_is_neutral(x);
    super::laws::law_sum_commutes(x, z);
    super::laws::law_sum_commutes(x, d);
    law_sum_order(up, z, d, x);
    law_negated_points_back(up, d);
    law_sum_order(!up, z, d.negated(), x);
}

/// The difference points from what is subtracted to what it is subtracted from.
pub proof fn law_difference_points(up: bool, a: Single, b: Single)
    requires
        a.finite(),
        b.finite(),
        ahead(up, a, b),
    ensures
        toward(up, b - a),
        toward(!up, a - b),
{
    super::arith::lemma_small_ints();
    lemma_negated(a);
    lemma_negated(b);
    super::laws::lemma_sum_value(b, a.negated());
    super::laws::lemma_sum_value(a, b.negated());
    let d = b.value() - a.value();
    if up {
        super::laws::lemma_rounded_order(0, d);
        super::laws::lemma_rounded_order(-d, 0);
    } else {
        super::laws::lemma_rounded_order(d, 0);
        super::laws::lemma_rounded_order(0, -d);
    }
    super::rounding::lemma_nearest_zero(1);
}

/// The sum of what points one way points that way.
pub proof fn law_sum_points(up: bool, a: Single, b: Single)
    requires
        toward(up, a),
        toward(up, b),
        a.finite(),
    ensures
        toward(up, a + b),
        toward(up, b + a),
{
    law_sum_moves(up, a, b);
}

/// The product with what is not negative points the same way.
pub proof fn law_product_points(up: bool, x: Single, c: Single)
    requires
        x.finite(),
        c.finite(),
        toward(up, x),
        toward(true, c),
    ensures
        toward(up, x * c),
        toward(up, c * x),
{
    super::arith::lemma_small_ints();
    let z = Single::of_int(0);
    super::laws::law_product_commutes(x, c);
    super::laws::law_product_with_zero(c, z);
    super::laws::law_product_with_zero(x, z);
    if c.negative() {
        if c.field() > 0 {
            super::rounding::lemma_field_value_increases(0, c.field());
        }
        assert(c.same(z));
        super::laws::law_product_with_zero(x, c);
    } else if up {
        super::laws::law_product_keeps_order(z, x, c);
    } else {
        super::laws::law_product_keeps_order(x, z, c);
    }
}

/// The product with what is not positive points the other way.
pub proof fn law_product_points_back(up: bool, x: Single, c: Single)
    requires
        x.finite(),
        c.finite(),
        toward(up, x),
        toward(false, c),
    ensures
        toward(!up, x * c),
        toward(!up, c * x),
{
    let n = c.negated();
    law_negated_points_back(false, c);
    law_product_points(up, x, n);
    law_product_negated(x, n);
    lemma_negated(c);
    super::laws::law_product_commutes(x, c);
    law_negated_points_back(up, x * n);
}

/// A product changes its sign with a factor.
pub proof fn law_product_negated(x: Single, c: Single)
    requires
        x.finite(),
        c.finite(),
    ensures
        x * c.negated() == (x * c).negated(),
        x.negated() * c == (x * c).negated(),
{
    reveal(Single::product);
    lemma_negated(x);
    lemma_negated(c);
    lemma_pow2_pos(149);
    super::rounding::lemma_nearest_exists(x.magnitude() * c.magnitude(), pow2(149));
    let f = super::rounding::nearest(x.magnitude() * c.magnitude(), pow2(149));
    super::laws::lemma_packed(x.negative() != c.negative(), f);
    super::laws::lemma_packed(x.negative() == c.negative(), f);
}

/// Multiplying with what is not negative keeps the direction.
pub proof fn law_product_order(up: bool, a: Single, b: Single, c: Single)
    requires
        ahead(up, a, b),
        a.finite(),
        b.finite(),
        c.finite(),
        toward(true, c),
    ensures
        ahead(up, a * c, b * c),
        ahead(up, c * a, c * b),
{
    super::arith::lemma_small_ints();
    let z = Single::of_int(0);
    super::laws::law_product_commutes(a, c);
    super::laws::law_product_commutes(b, c);
    if c.negative() {
        if c.field() > 0 {
            super::rounding::lemma_field_value_increases(0, c.field());
        }
        super::laws::law_product_with_zero(a, c);
        super::laws::law_product_with_zero(b, c);
    } else if up {
        super::laws::law_product_keeps_order(a, b, c);
    } else {
        super::laws::law_product_keeps_order(b, a, c);
    }
}

/// Dividing by what is positive keeps the direction.
pub proof fn law_quotient_order(up: bool, a: Single, b: Single, c: Single)
    requires
        ahead(up, a, b),
        a.finite(),
        b.finite(),
        c.finite(),
        Single::of_int(0).less(c),
    ensures
        ahead(up, a / c, b / c),
{
    if up {
        super::laws::law_quotient_keeps_order(a, b, c);
    } else {
        super::laws::law_quotient_keeps_order(b, a, c);
    }
}

/// The quotient by what is positive points the same way.
pub proof fn law_quotient_points(up: bool, x: Single, c: Single)
    requires
        x.finite(),
        c.finite(),
        toward(up, x),
        Single::of_int(0).less(c),
    ensures
        toward(up, x / c),
{
    super::arith::lemma_small_ints();
    let z = Single::of_int(0);
    law_quotient_order(up, z, x, c);
    reveal(Single::quotient);
    assert(0 * pow2(149) == 0);
    super::rounding::lemma_nearest_zero(c.magnitude());
    super::laws::lemma_packed(c.negative(), 0);
}

/// Holding within limits keeps the direction.
pub proof fn law_clamp_order(up: bool, a: Single, b: Single, lo: Single, hi: Single)
    requires
        ahead(up, a, b),
        lo.less_eq(hi),
    ensures
        ahead(up, a.clamped(lo, hi), b.clamped(lo, hi)),
{
}

/// Holding within equal limits on both sides leaves which way a number points.
pub proof fn law_clamp_points(up: bool, x: Single, limit: Single)
    requires
        toward(up, x),
        toward(true, limit),
    ensures
        toward(up, x.clamped(limit.negated(), limit)),
        limit.negated().less_eq(limit),
{
    super::arith::lemma_small_ints();
    lemma_negated(limit);
}

/// The same by a known amount, which the limit is not below.
pub proof fn law_clamp_beyond(up: bool, x: Single, limit: Single, k: nat)
    requires
        beyond(up, x, k),
        beyond(true, limit, k),
    ensures
        beyond(up, x.clamped(limit.negated(), limit), k),
{
    lemma_negated(limit);
    lemma_pow2_pos((149 - k) as nat);
}

/// A fraction of at least 2^-k rounds to at least 2^-k.
pub proof fn lemma_nearest_beyond(num: nat, den: nat, k: nat)
    requires
        den > 0,
        k <= 149,
        pow2((149 - k) as nat) * den <= num,
    ensures
        super::rounding::field_value(super::rounding::nearest(num, den)) >= pow2((149 - k) as nat),
        super::rounding::nearest(num, den) <= INF_FIELD,
{
    let e = (149 - k) as nat;
    let f = super::exact::lemma_field_of(1, e);
    assert(1 * pow2(e) == pow2(e));
    super::rounding::lemma_nearest_exact(f);
    super::rounding::lemma_nearest_keeps_order(pow2(e), 1, num, den);
    super::laws::lemma_field_order(f, super::rounding::nearest(num, den));
}

/// The product of what points somewhere by known amounts.
pub proof fn law_product_beyond(up: bool, x: Single, c: Single, i: nat, j: nat)
    requires
        beyond(up, x, i),
        beyond(true, c, j),
        x.finite(),
        c.finite(),
        i + j <= 149,
    ensures
        beyond(up, x * c, i + j),
        beyond(up, c * x, i + j),
{
    super::laws::law_product_commutes(x, c);
    lemma_pow2_pos(149);
    lemma_pow2_adds((149 - i) as nat, (149 - j) as nat);
    lemma_pow2_adds((149 - i - j) as nat, 149);
    let a = x.magnitude();
    let b = c.magnitude();
    let pi = pow2((149 - i) as nat);
    let pj = pow2((149 - j) as nat);
    assert(pi * pj <= a * b) by (nonlinear_arith)
        requires
            pi <= a,
            pj <= b,
    ;
    lemma_nearest_beyond(a * b, pow2(149), i + j);
    reveal(Single::product);
    super::laws::lemma_packed(
        x.negative() != c.negative(),
        super::rounding::nearest(a * b, pow2(149)),
    );
}

/// The quotient of what points somewhere by a known amount.
pub proof fn law_quotient_beyond(up: bool, x: Single, c: Single, i: nat, j: nat)
    requires
        beyond(up, x, i),
        x.finite(),
        c.finite(),
        Single::of_int(0).less(c),
        super::laws::within(c, j),
        i + j <= 149,
    ensures
        beyond(up, x / c, i + j),
{
    super::arith::lemma_small_ints();
    lemma_pow2_adds((149 - i) as nat, 149);
    lemma_pow2_adds((149 - i - j) as nat, 149 + j);
    let a = x.magnitude();
    let b = c.magnitude();
    let pi = pow2((149 - i) as nat);
    let pij = pow2((149 - i - j) as nat);
    assert(pij * b <= a * pow2(149)) by (nonlinear_arith)
        requires
            pi <= a,
            b <= pow2(149 + j),
            pij * pow2(149 + j) == pi * pow2(149),
            pij >= 0,
            pow2(149) >= 0,
    ;
    lemma_nearest_beyond(a * pow2(149), b, i + j);
    reveal(Single::quotient);
    super::laws::lemma_packed(
        x.negative() != c.negative(),
        super::rounding::nearest(a * pow2(149), b),
    );
}

/// The sum of what points somewhere by a known amount and what points there at all.
pub proof fn law_sum_beyond(up: bool, x: Single, d: Single, k: nat)
    requires
        beyond(up, x, k),
        x.finite(),
        toward(up, d),
    ensures
        beyond(up, x + d, k),
        beyond(up, d + x, k),
{
    law_sum_moves(up, x, d);
    super::laws::law_sum_commutes(x, d);
    law_ahead_of_beyond(up, x, x + d, k);
}

/// The size of a quotient by what is at least 2^-j.
pub proof fn law_quotient_within(x: Single, c: Single, i: nat, j: nat)
    requires
        super::laws::within(x, i),
        beyond(true, c, j),
        c.finite(),
        i + j <= 127,
    ensures
        super::laws::within(x / c, i + j),
        (x / c).finite(),
{
    super::laws::lemma_within_is_finite(x, i);
    lemma_pow2_pos((149 - j) as nat);
    lemma_pow2_adds(149 + i, 149);
    lemma_pow2_adds(149 + i + j, (149 - j) as nat);
    let a = x.magnitude();
    let b = c.magnitude();
    let pj = pow2((149 - j) as nat);
    let pij = pow2(149 + i + j);
    assert(a * pow2(149) <= pij * b) by (nonlinear_arith)
        requires
            a <= pow2(149 + i),
            pj <= b,
            pij * pj == pow2(149 + i) * pow2(149),
            pij >= 0,
            pow2(149) >= 0,
    ;
    super::laws::lemma_nearest_within(a * pow2(149), b, i + j);
    reveal(Single::quotient);
    super::laws::lemma_packed(
        x.negative() != c.negative(),
        super::rounding::nearest(a * pow2(149), b),
    );
}

/// What is within limits is of limited size.
pub proof fn law_clamp_within(x: Single, limit: Single, k: nat)
    requires
        !x.nan(),
        super::laws::within(limit, k),
        toward(true, limit),
    ensures
        super::laws::within(x.clamped(limit.negated(), limit), k),
{
    super::arith::lemma_small_ints();
    lemma_negated(limit);
}

/// The size of a difference is at most twice the larger size.
pub proof fn law_difference_within(a: Single, b: Single, k: nat)
    requires
        super::laws::within(a, k),
        super::laws::within(b, k),
        k < 127,
    ensures
        super::laws::within(a - b, k + 1),
        (a - b).finite(),
{
    lemma_negated(b);
    super::laws::law_sum_within(a, b.negated(), k);
}

/// What is of limited size is within any larger limit.
pub proof fn law_within_more(x: Single, i: nat, j: nat)
    requires
        super::laws::within(x, i),
        i <= j,
    ensures
        super::laws::within(x, j),
{
    if i < j {
        lemma_pow2_strictly_increases(149 + i, 149 + j);
    }
}

/// A larger divisor gives a smaller share.
pub proof fn law_divisor_order(up: bool, x: Single, c: Single, d: Single)
    requires
        x.finite(),
        c.finite(),
        d.finite(),
        Single::of_int(0).less(c),
        c.less_eq(d),
        toward(up, x),
    ensures
        ahead(up, x / d, x / c),
{
    super::arith::lemma_small_ints();
    let a = x.magnitude();
    let n = a * pow2(149);
    assert(n * c.magnitude() <= n * d.magnitude()) by (nonlinear_arith)
        requires
            c.magnitude() <= d.magnitude(),
            n >= 0,
    ;
    super::rounding::lemma_nearest_keeps_order(n, d.magnitude(), n, c.magnitude());
    reveal(Single::quotient);
    let f = super::rounding::nearest(n, d.magnitude());
    let g = super::rounding::nearest(n, c.magnitude());
    super::laws::lemma_packed(x.negative(), f);
    super::laws::lemma_packed(x.negative(), g);
    super::laws::lemma_field_order(f, g);
    if x.field() > 0 {
        super::rounding::lemma_field_value_increases(0, x.field());
    } else {
        assert(0 * pow2(149) == 0);
        super::rounding::lemma_nearest_zero(c.magnitude());
        super::rounding::lemma_nearest_zero(d.magnitude());
    }
}

/// Dividing by one changes no number.
pub proof fn law_one_divides(x: Single)
    requires
        x.finite(),
    ensures
        (x / Single::of_int(1)).same(x),
{
    super::arith::lemma_small_ints();
    super::laws::lemma_one_magnitude();
    lemma_pow2_pos(149);
    let one = Single::of_int(1);
    let m = x.magnitude();
    super::rounding::lemma_nearest_exact(x.field());
    super::rounding::lemma_nearest_keeps_order(m * pow2(149), pow2(149), m, 1);
    super::rounding::lemma_nearest_keeps_order(m, 1, m * pow2(149), pow2(149));
    reveal(Single::quotient);
    super::laws::lemma_packed(x.negative(), x.field());
}

/// A larger factor takes a number further the way it points.
pub proof fn law_factor_order(up: bool, x: Single, c: Single, d: Single)
    requires
        x.finite(),
        c.finite(),
        d.finite(),
        toward(up, x),
        c.less_eq(d),
    ensures
        ahead(up, c * x, d * x),
        ahead(up, x * c, x * d),
{
    super::laws::law_product_commutes(c, x);
    super::laws::law_product_commutes(d, x);
    if up {
        law_product_order(true, c, d, x);
    } else {
        let n = x.negated();
        lemma_negated(x);
        law_negated_points_back(false, x);
        law_product_order(true, c, d, n);
        law_product_negated(c, n);
        law_product_negated(d, n);
        super::laws::law_product_commutes(c, n);
        super::laws::law_product_commutes(d, n);
        law_negated_order(true, c * n, d * n);
    }
}

/// Whether a number is at most `a` times 2^s in size.
pub open spec fn capped(x: Single, a: nat, s: nat) -> bool {
    !x.nan() && x.magnitude() <= a * pow2(149 + s)
}

proof fn lemma_nearest_capped(num: nat, den: nat, a: nat, s: nat)
    requires
        den > 0,
        a <= super::exact::EXACT,
        s <= 60,
        num <= (a * pow2(149 + s)) * den,
    ensures
        super::rounding::field_value(super::rounding::nearest(num, den)) <= a * pow2(149 + s),
        super::rounding::nearest(num, den) < INF_FIELD,
{
    let f = super::exact::lemma_field_of(a, 149 + s);
    super::rounding::lemma_nearest_exact(f);
    super::rounding::lemma_nearest_keeps_order(num, den, a * pow2(149 + s), 1);
    super::laws::lemma_field_order(super::rounding::nearest(num, den), f);
}

/// What is capped is finite.
pub proof fn lemma_capped_is_finite(x: Single, a: nat, s: nat)
    requires
        capped(x, a, s),
        a <= super::exact::EXACT,
        s <= 60,
    ensures
        x.finite(),
{
    let f = super::exact::lemma_field_of(a, 149 + s);
    super::rounding::lemma_field_value_increases(f, INF_FIELD as nat);
}

/// A larger cap.
pub proof fn lemma_capped_more(x: Single, a: nat, b: nat, s: nat)
    requires
        capped(x, a, s),
        a <= b,
    ensures
        capped(x, b, s),
{
    let p = pow2(149 + s);
    assert(a * p <= b * p) by (nonlinear_arith)
        requires
            a <= b,
    ;
}

/// A cap of at most 2^24 is one of 2^24.
pub proof fn lemma_capped_coarse(x: Single, a: nat)
    requires
        capped(x, a, 0),
        a <= super::exact::EXACT,
    ensures
        capped(x, 1, 24),
{
    lemma2_to64();
    lemma_pow2_adds(24, 149);
    lemma_capped_more(x, a, 0x100_0000, 0);
    assert(1 * pow2(173) == pow2(173));
}

/// The size of a sum and of a difference.
pub proof fn law_sum_capped(x: Single, y: Single, a: nat, b: nat, s: nat)
    requires
        capped(x, a, s),
        capped(y, b, s),
        a + b <= super::exact::EXACT,
        s <= 60,
    ensures
        capped(x + y, a + b, s),
        capped(x - y, a + b, s),
        (x + y).finite(),
        (x - y).finite(),
{
    lemma_capped_is_finite(x, a, s);
    lemma_capped_is_finite(y, b, s);
    lemma_negated(y);
    lemma_sum_cap(x, y, a, b, s);
    lemma_sum_cap(x, y.negated(), a, b, s);
}

proof fn lemma_sum_cap(x: Single, y: Single, a: nat, b: nat, s: nat)
    requires
        capped(x, a, s),
        capped(y, b, s),
        x.finite(),
        y.finite(),
        a + b <= super::exact::EXACT,
        s <= 60,
    ensures
        capped(x + y, a + b, s),
        (x + y).finite(),
{
    let p = pow2(149 + s);
    let e = x.value() + y.value();
    let n: nat = if e < 0 {
        (-e) as nat
    } else {
        e as nat
    };
    assert(a * p + b * p == (a + b) * p) by (nonlinear_arith);
    lemma_nearest_capped(n, 1, a + b, s);
    super::rounding::lemma_nearest_zero(1);
    reveal(Single::sum);
    super::laws::lemma_packed(x.negative() && y.negative(), 0);
    super::laws::lemma_packed(true, super::rounding::nearest(n, 1));
    super::laws::lemma_packed(false, super::rounding::nearest(n, 1));
}

/// The size of a product.
pub proof fn law_product_capped(x: Single, y: Single, a: nat, b: nat, s: nat, t: nat)
    requires
        capped(x, a, s),
        capped(y, b, t),
        a <= super::exact::EXACT,
        b <= super::exact::EXACT,
        a * b <= super::exact::EXACT,
        s + t <= 60,
    ensures
        capped(x * y, a * b, s + t),
        (x * y).finite(),
{
    lemma_capped_is_finite(x, a, s);
    lemma_capped_is_finite(y, b, t);
    let ps = pow2(149 + s);
    let pt = pow2(149 + t);
    lemma_pow2_adds(149 + s, 149 + t);
    lemma_pow2_adds(149 + s + t, 149);
    lemma_pow2_pos(149);
    let m = x.magnitude();
    let n = y.magnitude();
    assert(m * n <= (a * ps) * (b * pt)) by (nonlinear_arith)
        requires
            m <= a * ps,
            n <= b * pt,
    ;
    assert((a * ps) * (b * pt) == ((a * b) * pow2(149 + s + t)) * pow2(149)) by (nonlinear_arith)
        requires
            ps * pt == pow2(149 + s + t) * pow2(149),
    ;
    lemma_nearest_capped(m * n, pow2(149), a * b, s + t);
    reveal(Single::product);
    super::laws::lemma_packed(
        x.negative() != y.negative(),
        super::rounding::nearest(m * n, pow2(149)),
    );
}

/// Holding within a limit caps.
pub proof fn lemma_clamp_capped(x: Single, limit: Single, a: nat, s: nat)
    requires
        !x.nan(),
        capped(limit, a, s),
        toward(true, limit),
    ensures
        capped(x.clamped(limit.negated(), limit), a, s),
{
    super::arith::lemma_small_ints();
    lemma_negated(limit);
}

/// Every number that is not too small loses half of itself exactly.
pub proof fn law_half_is_left(up: bool, x: Single, a: nat)
    requires
        beyond(up, x, a),
        a <= 120,
        capped(x, 1, 20),
    ensures
        beyond(up, x - Single::of_ratio(5, 10) * x, a + 1),
        ahead(up, Single::of_ratio(5, 10) * x, x),
{
    let h = super::rounding::HIDDEN as nat;
    let half = Single::of_ratio(5, 10);
    lemma2_to64();
    lemma_capped_is_finite(x, 1, 20);
    let m = x.field();
    let pa = pow2((149 - a) as nat);
    // The field is that of a significand of 24 bits.
    if m < h {
        lemma_pow2_strictly_increases(23, (149 - a) as nat);
    }
    let e = (m / h - 1) as nat;
    let q = h + m % h;
    vstd::arithmetic::div_mod::lemma_fundamental_div_mod(m as int, h as int);
    lemma_pow2_pos(e);
    if e > 149 {
        lemma_pow2_strictly_increases(149, e);
        lemma_pow2_adds(23, e);
        lemma_pow2_adds(23, 149);
        assert(q * pow2(e) > 0x80_0000 * pow2(149)) by (nonlinear_arith)
            requires
                q >= 0x80_0000,
                pow2(e) > pow2(149),
        ;
        lemma_pow2_strictly_increases(169, 172);
        assert(1 * pow2(169) == pow2(169));
    }
    if e == 0 {
        lemma_pow2_strictly_increases(24, (149 - a) as nat);
    }
    let k = (149 - e) as nat;
    let n: int = if x.negative() {
        -(q as int)
    } else {
        q as int
    };
    assert((-(q as int)) * pow2(e) == -(q * pow2(e))) by (nonlinear_arith);
    assert(super::exact::worth(x, n, k));
    super::exact::law_half_worth();
    super::exact::law_worth_product(half, x, 1, n, 1, k);
    super::exact::law_worth_finer(x, n, k);
    super::exact::law_worth_difference(x, half * x, 2 * n, n, k + 1);
    super::exact::law_worth_order(half * x, x, n, 2 * n, k + 1);
    let d = x - half * x;
    lemma_pow2_unfold(e);
    lemma_pow2_unfold((149 - a) as nat);
    let pe = pow2((e - 1) as nat);
    assert(d.value() == n * pe);
    assert((-(q as int)) * pe == -(q * pe)) by (nonlinear_arith);
    assert(q * (2 * pe) == 2 * (q * pe)) by (nonlinear_arith);
    assert(q * pe > 0) by (nonlinear_arith)
        requires
            q > 0,
            pe > 0,
    ;
}

/// A gain times an error points from what there is to what is wanted, and by a share of the
/// error at least.
pub proof fn law_feedback_points(up: bool, k: Single, want: Single, have: Single, a: nat, b: nat)
    requires
        ahead(up, have, want),
        super::laws::within(want, 60),
        super::laws::within(have, 60),
        super::laws::within(k, 20),
        toward(true, k),
        a + b <= 149,
    ensures
        toward(up, k * (want - have)),
        super::laws::within(k * (want - have), 81),
        (k * (want - have)).finite(),
        beyond(up, want - have, a) && beyond(true, k, b) ==> beyond(up, k * (want - have), a + b),
{
    super::laws::lemma_within_is_finite(want, 60);
    super::laws::lemma_within_is_finite(have, 60);
    super::laws::lemma_within_is_finite(k, 20);
    law_difference_points(up, have, want);
    law_difference_within(want, have, 60);
    law_product_points(up, want - have, k);
    super::laws::law_product_within(k, want - have, 20, 61);
    if beyond(up, want - have, a) && beyond(true, k, b) {
        law_product_beyond(up, want - have, k, a, b);
    }
}

/// A gain times an error grows with what is wanted and shrinks with what there is.
pub proof fn law_feedback_order(
    up: bool,
    k: Single,
    want: Single,
    more: Single,
    have: Single,
    less: Single,
)
    requires
        ahead(up, want, more),
        ahead(!up, have, less),
        super::laws::within(want, 60),
        super::laws::within(more, 60),
        super::laws::within(have, 60),
        super::laws::within(less, 60),
        super::laws::within(k, 20),
        toward(true, k),
    ensures
        ahead(up, k * (want - have), k * (more - less)),
        super::laws::within(k * (want - have), 81),
        super::laws::within(k * (more - less), 81),
{
    super::laws::lemma_within_is_finite(more, 60);
    super::laws::lemma_within_is_finite(have, 60);
    super::laws::lemma_within_is_finite(k, 20);
    law_difference_order(up, want, more, have);
    law_difference_order(!up, have, less, more);
    law_difference_within(want, have, 60);
    law_difference_within(more, less, 60);
    law_difference_within(more, have, 60);
    law_product_order(up, want - have, more - have, k);
    law_product_order(up, more - have, more - less, k);
    super::laws::law_product_within(k, want - have, 20, 61);
    super::laws::law_product_within(k, more - less, 20, 61);
}

} // verus!
