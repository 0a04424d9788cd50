//! Laws of rounded arithmetic.

use super::number::Single;
use super::rounding::{HIDDEN, INF_FIELD};
use vstd::arithmetic::power2::*;
use vstd::prelude::*;

verus! {

/// Larger fields hold larger numbers.
pub proof fn lemma_field_order(a: nat, b: nat)
    requires
        a <= b,
    ensures
        super::rounding::field_value(a) <= super::rounding::field_value(b),
{
    if a < b {
        super::rounding::lemma_field_value_increases(a, b);
    }
}

/// A packed number has the sign and the field it was packed from.
pub proof fn lemma_packed(negative: bool, field: nat)
    requires
        field <= INF_FIELD,
    ensures
        Single::pack(negative, field).negative() == negative,
        Single::pack(negative, field).field() == field,
        !Single::pack(negative, field).nan(),
        field < INF_FIELD ==> Single::pack(negative, field).finite(),
{
}

/// No number is beyond the infinities.
proof fn lemma_within_infinity(x: Single)
    requires
        !x.nan(),
    ensures
        -(super::rounding::field_value(INF_FIELD as nat) as int) <= x.value(),
        x.value() <= super::rounding::field_value(INF_FIELD as nat),
{
    lemma_field_order(x.field(), INF_FIELD as nat);
}

/// The value of a rounded integer number of units.
pub open spec fn rounded(exact: int) -> int {
    if exact < 0 {
        -(super::rounding::field_value(super::rounding::nearest((-exact) as nat, 1)) as int)
    } else {
        super::rounding::field_value(super::rounding::nearest(exact as nat, 1)) as int
    }
}

pub proof fn lemma_rounded_order(a: int, b: int)
    requires
        a <= b,
    ensures
        rounded(a) <= rounded(b),
{
    if a >= 0 {
        super::rounding::lemma_nearest_keeps_order(a as nat, 1, b as nat, 1);
        lemma_field_order(
            super::rounding::nearest(a as nat, 1),
            super::rounding::nearest(b as nat, 1),
        );
    } else if b < 0 {
        super::rounding::lemma_nearest_keeps_order((-b) as nat, 1, (-a) as nat, 1);
        lemma_field_order(
            super::rounding::nearest((-b) as nat, 1),
            super::rounding::nearest((-a) as nat, 1),
        );
    }
}

/// The value of a sum of finite numbers.
pub proof fn lemma_sum_value(a: Single, b: Single)
    requires
        a.finite(),
        b.finite(),
    ensures
        a.sum(b).value() == rounded(a.value() + b.value()),
        !a.sum(b).nan(),
{
    reveal(Single::sum);
    let exact = a.value() + b.value();
    if exact == 0 {
        super::rounding::lemma_nearest_zero(1);
        lemma_packed(a.negative() && b.negative(), 0);
    } else if exact < 0 {
        super::rounding::lemma_nearest_exists((-exact) as nat, 1);
        lemma_packed(true, super::rounding::nearest((-exact) as nat, 1));
    } else {
        super::rounding::lemma_nearest_exists(exact as nat, 1);
        lemma_packed(false, super::rounding::nearest(exact as nat, 1));
    }
}

/// A sum does not depend on the order of its terms.
pub proof fn law_sum_commutes(a: Single, b: Single)
    ensures
        a + b == b + a,
{
    reveal(Single::sum);
}

/// A product does not depend on the order of its factors.
pub proof fn law_product_commutes(a: Single, b: Single)
    ensures
        a * b == b * a,
{
    reveal(Single::product);
    assert(a.magnitude() * b.magnitude() == b.magnitude() * a.magnitude()) by (nonlinear_arith);
}

/// Adding the same to both sides keeps the order, as far as the sums are numbers.
pub proof fn law_sum_keeps_order(a: Single, b: Single, c: Single)
    requires
        a.less_eq(b),
        !(a + c).nan(),
        !(b + c).nan(),
    ensures
        (a + c).less_eq(b + c),
{
    if a.finite() && b.finite() && c.finite() {
        lemma_sum_value(a, c);
        lemma_sum_value(b, c);
        lemma_rounded_order(a.value() + c.value(), b.value() + c.value());
    } else {
        reveal(Single::sum);
        lemma_within_infinity(a + c);
        lemma_within_infinity(b + c);
        lemma_infinite_order(a, b);
    }
}

/// What is above plus infinity or below minus infinity is it.
proof fn lemma_infinite_order(a: Single, b: Single)
    requires
        a.less_eq(b),
    ensures
        a.infinite() && !a.negative() ==> b == a,
        b.infinite() && b.negative() ==> a == b,
{
    super::rounding::lemma_field_value_increases(0, INF_FIELD as nat);
    if a.field() < INF_FIELD {
        super::rounding::lemma_field_value_increases(a.field(), INF_FIELD as nat);
    }
    if b.field() < INF_FIELD {
        super::rounding::lemma_field_value_increases(b.field(), INF_FIELD as nat);
    }
}

/// Adding zero changes no number.
pub proof fn law_zero_is_neutral(x: Single)
    requires
        !x.nan(),
    ensures
        (x + Single::of_int(0)).same(x),
{
    super::arith::lemma_small_ints();
    let z = Single::of_int(0);
    assert(z.value() == 0);
    if x.finite() {
        lemma_sum_value(x, z);
        super::rounding::lemma_nearest_exact(x.field());
    } else {
        reveal(Single::sum);
    }
}

/// Multiplying with one changes no number.
pub proof fn law_one_is_neutral(x: Single)
    requires
        !x.nan(),
    ensures
        x * Single::of_int(1) == x,
{
    super::arith::lemma_small_ints();
    let one = Single::of_int(1);
    reveal(Single::product);
    lemma_one_magnitude();
    lemma_pow2_pos(149);
    if x.finite() {
        let m = x.magnitude();
        let p = pow2(149);
        super::rounding::lemma_nearest_exact(x.field());
        super::rounding::lemma_nearest_exists(m, 1);
        super::rounding::lemma_nearest_keeps_order(m * p, p, m, 1);
        super::rounding::lemma_nearest_keeps_order(m, 1, m * p, p);
        assert(super::rounding::nearest(m * p, p) == x.field());
    }
    lemma_packed(x.negative(), x.field());
}

/// One is 2^149 units.
pub proof fn lemma_one_magnitude()
    ensures
        Single::of_int(1).magnitude() == pow2(149),
        Single::of_int(0).less(Single::of_int(1)),
{
    lemma_pow2_pos(149);
    super::arith::lemma_small_ints();
    lemma2_to64();
    lemma_pow2_adds(23, 126);
    super::rounding::lemma_field_value(126, 0x80_0000);
}

/// The value of a product with a factor that is not negative.
proof fn lemma_product_value(a: Single, c: Single)
    requires
        a.finite(),
        c.finite(),
        !c.negative(),
    ensures
        !(a * c).nan(),
        (a * c).value() == if a.negative() {
            -(super::rounding::field_value(
                super::rounding::nearest(a.magnitude() * c.magnitude(), pow2(149)),
            ) as int)
        } else {
            super::rounding::field_value(
                super::rounding::nearest(a.magnitude() * c.magnitude(), pow2(149)),
            ) as int
        },
{
    reveal(Single::product);
    lemma_pow2_pos(149);
    super::rounding::lemma_nearest_exists(a.magnitude() * c.magnitude(), pow2(149));
    lemma_packed(
        a.negative(),
        super::rounding::nearest(a.magnitude() * c.magnitude(), pow2(149)),
    );
}

/// Multiplying both sides with the same factor keeps the order, where the factor is not
/// negative and all is finite.
pub proof fn law_product_keeps_order(a: Single, b: Single, c: Single)
    requires
        a.less_eq(b),
        a.finite(),
        b.finite(),
        c.finite(),
        !c.negative(),
    ensures
        (a * c).less_eq(b * c),
{
    lemma_product_value(a, c);
    lemma_product_value(b, c);
    lemma_pow2_pos(149);
    let p = pow2(149);
    let x = a.magnitude();
    let y = b.magnitude();
    let k = c.magnitude();
    if !a.negative() && !b.negative() {
        assert(x * k * p <= y * k * p) by (nonlinear_arith)
            requires
                x <= y,
        ;
        super::rounding::lemma_nearest_keeps_order(x * k, p, y * k, p);
        lemma_field_order(
            super::rounding::nearest(x * k, p),
            super::rounding::nearest(y * k, p),
        );
    } else if a.negative() && b.negative() {
        assert(y * k * p <= x * k * p) by (nonlinear_arith)
            requires
                y <= x,
        ;
        super::rounding::lemma_nearest_keeps_order(y * k, p, x * k, p);
        lemma_field_order(
            super::rounding::nearest(y * k, p),
            super::rounding::nearest(x * k, p),
        );
    } else if !a.negative() && b.negative() {
        assert(x == 0 && y == 0);
        assert(0 * k == 0);
        super::rounding::lemma_nearest_zero(p);
    }
}

/// Dividing both sides by the same divisor keeps the order, where the divisor is positive
/// and all is finite.
pub proof fn law_quotient_keeps_order(a: Single, b: Single, c: Single)
    requires
        a.less_eq(b),
        a.finite(),
        b.finite(),
        c.finite(),
        Single::of_int(0).less(c),
    ensures
        (a / c).less_eq(b / c),
{
    super::arith::lemma_small_ints();
    reveal(Single::quotient);
    let p = pow2(149);
    let x = a.magnitude();
    let y = b.magnitude();
    let d = c.magnitude();
    assert(d > 0 && !c.negative() && c.field() > 0);
    super::rounding::lemma_nearest_exists(x * p, d);
    super::rounding::lemma_nearest_exists(y * p, d);
    lemma_packed(a.negative(), super::rounding::nearest(x * p, d));
    lemma_packed(b.negative(), super::rounding::nearest(y * p, d));
    if !a.negative() && !b.negative() {
        assert(x * p * d <= y * p * d) by (nonlinear_arith)
            requires
                x <= y,
        ;
        super::rounding::lemma_nearest_keeps_order(x * p, d, y * p, d);
        lemma_field_order(
            super::rounding::nearest(x * p, d),
            super::rounding::nearest(y * p, d),
        );
    } else if a.negative() && b.negative() {
        assert(y * p * d <= x * p * d) by (nonlinear_arith)
            requires
                y <= x,
        ;
        super::rounding::lemma_nearest_keeps_order(y * p, d, x * p, d);
        lemma_field_order(
            super::rounding::nearest(y * p, d),
            super::rounding::nearest(x * p, d),
        );
    } else if !a.negative() && b.negative() {
        assert(x == 0 && y == 0);
        assert(0 * p == 0);
        super::rounding::lemma_nearest_zero(d);
    }
}

/// Conversion to an integer keeps the order.
pub proof fn law_saturation_keeps_order(a: Single, b: Single, lo: int, hi: int)
    requires
        a.less_eq(b),
        lo <= 0 <= hi,
    ensures
        lo <= a.saturated(lo, hi) <= b.saturated(lo, hi) <= hi,
{
    lemma_infinite_order(a, b);
    let p = pow2(149);
    lemma_pow2_pos(149);
    let x = a.magnitude();
    let y = b.magnitude();
    if x <= y {
        vstd::arithmetic::div_mod::lemma_div_is_ordered(x as int, y as int, p as int);
    } else {
        vstd::arithmetic::div_mod::lemma_div_is_ordered(y as int, x as int, p as int);
    }
    assert(0 <= x as int / p as int);
    assert(0 <= y as int / p as int);
}

/// What is the same as a finite number is finite.
pub proof fn lemma_same_is_finite(a: Single, b: Single)
    requires
        a.same(b),
        b.finite(),
    ensures
        a.finite(),
{
    if a.infinite() {
        super::rounding::lemma_field_value_increases(b.field(), INF_FIELD as nat);
        super::rounding::lemma_field_value_increases(0, INF_FIELD as nat);
    }
}

/// Equal terms have equal sums.
pub proof fn law_same_sums(a: Single, b: Single, x: Single, y: Single)
    requires
        a.same(x),
        b.same(y),
        x.finite(),
        y.finite(),
    ensures
        (a + b).same(x + y),
{
    lemma_same_is_finite(a, x);
    lemma_same_is_finite(b, y);
    lemma_sum_value(a, b);
    lemma_sum_value(x, y);
}

/// A finite number times zero is zero.
pub proof fn law_product_with_zero(x: Single, z: Single)
    requires
        x.finite(),
        z.same(Single::of_int(0)),
    ensures
        (x * z).same(Single::of_int(0)),
        (z * x).same(Single::of_int(0)),
{
    super::arith::lemma_small_ints();
    law_product_commutes(x, z);
    reveal(Single::product);
    lemma_pow2_pos(149);
    if z.field() > 0 {
        super::rounding::lemma_field_value_increases(0, z.field());
    }
    assert(x.magnitude() * 0 == 0);
    super::rounding::lemma_nearest_zero(pow2(149));
    lemma_packed(x.negative() != z.negative(), 0);
}

/// Subtracting zero changes no number.
pub proof fn law_zero_takes_nothing(x: Single, z: Single)
    requires
        x.finite(),
        z.same(Single::of_int(0)),
    ensures
        (x + z).same(x),
        (x - z).same(x),
{
    super::arith::lemma_small_ints();
    lemma_packed(!z.negative(), z.field());
    if z.field() > 0 {
        super::rounding::lemma_field_value_increases(0, z.field());
    }
    assert(z.negated().same(Single::of_int(0)));
    law_zero_is_neutral(x);
    law_same_sums(x, z, x, Single::of_int(0));
    law_same_sums(x, z.negated(), x, Single::of_int(0));
}

/// Whether a number is at most 2^k in size.
pub open spec fn within(x: Single, k: nat) -> bool {
    !x.nan() && x.magnitude() <= pow2(149 + k)
}

/// A fraction of at most 2^k, in units of 2^-149, rounds to a number of at most 2^k.
pub proof fn lemma_nearest_within(num: nat, den: nat, k: nat)
    requires
        den > 0,
        k <= 127,
        num <= pow2(149 + k) * den,
    ensures
        super::rounding::nearest(num, den) < INF_FIELD,
        super::rounding::field_value(super::rounding::nearest(num, den)) <= pow2(149 + k),
{
    let f = ((126 + k) * 0x80_0000 + 0x80_0000) as nat;
    lemma2_to64();
    lemma_pow2_adds(23, 126 + k);
    super::rounding::lemma_field_value(126 + k, 0x80_0000);
    assert(super::rounding::field_value(f) == pow2(149 + k));
    super::rounding::lemma_nearest_exact(f);
    super::rounding::lemma_nearest_keeps_order(num, den, pow2(149 + k), 1);
    lemma_field_order(super::rounding::nearest(num, den), f);
}

/// The size of a product is at most the product of the sizes.
pub proof fn law_product_within(a: Single, b: Single, i: nat, j: nat)
    requires
        within(a, i),
        within(b, j),
        i + j <= 127,
    ensures
        within(a * b, i + j),
        (a * b).finite(),
{
    lemma_within_is_finite(a, i);
    lemma_within_is_finite(b, j);
    let x = a.magnitude();
    let y = b.magnitude();
    lemma_pow2_pos(149);
    lemma_pow2_adds(149 + i, 149 + j);
    lemma_pow2_adds(149 + i + j, 149);
    assert(x * y <= pow2(149 + i) * pow2(149 + j)) by (nonlinear_arith)
        requires
            x <= pow2(149 + i),
            y <= pow2(149 + j),
    ;
    lemma_nearest_within(x * y, pow2(149), i + j);
    reveal(Single::product);
    lemma_packed(
        a.negative() != b.negative(),
        super::rounding::nearest(x * y, pow2(149)),
    );
}

/// The size of a sum is at most twice the larger size.
pub proof fn law_sum_within(a: Single, b: Single, k: nat)
    requires
        within(a, k),
        within(b, k),
        k < 127,
    ensures
        within(a + b, k + 1),
        (a + b).finite(),
{
    lemma_within_is_finite(a, k);
    lemma_within_is_finite(b, k);
    lemma_pow2_unfold(149 + k + 1);
    let exact = a.value() + b.value();
    let size = if exact < 0 {
        (-exact) as nat
    } else {
        exact as nat
    };
    lemma_nearest_within(size, 1, k + 1);
    reveal(Single::sum);
    lemma_packed(a.negative() && b.negative(), 0);
    lemma_packed(true, super::rounding::nearest(size, 1));
    lemma_packed(false, super::rounding::nearest(size, 1));
    super::rounding::lemma_nearest_zero(1);
}

/// What is of limited size is finite.
pub proof fn lemma_within_is_finite(x: Single, k: nat)
    requires
        within(x, k),
        k <= 127,
    ensures
        x.finite(),
{
    if x.infinite() {
        lemma2_to64();
        lemma_pow2_adds(23, 254);
        super::rounding::lemma_field_value(253, 0xFF_FFFF);
        lemma_pow2_unfold(254);
        lemma_pow2_pos(253);
        if k < 127 {
            lemma_pow2_strictly_increases(149 + k, 276);
        }
        lemma_pow2_strictly_increases(276, 277);
        assert(INF_FIELD == 253 * 0x80_0000 + 0xFF_FFFF + 1);
        assert(super::rounding::field_value(INF_FIELD as nat) == 0x100_0000 * pow2(253));
        lemma_pow2_adds(24, 253);
    }
}

/// An integer of at most 2^k becomes a number of at most 2^k.
pub proof fn law_integer_within(n: int, k: nat)
    requires
        -(pow2(k) as int) <= n <= pow2(k),
        k <= 127,
    ensures
        within(Single::of_int(n), k),
        Single::of_int(n).finite(),
        n >= 0 ==> !Single::of_int(n).negative(),
{
    reveal(Single::of_int);
    let size = if n < 0 {
        (-n) as nat
    } else {
        n as nat
    };
    lemma_pow2_pos(149);
    lemma_pow2_adds(149, k);
    assert(size * pow2(149) <= pow2(k) * pow2(149)) by (nonlinear_arith)
        requires
            size <= pow2(k),
    ;
    assert(pow2(k) * pow2(149) == pow2(149) * pow2(k)) by (nonlinear_arith);
    lemma_nearest_within(size * pow2(149), 1, k);
    lemma_packed(n < 0, super::rounding::nearest(size * pow2(149), 1));
}

/// Integers keep their order as numbers.
pub proof fn law_integers_keep_order(a: int, b: int)
    requires
        0 <= a <= b,
    ensures
        Single::of_int(a).less_eq(Single::of_int(b)),
{
    reveal(Single::of_int);
    lemma_pow2_pos(149);
    let x = (a as nat) * pow2(149);
    let y = (b as nat) * pow2(149);
    assert(x <= y) by (nonlinear_arith)
        requires
            x == (a as nat) * pow2(149),
            y == (b as nat) * pow2(149),
            a <= b,
            0 <= a,
    ;
    super::rounding::lemma_nearest_keeps_order(x, 1, y, 1);
    lemma_packed(false, super::rounding::nearest(x, 1));
    lemma_packed(false, super::rounding::nearest(y, 1));
    lemma_field_order(super::rounding::nearest(x, 1), super::rounding::nearest(y, 1));
}

/// The sum of a finite number and any number is a number.
pub proof fn law_sum_of_finite(a: Single, b: Single)
    requires
        a.finite(),
        !b.nan(),
    ensures
        !(a + b).nan(),
{
    if b.finite() {
        lemma_sum_value(a, b);
    } else {
        reveal(Single::sum);
    }
}

/// A fraction that is not negative gives a number that is not negative; it is finite
/// where the fraction is at most one.
pub proof fn law_ratio_is_positive(num: nat, den: nat)
    requires
        num <= den,
        den > 0,
    ensures
        Single::of_int(0).less_eq(Single::of_ratio(num as int, den)),
        Single::of_ratio(num as int, den).finite(),
        within(Single::of_ratio(num as int, den), 0),
{
    super::arith::lemma_small_ints();
    reveal(Single::of_ratio);
    assert(num * pow2(149) <= pow2(149) * den) by (nonlinear_arith)
        requires
            num <= den,
    ;
    lemma_nearest_within(num * pow2(149), den, 0);
    lemma_packed(false, super::rounding::nearest(num * pow2(149), den));
}

/// Integers below 2^24 are numbers.
pub proof fn law_small_integers_exact(n: nat)
    requires
        n < 0x100_0000,
    ensures
        Single::of_int(n as int).value() == n * pow2(149),
        Single::of_int(n as int).finite(),
        Single::of_int(n as int).truncated() == n,
{
    reveal(Single::of_int);
    lemma_pow2_pos(149);
    if n == 0 {
        assert(0 * pow2(149) == 0);
        super::rounding::lemma_nearest_zero(1);
        lemma_packed(false, 0);
    } else {
        lemma2_to64();
        lemma_scaled_field(n, 0);
        let f = choose|f: nat|
            f < INF_FIELD && #[trigger] super::rounding::field_value(f) == n * pow2(149);
        super::rounding::lemma_nearest_exact(f);
        lemma_packed(false, f);
    }
    vstd::arithmetic::div_mod::lemma_div_by_multiple(n as int, pow2(149) as int);
}

/// A significand of at most 24 bits, shifted up by `s` so far, has a field.
proof fn lemma_scaled_field(n: nat, s: nat)
    requires
        0 < n,
        n * pow2(s) < 0x100_0000,
        s <= 24,
    ensures
        exists|f: nat|
            f < INF_FIELD && #[trigger] super::rounding::field_value(f) == n * pow2(149),
    decreases 24 - s,
{
    lemma2_to64();
    let q = n * pow2(s);
    if q >= 0x80_0000 {
        if s == 24 {
            assert(q >= pow2(24)) by (nonlinear_arith)
                requires
                    q == n * pow2(24),
                    n >= 1,
            ;
        }
        let e = (149 - s) as nat;
        super::rounding::lemma_field_value(e, q);
        lemma_pow2_adds(s, e);
        assert(q * pow2(e) == n * pow2(149)) by (nonlinear_arith)
            requires
                q == n * pow2(s),
                pow2(s) * pow2(e) == pow2(149),
        ;
        let f = e * 0x80_0000 + q;
        assert(super::rounding::field_value(f) == n * pow2(149));
    } else {
        if s == 24 {
            assert(q >= pow2(24)) by (nonlinear_arith)
                requires
                    q == n * pow2(24),
                    n >= 1,
            ;
        }
        lemma_pow2_unfold(s + 1);
        assert(n * pow2(s + 1) == 2 * q) by (nonlinear_arith)
            requires
                q == n * pow2(s),
                pow2(s + 1) == 2 * pow2(s),
        ;
        lemma_scaled_field(n, s + 1);
    }
}

/// Rounding does not depend on the sign.
pub proof fn lemma_rounded_negated(x: int)
    ensures
        rounded(-x) == -rounded(x),
{
    if x == 0 {
        super::rounding::lemma_nearest_zero(1);
    }
}

/// The difference of two numbers that are not negative is in size at most their sum.
pub proof fn law_difference_below_sum(a: Single, b: Single)
    requires
        a.finite(),
        b.finite(),
        Single::of_int(0).less_eq(a),
        Single::of_int(0).less_eq(b),
    ensures
        (a - b).magnitude_of().less_eq(a + b),
        (a + b).finite() ==> (a - b).finite(),
{
    super::arith::lemma_small_ints();
    lemma_packed(!b.negative(), b.field());
    lemma_sum_value(a, b);
    lemma_sum_value(a, b.negated());
    let x = a.value();
    let y = b.value();
    lemma_rounded_order(x - y, x + y);
    lemma_rounded_order(-(x + y), x - y);
    lemma_rounded_negated(x + y);
    let d = (a - b).magnitude_of();
    lemma_packed(false, (a - b).field());
    if (a + b).finite() && d.infinite() {
        lemma_infinite_order(d, a + b);
    }
}

/// The quotient of a number by one that is at least as large in size is at most one.
pub proof fn law_quotient_at_most_one(a: Single, b: Single)
    requires
        a.finite(),
        b.finite(),
        Single::of_int(0).less(b),
        a.magnitude_of().less_eq(b),
    ensures
        (a / b).magnitude_of().less_eq(Single::of_int(1)),
{
    super::arith::lemma_small_ints();
    lemma_one_magnitude();
    lemma_pow2_pos(149);
    lemma_packed(false, a.field());
    let one = Single::of_int(1);
    let p = pow2(149);
    let x = a.magnitude();
    let y = b.magnitude();
    assert(x * p * 1 <= p * y) by (nonlinear_arith)
        requires
            x <= y,
    ;
    super::rounding::lemma_nearest_keeps_order(x * p, y, p, 1);
    super::rounding::lemma_nearest_exact(one.field());
    reveal(Single::quotient);
    let f = super::rounding::nearest(x * p, y);
    lemma_packed(a.negative() != b.negative(), f);
    lemma_packed(false, f);
    lemma_field_order(f, one.field());
}

/// A number and the next smaller one are at least a part in 2^24 apart.
proof fn lemma_gap(m: nat)
    requires
        m > 0,
    ensures
        super::rounding::field_value(m) <= 0x100_0000 * (super::rounding::field_value(m)
            - super::rounding::field_value((m - 1) as nat)),
{
    let h = HIDDEN as nat;
    let k = (m - 1) as nat;
    let e: nat = if k < h {
        0
    } else {
        (k / h - 1) as nat
    };
    let q: nat = if k < h {
        k
    } else {
        h + k % h
    };
    if k >= h {
        vstd::arithmetic::div_mod::lemma_fundamental_div_mod(k as int, h as int);
    }
    assert(e * h + q == k) by (nonlinear_arith)
        requires
            k < h ==> e == 0 && q == k,
            k >= h ==> k == h * (k / h) + k % h && e == k / h - 1 && q == h + k % h,
    ;
    super::rounding::lemma_field_value(e, q);
    let w = pow2(e);
    assert((q + 1) * w <= 0x100_0000 * ((q + 1) * w - q * w)) by (nonlinear_arith)
        requires
            q + 1 <= 0x100_0000,
    ;
}

proof fn lemma_apart(a: nat, b: nat)
    requires
        a < b,
    ensures
        super::rounding::field_value(a) * 0x100_0000 <= 0xFF_FFFF * super::rounding::field_value(
            b,
        ),
{
    lemma_gap(b);
    lemma_field_order(a, (b - 1) as nat);
}

/// Twice a number is one.
proof fn lemma_doubled(m: nat) -> (d: nat)
    ensures
        super::rounding::field_value(d) == 2 * super::rounding::field_value(m),
        d <= m + HIDDEN,
{
    let h = HIDDEN as nat;
    if m < h {
        lemma2_to64();
        super::rounding::lemma_field_value(0, 2 * m);
        2 * m
    } else {
        let k = (m / h - 1) as nat;
        lemma_pow2_unfold(k + 1);
        assert((m + h) / h == m / h + 1 && (m + h) % h == m % h);
        let q = h + m % h;
        assert(q * pow2(k + 1) == 2 * (q * pow2(k))) by (nonlinear_arith)
            requires
                pow2(k + 1) == 2 * pow2(k),
        ;
        m + h
    }
}

/// The quotient of a number by a larger one is less than one.
pub proof fn law_quotient_below_one(a: Single, b: Single)
    requires
        a.finite(),
        b.finite(),
        a.magnitude_of().less(b),
    ensures
        (a / b).magnitude_of().less(Single::of_int(1)),
{
    let h = HIDDEN as nat;
    let f = (Single::of_int(1).field() - 1) as nat;
    let p = pow2(149);
    let u = pow2(125);
    let x = a.magnitude();
    let y = b.magnitude();
    super::arith::lemma_small_ints();
    lemma_packed(false, a.field());
    if a.field() >= b.field() {
        lemma_field_order(b.field(), a.field());
    }
    lemma_apart(a.field(), b.field());
    lemma2_to64();
    lemma_pow2_adds(24, 125);
    super::rounding::lemma_field_value(125, 0xFF_FFFF);
    assert(x * p * 1 <= (0xFF_FFFF * u) * y) by (nonlinear_arith)
        requires
            x * 0x100_0000 <= 0xFF_FFFF * y,
            p == 0x100_0000 * u,
    ;
    super::rounding::lemma_nearest_keeps_order(x * p, y, 0xFF_FFFF * u, 1);
    super::rounding::lemma_nearest_exact(f);
    reveal(Single::quotient);
    let n = super::rounding::nearest(x * p, y);
    lemma_packed(a.negative() != b.negative(), n);
    lemma_packed(false, n);
    super::rounding::lemma_field_value_increases(n, Single::of_int(1).field());
}

/// Twice a number of at most one in size, turned and divided by a larger number, is less
/// than two.
pub proof fn law_double_share_below_two(x: Single, b: Single)
    requires
        b.finite(),
        x.magnitude_of().less_eq(Single::of_int(1)),
        x.magnitude_of().less(b),
    ensures
        (Single::of_int(-2) * x / b).magnitude_of().less(Single::of_int(2)),
{
    let two = Single::of_int(2);
    let p = pow2(149);
    let u = pow2(125);
    let c = x.magnitude();
    let y = b.magnitude();
    super::arith::lemma_small_ints();
    super::arith::lemma_two();
    lemma2_to64();
    lemma_pow2_pos(149);
    assert(Single::of_int(-2) == two.negated()) by {
        reveal(Single::of_int);
        let n = super::rounding::nearest(2 * p, 1);
        super::rounding::lemma_nearest_exists(2 * p, 1);
        assert((-(-2int)) as nat == 2);
        lemma_packed(false, n);
        assert(two == Single::pack(false, n));
        assert(Single::of_int(-2) == Single::pack(true, n));
    }
    if x.field() > INF_FIELD {
        assert(x.magnitude_of().nan());
    }
    lemma_packed(false, x.field());
    if x.field() > Single::of_int(1).field() {
        super::rounding::lemma_field_value_increases(Single::of_int(1).field(), x.field());
    }
    if x.field() >= b.field() {
        lemma_field_order(b.field(), x.field());
    }
    lemma_apart(x.field(), b.field());
    // The doubled number is exact.
    let d = lemma_doubled(x.field());
    let t = Single::of_int(-2) * x;
    lemma_pow2_adds(23, 127);
    lemma_pow2_unfold(150);
    super::rounding::lemma_field_value(127, 0x80_0000);
    assert(two.magnitude() == 2 * p);
    assert((2 * p) * c * 1 <= (2 * c) * p && (2 * c) * p <= (2 * p) * c * 1) by (nonlinear_arith);
    super::rounding::lemma_nearest_keeps_order((2 * p) * c, p, 2 * c, 1);
    super::rounding::lemma_nearest_keeps_order(2 * c, 1, (2 * p) * c, p);
    super::rounding::lemma_nearest_exact(d);
    reveal(Single::product);
    lemma_packed(!x.negative(), d);
    assert(t.field() == d);
    // Its share is below the number before two.
    lemma_pow2_adds(24, 125);
    lemma_pow2_unfold(126);
    super::rounding::lemma_field_value(126, 0xFF_FFFF);
    let f = (two.field() - 1) as nat;
    assert((2 * c) * p * 1 <= (0xFF_FFFF * (2 * u)) * y) by (nonlinear_arith)
        requires
            c * 0x100_0000 <= 0xFF_FFFF * y,
            p == 0x100_0000 * u,
    ;
    super::rounding::lemma_nearest_keeps_order((2 * c) * p, y, 0xFF_FFFF * (2 * u), 1);
    super::rounding::lemma_nearest_exact(f);
    reveal(Single::quotient);
    let n = super::rounding::nearest((2 * c) * p, y);
    lemma_packed(t.negative() != b.negative(), n);
    lemma_packed(false, n);
    super::rounding::lemma_field_value_increases(n, two.field());
}

/// What is the same as a number stays so when nothing is added to it.
pub proof fn lemma_add_nothing(y: Single, x: Single, z: Single)
    requires
        y.same(x),
        x.finite(),
        z.same(Single::of_int(0)),
    ensures
        (y + z).same(x),
        (y - z).same(x),
        (z + y).same(x),
        y.finite(),
        (y + z).finite(),
        (y - z).finite(),
        (z + y).finite(),
{
    lemma_same_is_finite(y, x);
    law_zero_takes_nothing(y, z);
    law_sum_commutes(y, z);
    lemma_same_is_finite(y + z, x);
    lemma_same_is_finite(y - z, x);
}

/// Nothing added to nothing is nothing.
pub proof fn lemma_nothing_more(a: Single, b: Single)
    requires
        a.same(Single::of_int(0)),
        b.same(Single::of_int(0)),
    ensures
        (a + b).same(Single::of_int(0)),
        (a - b).same(Single::of_int(0)),
{
    super::arith::lemma_small_ints();
    lemma_add_nothing(a, Single::of_int(0), b);
}

} // verus!
