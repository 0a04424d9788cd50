//! Where rounded arithmetic is exact: numbers of few bits.

use super::number::Single;
use super::rounding::{HIDDEN, INF_FIELD};
use vstd::arithmetic::power2::*;
use vstd::prelude::*;

verus! {

/// The bound up to which every integer has a number.
pub const EXACT: i64 = 0x100_0000;

/// Whether a number is the fraction of `n` by 2^k.
pub open spec fn worth(x: Single, n: int, k: nat) -> bool {
    x.finite() && k <= 149 && x.value() == n * pow2((149 - k) as nat)
}

/// An integer of at most 24 bits, shifted up by `e`, has a field.
pub proof fn lemma_field_of(n: nat, e: nat) -> (f: nat)
    requires
        n <= EXACT,
        e <= 220,
    ensures
        f < INF_FIELD,
        super::rounding::field_value(f) == n * pow2(e),
    decreases e,
{
    let h = HIDDEN as nat;
    lemma2_to64();
    if n == EXACT {
        lemma_pow2_unfold(e + 1);
        super::rounding::lemma_field_value(e + 1, h);
        assert(h * pow2(e + 1) == n * pow2(e)) by (nonlinear_arith)
            requires
                pow2(e + 1) == 2 * pow2(e),
                n == 2 * h,
        ;
        assert((e + 1) * h + h < INF_FIELD) by (nonlinear_arith)
            requires
                e <= 220,
                h == 0x80_0000,
        ;
        (e + 1) * h + h
    } else if n >= h || e == 0 {
        super::rounding::lemma_field_value(e, n);
        assert(e * h + n < INF_FIELD) by (nonlinear_arith)
            requires
                e <= 220,
                n < 0x100_0000,
                h == 0x80_0000,
        ;
        e * h + n
    } else {
        lemma_pow2_unfold(e);
        let f = lemma_field_of(2 * n, (e - 1) as nat);
        assert((2 * n) * pow2((e - 1) as nat) == n * pow2(e)) by (nonlinear_arith)
            requires
                pow2(e) == 2 * pow2((e - 1) as nat),
        ;
        f
    }
}

/// A number whose value is that of a small field is finite.
proof fn lemma_finite(x: Single, f: nat)
    requires
        !x.nan(),
        f < INF_FIELD,
        x.value() == super::rounding::field_value(f) || x.value() == -(
        super::rounding::field_value(f) as int),
    ensures
        x.finite(),
{
    super::rounding::lemma_field_value_increases(f, INF_FIELD as nat);
}

proof fn lemma_size(n: int, k: nat)
    ensures
        n >= 0 ==> n * pow2(k) >= 0,
        n < 0 ==> n * pow2(k) < 0 && (-n) * pow2(k) == -(n * pow2(k)),
        n > 0 ==> n * pow2(k) > 0,
{
    lemma_pow2_pos(k);
    let p = pow2(k);
    assert(n >= 0 ==> n * p >= 0) by (nonlinear_arith)
        requires
            p > 0,
    ;
    assert(n > 0 ==> n * p > 0) by (nonlinear_arith)
        requires
            p > 0,
    ;
    assert(n < 0 ==> n * p < 0 && (-n) * p == -(n * p)) by (nonlinear_arith)
        requires
            p > 0,
    ;
}

/// Small integers are numbers.
pub proof fn law_integer_worth(n: int)
    requires
        -EXACT <= n <= EXACT,
    ensures
        worth(Single::of_int(n), n, 0),
{
    reveal(Single::of_int);
    let a = if n < 0 {
        (-n) as nat
    } else {
        n as nat
    };
    let f = lemma_field_of(a, 149);
    super::rounding::lemma_nearest_exact(f);
    super::laws::lemma_packed(n < 0, f);
    lemma_size(n, 149);
}

/// A half is a number.
pub proof fn law_half_worth()
    ensures
        worth(Single::of_ratio(5, 10), 1, 1),
        worth(Single::of_ratio(1, 2), 1, 1),
{
    reveal(Single::of_ratio);
    let f = lemma_field_of(1, 148);
    let p = pow2(148);
    lemma_pow2_unfold(149);
    super::rounding::lemma_nearest_exact(f);
    super::rounding::lemma_nearest_keeps_order(5 * pow2(149), 10, p, 1);
    super::rounding::lemma_nearest_keeps_order(p, 1, 5 * pow2(149), 10);
    super::rounding::lemma_nearest_keeps_order(1 * pow2(149), 2, p, 1);
    super::rounding::lemma_nearest_keeps_order(p, 1, 1 * pow2(149), 2);
    super::laws::lemma_packed(false, f);
    assert(1 * p == p);
}

/// The same fraction with a larger denominator.
pub proof fn law_worth_finer(x: Single, n: int, k: nat)
    requires
        worth(x, n, k),
        k < 149,
    ensures
        worth(x, 2 * n, k + 1),
{
    lemma_pow2_unfold((149 - k) as nat);
    let p = pow2((148 - k) as nat);
    assert(n * (2 * p) == (2 * n) * p) by (nonlinear_arith);
}

/// Fractions of one denominator are ordered as their numerators are.
pub proof fn law_worth_order(a: Single, b: Single, m: int, n: int, k: nat)
    requires
        worth(a, m, k),
        worth(b, n, k),
    ensures
        a.less(b) <==> m < n,
        a.less_eq(b) <==> m <= n,
        a.same(b) <==> m == n,
{
    let p = pow2((149 - k) as nat);
    lemma_pow2_pos((149 - k) as nat);
    assert(m < n ==> m * p < n * p) by (nonlinear_arith)
        requires
            p > 0,
    ;
    assert(n < m ==> n * p < m * p) by (nonlinear_arith)
        requires
            p > 0,
    ;
}

/// The opposite of a fraction.
pub proof fn law_worth_negated(x: Single, n: int, k: nat)
    requires
        worth(x, n, k),
    ensures
        worth(x.negated(), -n, k),
{
    let p = pow2((149 - k) as nat);
    super::laws::lemma_packed(!x.negative(), x.field());
    assert((-n) * p == -(n * p)) by (nonlinear_arith);
}

/// The sum of fractions is exact while its numerator is small.
pub proof fn law_worth_sum(a: Single, b: Single, m: int, n: int, k: nat)
    requires
        worth(a, m, k),
        worth(b, n, k),
        -EXACT <= m + n <= EXACT,
    ensures
        worth(a + b, m + n, k),
{
    let e = (149 - k) as nat;
    let p = pow2(e);
    assert(m * p + n * p == (m + n) * p) by (nonlinear_arith);
    super::laws::lemma_sum_value(a, b);
    lemma_size(m + n, e);
    let s = if m + n < 0 {
        (-(m + n)) as nat
    } else {
        (m + n) as nat
    };
    let f = lemma_field_of(s, e);
    super::rounding::lemma_nearest_exact(f);
    lemma_finite(a + b, f);
}

/// The difference of fractions is exact while its numerator is small.
pub proof fn law_worth_difference(a: Single, b: Single, m: int, n: int, k: nat)
    requires
        worth(a, m, k),
        worth(b, n, k),
        -EXACT <= m - n <= EXACT,
    ensures
        worth(a - b, m - n, k),
{
    law_worth_negated(b, n, k);
    law_worth_sum(a, b.negated(), m, -n, k);
}

/// What rounds a scaled field.
proof fn lemma_nearest_scaled(num: nat, den: nat, f: nat)
    requires
        den > 0,
        f < INF_FIELD,
        num == super::rounding::field_value(f) * den,
    ensures
        super::rounding::nearest(num, den) == f,
{
    let v = super::rounding::field_value(f);
    super::rounding::lemma_nearest_exact(f);
    super::rounding::lemma_nearest_keeps_order(num, den, v, 1);
    super::rounding::lemma_nearest_keeps_order(v, 1, num, den);
}

proof fn lemma_magnitude(x: Single, n: int, k: nat)
    requires
        worth(x, n, k),
    ensures
        n >= 0 ==> x.magnitude() == n * pow2((149 - k) as nat),
        n < 0 ==> x.magnitude() == (-n) * pow2((149 - k) as nat),
        n > 0 ==> !x.negative(),
        n < 0 ==> x.negative(),
{
    lemma_size(n, (149 - k) as nat);
}

/// The product of fractions is exact while its numerator is small.
pub proof fn law_worth_product(a: Single, b: Single, m: int, n: int, j: nat, k: nat)
    requires
        worth(a, m, j),
        worth(b, n, k),
        j + k <= 149,
        -EXACT <= m * n <= EXACT,
    ensures
        worth(a * b, m * n, j + k),
{
    let e = (149 - j - k) as nat;
    lemma_magnitude(a, m, j);
    lemma_magnitude(b, n, k);
    let am = if m < 0 {
        (-m) as nat
    } else {
        m as nat
    };
    let an = if n < 0 {
        (-n) as nat
    } else {
        n as nat
    };
    assert(am * an == m * n || am * an == -(m * n)) by (nonlinear_arith)
        requires
            am == m || am == -m,
            an == n || an == -n,
    ;
    assert(am * an >= 0) by (nonlinear_arith);
    let f = lemma_field_of(am * an, e);
    lemma_pow2_adds((149 - j) as nat, (149 - k) as nat);
    lemma_pow2_adds(e, 149);
    lemma_pow2_pos(149);
    let pj = pow2((149 - j) as nat);
    let pk = pow2((149 - k) as nat);
    assert((am * pj) * (an * pk) == ((am * an) * pow2(e)) * pow2(149)) by (nonlinear_arith)
        requires
            pj * pk == pow2(e) * pow2(149),
    ;
    lemma_nearest_scaled(a.magnitude() * b.magnitude(), pow2(149), f);
    reveal(Single::product);
    super::laws::lemma_packed(a.negative() != b.negative(), f);
    lemma_size(m * n, e);
    assert(m * n > 0 <==> (m > 0 && n > 0) || (m < 0 && n < 0)) by (nonlinear_arith);
    assert(m * n == 0 <==> m == 0 || n == 0) by (nonlinear_arith);
    assert(am * an == 0 <==> am == 0 || an == 0) by (nonlinear_arith);
    if m * n == 0 {
        assert(0 * pow2(e) == 0);
    } else if m * n > 0 {
        assert(am * an == m * n);
    } else {
        assert(am * an == -(m * n));
    }
}

/// A quotient that comes out even is exact.
pub proof fn law_worth_quotient(a: Single, b: Single, m: int, n: int, j: nat, k: nat)
    requires
        worth(a, m * n, j + k),
        worth(b, n, k),
        n != 0,
        -EXACT <= m <= EXACT,
    ensures
        worth(a / b, m, j),
{
    let e = (149 - j) as nat;
    lemma_magnitude(a, m * n, j + k);
    lemma_magnitude(b, n, k);
    let am = if m < 0 {
        (-m) as nat
    } else {
        m as nat
    };
    let an = if n < 0 {
        (-n) as nat
    } else {
        n as nat
    };
    let amn = if m * n < 0 {
        (-(m * n)) as nat
    } else {
        (m * n) as nat
    };
    assert(amn == am * an) by (nonlinear_arith)
        requires
            am >= 0,
            an >= 0,
            am == m || am == -m,
            an == n || an == -n,
            amn >= 0,
            amn == m * n || amn == -(m * n),
    ;
    let f = lemma_field_of(am, e);
    lemma_pow2_pos((149 - k) as nat);
    lemma_pow2_adds((149 - j - k) as nat, 149);
    lemma_pow2_adds(e, (149 - k) as nat);
    let pk = pow2((149 - k) as nat);
    let pjk = pow2((149 - j - k) as nat);
    assert((amn * pjk) * pow2(149) == (am * pow2(e)) * (an * pk)) by (nonlinear_arith)
        requires
            amn == am * an,
            pjk * pow2(149) == pow2(e) * pk,
    ;
    assert(an * pk > 0) by (nonlinear_arith)
        requires
            an > 0,
            pk > 0,
    ;
    lemma_nearest_scaled(a.magnitude() * pow2(149), b.magnitude(), f);
    reveal(Single::quotient);
    super::laws::lemma_packed(a.negative() != b.negative(), f);
    lemma_size(m, e);
    assert(m * n > 0 <==> (m > 0 && n > 0) || (m < 0 && n < 0)) by (nonlinear_arith);
    assert(m * n == 0 <==> m == 0 || n == 0) by (nonlinear_arith);
    if m == 0 {
        assert(0 * pow2(e) == 0);
    }
    if b.field() == 0 {
        assert(b.magnitude() == 0);
    }
}

/// The root of a square is exact.
pub proof fn law_worth_root(a: Single, m: int, k: nat)
    requires
        worth(a, m * m, 2 * k),
        0 <= m <= EXACT,
    ensures
        worth(a.root(), m, k),
{
    let e = (149 - k) as nat;
    reveal(Single::root);
    lemma_magnitude(a, m * m, 2 * k);
    assert(m * m >= 0) by (nonlinear_arith);
    assert(m * m == 0 <==> m == 0) by (nonlinear_arith);
    if m == 0 {
        assert(0 * pow2((149 - 2 * k) as nat) == 0);
        assert(0 * pow2(e) == 0);
        if a.field() > 0 {
            super::rounding::lemma_field_value_increases(0, a.field());
        }
    } else {
        let f = lemma_field_of(m as nat, e);
        let v = super::rounding::field_value(f);
        let n = a.magnitude() * pow2(149);
        lemma_pow2_adds((149 - 2 * k) as nat, 149);
        lemma_pow2_adds(e, e);
        let pe = pow2(e);
        let pk = pow2((149 - 2 * k) as nat);
        assert((m * m * pk) * pow2(149) == (m * pe) * (m * pe)) by (nonlinear_arith)
            requires
                pk * pow2(149) == pe * pe,
        ;
        assert(n == v * v);
        lemma_size(m, e);
        lemma_size(m * m, (149 - 2 * k) as nat);
        super::rounding::lemma_field_value_increases(f, f + 1);
        let top = v + super::rounding::field_value(f + 1);
        assert(4 * (v * v) < top * top) by (nonlinear_arith)
            requires
                0 <= 2 * v < top,
        ;
        if f > 0 {
            super::rounding::lemma_field_value_increases((f - 1) as nat, f);
            let bottom = super::rounding::field_value((f - 1) as nat) + v;
            assert(4 * (v * v) > bottom * bottom) by (nonlinear_arith)
                requires
                    0 <= bottom < 2 * v,
            ;
        }
        super::root::lemma_nearest_root_is(n, f);
        super::laws::lemma_packed(false, f);
        if a.field() == 0 {
            assert(a.magnitude() == 0);
        }
    }
}

/// The same fraction with any larger denominator.
pub proof fn law_worth_finer_to(x: Single, n: int, j: nat, k: nat)
    requires
        worth(x, n, j),
        j <= k <= 149,
    ensures
        worth(x, n * pow2((k - j) as nat), k),
    decreases k - j,
{
    if j == k {
        lemma2_to64();
        assert(n * pow2(0) == n) by (nonlinear_arith)
            requires
                pow2(0) == 1,
        ;
    } else {
        law_worth_finer(x, n, j);
        law_worth_finer_to(x, 2 * n, j + 1, k);
        lemma_pow2_unfold((k - j) as nat);
        let p = pow2((k - j - 1) as nat);
        assert((2 * n) * p == n * (2 * p)) by (nonlinear_arith);
    }
}

} // verus!
