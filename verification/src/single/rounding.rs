//! Rounding to the nearest binary32 magnitude, ties to even.
//!
//! Every finite binary32 number is an integer multiple of 2^-149, so an exact
//! magnitude is written as a fraction `num / den` in units of 2^-149. The
//! magnitude field of a number (its bits without the sign) grows with the
//! magnitude itself, and neighbouring fields are neighbouring numbers.

use vstd::arithmetic::div_mod::*;
use vstd::arithmetic::mul::*;
use vstd::arithmetic::power2::*;
use vstd::prelude::*;

verus! {

/// The weight of the hidden bit: 2^23.
pub const HIDDEN: u32 = 0x0080_0000;

/// The magnitude field of infinity.
pub const INF_FIELD: u32 = 0x7F80_0000;

/// The magnitude that a magnitude field stands for, in units of 2^-149. The
/// field of infinity is read as the number that would follow the largest
/// finite one.
pub open spec fn field_value(m: nat) -> nat {
    if m < HIDDEN {
        m
    } else {
        (HIDDEN + m % (HIDDEN as nat)) as nat * pow2((m / (HIDDEN as nat) - 1) as nat)
    }
}

/// `m` is the magnitude field nearest to `num / den`: the fraction lies between
/// the midpoints to the two neighbours of `m`, and a midpoint belongs to the
/// even field. From the midpoint above the largest finite number on, the
/// nearest field is that of infinity.
pub open spec fn is_nearest(num: nat, den: nat, m: nat) -> bool {
    &&& m <= INF_FIELD
    &&& m < INF_FIELD ==> {
        let top = (field_value(m) + field_value(m + 1)) * den;
        2 * num < top || (2 * num == top && m % 2 == 0)
    }
    &&& m > 0 ==> {
        let bottom = (field_value((m - 1) as nat) + field_value(m)) * den;
        2 * num > bottom || (2 * num == bottom && m % 2 == 0)
    }
}

/// The magnitude field nearest to `num / den`, ties to even.
pub open spec fn nearest(num: nat, den: nat) -> nat {
    choose|m: nat| is_nearest(num, den, m)
}

/// A significand below 2^24 at exponent `e`, with its hidden bit set unless the
/// exponent is the lowest, sits in the field `e * 2^23 + q`, and the next field
/// holds the next significand.
pub proof fn lemma_field_value(e: nat, q: nat)
    requires
        q < 2 * HIDDEN,
        q >= HIDDEN || e == 0,
    ensures
        field_value(e * (HIDDEN as nat) + q) == q * pow2(e),
        field_value(e * (HIDDEN as nat) + q + 1) == (q + 1) * pow2(e),
{
    let h = HIDDEN as nat;
    let m = e * h + q;
    lemma2_to64();
    lemma_pow2_unfold(e + 1);
    if q < h {
        assert(e * h == 0) by (nonlinear_arith)
            requires
                e == 0,
        ;
        assert(q * pow2(0) == q) by (nonlinear_arith)
            requires
                pow2(0) == 1,
        ;
        if q + 1 < h {
            assert((q + 1) * pow2(0) == q + 1) by (nonlinear_arith)
                requires
                    pow2(0) == 1,
            ;
        } else {
            assert(m + 1 == h);
            assert((m + 1) / h == 1 && (m + 1) % h == 0);
            assert((h + 0) * pow2(0) == (q + 1) * pow2(0));
        }
    } else {
        lemma_fundamental_div_mod_converse(m as int, h as int, (e + 1) as int, (q - h) as int);
        assert(m / h == e + 1 && m % h == q - h);
        if q + 1 < 2 * h {
            lemma_fundamental_div_mod_converse(
                (m + 1) as int,
                h as int,
                (e + 1) as int,
                (q + 1 - h) as int,
            );
        } else {
            lemma_fundamental_div_mod_converse((m + 1) as int, h as int, (e + 2) as int, 0);
            assert(h * pow2(e + 1) == (2 * h) * pow2(e)) by (nonlinear_arith)
                requires
                    pow2(e + 1) == 2 * pow2(e),
            ;
        }
    }
}

/// Neighbouring fields hold increasing magnitudes.
pub proof fn lemma_field_value_step(m: nat)
    ensures
        field_value(m) < field_value(m + 1),
{
    let h = HIDDEN as nat;
    if m < h {
        lemma_field_value(0, m);
        lemma_pow2_pos(0);
        assert(m * pow2(0) < (m + 1) * pow2(0)) by (nonlinear_arith)
            requires
                pow2(0) > 0,
        ;
    } else {
        let e = (m / h - 1) as nat;
        let q = h + m % h;
        lemma_fundamental_div_mod(m as int, h as int);
        assert(e * h + q == m) by (nonlinear_arith)
            requires
                m == h * (m / h) + m % h,
                e == m / h - 1,
                q == h + m % h,
        ;
        lemma_field_value(e, q);
        lemma_pow2_pos(e);
        assert(q * pow2(e) < (q + 1) * pow2(e)) by (nonlinear_arith)
            requires
                pow2(e) > 0,
        ;
    }
}

/// Fields and magnitudes are ordered alike.
pub proof fn lemma_field_value_increases(a: nat, b: nat)
    requires
        a < b,
    ensures
        field_value(a) < field_value(b),
    decreases b - a,
{
    lemma_field_value_step((b - 1) as nat);
    if a + 1 < b {
        lemma_field_value_increases(a, (b - 1) as nat);
    }
}

/// At most one field is nearest.
pub proof fn lemma_nearest_unique(num: nat, den: nat, m1: nat, m2: nat)
    requires
        den > 0,
        is_nearest(num, den, m1),
        is_nearest(num, den, m2),
    ensures
        m1 == m2,
{
    if m1 <= m2 {
        lemma_nearest_ordered(num, den, m1, m2);
    } else {
        lemma_nearest_ordered(num, den, m2, m1);
    }
}

proof fn lemma_nearest_ordered(num: nat, den: nat, m1: nat, m2: nat)
    requires
        den > 0,
        m1 <= m2,
        is_nearest(num, den, m1),
        is_nearest(num, den, m2),
    ensures
        m1 == m2,
{
    let top = field_value(m1) + field_value(m1 + 1);
    let bottom = field_value((m2 - 1) as nat) + field_value(m2);
    if m1 + 1 < m2 {
        lemma_field_value_increases(m1, (m2 - 1) as nat);
        lemma_field_value_increases(m1 + 1, m2);
        assert(top * den < bottom * den) by (nonlinear_arith)
            requires
                top < bottom,
                den > 0,
        ;
    }
}

/// The field found nearest is the one that `nearest` names.
pub proof fn lemma_nearest_is(num: nat, den: nat, m: nat)
    requires
        den > 0,
        is_nearest(num, den, m),
    ensures
        nearest(num, den) == m,
{
    lemma_nearest_unique(num, den, m, nearest(num, den));
}

/// Some field up to `m` is nearest, where the fraction does not lie above the midpoint
/// above `m`.
proof fn lemma_nearest_below(num: nat, den: nat, m: nat)
    requires
        den > 0,
        m <= INF_FIELD,
        m < INF_FIELD ==> {
            let top = (field_value(m) + field_value(m + 1)) * den;
            2 * num < top || (2 * num == top && m % 2 == 0)
        },
    ensures
        exists|k: nat| is_nearest(num, den, k),
    decreases m,
{
    if is_nearest(num, den, m) {
    } else {
        assert((m - 1) as nat + 1 == m);
        lemma_nearest_below(num, den, (m - 1) as nat);
    }
}

/// Some field is nearest to every fraction.
pub proof fn lemma_nearest_exists(num: nat, den: nat)
    requires
        den > 0,
    ensures
        is_nearest(num, den, nearest(num, den)),
{
    lemma_nearest_below(num, den, INF_FIELD as nat);
}

/// Rounding keeps the order of fractions.
pub proof fn lemma_nearest_keeps_order(n1: nat, d1: nat, n2: nat, d2: nat)
    requires
        d1 > 0,
        d2 > 0,
        n1 * d2 <= n2 * d1,
    ensures
        nearest(n1, d1) <= nearest(n2, d2) <= INF_FIELD,
{
    let m1 = nearest(n1, d1);
    let m2 = nearest(n2, d2);
    lemma_nearest_exists(n1, d1);
    lemma_nearest_exists(n2, d2);
    if m1 > m2 {
        let bottom = field_value((m1 - 1) as nat) + field_value(m1);
        let top = field_value(m2) + field_value(m2 + 1);
        if m2 + 1 < m1 {
            lemma_field_value_increases(m2, (m1 - 1) as nat);
            lemma_field_value_increases(m2 + 1, m1);
        }
        assert(top <= bottom);
        let b = bottom * d1;
        let a = top * d2;
        assert(2 * n1 >= b);
        assert(2 * n2 <= a);
        assert(2 * n1 == b && 2 * n2 == a && top == bottom) by (nonlinear_arith)
            requires
                b == bottom * d1,
                a == top * d2,
                top <= bottom,
                2 * n1 >= b,
                2 * n2 <= a,
                n1 * d2 <= n2 * d1,
                d1 > 0,
                d2 > 0,
        ;
        assert(m1 == m2 + 1);
        assert(m1 % 2 == 0 && m2 % 2 == 0);
        assert(false);
    }
}

/// Nothing rounds to nothing.
pub proof fn lemma_nearest_zero(den: nat)
    requires
        den > 0,
    ensures
        nearest(0, den) == 0,
{
    lemma_nearest_is(0, den, 0);
}

/// A number rounds to itself.
pub proof fn lemma_nearest_exact(m: nat)
    requires
        m < INF_FIELD,
    ensures
        nearest(field_value(m), 1) == m,
{
    lemma_field_value_increases(m, m + 1);
    if m > 0 {
        lemma_field_value_increases((m - 1) as nat, m);
    }
    lemma_nearest_is(field_value(m), 1, m);
}

/// Which of two neighbouring fields is nearest to a fraction between them.
proof fn lemma_nearest_of_two(num: nat, den: nat, e: nat, q: nat, up: bool)
    requires
        den > 0,
        q < 2 * HIDDEN,
        q >= HIDDEN || e == 0,
        q * pow2(e) * den <= num < (q + 1) * pow2(e) * den,
        up ==> 2 * num > (2 * q + 1) * pow2(e) * den || (2 * num == (2 * q + 1) * pow2(e) * den && q
            % 2 == 1),
        !up ==> 2 * num < (2 * q + 1) * pow2(e) * den || (2 * num == (2 * q + 1) * pow2(e) * den
            && q % 2 == 0),
    ensures
        ({
            let m = e * (HIDDEN as nat) + q + if up { 1nat } else { 0nat };
            nearest(num, den) == if m < INF_FIELD {
                m
            } else {
                INF_FIELD as nat
            }
        }),
        is_nearest(num, den, nearest(num, den)),
{
    let h = HIDDEN as nat;
    let m0 = e * h + q;
    let w = pow2(e);
    lemma_field_value(e, q);
    assert(m0 % 2 == q % 2) by (nonlinear_arith)
        requires
            m0 == e * h + q,
            h == 8388608,
    ;
    assert((q * w + (q + 1) * w) * den == (2 * q + 1) * w * den) by (nonlinear_arith);
    if m0 > 0 {
        lemma_field_value_step((m0 - 1) as nat);
        let below = field_value((m0 - 1) as nat);
        assert((below + q * w) * den < 2 * num) by (nonlinear_arith)
            requires
                below < q * w,
                den > 0,
                q * w * den <= num,
        ;
    }
    lemma_field_value_step(m0 + 1);
    let above = field_value(m0 + 2);
    assert(2 * num < ((q + 1) * w + above) * den) by (nonlinear_arith)
        requires
            (q + 1) * w < above,
            den > 0,
            num < (q + 1) * w * den,
    ;
    let m = m0 + if up { 1nat } else { 0nat };
    if m < INF_FIELD {
        lemma_nearest_is(num, den, m);
    } else {
        let inf = INF_FIELD as nat;
        if m0 >= inf {
            let bottom = field_value((inf - 1) as nat);
            let top = field_value(inf);
            lemma_field_value_step((inf - 1) as nat);
            if m0 > inf {
                lemma_field_value_increases(inf, m0);
            }
            assert((bottom + top) * den < 2 * num) by (nonlinear_arith)
                requires
                    bottom < top,
                    top <= q * w,
                    den > 0,
                    q * w * den <= num,
            ;
        }
        lemma_nearest_is(num, den, inf);
    }
}

/// The exact magnitude `num / den` is `sig * 2^e`, or, when `sticky`, lies
/// strictly between `sig * 2^e` and `(sig + 1) * 2^e`.
pub open spec fn brackets(sig: nat, e: int, sticky: bool, num: nat, den: nat) -> bool {
    let up = if e >= 0 {
        pow2(e as nat)
    } else {
        1
    };
    let down = if e < 0 {
        pow2((-e) as nat)
    } else {
        1
    };
    if sticky {
        sig * (up * den) < num * down < (sig + 1) * (up * den)
    } else {
        sig * (up * den) == num * down
    }
}

/// Cutting `s` low bits off a bracketed significand leaves a bracketed one, and
/// the cut bits tell on which side of the midpoint the fraction lies.
proof fn lemma_cut(
    sig: nat,
    e: int,
    sticky: bool,
    num: nat,
    den: nat,
    s: nat,
    q: nat,
    rem: nat,
    up: bool,
)
    requires
        den > 0,
        s > 0,
        e + s >= 0,
        sig == q * pow2(s) + rem,
        rem < pow2(s),
        brackets(sig, e, sticky, num, den),
        up <==> rem > pow2((s - 1) as nat) || (rem == pow2((s - 1) as nat) && (sticky || q % 2
            == 1)),
    ensures
        ({
            let w = pow2((e + s) as nat);
            &&& q * w * den <= num < (q + 1) * w * den
            &&& up ==> 2 * num > (2 * q + 1) * w * den || (2 * num == (2 * q + 1) * w * den && q % 2
                == 1)
            &&& !up ==> 2 * num < (2 * q + 1) * w * den || (2 * num == (2 * q + 1) * w * den && q
                % 2 == 0)
        }),
{
    let p = pow2(s);
    let half = pow2((s - 1) as nat);
    lemma_pow2_unfold(s);
    lemma_pow2_pos(s);
    lemma_pow2_pos((s - 1) as nat);
    let w = pow2((e + s) as nat);
    let u = if e >= 0 {
        pow2(e as nat)
    } else {
        1
    };
    let d = if e < 0 {
        pow2((-e) as nat)
    } else {
        1
    };
    if e >= 0 {
        lemma_pow2_adds(e as nat, s);
        lemma_pow2_pos(e as nat);
    } else {
        lemma_pow2_adds((e + s) as nat, (-e) as nat);
        lemma_pow2_pos((-e) as nat);
    }
    assert(p * u == w * d) by {
        lemma_mul_is_commutative(p as int, u as int);
    }
    let x = u * den;
    let y = num * d;
    assert(x > 0) by (nonlinear_arith)
        requires
            x == u * den,
            u > 0,
            den > 0,
    ;
    // In units of `x`, the fraction is at `sig` and the cut falls at `q * p`.
    assert(p * x == w * den * d) by (nonlinear_arith)
        requires
            p * u == w * d,
            x == u * den,
    ;
    assert(q * (p * x) <= y) by (nonlinear_arith)
        requires
            sig == q * p + rem,
            sig * x <= y,
            x > 0,
    ;
    assert(y < (q + 1) * (p * x)) by (nonlinear_arith)
        requires
            sig == q * p + rem,
            rem + 1 <= p,
            x > 0,
            y == sig * x || y < (sig + 1) * x,
    ;
    assert((2 * q + 1) * (p * x) == 2 * ((q * p + half) * x)) by (nonlinear_arith)
        requires
            p == 2 * half,
    ;
    if rem > half {
        assert(y > (q * p + half) * x) by (nonlinear_arith)
            requires
                sig == q * p + rem,
                sig * x <= y,
                rem > half,
                x > 0,
        ;
    } else if rem < half {
        assert(y < (q * p + half) * x) by (nonlinear_arith)
            requires
                sig == q * p + rem,
                rem + 1 <= half,
                x > 0,
                y == sig * x || y < (sig + 1) * x,
        ;
    }
    lemma_cancel(num, den, w, d, q);
}

/// Comparisons of `num` with multiples of `w * den` survive a common factor.
proof fn lemma_cancel(num: nat, den: nat, w: nat, d: nat, q: nat)
    requires
        d > 0,
    ensures
        q * (w * den * d) <= num * d ==> q * w * den <= num,
        num * d < (q + 1) * (w * den * d) ==> num < (q + 1) * w * den,
        2 * (num * d) > (2 * q + 1) * (w * den * d) ==> 2 * num > (2 * q + 1) * w * den,
        2 * (num * d) < (2 * q + 1) * (w * den * d) ==> 2 * num < (2 * q + 1) * w * den,
        2 * (num * d) == (2 * q + 1) * (w * den * d) ==> 2 * num == (2 * q + 1) * w * den,
{
    let a = q * w * den;
    let b = (q + 1) * w * den;
    let c = (2 * q + 1) * w * den;
    assert(q * (w * den * d) == a * d) by (nonlinear_arith)
        requires
            a == q * w * den,
    ;
    assert((q + 1) * (w * den * d) == b * d) by (nonlinear_arith)
        requires
            b == (q + 1) * w * den,
    ;
    assert((2 * q + 1) * (w * den * d) == c * d) by (nonlinear_arith)
        requires
            c == (2 * q + 1) * w * den,
    ;
    assert(a * d <= num * d ==> a <= num) by (nonlinear_arith)
        requires
            d > 0,
    ;
    assert(num * d < b * d ==> num < b) by (nonlinear_arith)
        requires
            d > 0,
    ;
    assert(2 * (num * d) > c * d ==> 2 * num > c) by (nonlinear_arith)
        requires
            d > 0,
    ;
    assert(2 * (num * d) < c * d ==> 2 * num < c) by (nonlinear_arith)
        requires
            d > 0,
    ;
    assert(2 * (num * d) == c * d ==> 2 * num == c) by (nonlinear_arith)
        requires
            d > 0,
    ;
}

/// The number of bits of `v` up to its highest set bit.
pub fn bit_length(v: u64) -> (n: u32)
    ensures
        n <= 64,
        v < pow2(n as nat),
        v > 0 ==> n > 0 && v >= pow2((n - 1) as nat),
        v == 0 ==> n == 0,
{
    let n: u32 = 64 - v.leading_zeros();
    proof {
        vstd::std_specs::bits::axiom_u64_leading_zeros(v);
        lemma2_to64();
        if n < 64 {
            vstd::bits::lemma_u64_shr_is_div(v, n as u64);
            lemma_pow2_pos(n as nat);
            lemma_fundamental_div_mod(v as int, pow2(n as nat) as int);
            lemma_mod_bound(v as int, pow2(n as nat) as int);
            assert(v < pow2(n as nat)) by (nonlinear_arith)
                requires
                    v as int == pow2(n as nat) as int * 0 + v as int % pow2(n as nat) as int,
                    (v as int % pow2(n as nat) as int) < pow2(n as nat),
            ;
        }
        if v > 0 {
            let k = (n - 1) as u64;
            let w = v >> k;
            assert(w >= 1) by (bit_vector)
                requires
                    w & 1u64 != 0u64,
            ;
            vstd::bits::lemma_u64_shr_is_div(v, k);
            lemma_pow2_pos(k as nat);
            lemma_fundamental_div_mod(v as int, pow2(k as nat) as int);
            lemma_mod_bound(v as int, pow2(k as nat) as int);
            assert(v >= pow2(k as nat)) by (nonlinear_arith)
                requires
                    v as int == pow2(k as nat) as int * w as int + v as int % pow2(k as nat) as int,
                    w >= 1,
                    v as int % pow2(k as nat) as int >= 0,
            ;
        }
    }
    n
}

/// Rounds a bracketed magnitude to the nearest field.
pub fn round_to_nearest(sig: u64, e: i32, sticky: bool) -> (m: u32)
    requires
        -1000 <= e <= 1000,
        sig < 0x4000_0000_0000_0000,
        sticky ==> sig >= 0x200_0000,
    ensures
        m <= INF_FIELD,
        forall|num: nat, den: nat|
            den > 0 && #[trigger] brackets(sig as nat, e as int, sticky, num, den) ==> {
                &&& nearest(num, den) == m
                &&& is_nearest(num, den, m as nat)
            },
{
    let len = bit_length(sig);
    proof {
        lemma2_to64();
        lemma2_to64_rest();
        if len > 62 {
            lemma_pow2_strictly_increases(61, (len - 1) as nat);
            assert(pow2(62) <= pow2((len - 1) as nat)) by {
                if len > 63 {
                    lemma_pow2_strictly_increases(62, (len - 1) as nat);
                }
            }
        }
        if sticky && len < 26 {
            lemma_pow2_strictly_increases(len as nat, 26);
            if len < 25 {
                lemma_pow2_strictly_increases(len as nat, 25);
            }
        }
    }
    if sig == 0 {
        assert forall|num: nat, den: nat|
            den > 0 && #[trigger] brackets(sig as nat, e as int, sticky, num, den) implies is_nearest(
            num,
            den,
            nearest(num, den),
        ) && nearest(num, den) == 0 by {
            if e < 0 {
                lemma_pow2_pos((-e) as nat);
            }
            let d = if e < 0 {
                pow2((-e) as nat)
            } else {
                1
            };
            assert(num == 0) by (nonlinear_arith)
                requires
                    num * d == 0,
                    d > 0,
            ;
            lemma_nearest_is(num, den, 0);
        }
        return 0;
    }
    let drop: i32 = if len as i32 - 24 >= -e {
        len as i32 - 24
    } else {
        -e
    };
    let top: i32 = e + drop;
    if drop <= 0 {
        let lift: u64 = (-drop) as u64;
        assert(sig * pow2(lift as nat) < 0x100_0000) by {
            lemma_pow2_adds(len as nat, lift as nat);
            lemma_pow2_pos(lift as nat);
            assert(sig * pow2(lift as nat) < pow2(len as nat) * pow2(lift as nat)) by (nonlinear_arith)
                requires
                    sig < pow2(len as nat),
                    pow2(lift as nat) > 0,
            ;
            if len + lift < 24 {
                lemma_pow2_strictly_increases((len + lift) as nat, 24);
            }
        }
        proof {
            vstd::bits::lemma_u64_shl_is_mul(sig, lift);
        }
        let q: u64 = sig << lift;
        assert(top > 0 ==> q >= 0x80_0000) by {
            if top > 0 {
                assert(lift == 24 - len);
                lemma_pow2_adds((len - 1) as nat, lift as nat);
                lemma_pow2_pos(lift as nat);
                assert(sig * pow2(lift as nat) >= pow2((len - 1) as nat) * pow2(lift as nat)) by (nonlinear_arith)
                    requires
                        sig >= pow2((len - 1) as nat),
                        pow2(lift as nat) > 0,
                ;
            }
        }
        assert forall|num: nat, den: nat|
            den > 0 && #[trigger] brackets(sig as nat, e as int, sticky, num, den) implies is_nearest(
            num,
            den,
            nearest(num, den),
        ) && nearest(num, den) == if top * HIDDEN + q < INF_FIELD {
            top * HIDDEN + q
        } else {
            INF_FIELD as int
        } by {
            let w = pow2(top as nat);
            let l = pow2(lift as nat);
            lemma_pow2_adds(lift as nat, top as nat);
            lemma_pow2_pos(top as nat);
            assert(num == q * w * den) by (nonlinear_arith)
                requires
                    num * 1 == sig * ((l * w) * den),
                    q == sig * l,
            ;
            assert(q * w * den < (q + 1) * w * den && 2 * (q * w * den) < (2 * q + 1) * w * den)
                by (nonlinear_arith)
                requires
                    w > 0,
                    den > 0,
            ;
            lemma_nearest_of_two(num, den, top as nat, q as nat, false);
        }
        if top >= 254 {
            return INF_FIELD;
        }
        return top as u32 * HIDDEN + q as u32;
    }
    if drop >= 63 {
        assert forall|num: nat, den: nat|
            den > 0 && #[trigger] brackets(sig as nat, e as int, sticky, num, den) implies is_nearest(
            num,
            den,
            nearest(num, den),
        ) && nearest(num, den) == 0 by {
            lemma_pow2_unfold(drop as nat);
            if drop > 63 {
                lemma_pow2_strictly_increases(62, (drop - 1) as nat);
            }
            lemma_cut(sig as nat, e as int, sticky, num, den, drop as nat, 0, sig as nat, false);
            lemma_nearest_of_two(num, den, 0, 0, false);
        }
        return 0;
    }
    let cut: u64 = drop as u64;
    proof {
        vstd::bits::lemma_u64_shr_is_div(sig, cut);
        lemma_pow2_pos(cut as nat);
        lemma_fundamental_div_mod(sig as int, pow2(cut as nat) as int);
        lemma_mod_bound(sig as int, pow2(cut as nat) as int);
    }
    let q: u64 = sig >> cut;
    assert(q < 0x100_0000) by {
        if q >= 0x100_0000 {
            lemma_pow2_adds(24, cut as nat);
            assert(sig >= pow2(24) * pow2(cut as nat)) by (nonlinear_arith)
                requires
                    sig as int == pow2(cut as nat) as int * q as int + sig as int % pow2(cut as nat) as int,
                    sig as int % pow2(cut as nat) as int >= 0,
                    q >= pow2(24),
            ;
            if 24 + cut > len {
                lemma_pow2_strictly_increases(len as nat, (24 + cut) as nat);
            }
        }
    }
    assert(top > 0 ==> q >= 0x80_0000) by {
        if top > 0 {
            assert(cut == len - 24);
            lemma_pow2_adds(23, cut as nat);
            if q < 0x80_0000 {
                assert(sig < pow2(23) * pow2(cut as nat)) by (nonlinear_arith)
                    requires
                        sig as int == pow2(cut as nat) as int * q as int + sig as int % pow2(cut as nat) as int,
                        (sig as int % pow2(cut as nat) as int) < pow2(cut as nat),
                        q + 1 <= pow2(23),
                ;
            }
        }
    }
    proof {
        assert(q * pow2(cut as nat) <= sig) by (nonlinear_arith)
            requires
                sig as int == pow2(cut as nat) as int * q as int + sig as int % pow2(cut as nat) as int,
                sig as int % pow2(cut as nat) as int >= 0,
        ;
        vstd::bits::lemma_u64_shl_is_mul(q, cut);
        lemma_pow2_unfold(cut as nat);
        lemma_pow2_pos((cut - 1) as nat);
        if cut < 63 {
            lemma_pow2_strictly_increases((cut - 1) as nat, 62);
        }
        assert(1 * pow2((cut - 1) as nat) == pow2((cut - 1) as nat));
        vstd::bits::lemma_u64_shl_is_mul(1, (cut - 1) as u64);
    }
    let rem: u64 = sig - (q << cut);
    let half: u64 = 1u64 << (cut - 1);
    assert(rem < pow2(cut as nat)) by (nonlinear_arith)
        requires
            sig as int == pow2(cut as nat) as int * q as int + sig as int % pow2(cut as nat) as int,
            (sig as int % pow2(cut as nat) as int) < pow2(cut as nat),
            rem == sig - q * pow2(cut as nat),
    ;
    let up: bool = rem > half || (rem == half && (sticky || q % 2 == 1));
    assert forall|num: nat, den: nat|
        den > 0 && #[trigger] brackets(sig as nat, e as int, sticky, num, den) implies ({
        let m = top * HIDDEN + q + if up {
            1int
        } else {
            0int
        };
        is_nearest(num, den, nearest(num, den)) && nearest(num, den) == if m < INF_FIELD {
            m
        } else {
            INF_FIELD as int
        }
    }) by {
        lemma_cut(sig as nat, e as int, sticky, num, den, cut as nat, q as nat, rem as nat, up);
        lemma_nearest_of_two(num, den, top as nat, q as nat, up);
    }
    if top >= 254 {
        return INF_FIELD;
    }
    top as u32 * HIDDEN + q as u32 + if up {
        1u32
    } else {
        0u32
    }
}

} // verus!
