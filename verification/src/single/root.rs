//! Correctly rounded square roots.

use super::number::{Single, NAN_BITS};
use super::rounding::{bit_length, round_to_nearest, INF_FIELD};
use vstd::arithmetic::mul::*;
use vstd::arithmetic::power2::*;
use vstd::prelude::*;

verus! {

/// `m` is the magnitude field nearest to the square root of `n`: the root lies
/// between the midpoints to the two neighbours of `m`.
pub open spec fn is_nearest_root(n: nat, m: nat) -> bool {
    &&& m <= INF_FIELD
    &&& m < INF_FIELD ==> {
        let top = super::rounding::field_value(m) + super::rounding::field_value(m + 1);
        4 * n < top * top || (4 * n == top * top && m % 2 == 0)
    }
    &&& m > 0 ==> {
        let bottom = super::rounding::field_value((m - 1) as nat) + super::rounding::field_value(m);
        4 * n > bottom * bottom || (4 * n == bottom * bottom && m % 2 == 0)
    }
}

/// The magnitude field nearest to the square root of `n`, ties to even.
pub open spec fn nearest_root(n: nat) -> nat {
    choose|m: nat| is_nearest_root(n, m)
}

proof fn lemma_root_ordered(n: nat, m1: nat, m2: nat)
    requires
        is_nearest_root(n, m1),
        is_nearest_root(n, m2),
        m1 <= m2,
    ensures
        m1 == m2,
{
    if m1 < m2 {
        let top = super::rounding::field_value(m1) + super::rounding::field_value(m1 + 1);
        let bottom = super::rounding::field_value((m2 - 1) as nat) + super::rounding::field_value(m2);
        if m1 + 1 < m2 {
            super::rounding::lemma_field_value_increases(m1, (m2 - 1) as nat);
            super::rounding::lemma_field_value_increases(m1 + 1, m2);
            assert(top * top < bottom * bottom) by (nonlinear_arith)
                requires
                    0 <= top < bottom,
            ;
        }
    }
}

pub proof fn lemma_nearest_root_is(n: nat, m: nat)
    requires
        is_nearest_root(n, m),
    ensures
        nearest_root(n) == m,
{
    let k = nearest_root(n);
    if k <= m {
        lemma_root_ordered(n, k, m);
    } else {
        lemma_root_ordered(n, m, k);
    }
}

/// The integer square root of a number below 2^52.
fn integer_root(x: u64) -> (r: u64)
    requires
        x < 0x10_0000_0000_0000,
    ensures
        r < 0x400_0000,
        r * r <= x < (r + 1) * (r + 1),
{
    let mut r: u64 = 0;
    let mut bit: u64 = 0x200_0000;
    let ghost mut k: nat = 26;
    proof {
        lemma2_to64();
    }
    while bit > 0
        invariant
            k <= 26,
            bit == if k > 0 {
                pow2((k - 1) as nat)
            } else {
                0
            },
            r + pow2(k) <= 0x400_0000,
            r * r <= x < (r + pow2(k)) * (r + pow2(k)),
        decreases k,
    {
        proof {
            lemma2_to64();
            lemma_pow2_unfold(k);
            if k > 1 {
                lemma_pow2_unfold((k - 1) as nat);
            }
        }
        let next: u64 = r + bit;
        assert(next * next < 0x400_0000 * 0x400_0000) by (nonlinear_arith)
            requires
                0 <= next < 0x400_0000,
        ;
        if next * next <= x {
            r = next;
        }
        bit = bit / 2;
        proof {
            k = (k - 1) as nat;
        }
    }
    proof {
        lemma2_to64();
    }
    r
}

/// The root of `n` lies at `r * 2^h`, or strictly between it and `(r + 1) * 2^h`
/// where every fraction rounds to `m`: then `m` is nearest to the root.
proof fn lemma_root_between(n: nat, r: nat, w: nat, sticky: bool, m: nat)
    requires
        w > 0,
        m <= INF_FIELD,
        sticky ==> (r * w) * (r * w) < n < ((r + 1) * w) * ((r + 1) * w),
        !sticky ==> (r * w) * (r * w) == n,
        forall|num: nat, den: nat|
            den > 0 && (if sticky {
                r * (w * den) < num < (r + 1) * (w * den)
            } else {
                r * (w * den) == num
            }) ==> #[trigger] super::rounding::is_nearest(num, den, m),
    ensures
        is_nearest_root(n, m),
{
    let lo = r * w;
    let hi = (r + 1) * w;
    assert(lo < hi) by (nonlinear_arith)
        requires
            lo == r * w,
            hi == (r + 1) * w,
            w > 0,
    ;
    if !sticky {
        assert(r * (w * 1) == lo) by (nonlinear_arith)
            requires
                lo == r * w,
        ;
        assert(super::rounding::is_nearest(lo, 1, m));
        if m < INF_FIELD {
            let top = super::rounding::field_value(m) + super::rounding::field_value(m + 1);
            assert(2 * lo < top ==> 4 * n < top * top) by (nonlinear_arith)
                requires
                    n == lo * lo,
            ;
            assert(2 * lo == top ==> 4 * n == top * top) by (nonlinear_arith)
                requires
                    n == lo * lo,
            ;
        }
        if m > 0 {
            let bottom = super::rounding::field_value((m - 1) as nat)
                + super::rounding::field_value(m);
            assert(2 * lo > bottom ==> 4 * n > bottom * bottom) by (nonlinear_arith)
                requires
                    n == lo * lo,
            ;
            assert(2 * lo == bottom ==> 4 * n == bottom * bottom) by (nonlinear_arith)
                requires
                    n == lo * lo,
            ;
        }
    } else {
        assert(r * (w * 4) == 4 * lo) by (nonlinear_arith)
            requires
                lo == r * w,
        ;
        assert((r + 1) * (w * 4) == 4 * hi) by (nonlinear_arith)
            requires
                hi == (r + 1) * w,
        ;
        if m < INF_FIELD {
            let top = super::rounding::field_value(m) + super::rounding::field_value(m + 1);
            if 4 * n >= top * top {
                assert(top < 2 * hi) by (nonlinear_arith)
                    requires
                        top * top <= 4 * n,
                        n < hi * hi,
                        hi > 0,
                ;
                let num = if top >= 2 * lo {
                    top + 2 * hi
                } else {
                    2 * lo + 2 * hi
                };
                assert(super::rounding::is_nearest(num, 4, m));
            }
        }
        if m > 0 {
            let bottom = super::rounding::field_value((m - 1) as nat)
                + super::rounding::field_value(m);
            if 4 * n <= bottom * bottom {
                assert(bottom > 2 * lo) by (nonlinear_arith)
                    requires
                        bottom * bottom >= 4 * n,
                        n > lo * lo,
                        lo >= 0,
                        bottom >= 0,
                ;
                let num = if bottom <= 2 * hi {
                    bottom + 2 * lo
                } else {
                    2 * lo + 2 * hi
                };
                assert(super::rounding::is_nearest(num, 4, m));
            }
        }
    }
}

impl Single {
    /// The square root, rounded to the nearest number. A negative number has
    /// none; negative zero is its own root.
    #[verifier::opaque]
    pub open spec fn root(self) -> Single {
        if self.nan() {
            Single::not_a_number()
        } else if self.field() == 0 {
            self
        } else if self.negative() {
            Single::not_a_number()
        } else if self.infinite() {
            self
        } else {
            Single::pack(false, nearest_root(self.magnitude() * pow2(149)))
        }
    }

    /// The square root, rounded to the nearest number.
    pub fn sqrt(self) -> (r: Single)
        ensures
            r == self.root(),
    {
        proof {
            reveal(Single::root);
            lemma2_to64();
            lemma2_to64_rest();
        }
        if self.is_nan() {
            return Single { bits: NAN_BITS };
        }
        if self.magnitude_field() == 0 {
            return self;
        }
        if self.is_sign_negative() {
            return Single { bits: NAN_BITS };
        }
        if self.is_infinite() {
            return self;
        }
        let (sig, e) = self.unpack();
        let len = bit_length(sig);
        proof {
            if len > 24 {
                lemma_pow2_strictly_increases(23, (len - 1) as nat);
                if len > 25 {
                    lemma_pow2_strictly_increases(24, (len - 1) as nat);
                }
            }
        }
        let wide: i32 = e + 149;
        let lift: u64 = if (wide + len as i32) % 2 == 0 {
            52 - len as u64
        } else {
            51 - len as u64
        };
        proof {
            let pl = pow2(lift as nat);
            lemma_pow2_pos(lift as nat);
            lemma_pow2_adds(len as nat, lift as nat);
            lemma_pow2_adds((len - 1) as nat, lift as nat);
            assert(sig * pl < pow2((len + lift) as nat)) by (nonlinear_arith)
                requires
                    sig < pow2(len as nat),
                    pl > 0,
                    pow2(len as nat) * pl == pow2((len + lift) as nat),
            ;
            assert(sig * pl >= pow2((len - 1 + lift) as nat)) by (nonlinear_arith)
                requires
                    sig >= pow2((len - 1) as nat),
                    pow2((len - 1) as nat) * pl == pow2((len - 1 + lift) as nat),
            ;
            vstd::bits::lemma_u64_shl_is_mul(sig, lift);
        }
        let x: u64 = sig << lift;
        let r: u64 = integer_root(x);
        let h: i32 = (wide - lift as i32) / 2;
        let sticky: bool = r * r != x;
        let ghost n = self.magnitude() * pow2(149);
        assert(r >= 0x200_0000) by (nonlinear_arith)
            requires
                x >= 0x4_0000_0000_0000,
                x < (r + 1) * (r + 1),
        ;
        assert(wide - lift == 2 * h);
        let m: u32 = round_to_nearest(r, h, sticky);
        proof {
            let w = pow2(h as nat);
            lemma_pow2_pos(h as nat);
            lemma_pow2_adds(h as nat, h as nat);
            lemma_pow2_adds(e as nat, 149);
            lemma_pow2_adds(lift as nat, (2 * h) as nat);
            let pl = pow2(lift as nat);
            assert(n == x * (w * w)) by (nonlinear_arith)
                requires
                    n == (sig * pow2(e as nat)) * pow2(149),
                    pow2(e as nat) * pow2(149) == pl * (w * w),
                    x == sig * pl,
            ;
            assert((r * w) * (r * w) == (r * r) * (w * w)) by (nonlinear_arith);
            assert(((r + 1) * w) * ((r + 1) * w) == ((r + 1) * (r + 1)) * (w * w))
                by (nonlinear_arith);
            let ww = w * w;
            assert(ww > 0) by (nonlinear_arith)
                requires
                    ww == w * w,
                    w > 0,
            ;
            let below = r * r;
            let above = (r + 1) * (r + 1);
            assert(below < x ==> below * ww < x * ww) by (nonlinear_arith)
                requires
                    ww > 0,
            ;
            assert(x * ww < above * ww) by (nonlinear_arith)
                requires
                    ww > 0,
                    x < above,
            ;
            assert forall|num: nat, den: nat|
                den > 0 && (if sticky {
                    r * (w * den) < num < (r + 1) * (w * den)
                } else {
                    r * (w * den) == num
                }) implies #[trigger] super::rounding::is_nearest(num, den, m as nat) by {
                assert(num * 1 == num);
                assert(super::rounding::brackets(r as nat, h as int, sticky, num, den));
            }
            lemma_root_between(n, r as nat, w, sticky, m as nat);
            lemma_nearest_root_is(n, m as nat);
        }
        Single::packed(false, m)
    }
}

/// Some field up to `m` is nearest to the root, where the root does not lie above the
/// midpoint above `m`.
proof fn lemma_root_below(n: nat, m: nat)
    requires
        m <= INF_FIELD,
        m < INF_FIELD ==> {
            let top = super::rounding::field_value(m) + super::rounding::field_value(m + 1);
            4 * n < top * top || (4 * n == top * top && m % 2 == 0)
        },
    ensures
        exists|k: nat| is_nearest_root(n, k),
    decreases m,
{
    if is_nearest_root(n, m) {
    } else {
        assert((m - 1) as nat + 1 == m);
        lemma_root_below(n, (m - 1) as nat);
    }
}

/// Every integer has a nearest root.
pub proof fn lemma_root_exists(n: nat)
    ensures
        is_nearest_root(n, nearest_root(n)),
{
    lemma_root_below(n, INF_FIELD as nat);
}

/// Roots are ordered as what they are the roots of.
pub proof fn lemma_root_keeps_order(a: nat, b: nat)
    requires
        a <= b,
    ensures
        nearest_root(a) <= nearest_root(b) <= INF_FIELD,
{
    let x = nearest_root(a);
    let y = nearest_root(b);
    lemma_root_exists(a);
    lemma_root_exists(b);
    if y < x {
        let top = super::rounding::field_value(y) + super::rounding::field_value(y + 1);
        let bottom = super::rounding::field_value((x - 1) as nat) + super::rounding::field_value(x);
        if y + 1 < x {
            super::rounding::lemma_field_value_increases(y, (x - 1) as nat);
            super::rounding::lemma_field_value_increases(y + 1, x);
        }
        assert(top * top <= bottom * bottom) by (nonlinear_arith)
            requires
                0 <= top <= bottom,
        ;
        assert(top < bottom ==> top * top < bottom * bottom) by (nonlinear_arith)
            requires
                0 <= top,
        ;
    }
}

/// Taking the root keeps the order.
pub proof fn law_root_keeps_order(a: Single, b: Single)
    requires
        Single::of_int(0).less_eq(a),
        a.less_eq(b),
        b.finite(),
    ensures
        a.root().less_eq(b.root()),
        Single::of_int(0).less_eq(a.root()),
        Single::of_int(0).less_eq(b.root()),
{
    super::arith::lemma_small_ints();
    reveal(Single::root);
    let x = a.magnitude() * pow2(149);
    let y = b.magnitude() * pow2(149);
    if a.field() > 0 {
        super::rounding::lemma_field_value_increases(0, a.field());
    }
    if b.field() > 0 {
        super::rounding::lemma_field_value_increases(0, b.field());
    }
    assert(x <= y) by (nonlinear_arith)
        requires
            x == a.magnitude() * pow2(149),
            y == b.magnitude() * pow2(149),
            a.magnitude() <= b.magnitude(),
            pow2(149) >= 0,
    ;
    if a.infinite() {
        super::rounding::lemma_field_value_increases(b.field(), INF_FIELD as nat);
    }
    lemma_root_keeps_order(x, y);
    super::laws::lemma_packed(false, nearest_root(x));
    super::laws::lemma_packed(false, nearest_root(y));
    super::laws::lemma_field_order(nearest_root(x), nearest_root(y));
}

/// The root of what is at most 2^(2k) is at most 2^k.
pub proof fn law_root_within(x: Single, k: nat)
    requires
        Single::of_int(0).less_eq(x),
        super::laws::within(x, 2 * k),
        2 * k <= 127,
    ensures
        super::laws::within(x.root(), k),
        x.root().finite(),
        Single::of_int(0).less_eq(x.root()),
{
    super::laws::lemma_within_is_finite(x, 2 * k);
    let n = x.magnitude() * pow2(149);
    let f = super::exact::lemma_field_of(1, 149 + k);
    let v = super::rounding::field_value(f);
    assert(1 * pow2(149 + k) == pow2(149 + k));
    lemma_pow2_adds(149 + 2 * k, 149);
    lemma_pow2_adds(149 + k, 149 + k);
    assert(n <= v * v) by (nonlinear_arith)
        requires
            n == x.magnitude() * pow2(149),
            x.magnitude() <= pow2(149 + 2 * k),
            pow2(149) >= 0,
            pow2(149 + 2 * k) * pow2(149) == v * v,
    ;
    lemma_root_keeps_order(n, v * v);
    super::rounding::lemma_field_value_increases(f, f + 1);
    let top = v + super::rounding::field_value(f + 1);
    assert(4 * (v * v) < top * top) by (nonlinear_arith)
        requires
            0 <= 2 * v < top,
    ;
    if f > 0 {
        super::rounding::lemma_field_value_increases((f - 1) as nat, f);
        let bottom = super::rounding::field_value((f - 1) as nat) + v;
        assert(4 * (v * v) > bottom * bottom) by (nonlinear_arith)
            requires
                0 <= bottom < 2 * v,
        ;
    }
    lemma_nearest_root_is(v * v, f);
    super::arith::lemma_small_ints();
    reveal(Single::root);
    super::laws::lemma_packed(false, nearest_root(n));
    super::laws::lemma_field_order(nearest_root(n), f);
    if x.field() > 0 {
        super::rounding::lemma_field_value_increases(0, x.field());
    } else {
        lemma_pow2_pos(149 + k);
    }
}

} // verus!
