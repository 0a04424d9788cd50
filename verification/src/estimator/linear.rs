//! The arithmetic of covariances: products, the update by one measurement and by
//! three, with a gate on how surprising a measurement may be.
//!
//! Sums run in the order of the indices, since the sum of rounded numbers depends on
//! it.

use crate::single::Single;
use vstd::prelude::*;

verus! {

/// A matrix as its rows.
pub open spec fn rows<const R: usize, const C: usize>(m: [[Single; C]; R]) -> Seq<Seq<Single>> {
    Seq::new(R as nat, |i: int| m[i]@)
}

/// Column `j` of a matrix.
pub open spec fn column(m: Seq<Seq<Single>>, j: int) -> Seq<Single> {
    Seq::new(m.len(), |k: int| m[k][j])
}

/// `start` plus the products of the first `n` elements.
pub open spec fn dot_from(start: Single, a: Seq<Single>, b: Seq<Single>, n: nat) -> Single
    decreases n,
{
    if n == 0 {
        start
    } else {
        dot_from(start, a, b, (n - 1) as nat) + a[n - 1] * b[n - 1]
    }
}

/// The scalar product.
pub open spec fn dot(a: Seq<Single>, b: Seq<Single>) -> Single {
    dot_from(Single::of_int(0), a, b, a.len())
}

/// `start` minus the products of `k`, the first `n` elements of `a`, and those of `b`.
pub open spec fn less_from(
    start: Single,
    k: Single,
    a: Seq<Single>,
    b: Seq<Single>,
    n: nat,
) -> Single
    decreases n,
{
    if n == 0 {
        start
    } else {
        less_from(start, k, a, b, (n - 1) as nat) - k * a[n - 1] * b[n - 1]
    }
}

pub fn add_products<const N: usize>(start: Single, a: &[Single; N], b: &[Single; N]) -> (r: Single)
    ensures
        r == dot_from(start, a@, b@, N as nat),
{
    let mut s: Single = start;
    let mut k: usize = 0;
    while k < N
        invariant
            k <= N,
            s == dot_from(start, a@, b@, k as nat),
        decreases N - k,
    {
        s = s + a[k] * b[k];
        k += 1;
    }
    s
}

fn times_column<const K: usize, const C: usize>(
    a: &[Single; K],
    m: &[[Single; C]; K],
    j: usize,
) -> (r: Single)
    requires
        j < C,
    ensures
        r == dot(a@, column(rows(*m), j as int)),
{
    let ghost col = column(rows(*m), j as int);
    let mut s: Single = Single::from_i32(0);
    let mut k: usize = 0;
    while k < K
        invariant
            k <= K,
            j < C,
            col == column(rows(*m), j as int),
            s == dot_from(Single::of_int(0), a@, col, k as nat),
        decreases K - k,
    {
        assert(col[k as int] == m[k as int][j as int]);
        s = s + a[k] * m[k][j];
        k += 1;
    }
    s
}

fn take_products<const N: usize>(
    start: Single,
    ki: Single,
    h: &[Single; N],
    p: &[[Single; N]; N],
    j: usize,
) -> (r: Single)
    requires
        j < N,
    ensures
        r == less_from(start, ki, h@, column(rows(*p), j as int), N as nat),
{
    let ghost col = column(rows(*p), j as int);
    let mut s: Single = start;
    let mut m: usize = 0;
    while m < N
        invariant
            m <= N,
            j < N,
            col == column(rows(*p), j as int),
            s == less_from(start, ki, h@, col, m as nat),
        decreases N - m,
    {
        assert(col[m as int] == p[m as int][j as int]);
        s = s - ki * h[m] * p[m][j];
        m += 1;
    }
    s
}

/// The product of a matrix and the transpose of another.
pub open spec fn times_transposed(a: Seq<Seq<Single>>, b: Seq<Seq<Single>>) -> Seq<Seq<Single>> {
    Seq::new(a.len(), |i: int| Seq::new(b.len(), |j: int| dot(a[i], b[j])))
}

/// The product of two matrices.
pub open spec fn times(a: Seq<Seq<Single>>, b: Seq<Seq<Single>>, cols: nat) -> Seq<Seq<Single>> {
    Seq::new(a.len(), |i: int| Seq::new(cols, |j: int| dot(a[i], column(b, j))))
}

pub fn mul_transposed<const R: usize, const K: usize, const C: usize>(
    a: &[[Single; K]; R],
    b: &[[Single; K]; C],
) -> (r: [[Single; C]; R])
    ensures
        rows(r) == times_transposed(rows(*a), rows(*b)),
{
    let zero: Single = Single::from_i32(0);
    let ghost want = times_transposed(rows(*a), rows(*b));
    let mut out: [[Single; C]; R] = [[zero; C]; R];
    let mut i: usize = 0;
    while i < R
        invariant
            i <= R,
            zero == Single::of_int(0),
            want == times_transposed(rows(*a), rows(*b)),
            forall|n: int| 0 <= n < i ==> (#[trigger] out[n])@ == want[n],
        decreases R - i,
    {
        let mut row: [Single; C] = [zero; C];
        let mut j: usize = 0;
        while j < C
            invariant
                i < R,
                j <= C,
                zero == Single::of_int(0),
                want == times_transposed(rows(*a), rows(*b)),
                forall|n: int| 0 <= n < j ==> #[trigger] row[n] == want[i as int][n],
            decreases C - j,
        {
            row[j] = add_products(zero, &a[i], &b[j]);
            j += 1;
        }
        assert(row@ =~= want[i as int]);
        out[i] = row;
        i += 1;
    }
    assert(rows(out) =~= want);
    out
}

pub fn matrix_product<const R: usize, const K: usize, const C: usize>(
    a: &[[Single; K]; R],
    b: &[[Single; C]; K],
) -> (r: [[Single; C]; R])
    ensures
        rows(r) == times(rows(*a), rows(*b), C as nat),
{
    let zero: Single = Single::from_i32(0);
    let ghost want = times(rows(*a), rows(*b), C as nat);
    let mut out: [[Single; C]; R] = [[zero; C]; R];
    let mut i: usize = 0;
    while i < R
        invariant
            i <= R,
            zero == Single::of_int(0),
            want == times(rows(*a), rows(*b), C as nat),
            forall|n: int| 0 <= n < i ==> (#[trigger] out[n])@ == want[n],
        decreases R - i,
    {
        let mut row: [Single; C] = [zero; C];
        let mut j: usize = 0;
        while j < C
            invariant
                i < R,
                j <= C,
                want == times(rows(*a), rows(*b), C as nat),
                forall|n: int| 0 <= n < j ==> #[trigger] row[n] == want[i as int][n],
            decreases C - j,
        {
            row[j] = times_column(&a[i], b, j);
            j += 1;
        }
        assert(row@ =~= want[i as int]);
        out[i] = row;
        i += 1;
    }
    assert(rows(out) =~= want);
    out
}

/// The sum of two matrices.
pub open spec fn plus(a: Seq<Seq<Single>>, b: Seq<Seq<Single>>) -> Seq<Seq<Single>> {
    Seq::new(a.len(), |i: int| Seq::new(a[i].len(), |j: int| a[i][j] + b[i][j]))
}

fn add_matrix<const R: usize, const C: usize>(a: &[[Single; C]; R], b: &[[Single; C]; R]) -> (r: [[
    Single; C]; R])
    ensures
        rows(r) == plus(rows(*a), rows(*b)),
{
    let ghost want = plus(rows(*a), rows(*b));
    let mut out: [[Single; C]; R] = *a;
    let mut i: usize = 0;
    while i < R
        invariant
            i <= R,
            want == plus(rows(*a), rows(*b)),
            forall|n: int| 0 <= n < i ==> (#[trigger] out[n])@ == want[n],
        decreases R - i,
    {
        let mut row: [Single; C] = a[i];
        let mut j: usize = 0;
        while j < C
            invariant
                i < R,
                j <= C,
                want == plus(rows(*a), rows(*b)),
                forall|n: int| 0 <= n < j ==> #[trigger] row[n] == want[i as int][n],
            decreases C - j,
        {
            row[j] = a[i][j] + b[i][j];
            j += 1;
        }
        assert(row@ =~= want[i as int]);
        out[i] = row;
        i += 1;
    }
    assert(rows(out) =~= want);
    out
}

/// The covariance after a step with the transition `f` and the noise `q`.
pub open spec fn propagated(
    p: Seq<Seq<Single>>,
    f: Seq<Seq<Single>>,
    q: Seq<Seq<Single>>,
) -> Seq<Seq<Single>> {
    plus(times_transposed(times(f, p, p.len()), f), q)
}

/// The covariance after a step with the transition `f` and the noise `q`.
pub fn predict_covariance<const N: usize>(
    p: &[[Single; N]; N],
    f: &[[Single; N]; N],
    q: &[[Single; N]; N],
) -> (r: [[Single; N]; N])
    ensures
        rows(r) == propagated(rows(*p), rows(*f), rows(*q)),
{
    add_matrix(&mul_transposed(&matrix_product(f, p), f), q)
}

/// Why a measurement was refused.
#[derive(Clone, Copy, Debug, PartialEq, Eq, Structural)]
pub enum Refusal {
    /// The variance of the innovation is not positive.
    NotPositive,
    /// The covariance of the innovation cannot be inverted.
    Singular,
    /// The squared size of the innovation is negative.
    NegativeSize,
    /// The innovation is too large for its covariance.
    BeyondGate,
    /// The vehicle is in free fall, so gravity cannot be seen.
    Weightless,
    /// The vehicle accelerates too much to see gravity.
    Accelerating,
    /// The aid is switched off.
    SwitchedOff,
}

/// The covariance times the row of a measurement.
pub open spec fn seen(p: Seq<Seq<Single>>, h: Seq<Single>) -> Seq<Single> {
    Seq::new(p.len(), |i: int| dot(p[i], h))
}

pub fn see<const N: usize>(p: &[[Single; N]; N], h: &[Single; N]) -> (r: [Single; N])
    ensures
        r@ == seen(rows(*p), h@),
{
    let zero: Single = Single::from_i32(0);
    let mut r: [Single; N] = [zero; N];
    let mut i: usize = 0;
    while i < N
        invariant
            i <= N,
            zero == Single::of_int(0),
            forall|n: int| 0 <= n < i ==> #[trigger] r[n] == seen(rows(*p), h@)[n],
        decreases N - i,
    {
        r[i] = add_products(zero, &p[i], h);
        i += 1;
    }
    assert(r@ =~= seen(rows(*p), h@));
    r
}

/// The variance of the innovation of a scalar measurement with noise `r`.
pub open spec fn innovation_variance(p: Seq<Seq<Single>>, h: Seq<Single>, r: Single) -> Single {
    dot_from(r, h, seen(p, h), h.len())
}

/// How many standard deviations an innovation is.
pub open spec fn surprise(residual: Single, s: Single) -> Single {
    residual.magnitude_of() / s.root()
}

/// Whether a scalar measurement is taken, and how surprising it is, or why not.
pub open spec fn judged(
    p: Seq<Seq<Single>>,
    h: Seq<Single>,
    residual: Single,
    r: Single,
    gate: Single,
) -> Result<Single, Refusal> {
    let s = innovation_variance(p, h, r);
    if s.less_eq(Single::of_int(0)) {
        Err(Refusal::NotPositive)
    } else if gate.less(surprise(residual, s)) {
        Err(Refusal::BeyondGate)
    } else {
        Ok(surprise(residual, s))
    }
}

/// The gain of a scalar measurement.
pub open spec fn gain(p: Seq<Seq<Single>>, h: Seq<Single>, r: Single) -> Seq<Single> {
    Seq::new(p.len(), |i: int| seen(p, h)[i] / innovation_variance(p, h, r))
}

/// The covariance once a measurement of the row `h` was taken with the gain `k`.
pub open spec fn reduced(p: Seq<Seq<Single>>, k: Seq<Single>, h: Seq<Single>) -> Seq<Seq<Single>> {
    Seq::new(
        p.len(),
        |i: int|
            Seq::new(p.len(), |j: int| less_from(p[i][j], k[i], h, column(p, j), p.len())),
    )
}

fn reduce<const N: usize>(p: &[[Single; N]; N], k: &[Single; N], h: &[Single; N]) -> (r: [[
    Single; N]; N])
    ensures
        rows(r) == reduced(rows(*p), k@, h@),
{
    let ghost want = reduced(rows(*p), k@, h@);
    let mut out: [[Single; N]; N] = *p;
    let mut i: usize = 0;
    while i < N
        invariant
            i <= N,
            want == reduced(rows(*p), k@, h@),
            forall|n: int| 0 <= n < i ==> (#[trigger] out[n])@ == want[n],
        decreases N - i,
    {
        let mut row: [Single; N] = p[i];
        let mut j: usize = 0;
        while j < N
            invariant
                i < N,
                j <= N,
                want == reduced(rows(*p), k@, h@),
                forall|n: int| 0 <= n < j ==> #[trigger] row[n] == want[i as int][n],
            decreases N - j,
        {
            row[j] = take_products(p[i][j], k[i], h, p, j);
            j += 1;
        }
        assert(row@ =~= want[i as int]);
        out[i] = row;
        i += 1;
    }
    assert(rows(out) =~= want);
    out
}

/// The gain of a scalar measurement, where it is taken.
pub fn scalar_gain<const N: usize>(
    p: &[[Single; N]; N],
    h: &[Single; N],
    residual: Single,
    r: Single,
    gate: Single,
) -> (k: Result<([Single; N], Single), Refusal>)
    ensures
        k is Ok <==> judged(rows(*p), h@, residual, r, gate) is Ok,
        k matches Ok(g) ==> {
            &&& g.0@ == gain(rows(*p), h@, r)
            &&& judged(rows(*p), h@, residual, r, gate) == Ok::<Single, Refusal>(g.1)
        },
        k matches Err(e) ==> judged(rows(*p), h@, residual, r, gate) == Err::<Single, Refusal>(e),
{
    let ph: [Single; N] = see(p, h);
    let s: Single = add_products(r, h, &ph);
    if s <= Single::from_i32(0) {
        return Err(Refusal::NotPositive);
    }
    let sigma: Single = residual.abs() / s.sqrt();
    if sigma > gate {
        return Err(Refusal::BeyondGate);
    }
    let mut k: [Single; N] = ph;
    let mut i: usize = 0;
    while i < N
        invariant
            i <= N,
            ph@ == seen(rows(*p), h@),
            s == innovation_variance(rows(*p), h@, r),
            forall|n: int| 0 <= n < i ==> #[trigger] k[n] == gain(rows(*p), h@, r)[n],
        decreases N - i,
    {
        k[i] = ph[i] / s;
        i += 1;
    }
    assert(k@ =~= gain(rows(*p), h@, r));
    Ok((k, sigma))
}

/// Takes one scalar measurement: the row `h`, the innovation `residual`, the noise `r`.
/// A refused measurement leaves the covariance as it is.
pub fn update_scalar<const N: usize>(
    p: &mut [[Single; N]; N],
    h: &[Single; N],
    residual: Single,
    r: Single,
    gate: Single,
) -> (o: Result<Single, Refusal>)
    ensures
        o == judged(rows(*old(p)), h@, residual, r, gate),
        o is Ok ==> rows(*final(p)) == reduced(
            rows(*old(p)),
            gain(rows(*old(p)), h@, r),
            h@,
        ),
        o is Err ==> *final(p) == *old(p),
{
    match scalar_gain(p, h, residual, r, gate) {
        Ok((k, sigma)) => {
            let newp: [[Single; N]; N] = reduce(p, &k, h);
            *p = newp;
            Ok(sigma)
        },
        Err(e) => Err(e),
    }
}

/// The determinant of a matrix of three rows.
pub open spec fn determinant3(m: Seq<Seq<Single>>) -> Single {
    m[0][0] * (m[1][1] * m[2][2] - m[1][2] * m[2][1]) - m[0][1] * (m[1][0] * m[2][2] - m[1][2]
        * m[2][0]) + m[0][2] * (m[1][0] * m[2][1] - m[1][1] * m[2][0])
}

/// The adjoint of a matrix of three rows, each element times `d`.
pub open spec fn adjoint3(m: Seq<Seq<Single>>, d: Single) -> Seq<Seq<Single>> {
    seq![
        seq![
            (m[1][1] * m[2][2] - m[1][2] * m[2][1]) * d,
            (m[0][2] * m[2][1] - m[0][1] * m[2][2]) * d,
            (m[0][1] * m[1][2] - m[0][2] * m[1][1]) * d,
        ],
        seq![
            (m[1][2] * m[2][0] - m[1][0] * m[2][2]) * d,
            (m[0][0] * m[2][2] - m[0][2] * m[2][0]) * d,
            (m[0][2] * m[1][0] - m[0][0] * m[1][2]) * d,
        ],
        seq![
            (m[1][0] * m[2][1] - m[1][1] * m[2][0]) * d,
            (m[0][1] * m[2][0] - m[0][0] * m[2][1]) * d,
            (m[0][0] * m[1][1] - m[0][1] * m[1][0]) * d,
        ],
    ]
}

pub fn adjoint(m: &[[Single; 3]; 3], d: Single) -> (r: [[Single; 3]; 3])
    ensures
        rows(r) == adjoint3(rows(*m), d),
{
    let r: [[Single; 3]; 3] = [
        [
            (m[1][1] * m[2][2] - m[1][2] * m[2][1]) * d,
            (m[0][2] * m[2][1] - m[0][1] * m[2][2]) * d,
            (m[0][1] * m[1][2] - m[0][2] * m[1][1]) * d,
        ],
        [
            (m[1][2] * m[2][0] - m[1][0] * m[2][2]) * d,
            (m[0][0] * m[2][2] - m[0][2] * m[2][0]) * d,
            (m[0][2] * m[1][0] - m[0][0] * m[1][2]) * d,
        ],
        [
            (m[1][0] * m[2][1] - m[1][1] * m[2][0]) * d,
            (m[0][1] * m[2][0] - m[0][0] * m[2][1]) * d,
            (m[0][0] * m[1][1] - m[0][1] * m[1][0]) * d,
        ],
    ];
    proof {
        let want = adjoint3(rows(*m), d);
        assert(r[0]@ =~= want[0]);
        assert(r[1]@ =~= want[1]);
        assert(r[2]@ =~= want[2]);
        assert(rows(r) =~= want);
    }
    r
}

pub fn determinant(m: &[[Single; 3]; 3]) -> (r: Single)
    ensures
        r == determinant3(rows(*m)),
{
    m[0][0] * (m[1][1] * m[2][2] - m[1][2] * m[2][1]) - m[0][1] * (m[1][0] * m[2][2] - m[1][2]
        * m[2][0]) + m[0][2] * (m[1][0] * m[2][1] - m[1][1] * m[2][0])
}

/// The inverse of a matrix of three rows, unless its determinant is below a billionth of
/// a thousandth.
pub open spec fn inverse3(m: Seq<Seq<Single>>) -> Option<Seq<Seq<Single>>> {
    let det = determinant3(m);
    if det.magnitude_of().less(Single { bits: TINY_DET_BITS }) {
        None
    } else {
        Some(adjoint3(m, Single::of_int(1) / det))
    }
}

/// Ten to the power of minus twelve.
pub const TINY_DET_BITS: u32 = 0x2B8C_BCCC;

pub fn inv3(m: &[[Single; 3]; 3]) -> (r: Option<[[Single; 3]; 3]>)
    ensures
        r is Some <==> inverse3(rows(*m)) is Some,
        r matches Some(i) ==> inverse3(rows(*m)) == Some(rows(i)),
{
    let det: Single = determinant(m);
    if det.abs() < Single::from_bits(TINY_DET_BITS) {
        return None;
    }
    Some(adjoint(m, Single::from_i32(1) / det))
}

/// The covariance of three innovations with the noise `r`.
pub open spec fn innovation_covariance(
    p: Seq<Seq<Single>>,
    h: Seq<Seq<Single>>,
    r: Seq<Seq<Single>>,
) -> Seq<Seq<Single>> {
    plus(r, times(h, times_transposed(p, h), 3))
}

/// The squared size of an innovation.
pub open spec fn squared_size(inverse: Seq<Seq<Single>>, residual: Seq<Single>) -> Single {
    let t = Seq::new(3, |a: int| dot(inverse[a], residual));
    dot(residual, t)
}

/// Whether three measurements are taken together, and how surprising they are, or why
/// not.
pub open spec fn judged3(
    p: Seq<Seq<Single>>,
    h: Seq<Seq<Single>>,
    residual: Seq<Single>,
    r: Seq<Seq<Single>>,
    gate: Single,
) -> Result<Single, Refusal> {
    match inverse3(innovation_covariance(p, h, r)) {
        None => Err(Refusal::Singular),
        Some(inverse) => {
            let nis = squared_size(inverse, residual);
            if nis.less(Single::of_int(0)) {
                Err(Refusal::NegativeSize)
            } else if gate.less(nis.root()) {
                Err(Refusal::BeyondGate)
            } else {
                Ok(nis.root())
            }
        },
    }
}

/// The gain of three measurements.
pub open spec fn gain3(p: Seq<Seq<Single>>, h: Seq<Seq<Single>>, r: Seq<Seq<Single>>) -> Seq<
    Seq<Single>,
> {
    match inverse3(innovation_covariance(p, h, r)) {
        None => Seq::new(p.len(), |i: int| Seq::new(3, |j: int| Single::of_int(0))),
        Some(inverse) => times(times_transposed(p, h), inverse, 3),
    }
}

/// The covariance once three measurements were taken with the gain `k`: one after the
/// other is taken off each element.
pub open spec fn reduced3(
    p: Seq<Seq<Single>>,
    k: Seq<Seq<Single>>,
    h: Seq<Seq<Single>>,
) -> Seq<Seq<Single>> {
    Seq::new(
        p.len(),
        |i: int|
            Seq::new(
                p.len(),
                |j: int|
                    {
                        let c = column(p, j);
                        let one = less_from(p[i][j], k[i][0], h[0], c, p.len());
                        let two = less_from(one, k[i][1], h[1], c, p.len());
                        less_from(two, k[i][2], h[2], c, p.len())
                    },
            ),
    )
}

fn reduce3<const N: usize>(p: &[[Single; N]; N], k: &[[Single; 3]; N], h: &[[Single; N]; 3]) -> (r:
    [[Single; N]; N])
    ensures
        rows(r) == reduced3(rows(*p), rows(*k), rows(*h)),
{
    let ghost want = reduced3(rows(*p), rows(*k), rows(*h));
    let mut out: [[Single; N]; N] = *p;
    let mut i: usize = 0;
    while i < N
        invariant
            i <= N,
            want == reduced3(rows(*p), rows(*k), rows(*h)),
            forall|n: int| 0 <= n < i ==> (#[trigger] out[n])@ == want[n],
        decreases N - i,
    {
        let mut row: [Single; N] = p[i];
        let mut j: usize = 0;
        while j < N
            invariant
                i < N,
                j <= N,
                want == reduced3(rows(*p), rows(*k), rows(*h)),
                forall|n: int| 0 <= n < j ==> #[trigger] row[n] == want[i as int][n],
            decreases N - j,
        {
            let one: Single = take_products(p[i][j], k[i][0], &h[0], p, j);
            let two: Single = take_products(one, k[i][1], &h[1], p, j);
            row[j] = take_products(two, k[i][2], &h[2], p, j);
            j += 1;
        }
        assert(row@ =~= want[i as int]);
        out[i] = row;
        i += 1;
    }
    assert(rows(out) =~= want);
    out
}

/// The gain of three measurements; zeros where the innovations cannot be told apart.
pub fn vector_gain<const N: usize>(
    p: &[[Single; N]; N],
    h: &[[Single; N]; 3],
    r: &[[Single; 3]; 3],
) -> (k: [[Single; 3]; N])
    ensures
        rows(k) == gain3(rows(*p), rows(*h), rows(*r)),
{
    let pht: [[Single; 3]; N] = mul_transposed(p, h);
    let s: [[Single; 3]; 3] = add_matrix(r, &matrix_product(h, &pht));
    match inv3(&s) {
        Some(inverse) => matrix_product(&pht, &inverse),
        None => {
            let zero: Single = Single::from_i32(0);
            let k: [[Single; 3]; N] = [[zero; 3]; N];
            proof {
                let want = gain3(rows(*p), rows(*h), rows(*r));
                assert forall|i: int| 0 <= i < N implies (#[trigger] k[i])@ == want[i] by {
                    assert(k[i]@ =~= want[i]);
                }
                assert(rows(k) =~= want);
            }
            k
        },
    }
}

/// Takes three measurements together: the rows `h`, the innovations `residual`, the
/// noise `r`. Refused measurements leave the covariance as it is.
pub fn update_vec3<const N: usize>(
    p: &mut [[Single; N]; N],
    h: &[[Single; N]; 3],
    residual: &[Single; 3],
    r: &[[Single; 3]; 3],
    gate: Single,
) -> (o: Result<Single, Refusal>)
    ensures
        o == judged3(rows(*old(p)), rows(*h), residual@, rows(*r), gate),
        o is Ok ==> rows(*final(p)) == reduced3(
            rows(*old(p)),
            gain3(rows(*old(p)), rows(*h), rows(*r)),
            rows(*h),
        ),
        o is Err ==> *final(p) == *old(p),
{
    let zero: Single = Single::from_i32(0);
    let pht: [[Single; 3]; N] = mul_transposed(p, h);
    let s: [[Single; 3]; 3] = add_matrix(r, &matrix_product(h, &pht));
    let inverse: [[Single; 3]; 3] = match inv3(&s) {
        Some(i) => i,
        None => {
            return Err(Refusal::Singular);
        },
    };
    let tmp: [Single; 3] = [
        add_products(zero, &inverse[0], residual),
        add_products(zero, &inverse[1], residual),
        add_products(zero, &inverse[2], residual),
    ];
    assert(tmp@ =~= Seq::new(3, |a: int| dot(rows(inverse)[a], residual@)));
    let nis: Single = add_products(zero, residual, &tmp);
    if nis < zero {
        return Err(Refusal::NegativeSize);
    }
    let sigma: Single = nis.sqrt();
    if sigma > gate {
        return Err(Refusal::BeyondGate);
    }
    let k: [[Single; 3]; N] = matrix_product(&pht, &inverse);
    let newp: [[Single; N]; N] = reduce3(p, &k, h);
    *p = newp;
    Ok(sigma)
}

/// Whether `e` is the unit vector along axis `i` of `n`.
pub open spec fn is_unit(e: Seq<Single>, n: nat, i: int) -> bool {
    &&& e.len() == n
    &&& forall|k: int|
        0 <= k < n ==> #[trigger] e[k] == if k == i {
            Single::of_int(1)
        } else {
            Single::of_int(0)
        }
}

/// Whether all elements of a vector are finite.
pub open spec fn all_finite(v: Seq<Single>) -> bool {
    forall|k: int| 0 <= k < v.len() ==> (#[trigger] v[k]).finite()
}

/// The scalar product with a unit vector picks an element.
proof fn lemma_unit_picks(e: Seq<Single>, v: Seq<Single>, i: int, n: nat)
    requires
        is_unit(e, v.len(), i),
        all_finite(v),
        n <= v.len(),
        0 <= i < v.len(),
    ensures
        dot_from(Single::of_int(0), e, v, n).same(
            if i < n {
                v[i]
            } else {
                Single::of_int(0)
            },
        ),
        dot_from(Single::of_int(0), v, e, n) == dot_from(Single::of_int(0), e, v, n),
    decreases n,
{
    let zero = Single::of_int(0);
    crate::single::arith::lemma_small_ints();
    if n > 0 {
        let m = (n - 1) as nat;
        lemma_unit_picks(e, v, i, m);
        let before = dot_from(zero, e, v, m);
        let x = v[m as int];
        crate::single::laws::law_product_commutes(e[m as int], x);
        assert(x.finite());
        if m == i {
            crate::single::laws::law_one_is_neutral(x);
            crate::single::laws::law_same_sums(before, x, zero, x);
            crate::single::laws::law_sum_commutes(zero, x);
            crate::single::laws::law_zero_is_neutral(x);
        } else {
            let old = if i < m {
                v[i]
            } else {
                zero
            };
            assert(old.finite());
            crate::single::laws::law_product_with_zero(x, zero);
            crate::single::laws::law_same_sums(before, e[m as int] * x, old, zero);
            crate::single::laws::law_zero_is_neutral(old);
        }
    }
}

/// Where the state does not change, a step only adds the noise to the covariance.
pub proof fn law_still_state_adds_noise(
    p: Seq<Seq<Single>>,
    f: Seq<Seq<Single>>,
    q: Seq<Seq<Single>>,
    i: int,
    j: int,
)
    requires
        f.len() == p.len(),
        forall|k: int| 0 <= k < f.len() ==> is_unit(#[trigger] f[k], p.len(), k),
        forall|k: int| 0 <= k < p.len() ==> (#[trigger] p[k]).len() == p.len() && all_finite(p[k]),
        0 <= i < p.len(),
        0 <= j < p.len(),
        q[i][j].finite(),
    ensures
        propagated(p, f, q)[i][j].same(p[i][j] + q[i][j]),
{
    let n = p.len();
    let t = times(f, p, n);
    assert(t[i].len() == n);
    assert forall|k: int| 0 <= k < n implies (#[trigger] t[i][k]).same(p[i][k])
        && t[i][k].finite() by {
        let c = column(p, k);
        assert(all_finite(c)) by {
            assert forall|l: int| 0 <= l < c.len() implies (#[trigger] c[l]).finite() by {
                assert(all_finite(p[l]));
            }
        }
        assert(is_unit(f[i], n, i));
        lemma_unit_picks(f[i], c, i, n);
        assert(all_finite(p[i]));
        crate::single::laws::lemma_same_is_finite(t[i][k], p[i][k]);
    }
    assert(is_unit(f[j], n, j));
    lemma_unit_picks(f[j], t[i], j, n);
    let moved = times_transposed(t, f);
    assert(moved[i][j] == dot(t[i], f[j]));
    assert(all_finite(p[i]));
    crate::single::laws::law_same_sums(moved[i][j], q[i][j], p[i][j], q[i][j]);
}

/// The rows of the adjoint are the cross products of the columns: each stands upright on the
/// two others.
pub proof fn law_adjoint_crosses_columns(m: Seq<Seq<Single>>, d: Single, i: int, j: int)
    requires
        0 <= i < 3,
        0 <= j < 3,
        m.len() == 3,
    ensures
        ({
            let a = column(m, (i + 1) % 3);
            let b = column(m, (i + 2) % 3);
            adjoint3(m, d)[i][j] == super::eskf::cross(a, b)[j] * d
        }),
{
    let a = column(m, (i + 1) % 3);
    let b = column(m, (i + 2) % 3);
    assert forall|k: int, l: int| 0 <= k < 3 && 0 <= l < 3 implies #[trigger] (a[k] * b[l]) == b[l]
        * a[k] by {
        crate::single::laws::law_product_commutes(a[k], b[l]);
    }
    assert(a[0] == m[0][(i + 1) % 3] && a[1] == m[1][(i + 1) % 3] && a[2] == m[2][(i + 1) % 3]);
    assert(b[0] == m[0][(i + 2) % 3] && b[1] == m[1][(i + 2) % 3] && b[2] == m[2][(i + 2) % 3]);
    assert(a[1] * b[2] == b[2] * a[1] && a[2] * b[1] == b[1] * a[2]);
    assert(a[2] * b[0] == b[0] * a[2] && a[0] * b[2] == b[2] * a[0]);
    assert(a[0] * b[1] == b[1] * a[0] && a[1] * b[0] == b[0] * a[1]);
}

/// The determinant is the product of the first column and the cross product of the two others;
/// here for all integers that leave no rounding.
pub proof fn law_determinant_is_volume(
    m: Seq<Seq<Single>>,
    a: int,
    b: int,
    c: int,
    d: int,
    e: int,
    f: int,
    g: int,
    h: int,
    i: int,
)
    requires
        crate::single::exact::worth(m[0][0], a, 0) && crate::vehicle::small(a, 64),
        crate::single::exact::worth(m[0][1], b, 0) && crate::vehicle::small(b, 64),
        crate::single::exact::worth(m[0][2], c, 0) && crate::vehicle::small(c, 64),
        crate::single::exact::worth(m[1][0], d, 0) && crate::vehicle::small(d, 64),
        crate::single::exact::worth(m[1][1], e, 0) && crate::vehicle::small(e, 64),
        crate::single::exact::worth(m[1][2], f, 0) && crate::vehicle::small(f, 64),
        crate::single::exact::worth(m[2][0], g, 0) && crate::vehicle::small(g, 64),
        crate::single::exact::worth(m[2][1], h, 0) && crate::vehicle::small(h, 64),
        crate::single::exact::worth(m[2][2], i, 0) && crate::vehicle::small(i, 64),
    ensures
        crate::single::exact::worth(
            determinant3(m),
            a * (e * i - h * f) + d * (h * c - b * i) + g * (b * f - e * c),
            0,
        ),
{
    lemma_minor_whole(m[1][1], m[2][2], m[1][2], m[2][1], e, i, f, h);
    lemma_minor_whole(m[1][0], m[2][2], m[1][2], m[2][0], d, i, f, g);
    lemma_minor_whole(m[1][0], m[2][1], m[1][1], m[2][0], d, h, e, g);
    let (x, y, z) = (
        m[1][1] * m[2][2] - m[1][2] * m[2][1],
        m[1][0] * m[2][2] - m[1][2] * m[2][0],
        m[1][0] * m[2][1] - m[1][1] * m[2][0],
    );
    let (k, l, n) = (e * i - f * h, d * i - f * g, d * h - e * g);
    crate::rotation_laws::lemma_whole_product(m[0][0], x, a, k, 64, 8192);
    crate::rotation_laws::lemma_whole_product(m[0][1], y, b, l, 64, 8192);
    crate::rotation_laws::lemma_whole_product(m[0][2], z, c, n, 64, 8192);
    crate::single::exact::law_worth_difference(m[0][0] * x, m[0][1] * y, a * k, b * l, 0);
    crate::single::exact::law_worth_sum(
        m[0][0] * x - m[0][1] * y,
        m[0][2] * z,
        a * k - b * l,
        c * n,
        0,
    );
    assert(f * h == h * f) by (nonlinear_arith);
    assert(b * (d * i - f * g) == b * d * i - b * f * g) by (nonlinear_arith);
    assert(c * (d * h - e * g) == c * d * h - c * e * g) by (nonlinear_arith);
    assert(d * (h * c - b * i) == c * d * h - b * d * i) by (nonlinear_arith);
    assert(g * (b * f - e * c) == b * f * g - c * e * g) by (nonlinear_arith);
}

proof fn lemma_minor_whole(
    x: Single,
    y: Single,
    u: Single,
    v: Single,
    k: int,
    l: int,
    m: int,
    n: int,
)
    requires
        crate::single::exact::worth(x, k, 0) && crate::vehicle::small(k, 64),
        crate::single::exact::worth(y, l, 0) && crate::vehicle::small(l, 64),
        crate::single::exact::worth(u, m, 0) && crate::vehicle::small(m, 64),
        crate::single::exact::worth(v, n, 0) && crate::vehicle::small(n, 64),
    ensures
        crate::single::exact::worth(x * y - u * v, k * l - m * n, 0),
        crate::vehicle::small(k * l - m * n, 8192),
{
    crate::rotation_laws::lemma_whole_product(x, y, k, l, 64, 64);
    crate::rotation_laws::lemma_whole_product(u, v, m, n, 64, 64);
    crate::single::exact::law_worth_difference(x * y, u * v, k * l, m * n, 0);
}

/// What is surprising is kept out: where a measurement is taken, one that differs less from
/// what was expected is taken too, and is not more surprising.
pub proof fn law_surprise_is_kept_out(
    p: Seq<Seq<Single>>,
    h: Seq<Single>,
    near: Single,
    far: Single,
    r: Single,
    gate: Single,
)
    requires
        near.finite(),
        far.finite(),
        near.magnitude_of().less_eq(far.magnitude_of()),
        crate::single::laws::within(innovation_variance(p, h, r), 60),
        judged(p, h, far, r, gate) is Ok,
        innovation_variance(p, h, r).root().finite(),
        Single::of_int(0).less(innovation_variance(p, h, r).root()),
    ensures
        judged(p, h, near, r, gate) is Ok,
        judged(p, h, near, r, gate)->Ok_0.less_eq(judged(p, h, far, r, gate)->Ok_0),
{
    let s = innovation_variance(p, h, r);
    crate::single::laws::lemma_packed(false, near.field());
    crate::single::laws::lemma_packed(false, far.field());
    crate::single::signs::law_quotient_order(
        true,
        near.magnitude_of(),
        far.magnitude_of(),
        s.root(),
    );
}

} // verus!
