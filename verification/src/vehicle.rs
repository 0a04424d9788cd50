//! What is measured on, estimated of and commanded to the vehicle.

use crate::single::Single;
use crate::units::{Meter, MeterPerSecond, MeterPerSecondSquared, Radian, RadianPerSecond};
use vstd::prelude::*;

verus! {

/// A rotation from body axes to north-east-down.
#[derive(Clone, Copy, Debug, PartialEq)]
pub struct Quaternion {
    pub w: Single,
    pub x: Single,
    pub y: Single,
    pub z: Single,
}

impl Quaternion {
    pub open spec fn unit() -> Quaternion {
        Quaternion {
            w: Single::of_int(1),
            x: Single::of_int(0),
            y: Single::of_int(0),
            z: Single::of_int(0),
        }
    }

    /// No rotation.
    pub fn identity() -> (r: Quaternion)
        ensures
            r == Quaternion::unit(),
    {
        Quaternion {
            w: Single::from_i32(1),
            x: Single::from_i32(0),
            y: Single::from_i32(0),
            z: Single::from_i32(0),
        }
    }
}

impl Quaternion {
    /// The rotation `self` after the rotation `b`.
    pub open spec fn times(self, b: Quaternion) -> Quaternion {
        let a = self;
        Quaternion {
            w: a.w * b.w - a.x * b.x - a.y * b.y - a.z * b.z,
            x: a.w * b.x + a.x * b.w + a.y * b.z - a.z * b.y,
            y: a.w * b.y - a.x * b.z + a.y * b.w + a.z * b.x,
            z: a.w * b.z + a.x * b.y - a.y * b.x + a.z * b.w,
        }
    }

    /// The opposite rotation.
    pub open spec fn conjugate(self) -> Quaternion {
        Quaternion { w: self.w, x: self.x.negated(), y: self.y.negated(), z: self.z.negated() }
    }

    /// Turns a vector from body axes to north-east-down.
    pub open spec fn rotated(self, v: Seq<Single>) -> Seq<Single> {
        let two = Single::of_int(2);
        let tx = two * (self.y * v[2] - self.z * v[1]);
        let ty = two * (self.z * v[0] - self.x * v[2]);
        let tz = two * (self.x * v[1] - self.y * v[0]);
        seq![
            v[0] + self.w * tx + (self.y * tz - self.z * ty),
            v[1] + self.w * ty + (self.z * tx - self.x * tz),
            v[2] + self.w * tz + (self.x * ty - self.y * tx),
        ]
    }

    /// The rotation by roll, pitch and yaw, given the sines and cosines of half of
    /// each angle.
    pub open spec fn of_half_angles(
        sr: Single,
        cr: Single,
        sp: Single,
        cp: Single,
        sy: Single,
        cy: Single,
    ) -> Quaternion {
        Quaternion {
            w: cr * cp * cy + sr * sp * sy,
            x: sr * cp * cy - cr * sp * sy,
            y: cr * sp * cy + sr * cp * sy,
            z: cr * cp * sy - sr * sp * cy,
        }
    }

    /// The rotation by roll, pitch and yaw, given the sines and cosines of half of
    /// each angle.
    pub fn from_half_angles(
        sr: Single,
        cr: Single,
        sp: Single,
        cp: Single,
        sy: Single,
        cy: Single,
    ) -> (r: Quaternion)
        ensures
            r == Quaternion::of_half_angles(sr, cr, sp, cp, sy, cy),
    {
        Quaternion {
            w: cr * cp * cy + sr * sp * sy,
            x: sr * cp * cy - cr * sp * sy,
            y: cr * sp * cy + sr * cp * sy,
            z: cr * cp * sy - sr * sp * cy,
        }
    }
}

impl Quaternion {
    /// The sum of the squares of the components.
    pub open spec fn squared(self) -> Single {
        self.w * self.w + self.x * self.x + self.y * self.y + self.z * self.z
    }

    /// The same rotation with components of unit length.
    pub open spec fn unit_of(self) -> Quaternion {
        let n = self.squared().root();
        if Single::of_int(0).less(n) {
            Quaternion { w: self.w / n, x: self.x / n, y: self.y / n, z: self.z / n }
        } else {
            Quaternion::unit()
        }
    }

    /// The same rotation with components of unit length; no rotation where there is
    /// none to find.
    pub fn normalize(self) -> (r: Quaternion)
        ensures
            r == self.unit_of(),
    {
        let n: Single = (self.w * self.w + self.x * self.x + self.y * self.y + self.z
            * self.z).sqrt();
        if n > Single::from_i32(0) {
            Quaternion { w: self.w / n, x: self.x / n, y: self.y / n, z: self.z / n }
        } else {
            Quaternion::identity()
        }
    }

    /// The rotation about a unit axis by the angle whose half has the sine `s` and the
    /// cosine `c`.
    pub open spec fn of_turn(axis: [Single; 3], s: Single, c: Single) -> Quaternion {
        Quaternion { w: c, x: axis[0] * s, y: axis[1] * s, z: axis[2] * s }
    }

    /// The rotation about a unit axis by the angle whose half has the sine `s` and the
    /// cosine `c`.
    pub fn from_axis_angle(axis: [Single; 3], s: Single, c: Single) -> (r: Quaternion)
        ensures
            r == Quaternion::of_turn(axis, s, c),
    {
        Quaternion { w: c, x: axis[0] * s, y: axis[1] * s, z: axis[2] * s }
    }

    /// The rotation after turning with the body rates `w` for the time `dt`, to first
    /// order.
    pub open spec fn turned(self, w: [Single; 3], dt: Single) -> Quaternion {
        let h = Single::of_ratio(5, 10) * dt;
        let q = self;
        (Quaternion {
            w: q.w + h * ((q.x * w[0] + q.y * w[1] + q.z * w[2]).negated()),
            x: q.x + h * (q.w * w[0] + q.y * w[2] - q.z * w[1]),
            y: q.y + h * (q.w * w[1] - q.x * w[2] + q.z * w[0]),
            z: q.z + h * (q.w * w[2] + q.x * w[1] - q.y * w[0]),
        }).unit_of()
    }

    /// The rotation after turning with the body rates `w` for the time `dt`, to first
    /// order.
    pub fn integrate(self, w: [Single; 3], dt: Single) -> (r: Quaternion)
        ensures
            r == self.turned(w, dt),
    {
        let h: Single = Single::ratio(5, 10) * dt;
        let q: Quaternion = self;
        (Quaternion {
            w: q.w + h * ((q.x * w[0] + q.y * w[1] + q.z * w[2]).negate()),
            x: q.x + h * (q.w * w[0] + q.y * w[2] - q.z * w[1]),
            y: q.y + h * (q.w * w[1] - q.x * w[2] + q.z * w[0]),
            z: q.z + h * (q.w * w[2] + q.x * w[1] - q.y * w[0]),
        }).normalize()
    }
}

/// The rotation `a` after the rotation `b`.
pub fn quat_mul(a: Quaternion, b: Quaternion) -> (r: Quaternion)
    ensures
        r == a.times(b),
{
    Quaternion {
        w: a.w * b.w - a.x * b.x - a.y * b.y - a.z * b.z,
        x: a.w * b.x + a.x * b.w + a.y * b.z - a.z * b.y,
        y: a.w * b.y - a.x * b.z + a.y * b.w + a.z * b.x,
        z: a.w * b.z + a.x * b.y - a.y * b.x + a.z * b.w,
    }
}

/// The opposite rotation.
pub fn quat_conj(q: Quaternion) -> (r: Quaternion)
    ensures
        r == q.conjugate(),
{
    Quaternion { w: q.w, x: q.x.negate(), y: q.y.negate(), z: q.z.negate() }
}

/// Turns a vector from body axes to north-east-down.
pub fn rotate_vec_by_quat(q: &Quaternion, v: [Single; 3]) -> (r: [Single; 3])
    ensures
        r@ == q.rotated(v@),
{
    let two: Single = Single::from_i32(2);
    let tx: Single = two * (q.y * v[2] - q.z * v[1]);
    let ty: Single = two * (q.z * v[0] - q.x * v[2]);
    let tz: Single = two * (q.x * v[1] - q.y * v[0]);
    let r: [Single; 3] = [
        v[0] + q.w * tx + (q.y * tz - q.z * ty),
        v[1] + q.w * ty + (q.z * tx - q.x * tz),
        v[2] + q.w * tz + (q.x * ty - q.y * tx),
    ];
    assert(r@ =~= q.rotated(v@));
    r
}

/// Turns a vector from north-east-down to body axes.
pub fn rotate_vec_by_quat_inverse(q: &Quaternion, v: [Single; 3]) -> (r: [Single; 3])
    ensures
        r@ == q.conjugate().rotated(v@),
{
    rotate_vec_by_quat(&quat_conj(*q), v)
}

/// Roll, pitch and yaw read off an attitude.
#[derive(Clone, Copy, Debug, PartialEq)]
pub struct Euler {
    pub roll: Radian,
    pub pitch: Radian,
    pub yaw: Radian,
}

/// A position in north-east-down coordinates.
#[derive(Clone, Copy, Debug, PartialEq)]
pub struct Ned(pub [Meter; 3]);

impl Ned {
    pub fn new(n: Single, e: Single, d: Single) -> (r: Ned)
        ensures
            r.0@ == seq![Meter(n), Meter(e), Meter(d)],
    {
        let r = Ned([Meter(n), Meter(e), Meter(d)]);
        assert(r.0@ =~= seq![Meter(n), Meter(e), Meter(d)]);
        r
    }

    pub fn origin() -> (r: Ned)
        ensures
            r.0@ == seq![
                Meter(Single::of_int(0)),
                Meter(Single::of_int(0)),
                Meter(Single::of_int(0)),
            ],
    {
        let zero: Single = Single::from_i32(0);
        Ned::new(zero, zero, zero)
    }
}

/// One reading of the accelerometer and the gyroscope, in body axes.
#[derive(Clone, Copy, Debug, PartialEq)]
pub struct ImuSample {
    pub accel: [MeterPerSecondSquared; 3],
    pub gyro: [RadianPerSecond; 3],
}

/// One position fix, with a velocity where the receiver gives one.
#[derive(Clone, Copy, Debug, PartialEq)]
pub struct PosSample {
    pub pos: [Meter; 3],
    pub vel: Option<[MeterPerSecond; 3]>,
}

impl ImuSample {
    /// Readings of nothing but zeros.
    pub fn zero() -> (r: ImuSample)
        ensures
            r.accel@ == Seq::new(3, |i: int| MeterPerSecondSquared(Single::of_int(0))),
            r.gyro@ == Seq::new(3, |i: int| RadianPerSecond(Single::of_int(0))),
    {
        let z: Single = Single::from_i32(0);
        ImuSample::from_axes([z, z, z], [z, z, z])
    }

    /// The readings of the three axes.
    pub fn from_axes(accel: [Single; 3], gyro: [Single; 3]) -> (r: ImuSample)
        ensures
            r.accel@ == Seq::new(3, |i: int| MeterPerSecondSquared(accel[i])),
            r.gyro@ == Seq::new(3, |i: int| RadianPerSecond(gyro[i])),
    {
        let r = ImuSample {
            accel: [
                MeterPerSecondSquared(accel[0]),
                MeterPerSecondSquared(accel[1]),
                MeterPerSecondSquared(accel[2]),
            ],
            gyro: [
                RadianPerSecond(gyro[0]),
                RadianPerSecond(gyro[1]),
                RadianPerSecond(gyro[2]),
            ],
        };
        assert(r.accel@ =~= Seq::new(3, |i: int| MeterPerSecondSquared(accel[i])));
        assert(r.gyro@ =~= Seq::new(3, |i: int| RadianPerSecond(gyro[i])));
        r
    }
}

impl PosSample {
    /// A fix without velocity.
    pub fn pos_only(pos: [Meter; 3]) -> (r: PosSample)
        ensures
            r == (PosSample { pos, vel: None }),
    {
        PosSample { pos, vel: None }
    }

    /// A fix with velocity.
    pub fn with_vel(pos: [Meter; 3], vel: [MeterPerSecond; 3]) -> (r: PosSample)
        ensures
            r == (PosSample { pos, vel: Some(vel) }),
    {
        PosSample { pos, vel: Some(vel) }
    }
}

/// A speed through the air, in metres per second.
#[derive(Clone, Copy, Debug, PartialEq)]
pub struct Airspeed(pub Single);

/// One reading of the airspeed sensor.
#[derive(Clone, Copy, Debug, PartialEq)]
pub struct AirspeedSample {
    pub speed: Airspeed,
    pub timestamp_s: Single,
}

/// One result of visual odometry: position, velocity, or both.
#[derive(Clone, Copy, Debug, PartialEq)]
pub struct VioSample {
    pub pos: Option<[Meter; 3]>,
    pub vel: Option<[MeterPerSecond; 3]>,
}

impl VioSample {
    pub fn with_vel(pos: [Meter; 3], vel: [MeterPerSecond; 3]) -> (r: VioSample)
        ensures
            r == (VioSample { pos: Some(pos), vel: Some(vel) }),
    {
        VioSample { pos: Some(pos), vel: Some(vel) }
    }
}

/// One position of a receiver that is precise to centimetres.
#[derive(Clone, Copy, Debug, PartialEq)]
pub struct RtkSample {
    pub pos: [Meter; 3],
}

impl RtkSample {
    pub fn new(pos: [Meter; 3]) -> (r: RtkSample)
        ensures
            r == (RtkSample { pos }),
    {
        RtkSample { pos }
    }
}

/// The estimated motion of the vehicle.
#[derive(Clone, Copy, Debug, PartialEq)]
pub struct VehicleState {
    pub time_boot_ms: u32,
    pub pos: [Meter; 3],
    pub vel: [MeterPerSecond; 3],
    pub att: Quaternion,
    pub omega: [RadianPerSecond; 3],
    pub airspeed: MeterPerSecond,
    pub accel_bias: [Single; 3],
}

impl VehicleState {
    /// At rest at the origin, level, heading north.
    pub fn zero() -> (r: VehicleState)
        ensures
            r.time_boot_ms == 0,
            r.pos@ == Seq::new(3, |i: int| Meter(Single::of_int(0))),
            r.vel@ == Seq::new(3, |i: int| MeterPerSecond(Single::of_int(0))),
            r.att == Quaternion::unit(),
            r.omega@ == Seq::new(3, |i: int| RadianPerSecond(Single::of_int(0))),
            r.airspeed == MeterPerSecond(Single::of_int(0)),
            r.accel_bias@ == Seq::new(3, |i: int| Single::of_int(0)),
    {
        let z: Single = Single::from_i32(0);
        let r = VehicleState {
            time_boot_ms: 0,
            pos: [Meter(z), Meter(z), Meter(z)],
            vel: [MeterPerSecond(z), MeterPerSecond(z), MeterPerSecond(z)],
            att: Quaternion::identity(),
            omega: [RadianPerSecond(z), RadianPerSecond(z), RadianPerSecond(z)],
            airspeed: MeterPerSecond(z),
            accel_bias: [z, z, z],
        };
        assert(r.pos@ =~= Seq::new(3, |i: int| Meter(Single::of_int(0))));
        assert(r.vel@ =~= Seq::new(3, |i: int| MeterPerSecond(Single::of_int(0))));
        assert(r.omega@ =~= Seq::new(3, |i: int| RadianPerSecond(Single::of_int(0))));
        assert(r.accel_bias@ =~= Seq::new(3, |i: int| Single::of_int(0)));
        r
    }
}

/// The thrust asked of each motor, between nothing and full.
#[derive(Clone, Copy, Debug, PartialEq)]
pub struct ActuatorCmd {
    pub motor: [Single; 4],
}

/// The sticks and switches of the pilot's transmitter.
#[derive(Clone, Copy, Debug, PartialEq)]
pub struct RcInput {
    pub roll: Single,
    pub pitch: Single,
    pub yaw: Single,
    pub throttle: Single,
    pub armed: bool,
    pub mode: u8,
    pub fresh: bool,
}

impl RcInput {
    pub open spec fn at_rest() -> RcInput {
        RcInput {
            roll: Single::of_int(0),
            pitch: Single::of_int(0),
            yaw: Single::of_int(0),
            throttle: Single::of_int(0),
            armed: false,
            mode: 0,
            fresh: false,
        }
    }

    /// Sticks centred, nothing armed, no signal.
    pub fn neutral() -> (r: RcInput)
        ensures
            r == RcInput::at_rest(),
    {
        let z: Single = Single::from_i32(0);
        RcInput { roll: z, pitch: z, yaw: z, throttle: z, armed: false, mode: 0, fresh: false }
    }
}

/// Where another vehicle of the formation is and how it moves.
#[derive(Clone, Copy, Debug, PartialEq)]
pub struct NeighborState {
    pub id: u8,
    pub pos: [Meter; 3],
    pub vel: [MeterPerSecond; 3],
}

impl Quaternion {
    /// Whether every component is a finite number.
    pub open spec fn all_finite(self) -> bool {
        self.w.finite() && self.x.finite() && self.y.finite() && self.z.finite()
    }

    /// Whether the components are those of `b` as numbers.
    pub open spec fn alike(self, b: Quaternion) -> bool {
        self.w.same(b.w) && self.x.same(b.x) && self.y.same(b.y) && self.z.same(b.z)
    }

    /// The component along body axis `i`.
    pub open spec fn part(self, i: int) -> Single {
        if i == 0 {
            self.x
        } else if i == 1 {
            self.y
        } else {
            self.z
        }
    }
}

/// What one and zeros leave of a sum of four products.
proof fn lemma_terms(a: Single, b: Single, c: Single, d: Single)
    requires
        a.finite(),
        b.finite(),
        c.finite(),
        d.finite(),
    ensures
        ({
            let one = Single::of_int(1);
            let z = Single::of_int(0);
            &&& (a * one - b * z - c * z - d * z).same(a)
            &&& (a * z + b * one + c * z - d * z).same(b)
            &&& (a * z - b * z + c * one + d * z).same(c)
            &&& (a * z + b * z - c * z + d * one).same(d)
            &&& (one * a - z * b - z * c - z * d).same(a)
            &&& (one * b + z * a + z * d - z * c).same(b)
            &&& (one * c - z * d + z * a + z * b).same(c)
            &&& (one * d + z * c - z * b + z * a).same(d)
        }),
{
    let one = Single::of_int(1);
    let z = Single::of_int(0);
    crate::single::arith::lemma_small_ints();
    assert forall|x: Single| x.finite() implies (#[trigger] (x * z)).same(z) && (z * x).same(z) by {
        crate::single::laws::law_product_with_zero(x, z);
    }
    assert forall|x: Single| x.finite() implies #[trigger] (x * one) == x && one * x == x by {
        crate::single::laws::law_one_is_neutral(x);
        crate::single::laws::law_product_commutes(x, one);
    }
    assert forall|x: Single, y: Single|
        x.same(z) && y.same(z) implies #[trigger] (x + y).same(z) && (x - y).same(z) by {
        crate::single::laws::lemma_nothing_more(x, y);
    }
    let a0 = a * z;
    let b0 = b * z;
    let c0 = c * z;
    let d0 = d * z;
    let za = z * a;
    let zb = z * b;
    let zc = z * c;
    let zd = z * d;
    assert(a * one == a && b * one == b && c * one == c && d * one == d);
    assert(a0.same(z) && b0.same(z) && c0.same(z) && d0.same(z));
    crate::single::laws::lemma_add_nothing(a, a, b0);
    crate::single::laws::lemma_add_nothing(a - b0, a, c0);
    crate::single::laws::lemma_add_nothing(a - b0 - c0, a, d0);
    crate::single::laws::lemma_add_nothing(b, b, a0);
    crate::single::laws::lemma_add_nothing(a0 + b, b, c0);
    crate::single::laws::lemma_add_nothing(a0 + b + c0, b, d0);
    crate::single::laws::lemma_nothing_more(a0, b0);
    crate::single::laws::lemma_add_nothing(c, c, a0 - b0);
    crate::single::laws::lemma_add_nothing(a0 - b0 + c, c, d0);
    crate::single::laws::lemma_nothing_more(a0 + b0, c0);
    crate::single::laws::lemma_add_nothing(d, d, a0 + b0 - c0);
    crate::single::laws::lemma_add_nothing(a, a, zb);
    crate::single::laws::lemma_add_nothing(a - zb, a, zc);
    crate::single::laws::lemma_add_nothing(a - zb - zc, a, zd);
    crate::single::laws::lemma_add_nothing(b, b, za);
    crate::single::laws::lemma_add_nothing(b + za, b, zd);
    crate::single::laws::lemma_add_nothing(b + za + zd, b, zc);
    crate::single::laws::lemma_add_nothing(c, c, zd);
    crate::single::laws::lemma_add_nothing(c - zd, c, za);
    crate::single::laws::lemma_add_nothing(c - zd + za, c, zb);
    crate::single::laws::lemma_add_nothing(d, d, zc);
    crate::single::laws::lemma_add_nothing(d + zc, d, zb);
    crate::single::laws::lemma_add_nothing(d + zc - zb, d, za);
}

/// No rotation, before or after another, changes nothing.
pub proof fn law_no_rotation_is_neutral(q: Quaternion)
    requires
        q.all_finite(),
    ensures
        q.times(Quaternion::unit()).alike(q),
        Quaternion::unit().times(q).alike(q),
{
    lemma_terms(q.w, q.x, q.y, q.z);
}

/// Level and heading north, body axes are north-east-down.
pub proof fn law_level_turns_no_vector(v: Seq<Single>, i: int)
    requires
        0 <= i < 3,
        forall|j: int| 0 <= j < 3 ==> (#[trigger] v[j]).finite(),
    ensures
        Quaternion::unit().rotated(v)[i].same(v[i]),
        Quaternion::unit().rotated(v)[i].finite(),
{
    let one = Single::of_int(1);
    let two = Single::of_int(2);
    let z = Single::of_int(0);
    crate::single::arith::lemma_small_ints();
    crate::single::arith::lemma_two();
    let a = v[0];
    let b = v[1];
    let c = v[2];
    crate::single::laws::law_product_with_zero(a, z);
    crate::single::laws::law_product_with_zero(b, z);
    crate::single::laws::law_product_with_zero(c, z);
    let tx = two * (z * c - z * b);
    let ty = two * (z * a - z * c);
    let tz = two * (z * b - z * a);
    crate::single::laws::lemma_nothing_more(z * c, z * b);
    crate::single::laws::lemma_nothing_more(z * a, z * c);
    crate::single::laws::lemma_nothing_more(z * b, z * a);
    crate::single::laws::law_product_with_zero(two, z * c - z * b);
    crate::single::laws::law_product_with_zero(two, z * a - z * c);
    crate::single::laws::law_product_with_zero(two, z * b - z * a);
    assert forall|t: Single| t.same(z) implies (#[trigger] (one * t)).same(z) && (z * t).same(
        z,
    ) by {
        crate::single::laws::law_product_with_zero(one, t);
        crate::single::laws::law_product_with_zero(z, t);
    }
    assert((one * tx).same(z) && (one * ty).same(z) && (one * tz).same(z));
    crate::single::laws::lemma_nothing_more(z * tz, z * ty);
    crate::single::laws::lemma_nothing_more(z * tx, z * tz);
    crate::single::laws::lemma_nothing_more(z * ty, z * tx);
    crate::single::laws::lemma_add_nothing(a, a, one * tx);
    crate::single::laws::lemma_add_nothing(b, b, one * ty);
    crate::single::laws::lemma_add_nothing(c, c, one * tz);
    crate::single::laws::lemma_add_nothing(a + one * tx, a, z * tz - z * ty);
    crate::single::laws::lemma_add_nothing(b + one * ty, b, z * tx - z * tz);
    crate::single::laws::lemma_add_nothing(c + one * tz, c, z * ty - z * tx);
}

/// Whether the components are the integers `w`, `x`, `y` and `z`.
pub open spec fn whole(q: Quaternion, w: int, x: int, y: int, z: int) -> bool {
    &&& crate::single::exact::worth(q.w, w, 0)
    &&& crate::single::exact::worth(q.x, x, 0)
    &&& crate::single::exact::worth(q.y, y, 0)
    &&& crate::single::exact::worth(q.z, z, 0)
}

/// Whether an integer is at most `bound` in size.
pub open spec fn small(n: int, bound: int) -> bool {
    -bound <= n <= bound
}

pub proof fn lemma_small_product(m: int, n: int, a: int, b: int)
    requires
        small(m, a),
        small(n, b),
        0 <= a,
        0 <= b,
    ensures
        small(m * n, a * b),
{
    assert(-(a * b) <= m * n <= a * b) by (nonlinear_arith)
        requires
            -a <= m <= a,
            -b <= n <= b,
            0 <= a,
            0 <= b,
    ;
}

/// A sum of four products of integers; `plus` says which products are added.
proof fn lemma_four(
    a: Seq<Single>,
    b: Seq<Single>,
    m: Seq<int>,
    n: Seq<int>,
    plus: Seq<bool>,
    k: int,
)
    requires
        a.len() == 4 && b.len() == 4 && m.len() == 4 && n.len() == 4 && plus.len() == 4,
        forall|i: int| 0 <= i < 4 ==> crate::single::exact::worth(#[trigger] a[i], m[i], 0),
        forall|i: int| 0 <= i < 4 ==> crate::single::exact::worth(#[trigger] b[i], n[i], 0),
        forall|i: int| 0 <= i < 4 ==> small(#[trigger] m[i] * n[i], k),
        0 <= k <= 0x40_0000,
    ensures
        ({
            let p0 = a[0] * b[0];
            let p1 = a[1] * b[1];
            let p2 = a[2] * b[2];
            let p3 = a[3] * b[3];
            let s1 = if plus[1] {
                p0 + p1
            } else {
                p0 - p1
            };
            let s2 = if plus[2] {
                s1 + p2
            } else {
                s1 - p2
            };
            let s3 = if plus[3] {
                s2 + p3
            } else {
                s2 - p3
            };
            let i1 = m[0] * n[0] + if plus[1] {
                m[1] * n[1]
            } else {
                -(m[1] * n[1])
            };
            let i2 = i1 + if plus[2] {
                m[2] * n[2]
            } else {
                -(m[2] * n[2])
            };
            let i3 = i2 + if plus[3] {
                m[3] * n[3]
            } else {
                -(m[3] * n[3])
            };
            crate::single::exact::worth(s3, i3, 0)
        }),
{
    let p0 = a[0] * b[0];
    let p1 = a[1] * b[1];
    let p2 = a[2] * b[2];
    let p3 = a[3] * b[3];
    assert(small(m[0] * n[0], k) && small(m[1] * n[1], k) && small(m[2] * n[2], k) && small(
        m[3] * n[3],
        k,
    ));
    crate::single::exact::law_worth_product(a[0], b[0], m[0], n[0], 0, 0);
    crate::single::exact::law_worth_product(a[1], b[1], m[1], n[1], 0, 0);
    crate::single::exact::law_worth_product(a[2], b[2], m[2], n[2], 0, 0);
    crate::single::exact::law_worth_product(a[3], b[3], m[3], n[3], 0, 0);
    let q0 = m[0] * n[0];
    let q1 = m[1] * n[1];
    let q2 = m[2] * n[2];
    let q3 = m[3] * n[3];
    let (s1, i1) = if plus[1] {
        crate::single::exact::law_worth_sum(p0, p1, q0, q1, 0);
        (p0 + p1, q0 + q1)
    } else {
        crate::single::exact::law_worth_difference(p0, p1, q0, q1, 0);
        (p0 - p1, q0 - q1)
    };
    let (s2, i2) = if plus[2] {
        crate::single::exact::law_worth_sum(s1, p2, i1, q2, 0);
        (s1 + p2, i1 + q2)
    } else {
        crate::single::exact::law_worth_difference(s1, p2, i1, q2, 0);
        (s1 - p2, i1 - q2)
    };
    if plus[3] {
        crate::single::exact::law_worth_sum(s2, p3, i2, q3, 0);
    } else {
        crate::single::exact::law_worth_difference(s2, p3, i2, q3, 0);
    }
}

/// The product of rotations with integer components is exact.
pub proof fn lemma_times_whole(
    a: Quaternion,
    b: Quaternion,
    aw: int,
    ax: int,
    ay: int,
    az: int,
    bw: int,
    bx: int,
    by: int,
    bz: int,
    i: int,
    j: int,
)
    requires
        whole(a, aw, ax, ay, az),
        whole(b, bw, bx, by, bz),
        small(aw, i) && small(ax, i) && small(ay, i) && small(az, i),
        small(bw, j) && small(bx, j) && small(by, j) && small(bz, j),
        0 <= i,
        0 <= j,
        i * j <= 0x40_0000,
    ensures
        whole(
            a.times(b),
            aw * bw - ax * bx - ay * by - az * bz,
            aw * bx + ax * bw + ay * bz - az * by,
            aw * by - ax * bz + ay * bw + az * bx,
            aw * bz + ax * by - ay * bx + az * bw,
        ),
{
    assert forall|m: int, n: int| small(m, i) && small(n, j) implies small(
        #[trigger] (m * n),
        i * j,
    ) by {
        lemma_small_product(m, n, i, j);
    }
    assert(0 <= i * j) by (nonlinear_arith)
        requires
            0 <= i,
            0 <= j,
    ;
    let s = seq![a.w, a.x, a.y, a.z];
    let m = seq![aw, ax, ay, az];
    lemma_four(
        s,
        seq![b.w, b.x, b.y, b.z],
        m,
        seq![bw, bx, by, bz],
        seq![true, false, false, false],
        i * j,
    );
    lemma_four(
        s,
        seq![b.x, b.w, b.z, b.y],
        m,
        seq![bx, bw, bz, by],
        seq![true, true, true, false],
        i * j,
    );
    lemma_four(
        s,
        seq![b.y, b.z, b.w, b.x],
        m,
        seq![by, bz, bw, bx],
        seq![true, false, true, true],
        i * j,
    );
    lemma_four(
        s,
        seq![b.z, b.y, b.x, b.w],
        m,
        seq![bz, by, bx, bw],
        seq![true, true, false, true],
        i * j,
    );
}

/// The order of factors, and how they spread over sums.
proof fn lemma_spread(aw: int, ax: int, ay: int, az: int, d: int)
    ensures
        aw * (ax * d) == ax * (aw * d),
        aw * (ay * d) == ay * (aw * d),
        aw * (az * d) == az * (aw * d),
        ax * (ay * d) == ay * (ax * d),
        ax * (az * d) == az * (ax * d),
        ay * (az * d) == az * (ay * d),
        (aw * aw + ax * ax + ay * ay + az * az) * d == aw * (aw * d) + ax * (ax * d) + ay * (ay * d)
            + az * (az * d),
{
    assert forall|m: int, n: int| #[trigger] (m * (n * d)) == n * (m * d) by {
        assert(m * (n * d) == n * (m * d)) by (nonlinear_arith);
    }
    assert forall|m: int| (#[trigger] (m * m)) * d == m * (m * d) by {
        assert((m * m) * d == m * (m * d)) by (nonlinear_arith);
    }
    let a = aw * aw;
    let b = ax * ax;
    let c = ay * ay;
    let e = az * az;
    assert((a + b + c + e) * d == a * d + b * d + c * d + e * d) by (nonlinear_arith);
}

proof fn lemma_share(m: int, p: int, q: int, r: int, t: int)
    ensures
        m * (p - q - r - t) == m * p - m * q - m * r - m * t,
        m * (p + q + r - t) == m * p + m * q + m * r - m * t,
        m * (p - q + r + t) == m * p - m * q + m * r + m * t,
        m * (p + q - r + t) == m * p + m * q - m * r + m * t,
        (-m) * p == -(m * p),
{
    assert(m * (p - q - r - t) == m * p - m * q - m * r - m * t) by (nonlinear_arith);
    assert(m * (p + q + r - t) == m * p + m * q + m * r - m * t) by (nonlinear_arith);
    assert(m * (p - q + r + t) == m * p - m * q + m * r + m * t) by (nonlinear_arith);
    assert(m * (p + q - r + t) == m * p + m * q - m * r + m * t) by (nonlinear_arith);
    assert((-m) * p == -(m * p)) by (nonlinear_arith);
}

proof fn lemma_undone(
    aw: int,
    ax: int,
    ay: int,
    az: int,
    dw: int,
    dx: int,
    dy: int,
    dz: int,
)
    ensures
        ({
            let cw = aw * dw - ax * dx - ay * dy - az * dz;
            let cx = aw * dx + ax * dw + ay * dz - az * dy;
            let cy = aw * dy - ax * dz + ay * dw + az * dx;
            let cz = aw * dz + ax * dy - ay * dx + az * dw;
            let s = aw * aw + ax * ax + ay * ay + az * az;
            &&& aw * cw - (-ax) * cx - (-ay) * cy - (-az) * cz == s * dw
            &&& aw * cx + (-ax) * cw + (-ay) * cz - (-az) * cy == s * dx
            &&& aw * cy - (-ax) * cz + (-ay) * cw + (-az) * cx == s * dy
            &&& aw * cz + (-ax) * cy - (-ay) * cx + (-az) * cw == s * dz
        }),
{
    let cw = aw * dw - ax * dx - ay * dy - az * dz;
    let cx = aw * dx + ax * dw + ay * dz - az * dy;
    let cy = aw * dy - ax * dz + ay * dw + az * dx;
    let cz = aw * dz + ax * dy - ay * dx + az * dw;
    lemma_spread(aw, ax, ay, az, dw);
    lemma_spread(aw, ax, ay, az, dx);
    lemma_spread(aw, ax, ay, az, dy);
    lemma_spread(aw, ax, ay, az, dz);
    lemma_share(aw, aw * dw, ax * dx, ay * dy, az * dz);
    lemma_share(aw, aw * dx, ax * dw, ay * dz, az * dy);
    lemma_share(aw, aw * dy, ax * dz, ay * dw, az * dx);
    lemma_share(aw, aw * dz, ax * dy, ay * dx, az * dw);
    lemma_share(ax, aw * dw, ax * dx, ay * dy, az * dz);
    lemma_share(ax, aw * dx, ax * dw, ay * dz, az * dy);
    lemma_share(ax, aw * dy, ax * dz, ay * dw, az * dx);
    lemma_share(ax, aw * dz, ax * dy, ay * dx, az * dw);
    lemma_share(ay, aw * dw, ax * dx, ay * dy, az * dz);
    lemma_share(ay, aw * dx, ax * dw, ay * dz, az * dy);
    lemma_share(ay, aw * dy, ax * dz, ay * dw, az * dx);
    lemma_share(ay, aw * dz, ax * dy, ay * dx, az * dw);
    lemma_share(az, aw * dw, ax * dx, ay * dy, az * dz);
    lemma_share(az, aw * dx, ax * dw, ay * dz, az * dy);
    lemma_share(az, aw * dy, ax * dz, ay * dw, az * dx);
    lemma_share(az, aw * dz, ax * dy, ay * dx, az * dw);
    lemma_share(ax, cx, 0, 0, 0);
    lemma_share(ax, cw, 0, 0, 0);
    lemma_share(ax, cz, 0, 0, 0);
    lemma_share(ax, cy, 0, 0, 0);
    lemma_share(ay, cx, 0, 0, 0);
    lemma_share(ay, cw, 0, 0, 0);
    lemma_share(ay, cz, 0, 0, 0);
    lemma_share(ay, cy, 0, 0, 0);
    lemma_share(az, cx, 0, 0, 0);
    lemma_share(az, cw, 0, 0, 0);
    lemma_share(az, cz, 0, 0, 0);
    lemma_share(az, cy, 0, 0, 0);
}

/// A rotation undone after itself leaves what came with it: the opposite of `a`, after `a`
/// after `d`, is `d` times the squared length of `a`; here for all integer components that
/// leave no rounding.
pub proof fn law_opposite_undoes(
    a: Quaternion,
    d: Quaternion,
    aw: int,
    ax: int,
    ay: int,
    az: int,
    dw: int,
    dx: int,
    dy: int,
    dz: int,
)
    requires
        whole(a, aw, ax, ay, az),
        whole(d, dw, dx, dy, dz),
        small(aw, 64) && small(ax, 64) && small(ay, 64) && small(az, 64),
        small(dw, 64) && small(dx, 64) && small(dy, 64) && small(dz, 64),
    ensures
        ({
            let s = aw * aw + ax * ax + ay * ay + az * az;
            whole(a.conjugate().times(a.times(d)), s * dw, s * dx, s * dy, s * dz)
        }),
{
    lemma_times_whole(a, d, aw, ax, ay, az, dw, dx, dy, dz, 64, 64);
    crate::single::exact::law_worth_negated(a.x, ax, 0);
    crate::single::exact::law_worth_negated(a.y, ay, 0);
    crate::single::exact::law_worth_negated(a.z, az, 0);
    assert forall|m: int, n: int| small(m, 64) && small(n, 64) implies small(
        #[trigger] (m * n),
        4096,
    ) by {
        lemma_small_product(m, n, 64, 64);
    }
    let cw = aw * dw - ax * dx - ay * dy - az * dz;
    let cx = aw * dx + ax * dw + ay * dz - az * dy;
    let cy = aw * dy - ax * dz + ay * dw + az * dx;
    let cz = aw * dz + ax * dy - ay * dx + az * dw;
    lemma_times_whole(
        a.conjugate(),
        a.times(d),
        aw,
        -ax,
        -ay,
        -az,
        cw,
        cx,
        cy,
        cz,
        64,
        16384,
    );
    lemma_undone(aw, ax, ay, az, dw, dx, dy, dz);
}

/// Turning about forward and then about right is turning about down: the axes are right
/// handed, and the rotation written first is made last.
pub proof fn law_axes_are_right_handed(a: Quaternion, b: Quaternion, m: int, n: int)
    requires
        small(m, 2048),
        small(n, 2048),
    ensures
        whole(a, 0, m, 0, 0) && whole(b, 0, 0, n, 0) ==> whole(a.times(b), 0, 0, 0, m * n),
        whole(a, 0, 0, m, 0) && whole(b, 0, 0, 0, n) ==> whole(a.times(b), 0, m * n, 0, 0),
        whole(a, 0, 0, 0, m) && whole(b, 0, n, 0, 0) ==> whole(a.times(b), 0, 0, m * n, 0),
{
    if whole(a, 0, m, 0, 0) && whole(b, 0, 0, n, 0) {
        lemma_times_whole(a, b, 0, m, 0, 0, 0, 0, n, 0, 2048, 2048);
    }
    if whole(a, 0, 0, m, 0) && whole(b, 0, 0, 0, n) {
        lemma_times_whole(a, b, 0, 0, m, 0, 0, 0, 0, n, 2048, 2048);
    }
    if whole(a, 0, 0, 0, m) && whole(b, 0, n, 0, 0) {
        lemma_times_whole(a, b, 0, 0, 0, m, 0, n, 0, 0, 2048, 2048);
    }
    assert(m * 0 == 0 && 0 * n == 0 && 0 * m == 0 && n * 0 == 0);
}

/// What zeros leave of the change of an attitude that is level and heading north.
proof fn lemma_level_change(w: [Single; 3])
    requires
        w[0].finite() && w[1].finite() && w[2].finite(),
    ensures
        ({
            let one = Single::of_int(1);
            let z = Single::of_int(0);
            &&& (z * w[0] + z * w[1] + z * w[2]).same(z)
            &&& (one * w[0] + z * w[2] - z * w[1]).same(w[0])
            &&& (one * w[1] - z * w[2] + z * w[0]).same(w[1])
            &&& (one * w[2] + z * w[1] - z * w[0]).same(w[2])
        }),
{
    let one = Single::of_int(1);
    let z = Single::of_int(0);
    crate::single::arith::lemma_small_ints();
    let a = w[0];
    let b = w[1];
    let c = w[2];
    crate::single::laws::law_product_with_zero(a, z);
    crate::single::laws::law_product_with_zero(b, z);
    crate::single::laws::law_product_with_zero(c, z);
    crate::single::laws::law_one_is_neutral(a);
    crate::single::laws::law_one_is_neutral(b);
    crate::single::laws::law_one_is_neutral(c);
    crate::single::laws::law_product_commutes(a, one);
    crate::single::laws::law_product_commutes(b, one);
    crate::single::laws::law_product_commutes(c, one);
    crate::single::laws::lemma_nothing_more(z * a, z * b);
    crate::single::laws::lemma_nothing_more(z * a + z * b, z * c);
    crate::single::laws::lemma_add_nothing(a, a, z * c);
    crate::single::laws::lemma_add_nothing(a + z * c, a, z * b);
    crate::single::laws::lemma_add_nothing(b, b, z * c);
    crate::single::laws::lemma_add_nothing(b - z * c, b, z * a);
    crate::single::laws::lemma_add_nothing(c, c, z * b);
    crate::single::laws::lemma_add_nothing(c + z * b, c, z * a);
}

/// What is the same as a number, times a factor.
pub proof fn lemma_same_product(h: Single, y: Single, x: Single)
    requires
        y.same(x),
        x.finite(),
        h.finite(),
    ensures
        (h * y).same(h * x),
{
    crate::single::laws::lemma_same_is_finite(y, x);
    if x.value() == 0 {
        crate::single::arith::lemma_small_ints();
        crate::single::laws::law_product_with_zero(h, x);
        crate::single::laws::law_product_with_zero(h, y);
    } else {
        crate::single::number::lemma_rank(y, x);
        assert(y == x);
        crate::single::laws::law_product_commutes(h, x);
        reveal(Single::product);
        vstd::arithmetic::power2::lemma_pow2_pos(149);
        crate::single::rounding::lemma_nearest_exists(
            h.magnitude() * x.magnitude(),
            vstd::arithmetic::power2::pow2(149),
        );
    }
}

/// The length of a rotation that is one and a small part: between one and two.
proof fn lemma_length(q: Quaternion, i: int, t: Single)
    requires
        0 <= i < 3,
        q.w.same(Single::of_int(1)),
        q.part(i).same(t),
        crate::single::laws::within(t, 10),
        forall|j: int|
            0 <= j < 3 && j != i ==> (#[trigger] q.part(j)).same(Single::of_int(0)),
    ensures
        ({
            let n = q.squared().root();
            &&& n.finite()
            &&& crate::single::laws::within(n, 11)
            &&& Single::of_int(1).less_eq(n)
            &&& crate::single::laws::within(t, 0) ==> n.less_eq(Single::of_int(2))
        }),
{
    let one = Single::of_int(1);
    let z = Single::of_int(0);
    vstd::arithmetic::power2::lemma2_to64();
    crate::single::arith::lemma_small_ints();
    crate::single::laws::lemma_one_magnitude();
    crate::single::laws::lemma_within_is_finite(t, 10);
    crate::single::number::lemma_rank(q.w, one);
    assert(q.w == one);
    crate::single::laws::law_one_is_neutral(one);
    assert(q.part(0) == q.x && q.part(1) == q.y && q.part(2) == q.z);
    assert forall|x: Single| x.same(z) implies (#[trigger] (x * x)).same(z) by {
        crate::single::laws::lemma_same_is_finite(x, z);
        crate::single::laws::law_product_with_zero(x, x);
    }
    let y = q.part(i);
    crate::single::laws::lemma_same_is_finite(y, t);
    assert(y.magnitude() == t.magnitude());
    let yy = y * y;
    crate::single::laws::law_product_within(y, y, 10, 10);
    lemma_square_points(y);
    let s = one + yy;
    crate::single::laws::law_integer_within(1, 0);
    crate::single::signs::law_within_more(one, 0, 21);
    crate::single::signs::law_within_more(yy, 20, 21);
    crate::single::laws::law_sum_within(one, yy, 21);
    crate::single::signs::law_sum_moves(true, one, yy);
    let sx = one + q.x * q.x;
    let sy = sx + q.y * q.y;
    let sz = sy + q.z * q.z;
    if i == 0 {
        crate::single::laws::lemma_add_nothing(s, s, q.y * q.y);
        crate::single::laws::lemma_add_nothing(sy, s, q.z * q.z);
    } else if i == 1 {
        crate::single::laws::lemma_add_nothing(one, one, q.x * q.x);
        crate::single::number::lemma_rank(sx, one);
        assert(sx == one);
        crate::single::laws::lemma_add_nothing(s, s, q.z * q.z);
    } else {
        crate::single::laws::lemma_add_nothing(one, one, q.x * q.x);
        crate::single::number::lemma_rank(sx, one);
        assert(sx == one);
        crate::single::laws::lemma_add_nothing(one, one, q.y * q.y);
        crate::single::number::lemma_rank(sy, one);
        assert(sy == one);
    }
    assert(sz.same(s) && sz == q.squared());
    crate::single::laws::lemma_same_is_finite(sz, s);
    assert(sz.magnitude() == s.magnitude());
    crate::single::root::law_root_within(sz, 11);
    crate::single::exact::law_integer_worth(1);
    crate::single::exact::law_worth_root(one, 1, 0);
    crate::single::exact::law_worth_order(one.root(), one, 1, 1, 0);
    crate::single::root::law_root_keeps_order(one, sz);
    if crate::single::laws::within(t, 0) {
        crate::single::laws::law_product_within(y, y, 0, 0);
        crate::single::laws::law_sum_within(one, yy, 0);
        crate::single::signs::law_within_more(sz, 1, 2);
        crate::single::root::law_root_within(sz, 1);
        crate::single::exact::law_integer_worth(2);
        vstd::arithmetic::power2::lemma_pow2_unfold(150);
    }
}

proof fn lemma_square_points(y: Single)
    requires
        y.finite(),
    ensures
        crate::single::signs::toward(true, y * y),
{
    crate::single::arith::lemma_small_ints();
    if Single::of_int(0).less_eq(y) {
        crate::single::signs::law_product_points(true, y, y);
    } else {
        crate::single::signs::law_product_points_back(false, y, y);
    }
}

/// A rotation close to none, with unit length, still turns about the same axis the same way,
/// by no more, and by no less than half as much where it is small.
proof fn lemma_unit_turn(q: Quaternion, i: int, t: Single, up: bool, a: nat)
    requires
        0 <= i < 3,
        q.w.same(Single::of_int(1)),
        q.part(i).same(t),
        crate::single::laws::within(t, 10),
        crate::single::signs::toward(up, t),
        forall|j: int|
            0 <= j < 3 && j != i ==> (#[trigger] q.part(j)).same(Single::of_int(0)),
        a + 11 <= 149,
    ensures
        ({
            let r = q.unit_of();
            &&& Single::of_int(0).less_eq(r.w)
            &&& crate::single::signs::toward(up, r.part(i))
            &&& crate::single::signs::ahead(up, r.part(i), t)
            &&& crate::single::laws::within(t, 0) ==> crate::single::signs::ahead(
                up,
                t / Single::of_int(2),
                r.part(i),
            )
            &&& crate::single::signs::beyond(up, t, a) ==> crate::single::signs::beyond(
                up,
                r.part(i),
                a + 11,
            )
            &&& forall|j: int|
                0 <= j < 3 && j != i ==> (#[trigger] r.part(j)).same(Single::of_int(0))
        }),
{
    let one = Single::of_int(1);
    let two = Single::of_int(2);
    let z = Single::of_int(0);
    lemma_length(q, i, t);
    crate::single::arith::lemma_small_ints();
    crate::single::arith::lemma_two();
    crate::single::laws::lemma_one_magnitude();
    crate::single::laws::lemma_within_is_finite(t, 10);
    let n = q.squared().root();
    let y = q.part(i);
    crate::single::laws::lemma_same_is_finite(y, t);
    assert(crate::single::signs::toward(up, y));
    assert(z.less(n));
    crate::single::signs::law_quotient_points(up, y, n);
    crate::single::signs::law_divisor_order(up, y, one, n);
    crate::single::signs::law_one_divides(y);
    crate::single::laws::lemma_same_is_finite(q.w, one);
    crate::single::signs::law_quotient_points(true, q.w, n);
    if crate::single::laws::within(t, 0) {
        crate::single::signs::law_divisor_order(up, y, n, two);
        lemma_same_quotient(y, t, two);
    }
    if crate::single::signs::beyond(up, t, a) {
        vstd::arithmetic::power2::lemma_pow2_pos((149 - a) as nat);
        assert(crate::single::signs::beyond(up, y, a));
        crate::single::signs::law_quotient_beyond(up, y, n, a, 11);
    }
    let r = q.unit_of();
    assert forall|j: int| 0 <= j < 3 && j != i implies (#[trigger] r.part(j)).same(z) by {
        let x = q.part(j);
        assert(x.same(z));
        crate::single::laws::lemma_same_is_finite(x, z);
        crate::single::signs::law_quotient_points(true, x, n);
        crate::single::signs::law_quotient_points(false, x, n);
    }
}

pub proof fn lemma_same_quotient(y: Single, x: Single, c: Single)
    requires
        y.same(x),
        x.finite(),
        c.finite(),
        Single::of_int(0).less(c),
    ensures
        (y / c).same(x / c),
{
    crate::single::laws::lemma_same_is_finite(y, x);
    crate::single::signs::law_quotient_order(true, y, x, c);
    crate::single::signs::law_quotient_order(true, x, y, c);
}

/// A body rate turns a level attitude that heads north about its own axis in its own
/// direction: the component along the axis points as the rate does, and is at most half of
/// the angle that the rate sweeps and at least a quarter of it while the angle is small. The
/// other components stay zero.
pub proof fn law_rate_turns_attitude(w: [Single; 3], dt: Single, i: int, up: bool, a: nat, b: nat)
    requires
        0 <= i < 3,
        crate::single::laws::within(w[i], 10),
        crate::single::laws::within(dt, 0),
        crate::single::signs::toward(true, dt),
        crate::single::signs::toward(up, w[i]),
        forall|j: int| 0 <= j < 3 && j != i ==> (#[trigger] w[j]).same(Single::of_int(0)),
        a + b <= 100,
    ensures
        ({
            let r = Quaternion::unit().turned(w, dt);
            let swept = Single::of_ratio(5, 10) * dt * w[i];
            &&& Single::of_int(0).less_eq(r.w)
            &&& crate::single::signs::toward(up, r.part(i))
            &&& crate::single::signs::ahead(up, r.part(i), swept)
            &&& crate::single::laws::within(swept, 0) ==> crate::single::signs::ahead(
                up,
                swept / Single::of_int(2),
                r.part(i),
            )
            &&& crate::single::signs::beyond(up, w[i], a) && crate::single::signs::beyond(
                true,
                dt,
                b,
            ) ==> crate::single::signs::beyond(up, r.part(i), a + b + 12)
            &&& forall|j: int|
                0 <= j < 3 && j != i ==> (#[trigger] r.part(j)).same(Single::of_int(0))
        }),
{
    let one = Single::of_int(1);
    let z = Single::of_int(0);
    let half = Single::of_ratio(5, 10);
    crate::single::arith::lemma_small_ints();
    crate::single::laws::lemma_within_is_finite(w[i], 10);
    crate::single::laws::lemma_within_is_finite(dt, 0);
    assert forall|j: int| 0 <= j < 3 implies (#[trigger] w[j]).finite() by {
        if j != i {
            crate::single::laws::lemma_same_is_finite(w[j], z);
        }
    }
    assert(w[0].finite() && w[1].finite() && w[2].finite());
    lemma_level_change(w);
    crate::single::laws::law_ratio_is_positive(5, 10);
    let h = half * dt;
    crate::single::laws::law_product_within(half, dt, 0, 0);
    crate::single::signs::law_product_points(true, half, dt);
    let t = h * w[i];
    crate::single::laws::law_product_within(h, w[i], 0, 10);
    crate::single::signs::law_product_points(up, w[i], h);
    let c0 = one * w[0] + z * w[2] - z * w[1];
    let c1 = one * w[1] - z * w[2] + z * w[0];
    let c2 = one * w[2] + z * w[1] - z * w[0];
    let cw = z * w[0] + z * w[1] + z * w[2];
    let raw = Quaternion { w: one + h * cw.negated(), x: z + h * c0, y: z + h * c1, z: z + h * c2 };
    assert(raw.unit_of() == Quaternion::unit().turned(w, dt));
    crate::single::signs::lemma_negated(cw);
    assert(cw.negated().same(z));
    crate::single::laws::law_product_with_zero(h, cw.negated());
    crate::single::laws::lemma_add_nothing(one, one, h * cw.negated());
    assert forall|j: int| 0 <= j < 3 implies (#[trigger] raw.part(j)).same(h * w[j]) by {
        let c = if j == 0 {
            c0
        } else if j == 1 {
            c1
        } else {
            c2
        };
        assert(w[j].finite());
        lemma_same_product(h, c, w[j]);
        if j != i {
            crate::single::laws::law_product_with_zero(h, w[j]);
            crate::single::laws::lemma_add_nothing(h * c, z, z);
        } else {
            crate::single::laws::lemma_add_nothing(h * c, t, z);
        }
    }
    assert forall|j: int| 0 <= j < 3 && j != i implies (#[trigger] raw.part(j)).same(z) by {
        crate::single::laws::law_product_with_zero(h, w[j]);
    }
    lemma_unit_turn(raw, i, t, up, (a + b + 1) as nat);
    if crate::single::signs::beyond(up, w[i], a) && crate::single::signs::beyond(true, dt, b) {
        crate::single::exact::law_half_worth();
        vstd::arithmetic::power2::lemma_pow2_pos(148);
        assert(1 * vstd::arithmetic::power2::pow2(148) == vstd::arithmetic::power2::pow2(148));
        crate::single::signs::law_product_beyond(true, half, dt, 1, b);
        crate::single::signs::law_product_beyond(up, w[i], h, a, (b + 1) as nat);
    }
}

} // verus!
