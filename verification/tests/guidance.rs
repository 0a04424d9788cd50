use flyctrl::guidance::{Circle, Figure8, Guidance, TrajectorySample, TrajectorySource};
use flyctrl::single::Single;
use flyctrl::units::{Meter, Radian, Second};

fn s(x: f32) -> Single {
    Single::from_bits(x.to_bits())
}

fn f(x: Single) -> f32 {
    f32::from_bits(x.to_bits())
}

fn center() -> [Meter; 3] {
    [Meter(s(0.0)), Meter(s(0.0)), Meter(s(-5.0))]
}

/// A circle with the sines of the machine.
struct Round(Circle);

impl TrajectorySource for Round {
    fn duration(&self) -> Second {
        self.0.duration()
    }
    fn at(&self, t: Second) -> TrajectorySample {
        let (sn, cs) = f(self.0.phase(t)).sin_cos();
        let flat = self.0.sample_at(s(sn), s(cs), Radian(s(0.0)));
        let yaw = f(flat.vel[1].0).atan2(f(flat.vel[0].0));
        self.0.sample_at(s(sn), s(cs), Radian(s(yaw)))
    }
}

struct Eight(Figure8);

impl TrajectorySource for Eight {
    fn duration(&self) -> Second {
        self.0.duration()
    }
    fn at(&self, t: Second) -> TrajectorySample {
        let (one, two) = self.0.phase(t);
        let (s1, c1) = f(one).sin_cos();
        let (s2, c2) = f(two).sin_cos();
        let flat = self.0.sample_at(s(s1), s(c1), s(s2), s(c2), Radian(s(0.0)));
        let yaw = f(flat.vel[1].0).atan2(f(flat.vel[0].0));
        self.0.sample_at(s(s1), s(c1), s(s2), s(c2), Radian(s(yaw)))
    }
}

#[test]
fn circle_kinematics_self_consistent() {
    let c = Round(Circle::new(center(), Meter(s(2.0)), s(1.0), s(1.0)));
    let h = 1e-4f32;
    for &t in &[0.0f32, 1.0, 3.0, 5.0] {
        let a = c.at(Second(s(t)));
        let b = c.at(Second(s(t + h)));
        for i in 0..3 {
            let v_num = (f(b.pos[i].0) - f(a.pos[i].0)) / h;
            assert!((v_num - f(a.vel[i].0)).abs() < 5e-3, "t={t} axis {i}: speed {v_num}");
        }
        for i in 0..3 {
            let a_num = (f(b.vel[i].0) - f(a.vel[i].0)) / h;
            assert!((a_num - f(a.acc[i].0)).abs() < 5e-2, "t={t} axis {i}: {a_num}");
        }
    }
}

#[test]
fn holds_end_after_duration() {
    let c = Round(Circle::new(center(), Meter(s(1.0)), s(2.0), s(1.0)));
    let d = f(c.duration().0);
    let e1 = c.at(Second(s(d)));
    let e2 = c.at(Second(s(d + 10.0)));
    assert_eq!(e1, e2);
}

#[test]
fn figure8_self_consistent() {
    let e = Eight(Figure8::new(center(), Meter(s(2.0)), s(0.6), s(1.0)));
    let h = 1e-4f32;
    for &t in &[0.0f32, 2.0, 7.0] {
        let a = e.at(Second(s(t)));
        let b = e.at(Second(s(t + h)));
        for i in 0..3 {
            let v_num = (f(b.pos[i].0) - f(a.pos[i].0)) / h;
            assert!((v_num - f(a.vel[i].0)).abs() < 5e-2, "t={t} axis {i}");
        }
    }
}

#[test]
fn guidance_advances_and_finishes() {
    let c = Round(Circle::new(center(), Meter(s(1.0)), s(1.0), s(1.0)));
    let dur = f(c.duration().0);
    let mut g = Guidance::new(c, Second(s(0.004)));
    let mut n = 0;
    while !g.done() && n < 100_000 {
        let _ = g.step();
        n += 1;
    }
    assert!(g.done());
    assert!((f(g.time().0) - dur).abs() < 0.01);
}

#[test]
fn a_finished_guidance_holds_its_end() {
    let c = Round(Circle::new(center(), Meter(s(1.0)), s(4.0), s(0.25)));
    let mut g = Guidance::new(c, Second(s(0.1)));
    for _ in 0..20 {
        g.step();
    }
    assert!(g.done());
    let t = g.time();
    let sp = g.step();
    assert_eq!(g.time(), t);
    assert_eq!(g.setpoint().pos, sp.pos);
}

#[test]
fn a_circle_at_its_start_and_quarter() {
    let c = Circle::new(center(), Meter(s(2.0)), s(0.5), s(2.0));
    assert_eq!(f(c.duration().0), 2.0 * 2.0 * std::f32::consts::PI / 0.5);
    assert_eq!(f(c.phase(Second(s(3.0)))), 1.5);
    let a = c.sample_at(s(0.0), s(1.0), Radian(s(0.5)));
    assert_eq!(f(a.pos[0].0), 2.0);
    assert_eq!(f(a.vel[1].0), 1.0);
    assert_eq!(f(a.acc[0].0), -0.5);
    assert_eq!(f(a.yaw.0), 0.5);
    let q = c.sample_at(s(1.0), s(0.0), Radian(s(0.0)));
    assert_eq!(f(q.pos[1].0), 2.0);
    assert_eq!(f(q.vel[0].0), -1.0);
    assert_eq!(f(q.pos[2].0), -5.0);
}
