use flyctrl::fdir::{Fdir, Health, HealthFlags, RtlHome};
use flyctrl::single::Single;
use flyctrl::units::{MeterPerSecondSquared, RadianPerSecond};
use flyctrl::vehicle::{ImuSample, Ned};

fn s(x: f32) -> Single {
    Single::from_bits(x.to_bits())
}

fn f(x: Single) -> f32 {
    f32::from_bits(x.to_bits())
}

fn sample(accel: [f32; 3]) -> ImuSample {
    ImuSample {
        accel: [
            MeterPerSecondSquared(s(accel[0])),
            MeterPerSecondSquared(s(accel[1])),
            MeterPerSecondSquared(s(accel[2])),
        ],
        gyro: [RadianPerSecond(s(0.0)); 3],
    }
}

#[test]
fn nominal_when_all_sources_ok() {
    let mut fd = Fdir::new();
    let h = fd.update(&sample([0.0, 0.0, 9.8]), true, true, true);
    assert_eq!(h, Health::Nominal);
    assert_eq!(fd.flags(), HealthFlags::all_ok());
}

#[test]
fn degraded_on_gps_loss_not_critical() {
    let mut fd = Fdir::new();
    fd.update(&sample([0.0, 0.0, 9.8]), true, true, true);
    let mut h = Health::Nominal;
    for i in 0..fd.timeouts().0 + 1 {
        let jitter = (i as f32) * 1e-3;
        h = fd.update(&sample([0.1 + jitter, 0.0, 9.8]), false, true, true);
    }
    assert_eq!(h, Health::Degraded);
    assert!(fd.flags().gps_lost);
    assert!(!fd.critical());
}

#[test]
fn critical_on_imu_freeze() {
    let mut fd = Fdir::new();
    fd.update(&sample([0.0, 0.0, 9.8]), true, true, true);
    let mut h = Health::Nominal;
    for _ in 0..fd.timeouts().3 + 1 {
        h = fd.update(&sample([0.0, 0.0, 0.0]), true, true, true);
    }
    assert_eq!(h, Health::Critical);
    assert!(fd.flags().imu_frozen);
    assert!(fd.critical());
}

#[test]
fn baro_loss_marks_degraded() {
    let mut fd = Fdir::new();
    fd.update(&sample([0.0, 0.0, 9.8]), true, true, true);
    let mut h = Health::Nominal;
    for i in 0..fd.timeouts().1 + 1 {
        let jitter = (i as f32) * 1e-3;
        h = fd.update(&sample([0.1 + jitter, 0.0, 9.8]), true, false, true);
    }
    assert_eq!(h, Health::Degraded);
    assert!(fd.flags().baro_lost);
}

#[test]
fn rtl_home_locks_once() {
    let mut home = RtlHome::new();
    assert!(!home.locked);
    assert!(home.try_lock(Ned::origin()));
    assert!(home.locked);
    assert!(!home.try_lock(Ned::new(s(50.0), s(0.0), s(-10.0))));
    assert_eq!(home.pos, Ned::origin());
    let d = home.horizontal_distance(Ned::new(s(3.0), s(4.0), s(-1.0)));
    assert!((f(d) - 5.0).abs() < 1e-3);
}

#[test]
fn rtl_home_unlocked_distance_is_sentinel() {
    let home = RtlHome::new();
    assert_eq!(home.horizontal_distance(Ned::new(s(3.0), s(4.0), s(0.0))), s(1e9));
}

#[test]
fn lost_exactly_at_the_timeout() {
    let mut fd = Fdir::default();
    for i in 1..=80u32 {
        fd.update(&sample([0.0, 0.0, 9.8]), false, false, false);
        assert_eq!(fd.flags().gps_lost, i >= 40, "step {i}");
        assert_eq!(fd.flags().baro_lost, i >= 80, "step {i}");
        assert_eq!(fd.flags().mag_lost, i >= 80, "step {i}");
        assert_eq!(fd.degraded(), i >= 40, "step {i}");
        assert_eq!(fd.health() == Health::Degraded, i >= 40, "step {i}");
    }
}

#[test]
fn recovers_in_one_step() {
    let mut fd = Fdir::new();
    for _ in 0..100 {
        fd.update(&sample([0.0, 0.0, 0.0]), false, false, false);
    }
    assert_eq!(fd.health(), Health::Critical);
    assert_eq!(fd.update(&sample([0.0, 0.0, 9.8]), true, true, true), Health::Nominal);
    assert_eq!(fd.flags(), HealthFlags::all_ok());
}

#[test]
fn a_steady_hover_never_freezes() {
    let mut fd = Fdir::new();
    for _ in 0..500 {
        assert_eq!(fd.update(&sample([0.0, 0.0, -9.81]), true, true, true), Health::Nominal);
    }
    let mut over = Fdir::new();
    for _ in 0..25 {
        over.update(&sample([0.0, 0.0, 15.0]), true, true, true);
    }
    assert_eq!(over.health(), Health::Critical);
}

#[test]
fn what_can_still_be_estimated() {
    let mut fl = HealthFlags::all_ok();
    assert!(fl.has_altitude() && fl.has_heading() && fl.has_position());
    fl.baro_lost = true;
    fl.gps_lost = true;
    assert!(fl.has_altitude() && fl.has_heading() && !fl.has_position());
    fl.imu_frozen = true;
    assert!(!fl.has_altitude() && fl.has_heading());
    fl.mag_lost = true;
    assert!(!fl.has_heading() && !fl.has_position());
}
