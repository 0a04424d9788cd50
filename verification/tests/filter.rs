use flyctrl::filter::{angular_frequency, Biquad};
use flyctrl::single::Single;
use std::f32::consts::PI;

const FS: f32 = 250.0;

fn s(x: f32) -> Single {
    Single::from_bits(x.to_bits())
}

fn f(x: Single) -> f32 {
    f32::from_bits(x.to_bits())
}

fn notch(f0: f32, q: f32) -> Biquad {
    let (sw, cw) = f(angular_frequency(s(f0), s(FS))).sin_cos();
    Biquad::notch(s(sw), s(cw), s(q))
}

fn low_pass(fc: f32, q: f32) -> Biquad {
    let (sw, cw) = f(angular_frequency(s(fc), s(FS))).sin_cos();
    Biquad::low_pass(s(sw), s(cw), s(q))
}

fn amp_after(bf: &mut Biquad, freq: f32, settle: usize, measure: usize) -> f32 {
    let mut out = [0.0f32; 3];
    for n in 0..(settle + measure) {
        let x = (2.0 * PI * freq * n as f32 / FS).sin();
        let y = f(bf.process(s(x)));
        if n >= settle {
            out[0] = out[0].min(y);
            out[1] = out[1].max(y);
            out[2] += y;
        }
    }
    let mean = out[2] / measure as f32;
    let peak = out[1] - mean;
    let valley = mean - out[0];
    peak.max(valley)
}

#[test]
fn notch_rejects_center_freq_keeps_dc() {
    let mut nf = notch(40.0, 5.0);
    let amp_40 = amp_after(&mut nf, 40.0, 200, 200);
    assert!(amp_40 < 0.1, "{amp_40:.4}");

    let mut nf = notch(40.0, 5.0);
    let dc = amp_after(&mut nf, 0.5, 1500, 2000);
    assert!(dc > 0.9, "{dc:.4}");
}

#[test]
fn lowpass_passes_dc_attenuates_high_freq() {
    let mut lp = low_pass(30.0, 0.7071);
    let dc = amp_after(&mut lp, 0.5, 1500, 2000);
    assert!(dc > 0.9, "{dc:.4}");

    let mut lp = low_pass(30.0, 0.7071);
    let hi = amp_after(&mut lp, 100.0, 200, 200);
    assert!(hi < 0.35, "{hi:.4}");
}

#[test]
fn constant_input_stays_constant() {
    let mut nf = notch(40.0, 5.0);
    let mut lp = low_pass(30.0, 0.7071);
    for _ in 0..200 {
        let _ = lp.process(nf.process(s(-9.81)));
    }
    let mut max_dev = 0.0f32;
    for _ in 0..500 {
        let y = f(lp.process(nf.process(s(-9.81))));
        max_dev = max_dev.max((y - (-9.81)).abs());
    }
    assert!(max_dev < 1e-3, "{max_dev:.6}");
}

#[test]
fn noise_input_stays_bounded() {
    let mut nf = notch(40.0, 5.0);
    let mut lp = low_pass(30.0, 0.7071);
    let mut max_abs = 0.0f32;
    for n in 0..2000 {
        let x = ((n as f32) * 12.9898).sin() * 43758.5453;
        let x = x - x.floor() - 0.5;
        let y = f(lp.process(nf.process(s(x * 2.0))));
        max_abs = max_abs.max(y.abs());
        assert!(y.is_finite(), "NaN at n={n}");
    }
    assert!(max_abs <= 2.0, "{max_abs:.3}");
}

#[test]
fn a_passthrough_changes_nothing() {
    let mut bf = Biquad::passthrough();
    for x in [1.0f32, -3.25, 0.0, 1e20] {
        assert_eq!(f(bf.process(s(x))), x);
    }
    assert_eq!(f(angular_frequency(s(40.0), s(250.0))), 2.0 * PI * 40.0 / 250.0);
}

#[test]
fn what_a_filter_remembers_does_not_grow() {
    for f0 in [0.1f32, 5.0, 40.0, 62.5, 100.0, 124.9] {
        for q in [0.01f32, 0.5, 0.7071, 5.0, 1e6] {
            assert!(f(notch(f0, q).a2).abs() <= 1.0 && f(low_pass(f0, q).a2).abs() <= 1.0);
        }
    }
}

#[test]
fn what_a_filter_feeds_back_is_bounded() {
    for f0 in [0.1f32, 5.0, 40.0, 62.5, 100.0, 124.9] {
        for q in [0.5f32, 0.7071, 5.0, 30.0] {
            for b in [notch(f0, q), low_pass(f0, q)] {
                assert!(f(b.a1).abs() < 2.0 && f(b.a2).abs() < 1.0);
            }
        }
    }
}
