//! The arithmetic of `Single` against that of the machine.

use flyctrl::single::Single;

fn s(x: f32) -> Single {
    Single::from_bits(x.to_bits())
}

fn same(got: Single, want: f32) -> bool {
    if want.is_nan() {
        got.is_nan()
    } else {
        got.to_bits() == want.to_bits()
    }
}

/// Bit patterns with all kinds of exponents, and the special ones.
fn patterns() -> Vec<u32> {
    let mut v: Vec<u32> = vec![
        0,
        1,
        2,
        3,
        0x007F_FFFF,
        0x0080_0000,
        0x0080_0001,
        0x00FF_FFFF,
        0x3F80_0000,
        0x3F80_0001,
        0x3F7F_FFFF,
        0x4B00_0000,
        0x4B7F_FFFF,
        0x7F7F_FFFF,
        0x7F80_0000,
        0x7FC0_0000,
        0x7F80_0001,
    ];
    let n = v.len();
    for i in 0..n {
        v.push(v[i] | 0x8000_0000);
    }
    let mut x: u64 = 0x9E37_79B9_7F4A_7C15;
    for _ in 0..700 {
        x = x.wrapping_mul(6364136223846793005).wrapping_add(1442695040888963407);
        v.push((x >> 32) as u32);
    }
    for _ in 0..300 {
        x = x.wrapping_mul(6364136223846793005).wrapping_add(1442695040888963407);
        let e = 110 + ((x >> 58) as u32 % 40);
        v.push(((x >> 20) as u32 & 0x807F_FFFF) | (e << 23));
    }
    v
}

#[test]
fn sums_match_the_machine() {
    let v = patterns();
    for &a in &v {
        for &b in &v {
            let (x, y) = (f32::from_bits(a), f32::from_bits(b));
            assert!(same(s(x) + s(y), x + y), "{a:08x} + {b:08x}");
            assert!(same(s(x) - s(y), x - y), "{a:08x} - {b:08x}");
        }
    }
}

#[test]
fn products_match_the_machine() {
    let v = patterns();
    for &a in &v {
        for &b in &v {
            let (x, y) = (f32::from_bits(a), f32::from_bits(b));
            assert!(same(s(x) * s(y), x * y), "{a:08x} * {b:08x}");
        }
    }
}

#[test]
fn quotients_match_the_machine() {
    let v = patterns();
    for &a in &v {
        for &b in &v {
            let (x, y) = (f32::from_bits(a), f32::from_bits(b));
            assert!(same(s(x) / s(y), x / y), "{a:08x} / {b:08x}");
        }
    }
}

#[test]
fn roots_match_the_machine() {
    for &a in &patterns() {
        let x = f32::from_bits(a);
        assert!(same(s(x).sqrt(), x.sqrt()), "sqrt {a:08x}");
    }
    for n in 0..70000u32 {
        let x = n as f32;
        assert!(same(s(x).sqrt(), x.sqrt()), "sqrt {n}");
    }
}

#[test]
fn order_matches_the_machine() {
    let v = patterns();
    for &a in &v {
        for &b in &v {
            let (x, y) = (f32::from_bits(a), f32::from_bits(b));
            assert_eq!(s(x) < s(y), x < y);
            assert_eq!(s(x) <= s(y), x <= y);
            assert_eq!(s(x) > s(y), x > y);
            assert_eq!(s(x) == s(y), x == y);
            if x != y {
                assert!(same(s(x).max(s(y)), x.max(y)));
                assert!(same(s(x).min(s(y)), x.min(y)));
            }
        }
    }
}

#[test]
fn classes_signs_and_clamps_match_the_machine() {
    for &a in &patterns() {
        let x = f32::from_bits(a);
        assert_eq!(s(x).is_nan(), x.is_nan());
        assert_eq!(s(x).is_finite(), x.is_finite());
        assert_eq!(s(x).is_infinite(), x.is_infinite());
        assert!(same(s(x).abs(), x.abs()));
        assert!(same(s(x).negate(), -x));
        assert!(same(s(x).clamp(s(-1.5), s(2.0)), x.clamp(-1.5, 2.0)));
    }
}

#[test]
fn conversions_to_integers_match_the_machine() {
    let mut v = patterns();
    for x in [0.5f32, -0.5, 1.5, -1.5, 254.9, 255.0, 256.0, 32767.5, -32768.5, 2147483648.0,
        4294967040.0, 4294967296.0, 1e20, -1e20, 65535.9]
    {
        v.push(x.to_bits());
    }
    for &a in &v {
        let x = f32::from_bits(a);
        assert_eq!(s(x).to_i32(), x as i32, "{a:08x}");
        assert_eq!(s(x).to_i16(), x as i16, "{a:08x}");
        assert_eq!(s(x).to_u32(), x as u32, "{a:08x}");
        assert_eq!(s(x).to_usize(), x as usize, "{a:08x}");
        assert_eq!(s(x).to_u16(), x as u16, "{a:08x}");
        assert_eq!(s(x).to_u8(), x as u8, "{a:08x}");
    }
}

#[test]
fn conversions_from_integers_match_the_machine() {
    let mut x: u64 = 12345;
    for _ in 0..20000 {
        x = x.wrapping_mul(6364136223846793005).wrapping_add(1442695040888963407);
        let shift = (x >> 57) as u32 % 64;
        let n = x >> shift;
        assert!(same(Single::from_u64(n), n as f32), "{n}");
        let i = (x >> 32) as u32 as i32 >> (shift % 32);
        assert!(same(Single::from_i32(i), i as f32), "{i}");
    }
    for n in [0u64, 1, 16777215, 16777216, 16777217, 16777219, u64::MAX, 1 << 62, (1 << 62) + 1] {
        assert!(same(Single::from_u64(n), n as f32), "{n}");
    }
    for i in [0i32, 1, -1, i32::MAX, i32::MIN, -16777217] {
        assert!(same(Single::from_i32(i), i as f32), "{i}");
    }
}

#[test]
fn ratios_are_the_decimal_literals() {
    assert_eq!(Single::ratio(1, 10).to_bits(), 0.1f32.to_bits());
    assert_eq!(Single::ratio(981, 100).to_bits(), 9.81f32.to_bits());
    assert_eq!(Single::ratio(514444, 1000000).to_bits(), 0.514_444f32.to_bits());
    assert_eq!(Single::ratio(-3, 10).to_bits(), (-0.3f32).to_bits());
    assert_eq!(Single::ratio(1, 1_000_000).to_bits(), 1e-6f32.to_bits());
    assert_eq!(Single::ratio(1, 1_000_000_000).to_bits(), 1e-9f32.to_bits());
    assert_eq!(Single::ratio(4363, 10000).to_bits(), 0.4363f32.to_bits());
    assert_eq!(Single::ratio(0, 7).to_bits(), 0.0f32.to_bits());
    assert_eq!(Single::ratio(15, 100000).to_bits(), 1.5e-4f32.to_bits());
}

#[test]
fn sums_and_products_keep_the_order() {
    let v: Vec<Single> = patterns().into_iter().step_by(9).map(Single::from_bits).collect();
    let zero = s(0.0);
    for &a in &v {
        for &b in &v {
            assert!(a.is_nan() || b.is_nan() || (a + b).to_bits() == (b + a).to_bits());
            assert!((a * b).to_bits() == (b * a).to_bits() || (a * b).is_nan());
            if !(a <= b) || !a.is_finite() || !b.is_finite() {
                continue;
            }
            for &c in &v {
                if !c.is_finite() {
                    continue;
                }
                assert!(a + c <= b + c);
                if zero < c {
                    assert!(a * c <= b * c);
                    assert!(a / c <= b / c);
                }
            }
            assert!(a.to_i32() <= b.to_i32());
        }
    }
}

#[test]
fn zero_and_one_are_neutral() {
    for &a in &patterns() {
        let x = Single::from_bits(a);
        if x.is_nan() {
            continue;
        }
        assert!(x + s(0.0) == x);
        assert_eq!((x * s(1.0)).to_bits(), a);
        if x.is_finite() {
            assert!(x * s(0.0) == s(0.0) && x - s(-0.0) == x);
        }
    }
    for n in [0u64, 1, 2, 3, 100, 65535, 16777215] {
        assert_eq!(Single::from_u64(n).to_u32() as u64, n);
    }
}
