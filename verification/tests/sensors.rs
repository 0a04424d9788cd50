use flyctrl::sensors::bmi088::{probe_ok, ImuBmi088, ACCEL_ID, GYRO_ID};
use flyctrl::sensors::bmp280::{altitude, exponent, pressure, pressure_ratio, BaroBmp280};
use flyctrl::sensors::nmea::{
    dm_to_deg, field_char, field_f32, hex_val, nmea_checksum_ok, parse_sentence, BaudSearch,
    Doppler, GpsUblox, NmeaLine, ProbeAction, Sentence, BAUD_HIGH, BAUD_LOW, BAUD_MIDDLE,
};
use flyctrl::sensors::sim::{GpsDatum, PlaybackFrame, VirtualGps, VirtualImu};
use flyctrl::sensors::stack::{SensorStack, Source};
use flyctrl::single::Single;
use flyctrl::units::Meter;
use flyctrl::vehicle::{ImuSample, RcInput};

const GGA: &[u8] = b"$GPGGA,123519,4807.038,N,01131.000,E,1,08,0.9,545.4,M,46.9,M,,*47";
const RMC: &[u8] = b"$GPRMC,123519,A,4807.038,N,01131.000,E,022.4,084.4,230394,003.1,W*6A";

fn s(x: f32) -> Single {
    Single::from_bits(x.to_bits())
}

fn f(x: Single) -> f32 {
    f32::from_bits(x.to_bits())
}

/// A sentence with its checksum and line end.
fn sealed(body: &str) -> Vec<u8> {
    let sum = body.bytes().fold(0u8, |a, b| a ^ b);
    format!("${body}*{sum:02X}\r\n").into_bytes()
}

fn with_end(line: &[u8]) -> Vec<u8> {
    let mut v = line.to_vec();
    v.extend_from_slice(b"\r\n");
    v
}

#[test]
fn checksums_of_sentences() {
    assert!(nmea_checksum_ok(GGA));
    assert!(nmea_checksum_ok(RMC));
    let mut bad = GGA.to_vec();
    bad[10] ^= 1;
    assert!(!nmea_checksum_ok(&bad));
    assert!(!nmea_checksum_ok(b"$GPGGA,1"));
    assert!(!nmea_checksum_ok(b"$GPGGA*4"));
    assert!(!nmea_checksum_ok(b"$GPGGA*XY"));
    assert!(!nmea_checksum_ok(b""));
    assert_eq!((hex_val(b'0'), hex_val(b'f'), hex_val(b'C'), hex_val(b'g')), (0, 15, 12, -1));
}

#[test]
fn fields_of_sentences() {
    assert_eq!(f(field_f32(GGA, 2)), 4807.0 + (3.0f32 * 0.1 * 0.1 + 8.0 * (0.1f32 * 0.1 * 0.1)));
    assert_eq!(field_char(GGA, 3), b'N');
    assert_eq!(f(field_f32(GGA, 6)), 1.0);
    assert_eq!(f(field_f32(GGA, 99)), 0.0);
    assert_eq!(field_char(GGA, 99), 0);
    let fields = [0, 1, 2].map(|i| field_char(b"A,B", i));
    assert_eq!(fields, [b'A', b'B', 0]);
    assert_eq!(field_char(b"A,", 1), 0);
    assert_eq!(f(field_f32(b"$A,,7", 1)), 0.0);
    assert_eq!(f(dm_to_deg(s(4830.0))), 48.5);
    assert_eq!(f(dm_to_deg(s(-130.0))), -1.0 + (-130.0 + 100.0) / 60.0);
}

#[test]
fn sentences_with_position_and_motion() {
    match parse_sentence(GGA, s(1.0)) {
        Sentence::Position(fix) => {
            assert!((f(fix.lat) - 48.1173).abs() < 1e-4);
            assert!((f(fix.lon) - 11.516667).abs() < 1e-4);
            assert_eq!(f(fix.alt), 545.0 + 4.0 * 0.1);
            assert!(fix.doppler.is_none());
        }
        _ => unreachable!(),
    }
    match parse_sentence(RMC, s(1.5)) {
        Sentence::Motion(fix) => {
            assert_eq!(f(fix.alt), 1.5);
            let d = fix.doppler.unwrap();
            assert_eq!(f(d.speed), (22.0f32 + 4.0 * 0.1) * 0.514_444);
            assert!((f(d.course) - 84.4f32.to_radians()).abs() < 1e-6);
        }
        _ => unreachable!(),
    }
    let south = sealed("GNGGA,0,4830.0,S,01130.0,W,2,08,0.9,12.0,M,,M,,");
    match parse_sentence(&south[..south.len() - 2], s(0.0)) {
        Sentence::Position(fix) => assert_eq!((f(fix.lat), f(fix.lon)), (-48.5, -11.5)),
        _ => unreachable!(),
    }
}

#[test]
fn sentences_without_a_fix_and_others() {
    let none = sealed("GPGGA,0,,,,,0,00,,,M,,M,,");
    assert_eq!(parse_sentence(&none[..none.len() - 2], s(0.0)), Sentence::NoFix);
    let void = sealed("GPRMC,0,V,,,,,,,,,");
    assert_eq!(parse_sentence(&void[..void.len() - 2], s(0.0)), Sentence::NoFix);
    let other = sealed("GPGSV,1,1,00");
    assert_eq!(parse_sentence(&other[..other.len() - 2], s(0.0)), Sentence::Ignored);
    assert_eq!(parse_sentence(b"$GPGGA,1*00", s(0.0)), Sentence::Ignored);
}

#[test]
fn lines_are_cut_at_line_ends() {
    let mut l = NmeaLine::new();
    for &b in b"ab\r" {
        assert!(l.push(b).is_none());
    }
    assert_eq!(l.push(b'\n'), Some(2));
    assert_eq!(l.line(2), b"ab");
    assert_eq!(l.push(b'\n'), Some(0));
    for _ in 0..500 {
        assert!(l.push(b'x').is_none());
    }
    assert_eq!(l.push(b'\n'), Some(0));
}

#[test]
fn a_receiver_places_fixes_from_the_first() {
    let mut gps = GpsUblox::new();
    assert!(!gps.healthy());
    let bytes = with_end(GGA);
    assert!(gps.drain(&bytes[..30]).is_none());
    let first = gps.drain(&bytes[30..]).unwrap();
    let o = gps.place(&first).unwrap();
    assert!(gps.healthy());
    let here = o.ned(&first, s(f(o.lat_rad()).cos()), None);
    assert_eq!(here.pos.map(|m| f(m.0)), [0.0; 3]);
    let mut moved = first;
    moved.alt = s(f(first.alt) + 10.0);
    moved.lat = s(f(first.lat) + 0.001);
    let o2 = gps.place(&moved).unwrap();
    assert_eq!(o2, o);
    let there = o2.ned(&moved, s(0.5), None);
    assert!((f(there.pos[0].0) - 111.3).abs() < 0.5);
    assert!((f(there.pos[2].0) + 10.0).abs() < 1e-3);
}

#[test]
fn the_last_fix_of_a_batch_counts() {
    let mut gps = GpsUblox::new();
    let mut batch = with_end(GGA);
    batch.extend_from_slice(&with_end(RMC));
    let fix = gps.drain(&batch).unwrap();
    assert!(fix.doppler.is_some());
    assert_eq!(f(fix.alt), 545.0 + 4.0 * 0.1);
    let void = sealed("GPRMC,0,V,,,,,,,,,");
    let mut then_void = with_end(GGA);
    then_void.extend_from_slice(&void);
    let kept = gps.drain(&then_void).unwrap();
    assert!(kept.doppler.is_none());
    assert_eq!(f(kept.alt), 545.0 + 4.0 * 0.1);
    assert!(gps.drain(&void).is_none());
    assert!(gps.drain(b"").is_none());
}

#[test]
fn a_line_that_does_not_fit_is_discarded() {
    let mut l = NmeaLine::new();
    for _ in 0..161 {
        assert!(l.push(b'A').is_none());
    }
    assert!(l.push(b'B').is_none());
    assert_eq!(l.push(b'\n'), Some(0));
    for &b in b"next" {
        assert!(l.push(b).is_none());
    }
    assert_eq!(l.push(b'\n'), Some(4));
    assert_eq!(l.line(4), b"next");
    for _ in 0..160 {
        l.push(b'C');
    }
    assert_eq!(l.push(b'\n'), Some(160));
}

#[test]
fn a_fix_without_altitude_sets_no_origin() {
    let mut gps = GpsUblox::new();
    let fix = gps.drain(&with_end(RMC)).unwrap();
    assert!(gps.place(&fix).is_none());
    assert!(!gps.healthy());
}

#[test]
fn velocity_of_a_course() {
    let d = Doppler { speed: s(2.0), course: s(0.0) };
    assert_eq!(d.ned(s(0.6), s(0.8)).map(|v| f(v.0)), [1.6, 1.2, 0.0]);
}

#[test]
fn speeds_are_tried_in_turn() {
    let (mut search, first) = BaudSearch::new();
    assert_eq!(first, ProbeAction::SetBaud(BAUD_LOW));
    let mut seen = Vec::new();
    for _ in 0..90 {
        match search.advance(b"\xff\x00") {
            ProbeAction::Wait => {}
            other => seen.push(other),
        }
    }
    assert_eq!(
        seen,
        vec![
            ProbeAction::SetBaud(BAUD_MIDDLE),
            ProbeAction::SetBaud(BAUD_HIGH),
            ProbeAction::FallBack(BAUD_LOW),
        ]
    );
    let (mut search, _) = BaudSearch::new();
    let bytes = with_end(GGA);
    assert_eq!(search.advance(&bytes[..40]), ProbeAction::Wait);
    assert_eq!(search.advance(&bytes[40..]), ProbeAction::Locked);
    let (mut search, _) = BaudSearch::new();
    assert_eq!(search.advance(&with_end(RMC)), ProbeAction::Wait);
}

#[test]
fn pressure_and_altitude() {
    let raw = [0x65, 0x5A, 0xC0, 0, 0, 0];
    assert_eq!(pressure(&raw), 415148);
    assert_eq!(f(pressure_ratio(&raw)), 415148.0 / 101325.0);
    assert_eq!(f(exponent()), 0.1903);
    assert_eq!(f(altitude(s(1.0)).0), 0.0);
    assert_eq!(f(altitude(s(0.5)).0), 22165.0);
    let mut baro = BaroBmp280::new();
    assert_eq!(f(baro.read_altitude(0, s(0.5)).0), 22165.0);
    assert!(baro.healthy);
    assert_eq!(f(baro.read_altitude(-5, s(0.5)).0), 0.0);
    assert!(!baro.healthy);
    assert!(baro.read_altitude_raw(-1, s(0.5)).is_none());
    baro.read_altitude(0, s(0.5));
    assert!(!baro.healthy);
}

#[test]
fn an_inertial_unit_is_probed_and_read() {
    assert!(probe_ok(0, ACCEL_ID, GYRO_ID));
    assert!(!probe_ok(-1, ACCEL_ID, GYRO_ID));
    assert!(probe_ok(0, 0, GYRO_ID));
    assert!(!probe_ok(0, 0, 0));
    let mut imu = ImuBmi088::new(0, ACCEL_ID, GYRO_ID);
    assert!(imu.healthy);
    let a = [s(1.0), s(2.0), s(-9.81)];
    let g = [s(0.1), s(0.2), s(0.3)];
    assert_eq!(imu.read(0, a, g), ImuSample::from_axes(a, g));
    assert_eq!(imu.read(-1, a, g), ImuSample::zero());
    assert!(!imu.healthy);
    assert!(!ImuBmi088::new(0, 1, 2).healthy);
}

#[test]
fn recordings_play_back() {
    let mut imu = VirtualImu::new().unwrap();
    let frame = PlaybackFrame {
        imu_accel: [s(1.0), s(2.0), s(3.0)],
        imu_gyro: [s(4.0), s(5.0), s(6.0)],
        gps: [s(10.5), s(20.0), s(100.0)],
    };
    let turned = ImuSample::from_axes([s(1.0), s(-2.0), s(-3.0)], [s(4.0), s(-5.0), s(-6.0)]);
    assert_eq!(imu.read(&frame), turned);
    let datum = GpsDatum {
        lat: s(10.0),
        lon: s(20.5),
        meters_per_deg_lat: s(1000.0),
        meters_per_deg_lon: s(500.0),
    };
    let mut gps = VirtualGps::new().unwrap();
    let p = gps.read(&frame, &datum).unwrap();
    assert_eq!(p.pos.map(|m| f(m.0)), [500.0, -250.0, 0.0]);
    let mut higher = frame;
    higher.gps[2] = s(130.0);
    assert_eq!(f(gps.read(&higher, &datum).unwrap().pos[2].0), -30.0);
    assert!(gps.healthy() && imu.healthy());
}

#[test]
fn missing_sensors_read_as_nothing() {
    let none = SensorStack::new(None, None, None, None, None);
    assert_eq!(none.read_imu(), ImuSample::zero());
    assert_eq!(none.read_rc(), RcInput::neutral());
    assert_eq!(f(none.read_altitude()), 0.0);
    assert!(none.read_gps().is_none());
    assert_eq!(none.read_mag(), [s(0.0); 3]);
    let h = none.health();
    assert!(!h.imu && !h.baro && !h.gps && !h.rc && !h.mag);
    let some = SensorStack::new(
        None,
        Some(Source { reading: Meter(s(3.0)), healthy: true }),
        None,
        None,
        Some(Source { reading: [s(0.2), s(0.0), s(0.4)], healthy: false }),
    );
    assert_eq!(f(some.read_altitude()), 3.0);
    assert_eq!(f(some.read_mag()[2]), 0.4);
    assert!(some.health().baro && !some.health().mag);
}
