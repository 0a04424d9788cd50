use flyctrl::bus::{
    Bus, EstToCtrlTopic, EstTopic, ImuToEstTopic, ImuTopic, Ring, TopicId,
};
use flyctrl::controller::trait_def::Setpoint;
use flyctrl::fdir::Health;
use flyctrl::flightmode::FlightMode;
use flyctrl::single::Single;
use flyctrl::units::{
    Meter, MeterPerSecond, MeterPerSecondSquared, Radian, RadianPerSecond,
};
use flyctrl::vehicle::{ActuatorCmd, ImuSample, NeighborState, PosSample, VehicleState};

fn s(x: f32) -> Single {
    Single::from_bits(x.to_bits())
}

fn imu(x: f32) -> ImuSample {
    ImuSample {
        accel: [
            MeterPerSecondSquared(s(x)),
            MeterPerSecondSquared(s(0.0)),
            MeterPerSecondSquared(s(0.0)),
        ],
        gyro: [RadianPerSecond(s(0.0)); 3],
    }
}

#[test]
fn ring_fifo_order() {
    let mut r: Ring<u32, 4> = Ring::new();
    assert!(r.is_empty());
    for i in 0..4 {
        assert!(r.try_push(i).is_ok());
    }
    assert!(r.is_full());
    assert_eq!(r.try_push(99), Err(99));
    for i in 0..4 {
        assert_eq!(r.try_pop(), Some(i));
    }
    assert!(r.is_empty());
    assert_eq!(r.try_pop(), None);
}

#[test]
fn ring_wrap_around() {
    let mut r: Ring<u32, 3> = Ring::new();
    for i in 0..3 {
        assert!(r.try_push(i).is_ok());
    }
    assert_eq!(r.try_pop(), Some(0));
    assert_eq!(r.try_pop(), Some(1));
    assert!(r.try_push(10).is_ok());
    assert!(r.try_push(11).is_ok());
    assert_eq!(r.try_pop(), Some(2));
    assert_eq!(r.try_pop(), Some(10));
    assert_eq!(r.try_pop(), Some(11));
    assert_eq!(r.try_pop(), None);
}

#[test]
fn ring_reports_length_and_capacity() {
    let mut r: Ring<u8, 2> = Ring::default();
    assert_eq!((r.len(), r.capacity()), (0, 2));
    assert!(r.try_push(7).is_ok());
    assert_eq!(r.len(), 1);
    let mut copy = r;
    assert_eq!(copy.try_pop(), Some(7));
    assert_eq!(r.len(), 1);
    let mut none: Ring<u8, 0> = Ring::new();
    assert!(none.is_full() && none.is_empty());
    assert_eq!(none.try_push(1), Err(1));
    assert_eq!(none.try_pop(), None);
}

#[test]
fn bus_est_fanout_no_loss() {
    let mut bus = Bus::new();
    for k in 0..3 {
        let mut st = VehicleState::zero();
        st.pos = [Meter(s(k as f32)), Meter(s(0.0)), Meter(s(-10.0))];
        assert!(bus.publish_est(st).is_ok());
    }
    let mut total = 0;
    for _ in 0..3 {
        total += bus.pump();
    }
    assert_eq!(total, 12);
    let mut c = 0;
    while let Some(st) = bus.recv_est_ctrl() {
        assert_eq!(st.pos[0].0, s(c as f32));
        c += 1;
    }
    assert_eq!(c, 3);
    let mut d = 0;
    while let Some(st) = bus.recv_est_fdir() {
        assert_eq!(st.pos[0].0, s(d as f32));
        d += 1;
    }
    assert_eq!(d, 3);
}

#[test]
fn bus_topics_independent() {
    let mut bus = Bus::new();
    assert!(bus.publish_imu(imu(1.0)).is_ok());
    assert!(bus
        .publish_setpoint(Setpoint::hover([Meter(s(0.0)); 3], Radian(s(0.0))))
        .is_ok());
    assert!(bus.publish_mode((FlightMode::Position, Health::Nominal)).is_ok());
    assert_eq!(bus.pump(), 4);
    assert!(bus.recv_imu_est().is_some());
    assert!(bus.recv_setpoint().is_some());
    assert!(bus.recv_mode().is_some());
    assert!(bus.recv_imu_est().is_none());
}

#[test]
fn bus_full_rejects_no_overwrite() {
    let mut bus = Bus::new();
    for k in 0..8 {
        assert!(bus.publish_imu(imu(k as f32)).is_ok());
    }
    let overflow = imu(999.0);
    assert_eq!(bus.publish_imu(overflow), Err(overflow));
    let mut total = 0;
    loop {
        let m = bus.pump();
        if m == 0 {
            break;
        }
        total += m;
    }
    assert_eq!(total, 16);
    let first = bus.recv_imu_est().unwrap();
    assert_eq!(first.accel[0].0, s(0.0));
}

#[test]
fn topic_registry_count() {
    assert_eq!(TopicId::all().len(), 20);
}

#[test]
fn topic_registry_typed_publish_subscribe() {
    let mut bus = Bus::new();
    assert!(bus.publish::<ImuTopic>(imu(2.0)).is_ok());
    bus.pump();
    let got: ImuSample = bus.subscribe::<ImuToEstTopic>().unwrap();
    assert_eq!(got.accel[0].0, s(2.0));

    let mut st = VehicleState::zero();
    st.pos[2] = Meter(s(-5.0));
    assert!(bus.publish::<EstTopic>(st).is_ok());
    bus.pump();
    let got_est: VehicleState = bus.subscribe::<EstToCtrlTopic>().unwrap();
    assert_eq!(got_est.pos[2].0, s(-5.0));
}

#[test]
fn every_topic_reaches_its_consumer() {
    let mut bus = Bus::new();
    let fix = PosSample::pos_only([Meter(s(1.0)), Meter(s(2.0)), Meter(s(3.0))]);
    let cmd = ActuatorCmd { motor: [s(0.25); 4] };
    let other = NeighborState {
        id: 9,
        pos: [Meter(s(1.0)); 3],
        vel: [MeterPerSecond(s(0.0)); 3],
    };
    assert!(bus.publish_gps(fix).is_ok());
    assert!(bus.publish_actuator(cmd).is_ok());
    assert!(bus.publish_health(Health::Degraded).is_ok());
    assert!(bus.publish_neighbor(other).is_ok());
    assert!(bus.publish_est(VehicleState::zero()).is_ok());
    assert!(bus.publish_imu(imu(4.0)).is_ok());
    assert_eq!(bus.pump(), 10);
    assert_eq!(bus.recv_gps(), Some(fix));
    assert_eq!(bus.recv_actuator(), Some(cmd));
    assert_eq!(bus.recv_health(), Some(Health::Degraded));
    assert_eq!(bus.recv_neighbor(), Some(other));
    assert!(bus.recv_est_mission().is_some());
    assert!(bus.recv_est_formation().is_some());
    assert!(bus.recv_imu_fdir().is_some());
    assert_eq!(bus.pump(), 0);
}

#[test]
fn a_full_consumer_misses_the_message() {
    let mut bus = Bus::new();
    for round in 0..2 {
        for k in 0..4 {
            assert!(bus.publish_health(Health::Nominal).is_ok(), "round {round} {k}");
        }
        for _ in 0..4 {
            bus.pump();
        }
    }
    let mut n = 0;
    while bus.recv_health().is_some() {
        n += 1;
    }
    assert_eq!(n, 4);
}

#[test]
fn topics_are_listed_once() {
    let all = TopicId::all();
    for (i, a) in all.iter().enumerate() {
        assert!(all[i + 1..].iter().all(|b| a != b));
    }
}
