use flyctrl::fdir::Health;
use flyctrl::flightmode::{mode_from_rc_switch, FlightMode, ModeContext, ModeGovernor};

#[test]
fn cannot_enter_position_without_fix() {
    let mut g = ModeGovernor::new(FlightMode::Stabilize);
    let ctx = ModeContext::new(true, Health::Nominal, false);
    assert!(!g.request(FlightMode::Position, &ctx));
    assert_eq!(g.mode(), FlightMode::Stabilize);
    let ctx2 = ModeContext::new(true, Health::Nominal, true);
    assert!(g.request(FlightMode::Position, &ctx2));
    assert_eq!(g.mode(), FlightMode::Position);
}

#[test]
fn cannot_enter_armed_mode_when_disarmed() {
    let mut g = ModeGovernor::new(FlightMode::Manual);
    let ctx = ModeContext::new(false, Health::Nominal, true);
    assert!(!g.request(FlightMode::Mission, &ctx));
    assert!(!g.request(FlightMode::Altitude, &ctx));
    assert!(g.request(FlightMode::Manual, &ctx));
}

#[test]
fn critical_forces_land_only() {
    let mut g = ModeGovernor::new(FlightMode::Mission);
    let ctx = ModeContext::new(true, Health::Critical, true);
    assert!(!g.request(FlightMode::Position, &ctx));
    assert!(!g.request(FlightMode::Rtl, &ctx));
    assert!(g.request(FlightMode::Land, &ctx));
    let mut g2 = ModeGovernor::new(FlightMode::Mission);
    assert!(g2.degrade_on_health(&ctx));
    assert_eq!(g2.mode(), FlightMode::Land);
}

#[test]
fn degraded_blocks_mission_but_allows_rtl() {
    let mut g = ModeGovernor::new(FlightMode::Position);
    let ctx = ModeContext::new(true, Health::Degraded, true);
    assert!(!g.request(FlightMode::Mission, &ctx));
    assert!(g.request(FlightMode::Rtl, &ctx));
    let mut g2 = ModeGovernor::new(FlightMode::Mission);
    assert!(g2.degrade_on_health(&ctx));
    assert_eq!(g2.mode(), FlightMode::Rtl);
}

#[test]
fn authorization_levels_monotonic() {
    assert!(
        FlightMode::Manual.authorization_level() < FlightMode::Position.authorization_level()
    );
    assert!(
        FlightMode::Position.authorization_level() < FlightMode::Mission.authorization_level()
    );
}

#[test]
fn switch_positions_and_custom_modes() {
    let want = [
        (0, FlightMode::Stabilize, 0),
        (1, FlightMode::Altitude, 2),
        (2, FlightMode::Position, 5),
        (3, FlightMode::Rtl, 6),
        (4, FlightMode::Land, 9),
        (5, FlightMode::Mission, 3),
        (6, FlightMode::Position, 5),
        (255, FlightMode::Position, 5),
    ];
    for (m, mode, code) in want {
        assert_eq!(mode_from_rc_switch(m), mode);
        assert_eq!(mode.to_copter_mode(), code);
    }
    assert_eq!(FlightMode::Manual.to_copter_mode(), 0);
}

#[test]
fn needs_of_the_modes() {
    assert!(FlightMode::Rtl.requires_position() && !FlightMode::Land.requires_position());
    assert!(!FlightMode::Manual.requires_armed() && FlightMode::Stabilize.requires_armed());
    assert!(FlightMode::Land.is_autonomous() && !FlightMode::Position.is_autonomous());
    assert_eq!(FlightMode::Rtl.authorization_level(), 4);
    assert_eq!(FlightMode::Land.authorization_level(), 3);
}

#[test]
fn good_health_and_settled_modes_do_not_change() {
    let mut g = ModeGovernor::new(FlightMode::Mission);
    assert!(!g.degrade_on_health(&ModeContext::new(true, Health::Nominal, true)));
    assert_eq!(g.mode(), FlightMode::Mission);
    let critical = ModeContext::new(true, Health::Critical, true);
    assert!(g.degrade_on_health(&critical));
    assert!(!g.degrade_on_health(&critical));
    let mut p = ModeGovernor::new(FlightMode::Position);
    assert!(!p.degrade_on_health(&ModeContext::new(true, Health::Degraded, false)));
    assert!(p.can_enter(FlightMode::Land, &ModeContext::new(true, Health::Critical, false)));
    assert!(!p.can_enter(FlightMode::Land, &ModeContext::new(false, Health::Critical, false)));
}

const MODES: [FlightMode; 7] = [
    FlightMode::Manual,
    FlightMode::Stabilize,
    FlightMode::Altitude,
    FlightMode::Position,
    FlightMode::Mission,
    FlightMode::Rtl,
    FlightMode::Land,
];

#[test]
fn falling_back_leads_to_permitted_modes() {
    for mode in MODES {
        for armed in [false, true] {
            for fix in [false, true] {
                let good = ModeContext::new(armed, Health::Nominal, fix);
                for health in [Health::Degraded, Health::Critical] {
                    let bad = ModeContext::new(armed, health, fix);
                    let mut g = ModeGovernor::new(mode);
                    let entered = g.can_enter(mode, &good);
                    let also = g.can_enter(mode, &bad);
                    assert!(!also || entered);
                    g.degrade_on_health(&bad);
                    let landable = health != Health::Critical || armed;
                    assert!(!entered || !landable || g.can_enter(g.mode(), &bad), "{mode:?}");
                }
            }
        }
    }
}

#[test]
fn every_mode_but_manual_has_a_switch_position() {
    for mode in MODES {
        let found = (0..=255u8).any(|m| mode_from_rc_switch(m) == mode);
        assert_eq!(found, mode != FlightMode::Manual);
        assert!(mode.authorization_level() >= FlightMode::Manual.authorization_level());
        assert!(mode.authorization_level() <= FlightMode::Mission.authorization_level());
    }
}
