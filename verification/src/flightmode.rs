//! Flight modes, and who may enter which.
//!
//! A mode says who produces the setpoint. Switching is guarded at run time by the
//! arming state, by whether a position estimate is at hand, and by the health that
//! fault detection reports: a degraded vehicle flies no mission, and one in
//! critical health may only land.

use crate::fdir::Health;
use vstd::prelude::*;

verus! {

#[derive(Clone, Copy, Debug, PartialEq, Eq, Structural)]
pub enum FlightMode {
    /// The sticks command rates directly; no estimate is needed.
    Manual,
    /// The attitude is held.
    Stabilize,
    /// The altitude is held, the horizontal axes are flown by hand.
    Altitude,
    /// The horizontal position is held too.
    Position,
    /// Waypoints are flown automatically.
    Mission,
    /// Return to the place of takeoff.
    Rtl,
    /// Descend to the ground.
    Land,
}

/// The mode that a position of the transmitter's mode switch selects.
pub open spec fn switch_mode(m: u8) -> FlightMode {
    if m == 0 {
        FlightMode::Stabilize
    } else if m == 1 {
        FlightMode::Altitude
    } else if m == 3 {
        FlightMode::Rtl
    } else if m == 4 {
        FlightMode::Land
    } else if m == 5 {
        FlightMode::Mission
    } else {
        FlightMode::Position
    }
}

/// The mode that a position of the transmitter's mode switch selects. An unknown
/// position holds the vehicle in place rather than leave it without any hold.
pub fn mode_from_rc_switch(m: u8) -> (r: FlightMode)
    ensures
        r == switch_mode(m),
{
    match m {
        0 => FlightMode::Stabilize,
        1 => FlightMode::Altitude,
        2 => FlightMode::Position,
        3 => FlightMode::Rtl,
        4 => FlightMode::Land,
        5 => FlightMode::Mission,
        _ => FlightMode::Position,
    }
}

impl FlightMode {
    pub open spec fn copter_mode(self) -> u16 {
        match self {
            FlightMode::Manual | FlightMode::Stabilize => 0,
            FlightMode::Altitude => 2,
            FlightMode::Position => 5,
            FlightMode::Rtl => 6,
            FlightMode::Land => 9,
            FlightMode::Mission => 3,
        }
    }

    /// The custom mode number that ground stations know this mode by. Manual has
    /// none of its own and reports as stabilize.
    pub fn to_copter_mode(self) -> (r: u16)
        ensures
            r == self.copter_mode(),
    {
        match self {
            FlightMode::Manual | FlightMode::Stabilize => 0,
            FlightMode::Altitude => 2,
            FlightMode::Position => 5,
            FlightMode::Rtl => 6,
            FlightMode::Land => 9,
            FlightMode::Mission => 3,
        }
    }

    pub open spec fn autonomy(self) -> u8 {
        match self {
            FlightMode::Manual => 0,
            FlightMode::Stabilize => 1,
            FlightMode::Altitude => 2,
            FlightMode::Position => 3,
            FlightMode::Mission => 5,
            FlightMode::Rtl => 4,
            FlightMode::Land => 3,
        }
    }

    /// How much the mode is trusted to do on its own.
    pub fn authorization_level(&self) -> (r: u8)
        ensures
            r == self.autonomy(),
    {
        match self {
            FlightMode::Manual => 0,
            FlightMode::Stabilize => 1,
            FlightMode::Altitude => 2,
            FlightMode::Position => 3,
            FlightMode::Mission => 5,
            FlightMode::Rtl => 4,
            FlightMode::Land => 3,
        }
    }

    pub open spec fn needs_position(self) -> bool {
        self is Position || self is Mission || self is Rtl
    }

    /// Whether the mode needs a full position estimate.
    pub fn requires_position(&self) -> (r: bool)
        ensures
            r == self.needs_position(),
    {
        matches!(self, FlightMode::Position | FlightMode::Mission | FlightMode::Rtl)
    }

    pub open spec fn needs_armed(self) -> bool {
        !(self is Manual)
    }

    /// Whether the mode needs armed motors.
    pub fn requires_armed(&self) -> (r: bool)
        ensures
            r == self.needs_armed(),
    {
        !matches!(self, FlightMode::Manual)
    }

    pub open spec fn autonomous(self) -> bool {
        self is Mission || self is Rtl || self is Land
    }

    /// Whether the mode flies without the pilot's hand.
    pub fn is_autonomous(&self) -> (r: bool)
        ensures
            r == self.autonomous(),
    {
        matches!(self, FlightMode::Mission | FlightMode::Rtl | FlightMode::Land)
    }
}

/// What a mode switch is judged by.
#[derive(Clone, Copy, Debug, PartialEq)]
pub struct ModeContext {
    pub armed: bool,
    pub health: Health,
    pub position_available: bool,
}

impl ModeContext {
    pub fn new(armed: bool, health: Health, position_available: bool) -> (r: ModeContext)
        ensures
            r == (ModeContext { armed, health, position_available }),
    {
        ModeContext { armed, health, position_available }
    }
}

/// Whether `target` may be entered. The motors must be armed and the position known
/// where the mode needs it. In critical health only landing is allowed, and a degraded
/// vehicle starts no mission.
pub open spec fn may_enter(target: FlightMode, ctx: ModeContext) -> bool {
    &&& target.needs_armed() ==> ctx.armed
    &&& target.needs_position() ==> ctx.position_available
    &&& ctx.health is Critical ==> target is Land
    &&& !(ctx.health is Degraded && target is Mission)
}

/// The mode that the given health allows to stay in.
pub open spec fn degraded_mode(mode: FlightMode, health: Health) -> FlightMode {
    match health {
        Health::Critical => FlightMode::Land,
        Health::Degraded => if mode is Mission {
            FlightMode::Rtl
        } else {
            mode
        },
        Health::Nominal => mode,
    }
}

/// Holds the current mode and guards every change of it.
#[derive(Clone, Copy, Debug)]
pub struct ModeGovernor {
    mode: FlightMode,
}

impl View for ModeGovernor {
    type V = FlightMode;

    closed spec fn view(&self) -> FlightMode {
        self.mode
    }
}

impl ModeGovernor {
    pub fn new(initial: FlightMode) -> (r: ModeGovernor)
        ensures
            r@ == initial,
    {
        ModeGovernor { mode: initial }
    }

    /// The current mode.
    pub fn mode(&self) -> (r: FlightMode)
        ensures
            r == self@,
    {
        self.mode
    }

    /// Whether `target` may be entered in the given context.
    pub fn can_enter(&self, target: FlightMode, ctx: &ModeContext) -> (r: bool)
        ensures
            r == may_enter(target, *ctx),
    {
        if target.requires_armed() && !ctx.armed {
            return false;
        }
        if target.requires_position() && !ctx.position_available {
            return false;
        }
        if ctx.health == Health::Critical {
            return target == FlightMode::Land;
        }
        if ctx.health == Health::Degraded && target == FlightMode::Mission {
            return false;
        }
        true
    }

    /// Switches to `target` where that is allowed; otherwise the mode stays.
    pub fn request(&mut self, target: FlightMode, ctx: &ModeContext) -> (r: bool)
        ensures
            r == may_enter(target, *ctx),
            r ==> final(self)@ == target,
            !r ==> *final(self) == *old(self),
    {
        if self.can_enter(target, ctx) {
            self.mode = target;
            true
        } else {
            false
        }
    }

    /// Falls back to a safer mode where the health demands it, and says whether
    /// the mode changed.
    pub fn degrade_on_health(&mut self, ctx: &ModeContext) -> (r: bool)
        ensures
            final(self)@ == degraded_mode(old(self)@, ctx.health),
            r == (final(self)@ != old(self)@),
    {
        match ctx.health {
            Health::Critical => {
                if self.mode != FlightMode::Land {
                    self.mode = FlightMode::Land;
                    true
                } else {
                    false
                }
            },
            Health::Degraded => {
                if self.mode == FlightMode::Mission {
                    self.mode = FlightMode::Rtl;
                    true
                } else {
                    false
                }
            },
            Health::Nominal => false,
        }
    }
}

/// In critical health landing, and nothing else, may be entered, and only armed.
pub proof fn law_critical_only_lands(target: FlightMode, ctx: ModeContext)
    requires
        ctx.health is Critical,
    ensures
        may_enter(target, ctx) <==> target is Land && ctx.armed,
{
}

/// A degraded vehicle enters no mode that a healthy one could not.
pub proof fn law_degraded_health_restricts(
    target: FlightMode,
    armed: bool,
    position_available: bool,
)
    ensures
        may_enter(
            target,
            ModeContext { armed, health: Health::Degraded, position_available },
        ) ==> may_enter(target, ModeContext { armed, health: Health::Nominal, position_available }),
{
}

/// Falling back settles at once: a second look at the same health changes nothing.
pub proof fn law_degrade_settles(mode: FlightMode, health: Health)
    ensures
        degraded_mode(degraded_mode(mode, health), health) == degraded_mode(mode, health),
{
}

/// A mode that could be entered in good health is replaced, when the health gets
/// worse, by one that can be entered in that health, as long as an armed vehicle is
/// what becomes critical.
pub proof fn law_degrade_stays_permitted(
    mode: FlightMode,
    health: Health,
    armed: bool,
    position_available: bool,
)
    requires
        may_enter(mode, ModeContext { armed, health: Health::Nominal, position_available }),
        health is Critical ==> armed,
    ensures
        may_enter(
            degraded_mode(mode, health),
            ModeContext { armed, health, position_available },
        ),
{
}

/// Falling back from a mission never raises the authorization.
pub proof fn law_degrade_lowers_mission(health: Health)
    ensures
        degraded_mode(FlightMode::Mission, health).autonomy() <= FlightMode::Mission.autonomy(),
        !(health is Nominal) ==> degraded_mode(FlightMode::Mission, health).autonomy()
            < FlightMode::Mission.autonomy(),
{
}

/// Manual has the lowest authorization and a mission the highest.
pub proof fn law_authorization_order(mode: FlightMode)
    ensures
        FlightMode::Manual.autonomy() <= mode.autonomy() <= FlightMode::Mission.autonomy(),
        mode.autonomy() == FlightMode::Manual.autonomy() ==> mode is Manual,
        mode.autonomy() == FlightMode::Mission.autonomy() ==> mode is Mission,
{
}

/// Distinct known switch positions select modes with distinct custom mode numbers,
/// so a number reported to the ground gives the switch position back.
pub proof fn law_switch_positions_distinct(a: u8, b: u8)
    requires
        a <= 5,
        b <= 5,
    ensures
        switch_mode(a).copter_mode() == switch_mode(b).copter_mode() <==> a == b,
{
}

/// Every mode but manual is selected by some switch position, and no position
/// leaves the vehicle in manual.
pub proof fn law_switch_reaches_every_held_mode(mode: FlightMode)
    ensures
        mode is Manual <==> forall|m: u8| #[trigger] switch_mode(m) != mode,
{
    assert(switch_mode(0) is Stabilize);
    assert(switch_mode(1) is Altitude);
    assert(switch_mode(2) is Position);
    assert(switch_mode(3) is Rtl);
    assert(switch_mode(4) is Land);
    assert(switch_mode(5) is Mission);
}

} // verus!
