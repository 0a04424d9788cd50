//! The message bus.
//!
//! Producers publish on a topic, consumers receive from theirs, and neither holds a
//! reference to the other. Every topic is a queue of fixed capacity that refuses
//! what does not fit rather than overwrite what it holds. `Bus::pump` moves
//! messages from the producers' queues to those of the consumers and copies where
//! a topic has several.

use crate::controller::trait_def::Setpoint;
use crate::fdir::Health;
use crate::flightmode::FlightMode;
use crate::ring::Cursor;
use crate::vehicle::{ActuatorCmd, ImuSample, NeighborState, PosSample, VehicleState};
use vstd::prelude::*;

verus! {

/// A queue of at most `CAP` messages.
#[derive(Debug)]
pub struct Ring<M, const CAP: usize> {
    buf: [Option<M>; CAP],
    at: Cursor,
}

impl<M: Copy, const CAP: usize> Copy for Ring<M, CAP> {

}

impl<M: Copy, const CAP: usize> Clone for Ring<M, CAP> {
    fn clone(&self) -> (r: Ring<M, CAP>)
        ensures
            r == *self,
    {
        *self
    }
}

impl<M, const CAP: usize> View for Ring<M, CAP> {
    type V = Seq<M>;

    closed spec fn view(&self) -> Seq<M> {
        Seq::new(self.at.count as nat, |i: int| self.slots()[i]->0)
    }
}

impl<M, const CAP: usize> Ring<M, CAP> {
    spec fn slots(&self) -> Seq<Option<M>> {
        crate::ring::contents(self.buf@, self.at.tail as int, self.at.count as nat)
    }

    #[verifier::type_invariant]
    spec fn inv(&self) -> bool {
        &&& self.at.wf(CAP as int)
        &&& forall|i: int| 0 <= i < self.at.count ==> (#[trigger] self.slots()[i]) is Some
    }
}

impl<M: Copy, const CAP: usize> Ring<M, CAP> {
    /// The queue without messages.
    pub fn new() -> (r: Ring<M, CAP>)
        ensures
            r@ == Seq::<M>::empty(),
    {
        let r = Ring { buf: [None; CAP], at: Cursor::start() };
        assert(r@ =~= Seq::<M>::empty());
        r
    }

    /// How many messages wait.
    pub fn len(&self) -> (r: usize)
        ensures
            r == self@.len(),
            r <= CAP,
    {
        proof {
            use_type_invariant(self);
        }
        self.at.count
    }

    pub fn is_full(&self) -> (r: bool)
        ensures
            r == (self@.len() == CAP),
    {
        self.at.count == CAP
    }

    pub fn is_empty(&self) -> (r: bool)
        ensures
            r == (self@.len() == 0),
    {
        self.at.count == 0
    }

    pub fn capacity(&self) -> (r: usize)
        ensures
            r == CAP,
    {
        CAP
    }

    /// Appends a message, or hands it back where the queue is full.
    pub fn try_push(&mut self, m: M) -> (r: Result<(), M>)
        ensures
            old(self)@.len() < CAP ==> r is Ok && final(self)@ == old(self)@.push(m),
            old(self)@.len() >= CAP ==> r == Err::<(), M>(m) && *final(self) == *old(self),
    {
        proof {
            use_type_invariant(&*self);
        }
        if self.at.count == CAP {
            return Err(m);
        }
        let ghost before = self.slots();
        proof {
            crate::ring::lemma_append(
                self.buf@,
                self.at.tail as int,
                self.at.count as nat,
                Some(m),
            );
        }
        assert(crate::ring::contents(
            self.buf@.update(self.at.head as int, Some(m)),
            self.at.tail as int,
            self.at.count as nat,
        ) =~= before);
        self.buf[self.at.head] = Some(m);
        assert(crate::ring::contents(
            self.buf@,
            self.at.tail as int,
            (self.at.count + 1) as nat,
        ) == before.push(Some(m)));
        self.at = self.at.pushed(CAP);
        assert(self.slots() == before.push(Some(m)));
        assert(self@ =~= old(self)@.push(m));
        Ok(())
    }

    /// Takes the oldest message.
    pub fn try_pop(&mut self) -> (r: Option<M>)
        ensures
            old(self)@.len() == 0 ==> r is None && *final(self) == *old(self),
            old(self)@.len() > 0 ==> r == Some(old(self)@[0]) && final(self)@
                == old(self)@.drop_first(),
    {
        proof {
            use_type_invariant(&*self);
        }
        if self.at.count == 0 {
            return None;
        }
        let ghost before = self.slots();
        proof {
            crate::ring::lemma_remove(self.buf@, self.at.tail as int, self.at.count as nat);
            assert(before[0] is Some);
        }
        let tail: usize = self.at.tail;
        let m: Option<M> = self.buf[tail];
        self.at = self.at.popped(CAP);
        assert(self.slots() == before.drop_first());
        assert(crate::ring::contents(
            self.buf@.update(tail as int, None),
            self.at.tail as int,
            self.at.count as nat,
        ) =~= before.drop_first());
        self.buf[tail] = None;
        assert(self.slots() =~= before.drop_first());
        assert(self@ =~= old(self)@.drop_first());
        m
    }
}

impl<M: Copy, const CAP: usize> Default for Ring<M, CAP> {
    fn default() -> (r: Ring<M, CAP>)
        ensures
            r@ == Seq::<M>::empty(),
    {
        Ring::new()
    }
}

/// The queues of the bus, producers first.
#[verifier::ext_equal]
pub struct BusState {
    pub imu_in: Seq<ImuSample>,
    pub gps_in: Seq<PosSample>,
    pub est_in: Seq<VehicleState>,
    pub sp_in: Seq<Setpoint>,
    pub act_in: Seq<ActuatorCmd>,
    pub mode_in: Seq<(FlightMode, Health)>,
    pub health_in: Seq<Health>,
    pub neighbor_in: Seq<NeighborState>,
    pub imu_to_est: Seq<ImuSample>,
    pub imu_to_fdir: Seq<ImuSample>,
    pub est_to_ctrl: Seq<VehicleState>,
    pub est_to_fdir: Seq<VehicleState>,
    pub est_to_mission: Seq<VehicleState>,
    pub est_to_formation: Seq<VehicleState>,
    pub gps_out: Seq<PosSample>,
    pub sp_out: Seq<Setpoint>,
    pub act_out: Seq<ActuatorCmd>,
    pub mode_out: Seq<(FlightMode, Health)>,
    pub health_out: Seq<Health>,
    pub neighbor_out: Seq<NeighborState>,
}

/// The message bus: a queue for each topic.
pub struct Bus {
    imu_in: Ring<ImuSample, 8>,
    gps_in: Ring<PosSample, 4>,
    est_in: Ring<VehicleState, 4>,
    sp_in: Ring<Setpoint, 4>,
    act_in: Ring<ActuatorCmd, 4>,
    mode_in: Ring<(FlightMode, Health), 4>,
    health_in: Ring<Health, 4>,
    neighbor_in: Ring<NeighborState, 4>,
    imu_to_est: Ring<ImuSample, 8>,
    imu_to_fdir: Ring<ImuSample, 8>,
    est_to_ctrl: Ring<VehicleState, 4>,
    est_to_fdir: Ring<VehicleState, 4>,
    est_to_mission: Ring<VehicleState, 4>,
    est_to_formation: Ring<VehicleState, 4>,
    gps_out: Ring<PosSample, 4>,
    sp_out: Ring<Setpoint, 4>,
    act_out: Ring<ActuatorCmd, 4>,
    mode_out: Ring<(FlightMode, Health), 4>,
    health_out: Ring<Health, 4>,
    neighbor_out: Ring<NeighborState, 4>,
}

impl View for Bus {
    type V = BusState;

    closed spec fn view(&self) -> BusState {
        BusState {
            imu_in: self.imu_in@,
            gps_in: self.gps_in@,
            est_in: self.est_in@,
            sp_in: self.sp_in@,
            act_in: self.act_in@,
            mode_in: self.mode_in@,
            health_in: self.health_in@,
            neighbor_in: self.neighbor_in@,
            imu_to_est: self.imu_to_est@,
            imu_to_fdir: self.imu_to_fdir@,
            est_to_ctrl: self.est_to_ctrl@,
            est_to_fdir: self.est_to_fdir@,
            est_to_mission: self.est_to_mission@,
            est_to_formation: self.est_to_formation@,
            gps_out: self.gps_out@,
            sp_out: self.sp_out@,
            act_out: self.act_out@,
            mode_out: self.mode_out@,
            health_out: self.health_out@,
            neighbor_out: self.neighbor_out@,
        }
    }
}

/// Every topic of the bus.
#[derive(Debug, Clone, Copy, PartialEq, Eq, Structural)]
pub enum TopicId {
    Imu,
    Gps,
    Est,
    Setpoint,
    Actuator,
    Mode,
    Health,
    Neighbor,
    ImuToEst,
    ImuToFdir,
    EstToCtrl,
    EstToFdir,
    EstToMission,
    EstToFormation,
    GpsOut,
    SpOut,
    ActOut,
    ModeOut,
    HealthOut,
    NeighborOut,
}

impl TopicId {
    pub open spec fn listed() -> Seq<TopicId> {
        seq![
            TopicId::Imu,
            TopicId::Gps,
            TopicId::Est,
            TopicId::Setpoint,
            TopicId::Actuator,
            TopicId::Mode,
            TopicId::Health,
            TopicId::Neighbor,
            TopicId::ImuToEst,
            TopicId::ImuToFdir,
            TopicId::EstToCtrl,
            TopicId::EstToFdir,
            TopicId::EstToMission,
            TopicId::EstToFormation,
            TopicId::GpsOut,
            TopicId::SpOut,
            TopicId::ActOut,
            TopicId::ModeOut,
            TopicId::HealthOut,
            TopicId::NeighborOut,
        ]
    }

    /// All topics, in the order of their declaration.
    pub fn all() -> (r: [TopicId; 20])
        ensures
            r@ == TopicId::listed(),
    {
        let r = [
            TopicId::Imu,
            TopicId::Gps,
            TopicId::Est,
            TopicId::Setpoint,
            TopicId::Actuator,
            TopicId::Mode,
            TopicId::Health,
            TopicId::Neighbor,
            TopicId::ImuToEst,
            TopicId::ImuToFdir,
            TopicId::EstToCtrl,
            TopicId::EstToFdir,
            TopicId::EstToMission,
            TopicId::EstToFormation,
            TopicId::GpsOut,
            TopicId::SpOut,
            TopicId::ActOut,
            TopicId::ModeOut,
            TopicId::HealthOut,
            TopicId::NeighborOut,
        ];
        assert(r@ =~= TopicId::listed());
        r
    }
}

/// No topic is missing from the list, and none stands in it twice.
pub proof fn law_topics_listed_once(t: TopicId)
    ensures
        exists|i: int| 0 <= i < TopicId::listed().len() && #[trigger] TopicId::listed()[i] == t,
        forall|i: int, j: int|
            0 <= i < j < TopicId::listed().len() ==> #[trigger] TopicId::listed()[i]
                != #[trigger] TopicId::listed()[j],
{
    let l = TopicId::listed();
    match t {
        TopicId::Imu => assert(l[0] == t),
        TopicId::Gps => assert(l[1] == t),
        TopicId::Est => assert(l[2] == t),
        TopicId::Setpoint => assert(l[3] == t),
        TopicId::Actuator => assert(l[4] == t),
        TopicId::Mode => assert(l[5] == t),
        TopicId::Health => assert(l[6] == t),
        TopicId::Neighbor => assert(l[7] == t),
        TopicId::ImuToEst => assert(l[8] == t),
        TopicId::ImuToFdir => assert(l[9] == t),
        TopicId::EstToCtrl => assert(l[10] == t),
        TopicId::EstToFdir => assert(l[11] == t),
        TopicId::EstToMission => assert(l[12] == t),
        TopicId::EstToFormation => assert(l[13] == t),
        TopicId::GpsOut => assert(l[14] == t),
        TopicId::SpOut => assert(l[15] == t),
        TopicId::ActOut => assert(l[16] == t),
        TopicId::ModeOut => assert(l[17] == t),
        TopicId::HealthOut => assert(l[18] == t),
        TopicId::NeighborOut => assert(l[19] == t),
    }
}

/// A topic: what its messages are, how many its queue holds, and which queue of the
/// bus it is.
pub trait Topic {
    type Payload;

    spec fn cap() -> nat;

    spec fn queue(b: BusState) -> Seq<Self::Payload>;

    spec fn with_queue(b: BusState, q: Seq<Self::Payload>) -> BusState;
}

/// A topic that producers publish on.
pub trait PubTopic: Topic {
    fn push(bus: &mut Bus, m: Self::Payload) -> (r: Result<(), Self::Payload>)
        ensures
            Self::queue(old(bus)@).len() < Self::cap() ==> r is Ok && final(bus)@
                == Self::with_queue(old(bus)@, Self::queue(old(bus)@).push(m)),
            Self::queue(old(bus)@).len() >= Self::cap() ==> r == Err::<(), Self::Payload>(m)
                && final(bus)@ == old(bus)@,
    ;
}

/// A topic that consumers receive from.
pub trait SubTopic: Topic {
    fn pop(bus: &mut Bus) -> (r: Option<Self::Payload>)
        ensures
            Self::queue(old(bus)@).len() == 0 ==> r is None && final(bus)@ == old(bus)@,
            Self::queue(old(bus)@).len() > 0 ==> r == Some(Self::queue(old(bus)@)[0])
                && final(bus)@ == Self::with_queue(
                old(bus)@,
                Self::queue(old(bus)@).drop_first(),
            ),
    ;
}

/// Inertial readings, as published.
pub struct ImuTopic;

impl Topic for ImuTopic {
    type Payload = ImuSample;

    open spec fn cap() -> nat {
        8
    }

    open spec fn queue(b: BusState) -> Seq<ImuSample> {
        b.imu_in
    }

    open spec fn with_queue(b: BusState, q: Seq<ImuSample>) -> BusState {
        BusState { imu_in: q, ..b }
    }
}

impl PubTopic for ImuTopic {
    fn push(bus: &mut Bus, m: ImuSample) -> (r: Result<(), ImuSample>) {
        let r = bus.imu_in.try_push(m);
        assert(bus@ =~= if r is Ok {
            Self::with_queue(old(bus)@, old(bus)@.imu_in.push(m))
        } else {
            old(bus)@
        });
        r
    }
}

/// Position fixes, as published.
pub struct GpsTopic;

impl Topic for GpsTopic {
    type Payload = PosSample;

    open spec fn cap() -> nat {
        4
    }

    open spec fn queue(b: BusState) -> Seq<PosSample> {
        b.gps_in
    }

    open spec fn with_queue(b: BusState, q: Seq<PosSample>) -> BusState {
        BusState { gps_in: q, ..b }
    }
}

impl PubTopic for GpsTopic {
    fn push(bus: &mut Bus, m: PosSample) -> (r: Result<(), PosSample>) {
        let r = bus.gps_in.try_push(m);
        assert(bus@ =~= if r is Ok {
            Self::with_queue(old(bus)@, old(bus)@.gps_in.push(m))
        } else {
            old(bus)@
        });
        r
    }
}

/// Estimated states, as published.
pub struct EstTopic;

impl Topic for EstTopic {
    type Payload = VehicleState;

    open spec fn cap() -> nat {
        4
    }

    open spec fn queue(b: BusState) -> Seq<VehicleState> {
        b.est_in
    }

    open spec fn with_queue(b: BusState, q: Seq<VehicleState>) -> BusState {
        BusState { est_in: q, ..b }
    }
}

impl PubTopic for EstTopic {
    fn push(bus: &mut Bus, m: VehicleState) -> (r: Result<(), VehicleState>) {
        let r = bus.est_in.try_push(m);
        assert(bus@ =~= if r is Ok {
            Self::with_queue(old(bus)@, old(bus)@.est_in.push(m))
        } else {
            old(bus)@
        });
        r
    }
}

/// Setpoints, as published.
pub struct SetpointTopic;

impl Topic for SetpointTopic {
    type Payload = Setpoint;

    open spec fn cap() -> nat {
        4
    }

    open spec fn queue(b: BusState) -> Seq<Setpoint> {
        b.sp_in
    }

    open spec fn with_queue(b: BusState, q: Seq<Setpoint>) -> BusState {
        BusState { sp_in: q, ..b }
    }
}

impl PubTopic for SetpointTopic {
    fn push(bus: &mut Bus, m: Setpoint) -> (r: Result<(), Setpoint>) {
        let r = bus.sp_in.try_push(m);
        assert(bus@ =~= if r is Ok {
            Self::with_queue(old(bus)@, old(bus)@.sp_in.push(m))
        } else {
            old(bus)@
        });
        r
    }
}

/// Motor commands, as published.
pub struct ActuatorTopic;

impl Topic for ActuatorTopic {
    type Payload = ActuatorCmd;

    open spec fn cap() -> nat {
        4
    }

    open spec fn queue(b: BusState) -> Seq<ActuatorCmd> {
        b.act_in
    }

    open spec fn with_queue(b: BusState, q: Seq<ActuatorCmd>) -> BusState {
        BusState { act_in: q, ..b }
    }
}

impl PubTopic for ActuatorTopic {
    fn push(bus: &mut Bus, m: ActuatorCmd) -> (r: Result<(), ActuatorCmd>) {
        let r = bus.act_in.try_push(m);
        assert(bus@ =~= if r is Ok {
            Self::with_queue(old(bus)@, old(bus)@.act_in.push(m))
        } else {
            old(bus)@
        });
        r
    }
}

/// Mode changes, as published.
pub struct ModeTopic;

impl Topic for ModeTopic {
    type Payload = (FlightMode, Health);

    open spec fn cap() -> nat {
        4
    }

    open spec fn queue(b: BusState) -> Seq<(FlightMode, Health)> {
        b.mode_in
    }

    open spec fn with_queue(b: BusState, q: Seq<(FlightMode, Health)>) -> BusState {
        BusState { mode_in: q, ..b }
    }
}

impl PubTopic for ModeTopic {
    fn push(bus: &mut Bus, m: (FlightMode, Health)) -> (r: Result<(), (FlightMode, Health)>) {
        let r = bus.mode_in.try_push(m);
        assert(bus@ =~= if r is Ok {
            Self::with_queue(old(bus)@, old(bus)@.mode_in.push(m))
        } else {
            old(bus)@
        });
        r
    }
}

/// Health reports, as published.
pub struct HealthTopic;

impl Topic for HealthTopic {
    type Payload = Health;

    open spec fn cap() -> nat {
        4
    }

    open spec fn queue(b: BusState) -> Seq<Health> {
        b.health_in
    }

    open spec fn with_queue(b: BusState, q: Seq<Health>) -> BusState {
        BusState { health_in: q, ..b }
    }
}

impl PubTopic for HealthTopic {
    fn push(bus: &mut Bus, m: Health) -> (r: Result<(), Health>) {
        let r = bus.health_in.try_push(m);
        assert(bus@ =~= if r is Ok {
            Self::with_queue(old(bus)@, old(bus)@.health_in.push(m))
        } else {
            old(bus)@
        });
        r
    }
}

/// Neighbours' states, as published.
pub struct NeighborTopic;

impl Topic for NeighborTopic {
    type Payload = NeighborState;

    open spec fn cap() -> nat {
        4
    }

    open spec fn queue(b: BusState) -> Seq<NeighborState> {
        b.neighbor_in
    }

    open spec fn with_queue(b: BusState, q: Seq<NeighborState>) -> BusState {
        BusState { neighbor_in: q, ..b }
    }
}

impl PubTopic for NeighborTopic {
    fn push(bus: &mut Bus, m: NeighborState) -> (r: Result<(), NeighborState>) {
        let r = bus.neighbor_in.try_push(m);
        assert(bus@ =~= if r is Ok {
            Self::with_queue(old(bus)@, old(bus)@.neighbor_in.push(m))
        } else {
            old(bus)@
        });
        r
    }
}

/// Inertial readings for the estimator.
pub struct ImuToEstTopic;

impl Topic for ImuToEstTopic {
    type Payload = ImuSample;

    open spec fn cap() -> nat {
        8
    }

    open spec fn queue(b: BusState) -> Seq<ImuSample> {
        b.imu_to_est
    }

    open spec fn with_queue(b: BusState, q: Seq<ImuSample>) -> BusState {
        BusState { imu_to_est: q, ..b }
    }
}

impl SubTopic for ImuToEstTopic {
    fn pop(bus: &mut Bus) -> (r: Option<ImuSample>) {
        let r = bus.imu_to_est.try_pop();
        assert(bus@ =~= if r is Some {
            Self::with_queue(old(bus)@, old(bus)@.imu_to_est.drop_first())
        } else {
            old(bus)@
        });
        r
    }
}

/// Inertial readings for fault detection.
pub struct ImuToFdirTopic;

impl Topic for ImuToFdirTopic {
    type Payload = ImuSample;

    open spec fn cap() -> nat {
        8
    }

    open spec fn queue(b: BusState) -> Seq<ImuSample> {
        b.imu_to_fdir
    }

    open spec fn with_queue(b: BusState, q: Seq<ImuSample>) -> BusState {
        BusState { imu_to_fdir: q, ..b }
    }
}

impl SubTopic for ImuToFdirTopic {
    fn pop(bus: &mut Bus) -> (r: Option<ImuSample>) {
        let r = bus.imu_to_fdir.try_pop();
        assert(bus@ =~= if r is Some {
            Self::with_queue(old(bus)@, old(bus)@.imu_to_fdir.drop_first())
        } else {
            old(bus)@
        });
        r
    }
}

/// Estimated states for the controller.
pub struct EstToCtrlTopic;

impl Topic for EstToCtrlTopic {
    type Payload = VehicleState;

    open spec fn cap() -> nat {
        4
    }

    open spec fn queue(b: BusState) -> Seq<VehicleState> {
        b.est_to_ctrl
    }

    open spec fn with_queue(b: BusState, q: Seq<VehicleState>) -> BusState {
        BusState { est_to_ctrl: q, ..b }
    }
}

impl SubTopic for EstToCtrlTopic {
    fn pop(bus: &mut Bus) -> (r: Option<VehicleState>) {
        let r = bus.est_to_ctrl.try_pop();
        assert(bus@ =~= if r is Some {
            Self::with_queue(old(bus)@, old(bus)@.est_to_ctrl.drop_first())
        } else {
            old(bus)@
        });
        r
    }
}

/// Estimated states for fault detection.
pub struct EstToFdirTopic;

impl Topic for EstToFdirTopic {
    type Payload = VehicleState;

    open spec fn cap() -> nat {
        4
    }

    open spec fn queue(b: BusState) -> Seq<VehicleState> {
        b.est_to_fdir
    }

    open spec fn with_queue(b: BusState, q: Seq<VehicleState>) -> BusState {
        BusState { est_to_fdir: q, ..b }
    }
}

impl SubTopic for EstToFdirTopic {
    fn pop(bus: &mut Bus) -> (r: Option<VehicleState>) {
        let r = bus.est_to_fdir.try_pop();
        assert(bus@ =~= if r is Some {
            Self::with_queue(old(bus)@, old(bus)@.est_to_fdir.drop_first())
        } else {
            old(bus)@
        });
        r
    }
}

/// Estimated states for the mission.
pub struct EstToMissionTopic;

impl Topic for EstToMissionTopic {
    type Payload = VehicleState;

    open spec fn cap() -> nat {
        4
    }

    open spec fn queue(b: BusState) -> Seq<VehicleState> {
        b.est_to_mission
    }

    open spec fn with_queue(b: BusState, q: Seq<VehicleState>) -> BusState {
        BusState { est_to_mission: q, ..b }
    }
}

impl SubTopic for EstToMissionTopic {
    fn pop(bus: &mut Bus) -> (r: Option<VehicleState>) {
        let r = bus.est_to_mission.try_pop();
        assert(bus@ =~= if r is Some {
            Self::with_queue(old(bus)@, old(bus)@.est_to_mission.drop_first())
        } else {
            old(bus)@
        });
        r
    }
}

/// Estimated states for the formation.
pub struct EstToFormationTopic;

impl Topic for EstToFormationTopic {
    type Payload = VehicleState;

    open spec fn cap() -> nat {
        4
    }

    open spec fn queue(b: BusState) -> Seq<VehicleState> {
        b.est_to_formation
    }

    open spec fn with_queue(b: BusState, q: Seq<VehicleState>) -> BusState {
        BusState { est_to_formation: q, ..b }
    }
}

impl SubTopic for EstToFormationTopic {
    fn pop(bus: &mut Bus) -> (r: Option<VehicleState>) {
        let r = bus.est_to_formation.try_pop();
        assert(bus@ =~= if r is Some {
            Self::with_queue(old(bus)@, old(bus)@.est_to_formation.drop_first())
        } else {
            old(bus)@
        });
        r
    }
}

/// Position fixes.
pub struct GpsOutTopic;

impl Topic for GpsOutTopic {
    type Payload = PosSample;

    open spec fn cap() -> nat {
        4
    }

    open spec fn queue(b: BusState) -> Seq<PosSample> {
        b.gps_out
    }

    open spec fn with_queue(b: BusState, q: Seq<PosSample>) -> BusState {
        BusState { gps_out: q, ..b }
    }
}

impl SubTopic for GpsOutTopic {
    fn pop(bus: &mut Bus) -> (r: Option<PosSample>) {
        let r = bus.gps_out.try_pop();
        assert(bus@ =~= if r is Some {
            Self::with_queue(old(bus)@, old(bus)@.gps_out.drop_first())
        } else {
            old(bus)@
        });
        r
    }
}

/// Setpoints.
pub struct SpOutTopic;

impl Topic for SpOutTopic {
    type Payload = Setpoint;

    open spec fn cap() -> nat {
        4
    }

    open spec fn queue(b: BusState) -> Seq<Setpoint> {
        b.sp_out
    }

    open spec fn with_queue(b: BusState, q: Seq<Setpoint>) -> BusState {
        BusState { sp_out: q, ..b }
    }
}

impl SubTopic for SpOutTopic {
    fn pop(bus: &mut Bus) -> (r: Option<Setpoint>) {
        let r = bus.sp_out.try_pop();
        assert(bus@ =~= if r is Some {
            Self::with_queue(old(bus)@, old(bus)@.sp_out.drop_first())
        } else {
            old(bus)@
        });
        r
    }
}

/// Motor commands.
pub struct ActOutTopic;

impl Topic for ActOutTopic {
    type Payload = ActuatorCmd;

    open spec fn cap() -> nat {
        4
    }

    open spec fn queue(b: BusState) -> Seq<ActuatorCmd> {
        b.act_out
    }

    open spec fn with_queue(b: BusState, q: Seq<ActuatorCmd>) -> BusState {
        BusState { act_out: q, ..b }
    }
}

impl SubTopic for ActOutTopic {
    fn pop(bus: &mut Bus) -> (r: Option<ActuatorCmd>) {
        let r = bus.act_out.try_pop();
        assert(bus@ =~= if r is Some {
            Self::with_queue(old(bus)@, old(bus)@.act_out.drop_first())
        } else {
            old(bus)@
        });
        r
    }
}

/// Mode changes.
pub struct ModeOutTopic;

impl Topic for ModeOutTopic {
    type Payload = (FlightMode, Health);

    open spec fn cap() -> nat {
        4
    }

    open spec fn queue(b: BusState) -> Seq<(FlightMode, Health)> {
        b.mode_out
    }

    open spec fn with_queue(b: BusState, q: Seq<(FlightMode, Health)>) -> BusState {
        BusState { mode_out: q, ..b }
    }
}

impl SubTopic for ModeOutTopic {
    fn pop(bus: &mut Bus) -> (r: Option<(FlightMode, Health)>) {
        let r = bus.mode_out.try_pop();
        assert(bus@ =~= if r is Some {
            Self::with_queue(old(bus)@, old(bus)@.mode_out.drop_first())
        } else {
            old(bus)@
        });
        r
    }
}

/// Health reports.
pub struct HealthOutTopic;

impl Topic for HealthOutTopic {
    type Payload = Health;

    open spec fn cap() -> nat {
        4
    }

    open spec fn queue(b: BusState) -> Seq<Health> {
        b.health_out
    }

    open spec fn with_queue(b: BusState, q: Seq<Health>) -> BusState {
        BusState { health_out: q, ..b }
    }
}

impl SubTopic for HealthOutTopic {
    fn pop(bus: &mut Bus) -> (r: Option<Health>) {
        let r = bus.health_out.try_pop();
        assert(bus@ =~= if r is Some {
            Self::with_queue(old(bus)@, old(bus)@.health_out.drop_first())
        } else {
            old(bus)@
        });
        r
    }
}

/// Neighbours' states.
pub struct NeighborOutTopic;

impl Topic for NeighborOutTopic {
    type Payload = NeighborState;

    open spec fn cap() -> nat {
        4
    }

    open spec fn queue(b: BusState) -> Seq<NeighborState> {
        b.neighbor_out
    }

    open spec fn with_queue(b: BusState, q: Seq<NeighborState>) -> BusState {
        BusState { neighbor_out: q, ..b }
    }
}

impl SubTopic for NeighborOutTopic {
    fn pop(bus: &mut Bus) -> (r: Option<NeighborState>) {
        let r = bus.neighbor_out.try_pop();
        assert(bus@ =~= if r is Some {
            Self::with_queue(old(bus)@, old(bus)@.neighbor_out.drop_first())
        } else {
            old(bus)@
        });
        r
    }
}

/// The messages left in a producer's queue after pumping.
pub open spec fn taken<M>(from: Seq<M>) -> Seq<M> {
    if from.len() > 0 {
        from.drop_first()
    } else {
        from
    }
}

/// A consumer's queue after pumping: the oldest message of the producer is appended
/// where there is one and where it fits.
pub open spec fn given<M>(from: Seq<M>, to: Seq<M>, cap: nat) -> Seq<M> {
    if from.len() > 0 && to.len() < cap {
        to.push(from[0])
    } else {
        to
    }
}

/// How many messages a consumer's queue gets from pumping.
pub open spec fn delivered<M>(from: Seq<M>, to: Seq<M>, cap: nat) -> nat {
    if from.len() > 0 && to.len() < cap {
        1
    } else {
        0
    }
}

impl BusState {
    /// The queues without messages.
    pub open spec fn initial() -> BusState {
        BusState {
            imu_in: Seq::empty(),
            gps_in: Seq::empty(),
            est_in: Seq::empty(),
            sp_in: Seq::empty(),
            act_in: Seq::empty(),
            mode_in: Seq::empty(),
            health_in: Seq::empty(),
            neighbor_in: Seq::empty(),
            imu_to_est: Seq::empty(),
            imu_to_fdir: Seq::empty(),
            est_to_ctrl: Seq::empty(),
            est_to_fdir: Seq::empty(),
            est_to_mission: Seq::empty(),
            est_to_formation: Seq::empty(),
            gps_out: Seq::empty(),
            sp_out: Seq::empty(),
            act_out: Seq::empty(),
            mode_out: Seq::empty(),
            health_out: Seq::empty(),
            neighbor_out: Seq::empty(),
        }
    }

    /// The queues after pumping once.
    pub open spec fn pumped(self) -> BusState {
        BusState {
            imu_in: taken(self.imu_in),
            gps_in: taken(self.gps_in),
            est_in: taken(self.est_in),
            sp_in: taken(self.sp_in),
            act_in: taken(self.act_in),
            mode_in: taken(self.mode_in),
            health_in: taken(self.health_in),
            neighbor_in: taken(self.neighbor_in),
            imu_to_est: given(self.imu_in, self.imu_to_est, 8),
            imu_to_fdir: given(self.imu_in, self.imu_to_fdir, 8),
            est_to_ctrl: given(self.est_in, self.est_to_ctrl, 4),
            est_to_fdir: given(self.est_in, self.est_to_fdir, 4),
            est_to_mission: given(self.est_in, self.est_to_mission, 4),
            est_to_formation: given(self.est_in, self.est_to_formation, 4),
            gps_out: given(self.gps_in, self.gps_out, 4),
            sp_out: given(self.sp_in, self.sp_out, 4),
            act_out: given(self.act_in, self.act_out, 4),
            mode_out: given(self.mode_in, self.mode_out, 4),
            health_out: given(self.health_in, self.health_out, 4),
            neighbor_out: given(self.neighbor_in, self.neighbor_out, 4),
        }
    }

    /// How many messages one pumping moves.
    pub open spec fn moved(self) -> nat {
        delivered(self.imu_in, self.imu_to_est, 8)
            + delivered(self.imu_in, self.imu_to_fdir, 8)
            + delivered(self.gps_in, self.gps_out, 4)
            + delivered(self.est_in, self.est_to_ctrl, 4)
            + delivered(self.est_in, self.est_to_fdir, 4)
            + delivered(self.est_in, self.est_to_mission, 4)
            + delivered(self.est_in, self.est_to_formation, 4)
            + delivered(self.sp_in, self.sp_out, 4)
            + delivered(self.act_in, self.act_out, 4)
            + delivered(self.mode_in, self.mode_out, 4)
            + delivered(self.health_in, self.health_out, 4)
            + delivered(self.neighbor_in, self.neighbor_out, 4)
    }
}

/// Appends a message where it fits, and returns how many were appended.
fn offer<M: Copy, const CAP: usize>(to: &mut Ring<M, CAP>, m: M) -> (n: usize)
    ensures
        final(to)@ == given(seq![m], old(to)@, CAP as nat),
        n == delivered(seq![m], old(to)@, CAP as nat),
{
    if to.try_push(m).is_ok() {
        1
    } else {
        0
    }
}

/// Moves the oldest message where there is one, and returns how many arrived.
fn relay<M: Copy, const CAP: usize>(
    from: &mut Ring<M, CAP>,
    to: &mut Ring<M, CAP>,
) -> (n: usize)
    ensures
        final(from)@ == taken(old(from)@),
        final(to)@ == given(old(from)@, old(to)@, CAP as nat),
        n == delivered(old(from)@, old(to)@, CAP as nat),
{
    if let Some(m) = from.try_pop() {
        offer(to, m)
    } else {
        0
    }
}

impl Bus {
    /// The bus without messages.
    pub fn new() -> (r: Bus)
        ensures
            r@ == BusState::initial(),
    {
        let r = Bus {
            imu_in: Ring::new(),
            gps_in: Ring::new(),
            est_in: Ring::new(),
            sp_in: Ring::new(),
            act_in: Ring::new(),
            mode_in: Ring::new(),
            health_in: Ring::new(),
            neighbor_in: Ring::new(),
            imu_to_est: Ring::new(),
            imu_to_fdir: Ring::new(),
            est_to_ctrl: Ring::new(),
            est_to_fdir: Ring::new(),
            est_to_mission: Ring::new(),
            est_to_formation: Ring::new(),
            gps_out: Ring::new(),
            sp_out: Ring::new(),
            act_out: Ring::new(),
            mode_out: Ring::new(),
            health_out: Ring::new(),
            neighbor_out: Ring::new(),
        };
        assert(r@ =~= BusState::initial());
        r
    }

    /// Appends a message to the queue of topic `T`, or hands it back where the queue
    /// is full. The type of the message is that of the topic.
    pub fn publish<T: PubTopic>(&mut self, m: T::Payload) -> (r: Result<(), T::Payload>)
        ensures
            T::queue(old(self)@).len() < T::cap() ==> r is Ok && final(self)@ == T::with_queue(
                old(self)@,
                T::queue(old(self)@).push(m),
            ),
            T::queue(old(self)@).len() >= T::cap() ==> r == Err::<(), T::Payload>(m)
                && final(self)@ == old(self)@,
    {
        T::push(self, m)
    }

    /// Takes the oldest message from the queue of topic `T`.
    pub fn subscribe<T: SubTopic>(&mut self) -> (r: Option<T::Payload>)
        ensures
            T::queue(old(self)@).len() == 0 ==> r is None && final(self)@ == old(self)@,
            T::queue(old(self)@).len() > 0 ==> r == Some(T::queue(old(self)@)[0])
                && final(self)@ == T::with_queue(old(self)@, T::queue(old(self)@).drop_first()),
    {
        T::pop(self)
    }

    pub fn publish_imu(&mut self, m: ImuSample) -> (r: Result<(), ImuSample>)
        ensures
            old(self)@.imu_in.len() < 8 ==> r is Ok && final(self)@ == (BusState {
                imu_in: old(self)@.imu_in.push(m),
                ..old(self)@
            }),
            old(self)@.imu_in.len() >= 8 ==> r == Err::<(), ImuSample>(m)
                && final(self)@ == old(self)@,
    {
        self.publish::<ImuTopic>(m)
    }

    pub fn publish_gps(&mut self, m: PosSample) -> (r: Result<(), PosSample>)
        ensures
            old(self)@.gps_in.len() < 4 ==> r is Ok && final(self)@ == (BusState {
                gps_in: old(self)@.gps_in.push(m),
                ..old(self)@
            }),
            old(self)@.gps_in.len() >= 4 ==> r == Err::<(), PosSample>(m)
                && final(self)@ == old(self)@,
    {
        self.publish::<GpsTopic>(m)
    }

    pub fn publish_est(&mut self, m: VehicleState) -> (r: Result<(), VehicleState>)
        ensures
            old(self)@.est_in.len() < 4 ==> r is Ok && final(self)@ == (BusState {
                est_in: old(self)@.est_in.push(m),
                ..old(self)@
            }),
            old(self)@.est_in.len() >= 4 ==> r == Err::<(), VehicleState>(m)
                && final(self)@ == old(self)@,
    {
        self.publish::<EstTopic>(m)
    }

    pub fn publish_setpoint(&mut self, m: Setpoint) -> (r: Result<(), Setpoint>)
        ensures
            old(self)@.sp_in.len() < 4 ==> r is Ok && final(self)@ == (BusState {
                sp_in: old(self)@.sp_in.push(m),
                ..old(self)@
            }),
            old(self)@.sp_in.len() >= 4 ==> r == Err::<(), Setpoint>(m)
                && final(self)@ == old(self)@,
    {
        self.publish::<SetpointTopic>(m)
    }

    pub fn publish_actuator(&mut self, m: ActuatorCmd) -> (r: Result<(), ActuatorCmd>)
        ensures
            old(self)@.act_in.len() < 4 ==> r is Ok && final(self)@ == (BusState {
                act_in: old(self)@.act_in.push(m),
                ..old(self)@
            }),
            old(self)@.act_in.len() >= 4 ==> r == Err::<(), ActuatorCmd>(m)
                && final(self)@ == old(self)@,
    {
        self.publish::<ActuatorTopic>(m)
    }

    pub fn publish_mode(&mut self, m: (FlightMode, Health)) -> (r: Result<(), (FlightMode, Health)>)
        ensures
            old(self)@.mode_in.len() < 4 ==> r is Ok && final(self)@ == (BusState {
                mode_in: old(self)@.mode_in.push(m),
                ..old(self)@
            }),
            old(self)@.mode_in.len() >= 4 ==> r == Err::<(), (FlightMode, Health)>(m)
                && final(self)@ == old(self)@,
    {
        self.publish::<ModeTopic>(m)
    }

    pub fn publish_health(&mut self, m: Health) -> (r: Result<(), Health>)
        ensures
            old(self)@.health_in.len() < 4 ==> r is Ok && final(self)@ == (BusState {
                health_in: old(self)@.health_in.push(m),
                ..old(self)@
            }),
            old(self)@.health_in.len() >= 4 ==> r == Err::<(), Health>(m)
                && final(self)@ == old(self)@,
    {
        self.publish::<HealthTopic>(m)
    }

    pub fn publish_neighbor(&mut self, m: NeighborState) -> (r: Result<(), NeighborState>)
        ensures
            old(self)@.neighbor_in.len() < 4 ==> r is Ok && final(self)@ == (BusState {
                neighbor_in: old(self)@.neighbor_in.push(m),
                ..old(self)@
            }),
            old(self)@.neighbor_in.len() >= 4 ==> r == Err::<(), NeighborState>(m)
                && final(self)@ == old(self)@,
    {
        self.publish::<NeighborTopic>(m)
    }

    pub fn recv_imu_est(&mut self) -> (r: Option<ImuSample>)
        ensures
            old(self)@.imu_to_est.len() == 0 ==> r is None && final(self)@ == old(self)@,
            old(self)@.imu_to_est.len() > 0 ==> r == Some(old(self)@.imu_to_est[0])
                && final(self)@ == (BusState {
                imu_to_est: old(self)@.imu_to_est.drop_first(),
                ..old(self)@
            }),
    {
        self.subscribe::<ImuToEstTopic>()
    }

    pub fn recv_imu_fdir(&mut self) -> (r: Option<ImuSample>)
        ensures
            old(self)@.imu_to_fdir.len() == 0 ==> r is None && final(self)@ == old(self)@,
            old(self)@.imu_to_fdir.len() > 0 ==> r == Some(old(self)@.imu_to_fdir[0])
                && final(self)@ == (BusState {
                imu_to_fdir: old(self)@.imu_to_fdir.drop_first(),
                ..old(self)@
            }),
    {
        self.subscribe::<ImuToFdirTopic>()
    }

    pub fn recv_gps(&mut self) -> (r: Option<PosSample>)
        ensures
            old(self)@.gps_out.len() == 0 ==> r is None && final(self)@ == old(self)@,
            old(self)@.gps_out.len() > 0 ==> r == Some(old(self)@.gps_out[0])
                && final(self)@ == (BusState {
                gps_out: old(self)@.gps_out.drop_first(),
                ..old(self)@
            }),
    {
        self.subscribe::<GpsOutTopic>()
    }

    pub fn recv_est_ctrl(&mut self) -> (r: Option<VehicleState>)
        ensures
            old(self)@.est_to_ctrl.len() == 0 ==> r is None && final(self)@ == old(self)@,
            old(self)@.est_to_ctrl.len() > 0 ==> r == Some(old(self)@.est_to_ctrl[0])
                && final(self)@ == (BusState {
                est_to_ctrl: old(self)@.est_to_ctrl.drop_first(),
                ..old(self)@
            }),
    {
        self.subscribe::<EstToCtrlTopic>()
    }

    pub fn recv_est_fdir(&mut self) -> (r: Option<VehicleState>)
        ensures
            old(self)@.est_to_fdir.len() == 0 ==> r is None && final(self)@ == old(self)@,
            old(self)@.est_to_fdir.len() > 0 ==> r == Some(old(self)@.est_to_fdir[0])
                && final(self)@ == (BusState {
                est_to_fdir: old(self)@.est_to_fdir.drop_first(),
                ..old(self)@
            }),
    {
        self.subscribe::<EstToFdirTopic>()
    }

    pub fn recv_est_mission(&mut self) -> (r: Option<VehicleState>)
        ensures
            old(self)@.est_to_mission.len() == 0 ==> r is None && final(self)@ == old(self)@,
            old(self)@.est_to_mission.len() > 0 ==> r == Some(old(self)@.est_to_mission[0])
                && final(self)@ == (BusState {
                est_to_mission: old(self)@.est_to_mission.drop_first(),
                ..old(self)@
            }),
    {
        self.subscribe::<EstToMissionTopic>()
    }

    pub fn recv_est_formation(&mut self) -> (r: Option<VehicleState>)
        ensures
            old(self)@.est_to_formation.len() == 0 ==> r is None && final(self)@ == old(self)@,
            old(self)@.est_to_formation.len() > 0 ==> r == Some(old(self)@.est_to_formation[0])
                && final(self)@ == (BusState {
                est_to_formation: old(self)@.est_to_formation.drop_first(),
                ..old(self)@
            }),
    {
        self.subscribe::<EstToFormationTopic>()
    }

    pub fn recv_setpoint(&mut self) -> (r: Option<Setpoint>)
        ensures
            old(self)@.sp_out.len() == 0 ==> r is None && final(self)@ == old(self)@,
            old(self)@.sp_out.len() > 0 ==> r == Some(old(self)@.sp_out[0])
                && final(self)@ == (BusState {
                sp_out: old(self)@.sp_out.drop_first(),
                ..old(self)@
            }),
    {
        self.subscribe::<SpOutTopic>()
    }

    pub fn recv_actuator(&mut self) -> (r: Option<ActuatorCmd>)
        ensures
            old(self)@.act_out.len() == 0 ==> r is None && final(self)@ == old(self)@,
            old(self)@.act_out.len() > 0 ==> r == Some(old(self)@.act_out[0])
                && final(self)@ == (BusState {
                act_out: old(self)@.act_out.drop_first(),
                ..old(self)@
            }),
    {
        self.subscribe::<ActOutTopic>()
    }

    pub fn recv_mode(&mut self) -> (r: Option<(FlightMode, Health)>)
        ensures
            old(self)@.mode_out.len() == 0 ==> r is None && final(self)@ == old(self)@,
            old(self)@.mode_out.len() > 0 ==> r == Some(old(self)@.mode_out[0])
                && final(self)@ == (BusState {
                mode_out: old(self)@.mode_out.drop_first(),
                ..old(self)@
            }),
    {
        self.subscribe::<ModeOutTopic>()
    }

    pub fn recv_health(&mut self) -> (r: Option<Health>)
        ensures
            old(self)@.health_out.len() == 0 ==> r is None && final(self)@ == old(self)@,
            old(self)@.health_out.len() > 0 ==> r == Some(old(self)@.health_out[0])
                && final(self)@ == (BusState {
                health_out: old(self)@.health_out.drop_first(),
                ..old(self)@
            }),
    {
        self.subscribe::<HealthOutTopic>()
    }

    pub fn recv_neighbor(&mut self) -> (r: Option<NeighborState>)
        ensures
            old(self)@.neighbor_out.len() == 0 ==> r is None && final(self)@ == old(self)@,
            old(self)@.neighbor_out.len() > 0 ==> r == Some(old(self)@.neighbor_out[0])
                && final(self)@ == (BusState {
                neighbor_out: old(self)@.neighbor_out.drop_first(),
                ..old(self)@
            }),
    {
        self.subscribe::<NeighborOutTopic>()
    }

    /// Moves the oldest message of each producer's queue to every consumer of its
    /// topic, and returns how many consumers' queues got one. A consumer whose queue
    /// is full misses the message.
    pub fn pump(&mut self) -> (moved: usize)
        ensures
            final(self)@ == old(self)@.pumped(),
            moved == old(self)@.moved(),
    {
        let mut moved: usize = 0;
        if let Some(m) = self.imu_in.try_pop() {
            moved += offer(&mut self.imu_to_est, m);
            moved += offer(&mut self.imu_to_fdir, m);
        }
        moved += relay(&mut self.gps_in, &mut self.gps_out);
        if let Some(m) = self.est_in.try_pop() {
            moved += offer(&mut self.est_to_ctrl, m);
            moved += offer(&mut self.est_to_fdir, m);
            moved += offer(&mut self.est_to_mission, m);
            moved += offer(&mut self.est_to_formation, m);
        }
        moved += relay(&mut self.sp_in, &mut self.sp_out);
        moved += relay(&mut self.act_in, &mut self.act_out);
        moved += relay(&mut self.mode_in, &mut self.mode_out);
        moved += relay(&mut self.health_in, &mut self.health_out);
        moved += relay(&mut self.neighbor_in, &mut self.neighbor_out);
        assert(self@ =~= old(self)@.pumped());
        moved
    }
}

impl Default for Bus {
    fn default() -> (r: Bus)
        ensures
            r@ == BusState::initial(),
    {
        Bus::new()
    }
}

/// The queues after pumping `n` times.
pub open spec fn pumped_times(b: BusState, n: nat) -> BusState
    decreases n,
{
    if n == 0 {
        b
    } else {
        pumped_times(b, (n - 1) as nat).pumped()
    }
}

proof fn lemma_deliver_all<M>(from: Seq<M>, to: Seq<M>, cap: nat, k: int)
    requires
        0 <= k < from.len(),
        to.len() + from.len() <= cap,
    ensures
        taken(from.skip(k)) == from.skip(k + 1),
        given(from.skip(k), to + from.take(k), cap) == to + from.take(k + 1),
{
    assert(taken(from.skip(k)) =~= from.skip(k + 1));
    assert(given(from.skip(k), to + from.take(k), cap) =~= to + from.take(k + 1));
}

proof fn lemma_fanout_upto(b: BusState, k: nat)
    requires
        k <= b.est_in.len(),
        b.est_to_ctrl.len() + b.est_in.len() <= 4,
        b.est_to_fdir.len() + b.est_in.len() <= 4,
        b.est_to_mission.len() + b.est_in.len() <= 4,
        b.est_to_formation.len() + b.est_in.len() <= 4,
    ensures
        ({
            let c = pumped_times(b, k);
            &&& c.est_in == b.est_in.skip(k as int)
            &&& c.est_to_ctrl == b.est_to_ctrl + b.est_in.take(k as int)
            &&& c.est_to_fdir == b.est_to_fdir + b.est_in.take(k as int)
            &&& c.est_to_mission == b.est_to_mission + b.est_in.take(k as int)
            &&& c.est_to_formation == b.est_to_formation + b.est_in.take(k as int)
        }),
    decreases k,
{
    if k == 0 {
        let c = pumped_times(b, 0);
        assert(c.est_in =~= b.est_in.skip(0));
        assert(c.est_to_ctrl =~= b.est_to_ctrl + b.est_in.take(0));
        assert(c.est_to_fdir =~= b.est_to_fdir + b.est_in.take(0));
        assert(c.est_to_mission =~= b.est_to_mission + b.est_in.take(0));
        assert(c.est_to_formation =~= b.est_to_formation + b.est_in.take(0));
    } else {
        let j = (k - 1) as nat;
        lemma_fanout_upto(b, j);
        lemma_deliver_all(b.est_in, b.est_to_ctrl, 4, j as int);
        lemma_deliver_all(b.est_in, b.est_to_fdir, 4, j as int);
        lemma_deliver_all(b.est_in, b.est_to_mission, 4, j as int);
        lemma_deliver_all(b.est_in, b.est_to_formation, 4, j as int);
    }
}

/// Fan-out loses nothing and keeps the order: where the four consumers of the
/// estimate have room for all that was published, pumping once for each message
/// gives every one of them all messages in the order of publication.
pub proof fn law_estimate_fanout(b: BusState)
    requires
        b.est_to_ctrl.len() + b.est_in.len() <= 4,
        b.est_to_fdir.len() + b.est_in.len() <= 4,
        b.est_to_mission.len() + b.est_in.len() <= 4,
        b.est_to_formation.len() + b.est_in.len() <= 4,
    ensures
        ({
            let c = pumped_times(b, b.est_in.len());
            &&& c.est_in.len() == 0
            &&& c.est_to_ctrl == b.est_to_ctrl + b.est_in
            &&& c.est_to_fdir == b.est_to_fdir + b.est_in
            &&& c.est_to_mission == b.est_to_mission + b.est_in
            &&& c.est_to_formation == b.est_to_formation + b.est_in
        }),
{
    lemma_fanout_upto(b, b.est_in.len());
    assert(b.est_in.take(b.est_in.len() as int) =~= b.est_in);
}

/// Topics do not interfere: what pumping does to the queues of one topic depends on
/// the queues of that topic alone.
pub proof fn law_topics_independent(a: BusState, b: BusState)
    ensures
        (a.imu_in == b.imu_in
            && a.imu_to_est == b.imu_to_est
            && a.imu_to_fdir == b.imu_to_fdir) ==> {
            &&& a.pumped().imu_in == b.pumped().imu_in
            &&& a.pumped().imu_to_est == b.pumped().imu_to_est
            &&& a.pumped().imu_to_fdir == b.pumped().imu_to_fdir
        },
        (a.gps_in == b.gps_in
            && a.gps_out == b.gps_out) ==> {
            &&& a.pumped().gps_in == b.pumped().gps_in
            &&& a.pumped().gps_out == b.pumped().gps_out
        },
        (a.est_in == b.est_in
            && a.est_to_ctrl == b.est_to_ctrl
            && a.est_to_fdir == b.est_to_fdir
            && a.est_to_mission == b.est_to_mission
            && a.est_to_formation == b.est_to_formation) ==> {
            &&& a.pumped().est_in == b.pumped().est_in
            &&& a.pumped().est_to_ctrl == b.pumped().est_to_ctrl
            &&& a.pumped().est_to_fdir == b.pumped().est_to_fdir
            &&& a.pumped().est_to_mission == b.pumped().est_to_mission
            &&& a.pumped().est_to_formation == b.pumped().est_to_formation
        },
        (a.sp_in == b.sp_in
            && a.sp_out == b.sp_out) ==> {
            &&& a.pumped().sp_in == b.pumped().sp_in
            &&& a.pumped().sp_out == b.pumped().sp_out
        },
        (a.act_in == b.act_in
            && a.act_out == b.act_out) ==> {
            &&& a.pumped().act_in == b.pumped().act_in
            &&& a.pumped().act_out == b.pumped().act_out
        },
        (a.mode_in == b.mode_in
            && a.mode_out == b.mode_out) ==> {
            &&& a.pumped().mode_in == b.pumped().mode_in
            &&& a.pumped().mode_out == b.pumped().mode_out
        },
        (a.health_in == b.health_in
            && a.health_out == b.health_out) ==> {
            &&& a.pumped().health_in == b.pumped().health_in
            &&& a.pumped().health_out == b.pumped().health_out
        },
        (a.neighbor_in == b.neighbor_in
            && a.neighbor_out == b.neighbor_out) ==> {
            &&& a.pumped().neighbor_in == b.pumped().neighbor_in
            &&& a.pumped().neighbor_out == b.pumped().neighbor_out
        },
{
}

proof fn lemma_given_changes<M>(from: Seq<M>, to: Seq<M>, cap: nat)
    ensures
        given(from, to, cap) == to <==> delivered(from, to, cap) == 0,
{
    if from.len() > 0 && to.len() < cap {
        assert(given(from, to, cap).len() == to.len() + 1);
    }
}

/// One pumping moves nothing exactly when it changes no consumer's queue.
pub proof fn law_pump_count(b: BusState)
    ensures
        b.moved() <= 12,
        b.moved() == 0 <==> {
            &&& b.pumped().imu_to_est == b.imu_to_est
            &&& b.pumped().imu_to_fdir == b.imu_to_fdir
            &&& b.pumped().gps_out == b.gps_out
            &&& b.pumped().est_to_ctrl == b.est_to_ctrl
            &&& b.pumped().est_to_fdir == b.est_to_fdir
            &&& b.pumped().est_to_mission == b.est_to_mission
            &&& b.pumped().est_to_formation == b.est_to_formation
            &&& b.pumped().sp_out == b.sp_out
            &&& b.pumped().act_out == b.act_out
            &&& b.pumped().mode_out == b.mode_out
            &&& b.pumped().health_out == b.health_out
            &&& b.pumped().neighbor_out == b.neighbor_out
        },
{
    lemma_given_changes(b.imu_in, b.imu_to_est, 8);
    lemma_given_changes(b.imu_in, b.imu_to_fdir, 8);
    lemma_given_changes(b.gps_in, b.gps_out, 4);
    lemma_given_changes(b.est_in, b.est_to_ctrl, 4);
    lemma_given_changes(b.est_in, b.est_to_fdir, 4);
    lemma_given_changes(b.est_in, b.est_to_mission, 4);
    lemma_given_changes(b.est_in, b.est_to_formation, 4);
    lemma_given_changes(b.sp_in, b.sp_out, 4);
    lemma_given_changes(b.act_in, b.act_out, 4);
    lemma_given_changes(b.mode_in, b.mode_out, 4);
    lemma_given_changes(b.health_in, b.health_out, 4);
    lemma_given_changes(b.neighbor_in, b.neighbor_out, 4);
}

} // verus!
