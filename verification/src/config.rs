//! What kind of aircraft this is: one description from which the control laws and
//! the simulation take their parameters.

use crate::single::Single;
use vstd::prelude::*;

verus! {

/// The physical and geometric parameters of an aircraft, and its limits and gains.
#[derive(Debug, Clone, Copy)]
pub struct VehicleConfig {
    pub name: &'static str,
    /// Kilograms.
    pub mass: Single,
    /// From the centre to a motor, in metres.
    pub arm_length: Single,
    /// The thrust of one motor at full throttle, in newtons.
    pub thrust_coeff: Single,
    /// The torque of a motor, in newton metres.
    pub torque_coeff: Single,
    /// The principal moments of inertia.
    pub inertia: [Single; 3],
    /// The time constant of a motor, in seconds.
    pub motor_tau: Single,
    /// The nominal voltage of the battery.
    pub battery_v_nom: Single,
    /// The inner resistance of the battery, in ohms.
    pub battery_r: Single,
    /// The speed of a motor per volt.
    pub motor_kv: Single,
    /// The resistance of a motor's winding, in ohms.
    pub motor_r: Single,
    /// The inertia of a motor with its propeller.
    pub rotor_inertia: Single,
    pub rotor_blades: Single,
    pub rotor_solidity: Single,
    /// The slope of a blade's lift over its angle of attack.
    pub rotor_cl_alpha: Single,
    /// The drag of a blade at zero lift.
    pub rotor_cd0: Single,
    /// The angle of attack at which a blade stalls.
    pub rotor_stall_alpha: Single,
    /// How much a rotor's downwash reaches the rotor behind it in forward flight.
    pub rotor_downwash_coupling: Single,
    /// The drag of the body along its three axes.
    pub drag_coeff: [Single; 3],
    pub induced_drag_coeff: Single,
    /// The area of the rotor disks, in square metres.
    pub disk_area: Single,
    pub slipstream_drag_coeff: Single,
    /// Kilograms per cubic metre.
    pub air_density: Single,
    /// Metres per second squared, downwards positive.
    pub gravity: Single,
    /// The largest tilt that may be commanded, in radians.
    pub tilt_max: Single,
    /// The throttle of a hover.
    pub hover_thrust: Single,
    /// The largest speed over the ground that may be commanded.
    pub vmax_xy: Single,
    /// The largest vertical speed that may be commanded.
    pub vmax_z: Single,
    /// From attitude error to rate.
    pub att_kp: Single,
    /// The damping of the rates.
    pub att_kd: Single,
    /// From position error to speed.
    pub kp_xy: Single,
    /// From speed error to acceleration.
    pub kv_xy: Single,
    /// The time constant with which the vertical estimates are smoothed; zero does
    /// not smooth.
    pub vel_lpf_tau: Single,
    /// How much airspeed drag is compensated; zero does not compensate.
    pub drag_fwd: Single,
}

/// What the simulation needs of a description.
#[derive(Debug, Clone, Copy)]
pub struct DynParams {
    pub mass: Single,
    pub arm_length: Single,
    pub thrust_coeff: Single,
    pub torque_coeff: Single,
    pub inertia: [Single; 3],
    pub motor_tau: Single,
    pub gravity: Single,
    pub drag_coeff: [Single; 3],
    pub induced_drag_coeff: Single,
    pub disk_area: Single,
    pub slipstream_drag_coeff: Single,
    pub air_density: Single,
    pub battery_v_nom: Single,
    pub battery_r: Single,
    pub motor_kv: Single,
    pub motor_r: Single,
    pub rotor_inertia: Single,
}

/// What the control laws need of a description.
#[derive(Debug, Clone, Copy)]
pub struct CtrlParams {
    pub mass: Single,
    pub gravity: Single,
    pub tilt_max: Single,
    pub hover_thrust: Single,
    pub vmax_xy: Single,
    pub vmax_z: Single,
    pub att_kp: Single,
    pub att_kd: Single,
    pub kp_xy: Single,
    pub kv_xy: Single,
    pub vel_lpf_tau: Single,
    pub drag_fwd: Single,
}

impl VehicleConfig {
    /// An X quadrotor of 450 millimetres and 1.2 kilograms that lifts 2.4 times the
    /// weight of a kilogram at full throttle.
    pub open spec fn quad() -> VehicleConfig {
        VehicleConfig {
            name: "450quad-X",
            mass: Single::of_ratio(12, 10),
            arm_length: Single::of_ratio(225, 1000),
            thrust_coeff: Single::of_ratio(24, 10) * Single::of_ratio(981, 100) / Single::of_int(4),
            torque_coeff: Single::of_ratio(2, 100),
            inertia: [
                Single::of_ratio(2, 100),
                Single::of_ratio(2, 100),
                Single::of_ratio(4, 100),
            ],
            motor_tau: Single::of_ratio(5, 100),
            battery_v_nom: Single::of_ratio(148, 10),
            battery_r: Single::of_ratio(15, 1000),
            motor_kv: Single::of_ratio(1026, 10),
            motor_r: Single::of_ratio(12, 100),
            rotor_inertia: Single::of_ratio(12, 1_000_000),
            rotor_blades: Single::of_int(2),
            rotor_solidity: Single::of_ratio(8, 100),
            rotor_cl_alpha: Single::of_ratio(62832, 10000),
            rotor_cd0: Single::of_ratio(12, 1000),
            rotor_stall_alpha: Single::of_ratio(24, 100),
            rotor_downwash_coupling: Single::of_ratio(35, 100),
            drag_coeff: [
                Single::of_ratio(18, 100),
                Single::of_ratio(18, 100),
                Single::of_ratio(10, 100),
            ],
            induced_drag_coeff: Single::of_ratio(12, 100),
            disk_area: Single::of_ratio(19, 100),
            slipstream_drag_coeff: Single::of_ratio(6, 100),
            air_density: Single::of_ratio(1225, 1000),
            gravity: Single::of_ratio(981, 100),
            tilt_max: Single::of_ratio(35, 100),
            hover_thrust: Single::of_ratio(5, 10),
            vmax_xy: Single::of_int(2),
            vmax_z: Single::of_int(2),
            att_kp: Single::of_int(3),
            att_kd: Single::of_ratio(3, 10),
            kp_xy: Single::of_ratio(3, 10),
            kv_xy: Single::of_ratio(8, 10),
            vel_lpf_tau: Single::of_ratio(15, 100),
            drag_fwd: Single::of_ratio(14, 100),
        }
    }

    /// The baseline aircraft.
    pub fn default_quad() -> (r: VehicleConfig)
        ensures
            r == VehicleConfig::quad(),
    {
        VehicleConfig {
            name: "450quad-X",
            mass: Single::ratio(12, 10),
            arm_length: Single::ratio(225, 1000),
            thrust_coeff: Single::ratio(24, 10) * Single::ratio(981, 100) / Single::from_i32(4),
            torque_coeff: Single::ratio(2, 100),
            inertia: [Single::ratio(2, 100), Single::ratio(2, 100), Single::ratio(4, 100)],
            motor_tau: Single::ratio(5, 100),
            battery_v_nom: Single::ratio(148, 10),
            battery_r: Single::ratio(15, 1000),
            motor_kv: Single::ratio(1026, 10),
            motor_r: Single::ratio(12, 100),
            rotor_inertia: Single::ratio(12, 1_000_000),
            rotor_blades: Single::from_i32(2),
            rotor_solidity: Single::ratio(8, 100),
            rotor_cl_alpha: Single::ratio(62832, 10000),
            rotor_cd0: Single::ratio(12, 1000),
            rotor_stall_alpha: Single::ratio(24, 100),
            rotor_downwash_coupling: Single::ratio(35, 100),
            drag_coeff: [Single::ratio(18, 100), Single::ratio(18, 100), Single::ratio(10, 100)],
            induced_drag_coeff: Single::ratio(12, 100),
            disk_area: Single::ratio(19, 100),
            slipstream_drag_coeff: Single::ratio(6, 100),
            air_density: Single::ratio(1225, 1000),
            gravity: Single::ratio(981, 100),
            tilt_max: Single::ratio(35, 100),
            hover_thrust: Single::ratio(5, 10),
            vmax_xy: Single::from_i32(2),
            vmax_z: Single::from_i32(2),
            att_kp: Single::from_i32(3),
            att_kd: Single::ratio(3, 10),
            kp_xy: Single::ratio(3, 10),
            kv_xy: Single::ratio(8, 10),
            vel_lpf_tau: Single::ratio(15, 100),
            drag_fwd: Single::ratio(14, 100),
        }
    }

    pub open spec fn for_simulation(self) -> DynParams {
        DynParams {
            mass: self.mass,
            arm_length: self.arm_length,
            thrust_coeff: self.thrust_coeff,
            torque_coeff: self.torque_coeff,
            inertia: self.inertia,
            motor_tau: self.motor_tau,
            gravity: self.gravity,
            drag_coeff: self.drag_coeff,
            induced_drag_coeff: self.induced_drag_coeff,
            disk_area: self.disk_area,
            slipstream_drag_coeff: self.slipstream_drag_coeff,
            air_density: self.air_density,
            battery_v_nom: self.battery_v_nom,
            battery_r: self.battery_r,
            motor_kv: self.motor_kv,
            motor_r: self.motor_r,
            rotor_inertia: self.rotor_inertia,
        }
    }

    /// The parameters of the simulation.
    pub fn dyn_params(&self) -> (r: DynParams)
        ensures
            r == self.for_simulation(),
    {
        DynParams {
            mass: self.mass,
            arm_length: self.arm_length,
            thrust_coeff: self.thrust_coeff,
            torque_coeff: self.torque_coeff,
            inertia: self.inertia,
            motor_tau: self.motor_tau,
            gravity: self.gravity,
            drag_coeff: self.drag_coeff,
            induced_drag_coeff: self.induced_drag_coeff,
            disk_area: self.disk_area,
            slipstream_drag_coeff: self.slipstream_drag_coeff,
            air_density: self.air_density,
            battery_v_nom: self.battery_v_nom,
            battery_r: self.battery_r,
            motor_kv: self.motor_kv,
            motor_r: self.motor_r,
            rotor_inertia: self.rotor_inertia,
        }
    }

    pub open spec fn for_control(self) -> CtrlParams {
        CtrlParams {
            mass: self.mass,
            gravity: self.gravity,
            tilt_max: self.tilt_max,
            hover_thrust: self.hover_thrust,
            vmax_xy: self.vmax_xy,
            vmax_z: self.vmax_z,
            att_kp: self.att_kp,
            att_kd: self.att_kd,
            kp_xy: self.kp_xy,
            kv_xy: self.kv_xy,
            vel_lpf_tau: self.vel_lpf_tau,
            drag_fwd: self.drag_fwd,
        }
    }

    /// The parameters of the control laws.
    pub fn ctrl_params(&self) -> (r: CtrlParams)
        ensures
            r == self.for_control(),
    {
        CtrlParams {
            mass: self.mass,
            gravity: self.gravity,
            tilt_max: self.tilt_max,
            hover_thrust: self.hover_thrust,
            vmax_xy: self.vmax_xy,
            vmax_z: self.vmax_z,
            att_kp: self.att_kp,
            att_kd: self.att_kd,
            kp_xy: self.kp_xy,
            kv_xy: self.kv_xy,
            vel_lpf_tau: self.vel_lpf_tau,
            drag_fwd: self.drag_fwd,
        }
    }

    /// The same aircraft with other gains.
    pub fn with_gains(self, att_kp: Single, att_kd: Single, kp_xy: Single, kv_xy: Single) -> (r:
        VehicleConfig)
        ensures
            r == (VehicleConfig { att_kp, att_kd, kp_xy, kv_xy, ..self }),
    {
        VehicleConfig { att_kp, att_kd, kp_xy, kv_xy, ..self }
    }
}

impl Default for CtrlParams {
    fn default() -> (r: CtrlParams)
        ensures
            r == VehicleConfig::quad().for_control(),
    {
        VehicleConfig::default_quad().ctrl_params()
    }
}

} // verus!
