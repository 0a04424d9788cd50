//! The tasks of the flight controller, without the devices and clocks around them.

pub mod control;
pub mod hil_shmem;
pub mod pace;
pub mod sensors_task;
