//! Control laws.
//!
//! Each law is cut where it needs an angle function of a value that it has just
//! computed: the caller supplies sines, cosines and angles.

pub mod attitude;
pub mod indi;
pub mod lqr;
pub mod manual;
pub mod mpc;
pub mod mpc_laws;
pub mod pid;
pub mod pid_laws;
pub mod tecs;
pub mod trait_def;
