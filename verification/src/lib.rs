//! A flight controller for a multirotor, from the message bus to the estimators.

pub mod bus;
pub mod comm;
pub mod config;
pub mod controller;
pub mod estimator;
pub mod fdir;
pub mod filter;
pub mod flightmode;
pub mod flyctrl;
pub mod guidance;
pub mod ring;
pub mod rotation_laws;
pub mod sensors;
pub mod single;
pub mod sitl;
pub mod units;
pub mod vehicle;
