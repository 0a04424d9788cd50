//! Estimation of attitude, motion and sensor errors.

pub mod aids;
pub mod anchor_laws;
pub mod any_step;
pub mod c1;
pub mod complementary;
pub mod ekf;
pub mod ekf_field;
pub mod ekf_laws;
pub mod eskf;
pub mod eskf_estimator;
pub mod eskf_laws;
pub mod eskf_step;
pub mod learning;
pub mod linear;
pub mod nominal;
pub mod select;
pub mod sight_laws;
