//! The link to the ground station: frames, messages, telemetry and commands.

pub mod bridge;
pub mod link;
pub mod mavlink;
pub mod telemetry;
