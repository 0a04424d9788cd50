//! Sensor readings: from raw device data to samples, with safe values where a
//! sensor is missing.

pub mod bmi088;
pub mod bmp280;
pub mod nmea;
pub mod sim;
pub mod stack;
