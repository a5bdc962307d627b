//! Verified core of the RustWeatherML daily-prediction system.
//!
//! The library holds the decision logic of the system over plain values:
//! weather-condition classification, request planning, README splicing,
//! drift-monitor bookkeeping and artifact validation.  Everything that is
//! floating-point arithmetic, network or disk I/O lives in `app/`.

pub mod data;
pub mod production;
