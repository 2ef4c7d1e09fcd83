//! Decoding of PS5 DualSense controller input reports into input events,
//! with configurable thresholds, dead-zones and exclusion filters.

pub mod types;
pub mod config;
pub mod event;
pub mod controller;

pub use types::{Button, DPad, StickSide, TriggerSide};
pub use config::{Config, ConfigBuilder};
pub use event::{Event, TouchPoint};
pub mod report_laws;
