//! Core of an endpoint activity-telemetry agent: policy-governed capture
//! decisions, an encrypted persistent event queue, and the authenticated
//! shipping pipeline, with machine-checked contracts throughout.

pub mod auth;
pub mod capture;
pub mod control;
pub mod crypto;
pub mod focus;
pub mod json;
pub mod net;
pub mod paths;
pub mod persist;
pub mod policy;
pub mod queue;
pub mod state;
pub mod textenc;
pub mod throttle;
