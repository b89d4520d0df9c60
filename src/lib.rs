//! Admission control, session state machine and transport-security resolution
//! for an SMTP front end, with their contracts proved by Verus.

pub mod account;
pub mod cache;
pub mod dane;
pub mod envelope;
pub mod limiter;
pub mod request_error;
pub mod resolver;
pub mod session;
pub mod text;
pub mod throttle;
