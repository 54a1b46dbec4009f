//! The memory side: events, the integer projection of the event stream, and the
//! visit and statistics rules.

pub mod model;
pub mod projection;
pub mod service;
pub mod events;
