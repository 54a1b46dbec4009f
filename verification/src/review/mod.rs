//! The review side: prompt construction, grading and the session rules.

pub mod model;
pub mod grader;
pub mod service;
