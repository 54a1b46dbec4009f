//! Lexica: the verified core of a local-first English dictionary with spaced review.
//!
//! The library holds the rules of the application: word normalisation, entry
//! assembly and suggestion ranking, cloze construction and answer grading, the
//! integer side of the memory projection, the visit and review policies, the
//! ECDICT and seed mappings, the validation of generated example sentences, and
//! the errors, statistics and lists that the front end receives.

pub mod domain;
pub mod text;
pub mod scan;
pub mod memory;
pub mod dictionary;
pub mod review;
pub mod ai;
pub mod error;
pub mod library;
pub mod commands;
pub mod database;
