//! A bounded, append-until-full recorder of timed keyboard events with two
//! export encodings: a comma-separated table and a sequence of records.
//!
//! The recorder never reads a clock itself: the caller hands every event its
//! instant, so each operation is a function of the recorder and its arguments.

pub mod decimal;
pub mod timestamp;
pub mod event;
pub mod text;
pub mod capture;
pub mod laws;
