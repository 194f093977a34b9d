//! Chat-export text model and streaming statistics.
//!
//! The crate turns the polymorphic text field of a chat message into an
//! ordered list of segments, cuts segments into words, classifies messages
//! and folds them one by one into a [`stats::Stats`] aggregate.

pub mod token;
pub mod text;
pub mod tally;
pub mod message;
pub mod stats;
pub mod report;
pub mod document;
