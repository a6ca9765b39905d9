//! Record store and settlement pipeline for a race-prediction betting game.
//!
//! Entities (participants, predictions, official results, drivers) are kept
//! as comma-delimited text tables.  A settlement run grades every prediction
//! against the current official result, credits the points to the matching
//! participants, and marks the result processed so that the same event is
//! never graded twice.

pub mod codec;
pub mod entities;
pub mod errors;
pub mod num;
pub mod scoring;
pub mod settlement;
pub mod store;
pub mod text;
