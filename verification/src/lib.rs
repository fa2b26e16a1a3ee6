//! Scores each message in a group of messages by how representative it is of
//! the group's overall meaning, and persists the scores in fixed-size batches.
//!
//! Embedding vectors are held as fixed-point coordinates (integer multiples of
//! a small step), so every similarity is an exact rational number and the
//! scoring arithmetic can be verified end to end.

pub mod acquire;
pub mod batch;
pub mod config;
pub mod driver;
pub mod ingest;
pub mod models;
pub mod scoring;
pub mod vector;
