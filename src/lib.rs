//! A small kernel-model language: a front end that turns KML source text into a
//! validated `Model`, and an interpreter that runs the model's events against an
//! abstract task table under a FIFO or random scheduling policy.
pub mod api;
pub mod error;
pub mod event;
pub mod kernel;
pub mod parse;
pub mod scheduler;
pub mod state;
