//! Supervised dispatch of mail files through a spam classification pipeline:
//! a bounded cache, a completion supervisor, a pool of file readers, a work
//! queue and the per-item prediction service, each a sequential state machine
//! whose steps are verified against a mathematical model of its state.

pub mod digest;
pub mod email;
pub mod email_reader;
pub mod errors;
pub mod extraction;
pub mod cache;
pub mod files;
pub mod labels;
pub mod model;
pub mod model_training_service;
pub mod service;
pub mod state;
pub mod tally;
pub mod text_analysis;
