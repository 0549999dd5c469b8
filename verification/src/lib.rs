//! A temporal statistics ledger and feature-generation pipeline for sports
//! match records.
//!
//! A chronological list of matches is turned into numeric training and
//! testing vectors: a registry assigns every club a dense index, a ledger
//! keeps per-club scoring history, and a feature generator derives one
//! feature vector per match while advancing the ledger strictly in match
//! order, so that no feature ever depends on a later match.
//!
//! Feature values are exact rationals ([`ratio::Ratio`]); converting them to
//! machine floats is left to the caller that feeds the prediction model.
pub mod causality;
pub mod features;
pub mod generators;
pub mod ledger;
pub mod models;
pub mod ratio;
pub mod report;
pub mod stats;
pub mod utils;
