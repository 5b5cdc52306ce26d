//! A verified core for a minimal feed reader: an in-memory feed registry and
//! item store with the schema's uniqueness rules, the synchronization engine
//! that decides which fetched entries are genuinely new, and the helpers the
//! engine rests on (trimming, fingerprinting, syndication normalization).

pub mod auth;
pub mod error;
pub mod laws;
pub mod model;
pub mod repository;
pub mod seqs;
pub mod service;
pub mod storage;
pub mod text;
pub mod worker;
