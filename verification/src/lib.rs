//! Extended Boolean retrieval: fuzzy AND/OR scoring of documents against a
//! query, and bounded top-K selection under three execution strategies.
//!
//! Weights and scores are IEEE 754 single-precision values carried as their
//! bit patterns in `u32`; the arithmetic itself is done by trusted wrappers
//! around a software implementation of the exactly rounded IEEE operations,
//! while everything the engine decides from those numbers is verified
//! integer logic.

pub mod error;
pub mod op;
pub mod rank;
pub mod rank_result;
pub mod score;
pub mod scorer;
pub mod text;
pub mod topk;
