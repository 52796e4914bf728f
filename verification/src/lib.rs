//! Retrieval core of a retrieval-augmented chat service: a store of embedded
//! passages, ranking by similarity, the shared conversation log, and the
//! assembly of what is handed to the language model.
//!
//! Similarities and vector components are carried as IEEE-754 single-precision
//! bit patterns, so that all ordering decisions are integer arithmetic.

pub mod similarity;
pub mod ranker;
pub mod store;
pub mod session;
pub mod context;
pub mod chat;
pub mod notify;
