//! A store of text passages with their embeddings, and the ranking of the
//! stored passages by their similarity to a query.
//!
//! The library holds the rules and leaves input and output to its caller:
//! `codec` turns a vector into the blob of one table column and back,
//! `repository` says which row stands for a record and which record for a
//! row, `generator` says which answers of the embedding model are accepted,
//! `batch` follows the writing of a batch row by row, `similarity` ranks
//! scored candidates, and `store` is a table held in memory.
//!
//! Floating-point numbers occur as their 32-bit patterns only (`score`).
pub mod batch;
pub mod codec;
pub mod error;
pub mod generator;
pub mod ranking;
pub mod record;
pub mod repository;
pub mod score;
pub mod similarity;
pub mod store;
