//! Ingestion-and-retrieval pipeline for a notebook of attached documents.
//!
//! Raw files become searchable vector chunks: text is split on paragraph
//! boundaries ([`text`]), packed into batches for the embedding engine
//! ([`embed`]), and stored as fixed-point vectors in an append-only columnar
//! index with scoped nearest-neighbor search ([`index`], [`vector`]). A
//! relational ledger tracks each attachment's lifecycle ([`ledger`]), and
//! [`pipeline`] holds both stores coherent: an attachment is `Ready` exactly
//! when its chunks are durably indexed, and no vector record outlives its
//! attachment. At query time the chat engine grounds the language model in
//! the retrieved chunks, or refuses outright when there are none ([`chat`]).
//!
//! File extension dispatch and the chunking pre-checks live in
//! [`extract`]; the readers themselves (the verbatim file read, the PDF
//! text extractor) run outside the library and hand in plain text.
//! [`errors`] is the failure taxonomy these components share.

pub mod chat;
pub mod embed;
pub mod errors;
pub mod extract;
mod ids;
pub mod index;
pub mod ledger;
pub mod notebook;
pub mod pipeline;
pub mod seqs;
pub mod text;
pub mod vector;
