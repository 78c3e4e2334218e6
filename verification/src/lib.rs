//! Verified core of a document indexing and retrieval pipeline.
//!
//! Documents are cut into chunks, every chunk is stored with an embedding
//! and the name of its document, and a query is answered from the chunks
//! nearest to it.  The crate holds the rules of that pipeline: how text is
//! segmented, what may be stored, how stored chunks are ranked, and which
//! step follows which event.  Reading files, running the embedding model,
//! talking to a database and serving requests are left to the caller, who
//! performs the actions this crate decides on and reports their outcomes.

pub mod embedding;
pub mod ingest;
pub mod path;
pub mod rank;
pub mod retrieve;
pub mod score;
pub mod segment;
pub mod store;
pub mod text;
