//! Indexing and retrieval core of a local semantic audio search engine.
//!
//! The crate holds the decisions and data layouts of the engine: content
//! hashing, the embedding byte codec, audio segmentation, mel-spectrogram
//! shaping, embedder batching, catalog upserts, vector-index bookkeeping,
//! query post-processing and the indexing status machine. Floating-point
//! values travel through it as IEEE-754 bit patterns.

pub mod catalog;
pub mod codec;
pub mod decimal;
pub mod embedder;
pub mod hashing;
pub mod indexing_status;
pub mod ingest;
pub mod mel;
pub mod paths;
pub mod preprocess;
pub mod search;
pub mod segmentation;
pub mod text;
pub mod update;
pub mod vector_index;
