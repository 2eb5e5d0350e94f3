//! Chunk-based binary diffing: signatures of fixed-size chunks and a delta
//! stream computed against them with a one-chunk lookahead.

pub mod delta;
pub mod hashing;
pub mod laws;
pub mod mem_data;
pub mod processor;
pub mod stream;

pub use hashing::HASH_SIZE;
pub use mem_data::MemData;
pub use processor::{Processor, ProcessorError, CHUNK_SIZE};
pub use stream::{ProcessorDataInput, ProcessorDataOutput};
