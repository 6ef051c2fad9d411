//! Limcode: a binary codec whose output is byte-identical to the classic
//! fixed-layout little-endian wire format (fixed-width integers, 8-byte
//! element-count prefixes, 1-byte option tags, 4-byte enum variant indices).
//!
//! Every executable function here carries a contract over the wire format of
//! `wire`, and is checked against it.

pub mod accel;
pub mod codec;
pub mod copy;
pub mod framing;
pub mod parallel;
pub mod reader;
pub mod snapshot;
pub mod ultra_fast;
pub mod value;
pub mod wire;
pub mod writer;

pub use accel::{LimcodeDecoder, LimcodeEncoder};
pub use codec::{
    chunk_size_for, deserialize_bincode, deserialize_bincode_unchecked, select_sequence_strategy,
    select_strategy, serialize_bincode, Decoder, Encoder, Strategy,
};
pub use copy::{fast_copy, fast_copy_with, select_copy_tier, CopyTier, VectorWidth};
pub use framing::{
    deserialize_pod_compressed, deserialize_pod_safe, deserialize_pod_with_checksum,
    serialize_pod_compressed, serialize_pod_safe, serialize_pod_with_checksum,
};
pub use parallel::{serialize_pod_parallel, serialize_vec_parallel};
pub use reader::{deserialize_pod, deserialize_pod_borrowed, Deserializer, PodView};
pub use reader::Error as DeError;
pub use ultra_fast::{return_to_pool, serialize_hybrid, serialize_pooled, BufferPool};
pub use writer::{serialize_pod, serialize_pod_into, FastWriter, PodType, Serializer};
pub use writer::Error as SerError;
