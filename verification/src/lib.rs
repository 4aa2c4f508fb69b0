//! A chunked voxel block store built on palette compression and
//! bit-packed storage: machine words holding runs of N-bit values,
//! span views with sub-word alignment, bulk pack/unpack codecs, and a
//! chunk palette that maps block identifiers to dense indices.

pub mod part;
pub mod order;
pub mod pack_vec;
pub mod span;
pub mod codec;
pub mod block;
pub mod search;
pub mod index_map;
pub mod palette;
pub mod chunk;
