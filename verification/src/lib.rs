//! Vector search over compressed vectors.
//!
//! Vectors are compressed to two, three or four bits per coordinate. The
//! positional index [`TurboQuantIndex`] stores the codes, finds vectors by
//! their slot, and keeps what searching needs; [`codebook`] and
//! [`codebook_cache`] hold the quantizer's codebooks and the files that they
//! are kept in; [`pack`] arranges the codes in the blocks that scoring reads.
//!
//! The library does no arithmetic on floating point numbers and no input or
//! output. The numeric kernels (the rotation, the codebook, the encoding, the
//! scoring) and the reading and writing of files are functions that the caller
//! hands in; see [`kernels`] for what they are given. Everything else is proved:
//! what is handed to a kernel, what becomes of what it gives, when something
//! kept is used and when it is made again, and what is refused.
//!
//! [`index_effects`] says field by field what each operation on an index does,
//! [`index_laws`] what holds across several of them, and [`freshness`] that what
//! an index keeps is never stale.

pub mod bytes;
pub mod codebook;
pub mod codebook_cache;
pub mod error;
pub mod float32;
pub mod freshness;
pub mod index;
pub mod index_effects;
pub mod index_laws;
pub mod kernels;
pub mod pack;
pub mod runtime_cache;
pub mod search;
pub mod text;
pub mod validate;

pub use error::{AddError, ConstructError, FromPartsError};
pub use float32::Float32;
pub use index::{TurboQuantIndex, MAX_DIM};
pub use search::SearchResults;
pub use validate::first_invalid_coord;
