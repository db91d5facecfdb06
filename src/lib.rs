//! Approximate nearest-neighbour index over 128-bit binary codes, using
//! bit-sampling locality-sensitive hashing under the Hamming metric.
//!
//! Each table samples `k` distinct bit positions and files every code in the
//! bucket that those bits select; a lookup scans only the query's bucket. An
//! index holds `l` independently sampled tables over one shared value store and
//! returns the nearest of what its tables find.

pub mod distance;
pub mod hash;
pub mod index;
pub mod nearest;
pub mod perturb;
pub mod random;
pub mod table;

pub use distance::{hamming_distance, HammingCode};
pub use hash::hash;
pub use index::HammingLSH;
pub use nearest::nearest;
pub use perturb::hamming_peturb;
pub use table::{HammingTable, MAX_K};
