//! A small map that keeps up to `N` entries in a fixed number of slots and
//! finds keys by a linear scan, without hashing.

mod iter;
pub mod laws;
mod map;
pub mod model;
mod serialization;
mod pair;

pub use iter::{MapIntoIter, MapIter};
pub use map::MicroMap;
pub use pair::Pair;
pub use serialization::DecodeError;
