//! Reading and writing pak files: a write-once, read-many archive format.
//!
//! A pak is laid out as `header | manifest | metadata | data`; all integers are
//! little-endian and all paths UTF-8. `serialization::serializer::PakWriter`
//! builds the bytes of a pak, `serialization::deserializer::read_structure`
//! parses them back, and `PakFile` answers path lookups against a parsed pak.

pub mod laws;
pub mod pakfile;
pub mod serialization;
pub mod util;
pub use pakfile::PakFile;
