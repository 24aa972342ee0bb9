pub mod compression;
pub mod deserializer;
pub mod errors;
pub mod metadata;
pub mod pakfile;
pub mod path_order;
pub mod serializer;
