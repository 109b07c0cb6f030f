//! The index as bytes.

pub mod format;
pub mod reader;
pub mod writer;

pub use format::CodecError;
pub use reader::load_geo_index;
pub use writer::save_geo_index;
