pub mod codec;
pub mod error;
pub mod varint;
pub mod types;
pub mod params;
pub mod message;
