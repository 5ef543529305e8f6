pub mod error;
pub mod frame;
pub mod varint;
pub mod config;
pub mod capsule;
pub mod flow_control;
pub mod stream;
pub mod h3;
pub mod keyed;
pub mod session;
pub mod connection;
