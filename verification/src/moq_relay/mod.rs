pub mod types;
pub mod events;
pub mod route;
pub mod session;
pub mod relay;
