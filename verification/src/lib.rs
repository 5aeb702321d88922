pub mod codec;
pub mod service;
pub mod store;
pub mod types;
