pub mod config;
pub mod handlers;
pub mod protocol;
pub mod storage;
pub mod text;
