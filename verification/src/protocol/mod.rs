pub mod cursor;
pub mod error;
pub mod headers;
pub mod json_mode;
pub mod offset;
pub mod producer;
pub mod sse;
