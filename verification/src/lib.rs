pub mod endpoint;
pub mod headers;
pub mod json;
pub mod models;
pub mod request;
pub mod stream;
pub mod text;
