pub mod json;
pub mod text;
pub mod history;
pub mod response;
pub mod function;
pub mod message;
pub mod model;
pub mod client;
pub mod claude;
pub mod digest;
pub mod input;
pub mod bedrock;
pub mod api_key;
pub mod setup;
pub mod sse;
