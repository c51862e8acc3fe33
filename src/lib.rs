pub mod path;
pub mod node;
pub mod json;
pub mod client;
pub mod server;
