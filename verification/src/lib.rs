pub mod args;
pub mod error;
pub mod paths;
pub mod render;
pub mod yaml;
