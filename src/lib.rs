pub mod parser;
pub mod codec;
pub mod compare;
pub mod generate;
pub mod config;
pub mod plugin;
