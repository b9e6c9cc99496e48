pub mod config;
pub mod cors;
pub mod http;
pub mod json;
pub mod strutil;
