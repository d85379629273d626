//! Request handling core of a small HTTP server: wire parsing, route and
//! session resolution, script-output interpretation and response assembly.

pub mod config;
pub mod database_utils;
pub mod decimal;
pub mod handler;
pub mod request;
pub mod resolver;
pub mod response;
pub mod script_runner;
pub mod string_map;
pub mod text;
pub mod unicode;
