//! Verified core of a client library for Shelly Gen2+ smart devices and the
//! Shelly Cloud API, together with the pure logic of its command-line client.

pub mod chunked;
pub mod cloud;
pub mod cloud_config;
pub mod commands;
pub mod device;
pub mod error;
pub mod json_text;
pub mod log_stream;
pub mod login;
pub mod minify;
pub mod rpc;
pub mod text;
pub mod upload;
pub mod util;

pub use crate::error::Error;
