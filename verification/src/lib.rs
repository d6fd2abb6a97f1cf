//! File storage over plain HTTP: request-head parsing, response building and
//! encoding, request routing for the storage server, and the command-line
//! grammar and URL rules of its client.

pub mod text;
pub mod request;
pub mod response;
pub mod handler;
pub mod plain_handler;
pub mod file_response;
pub mod config;
pub mod client;
pub mod cli;
