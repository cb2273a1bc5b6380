//! Web Pipe: a pipeline-oriented language for web applications.
//!
//! This crate holds the language front end (the `.wp` parser and printer),
//! the pure decision logic of the executor (tag conditions, branch selection,
//! step naming) and the configuration and text processing done by the
//! built-in middleware.

pub mod text;
pub mod json;
pub mod ast;
pub mod tags;
pub mod step;
pub mod modules;
pub mod resolver;
pub mod rate_limit;
pub mod schema;
pub mod error;
pub mod config;
pub mod auth;
pub mod cli;
pub mod cli_args;
pub mod join;
pub mod template;
pub mod migrations;
pub mod request;
pub mod context;
pub mod loader;
pub mod validate;
pub mod parser;
pub mod describe;
pub mod program;
pub mod printer;
pub mod readback;
pub mod tag_readback;
pub mod debugger;
pub mod graphql;
pub mod log;
pub mod cache;
pub mod middleware;
pub mod grammar;
pub mod fetch;
pub mod pg;
