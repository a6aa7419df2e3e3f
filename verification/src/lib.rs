//! The decisions of an asynchronous Redis client, apart from its sockets and its executor.
//!
//! - [`cmd`]: commands, and how they are packed into bytes;
//! - [`parser`]: the grammar of replies;
//! - [`connection`]: how a server is reached, and how a fresh connection makes itself known;
//! - [`response`]: the channel that a response goes through;
//! - [`pipeline`]: many requests in progress on one connection;
//! - [`aio`]: a connection for one caller, and one that many callers share;
//! - [`types`]: values and errors.
//!
//! The modules named after others with `_laws` hold what is true of them over many calls;
//! [`call_laws`] holds what callers can rely on, from what they give to what they get.

pub mod aio;
pub mod call_laws;
pub mod cmd;
pub mod cmd_laws;
pub mod connection;
pub mod connection_laws;
pub mod parser;
pub mod parser_laws;
pub mod pipeline;
pub mod pipeline_laws;
pub mod response;
pub mod types;
