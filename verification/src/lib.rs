use vstd::prelude::*;

pub mod json;
pub mod lex;
pub mod message;
pub mod model;
pub mod queue;
pub mod repo;
pub mod laws;
mod ident;

verus! {

/// Errors surfaced by the queue engine, mirroring the HTTP status taxonomy
/// the server maps them to.
#[derive(Clone, Copy, Debug, PartialEq, Eq, Structural)]
pub enum AppError {
    /// Malformed input, such as a payload that is not well-formed JSON.
    BadInput,
    /// A numeric field outside its allowed range.
    Validation,
    /// A uniqueness violation, such as a duplicate queue name or identifier.
    Conflict,
    /// The named queue does not exist.
    NotFound,
}

/// Server configuration, filled in by the command-line front end.
pub struct Options {
    /// The port to bind the server to.
    pub port: u16,
    /// The maximum request timeout, in seconds.
    pub request_timeout: Option<u64>,
    /// The database name; `:memory:` selects a purely in-memory store.
    pub database: String,
}

} // verus!
