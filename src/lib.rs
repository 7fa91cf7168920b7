//! Command aliases: a persisted alias table, the resolver that turns an alias
//! into a shell command line, the decision core of the interactive relay, and
//! the bordered text box used for every message.

pub mod chars;
pub mod debug;
pub mod store;
pub mod db;
pub mod resolve;
pub mod relay;
pub mod cli;
