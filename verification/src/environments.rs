//! Environments: the scopes a running program's variables live in.
pub mod environment;
pub mod environment_stack;
