pub mod callable;
pub mod cli;
pub mod environments;
pub mod expressions;
pub mod grammar;
pub mod interpreter;
pub mod literals;
pub mod parser;
pub mod resolver;
pub mod scanner;
pub mod semantics;
pub mod statements;
pub mod text;
pub mod tokens;
