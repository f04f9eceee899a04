//! A command-grammar engine: a tree of literal and argument nodes, a parser that
//! matches a line of input against it, and the dispatch of the commands that the
//! matched nodes name; together with a few protocol data types.

pub mod game_type;
pub mod text;
pub mod block;
pub mod packets;
pub mod exceptions;
pub mod string_reader;
pub mod arguments;
pub mod tree;
pub mod context;
pub mod dispatcher;
pub mod execution;
pub mod registration;
pub mod laws;
pub mod suggestion;
