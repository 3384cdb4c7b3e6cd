//! The abstract syntax tree produced by the parser.
pub mod event;
pub mod map;
pub mod model;
pub mod program;
pub mod unit;
