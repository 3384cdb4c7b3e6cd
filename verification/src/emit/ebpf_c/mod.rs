//! The C back end: a tracepoint unit rendered as C source for clang.
pub mod tracepoint;
