//! Diagnostics: error categories and codes, source files, and the
//! diagnostics built from them.
pub mod category;
pub mod diagnostic;
pub mod error_code;
pub mod source_manager;
