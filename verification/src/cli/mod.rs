//! The command line's side of the library: argument values and the
//! summary it prints.
pub mod args;
pub mod summary;
