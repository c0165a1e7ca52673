pub mod text;
pub mod numfmt;
pub mod sorting;
pub mod sums;
pub mod grouping;
pub mod paths;
pub mod domain;
pub mod engine;
pub mod gui;
pub mod cli;
