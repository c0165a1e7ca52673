//! The scan engine: adapters' logic over the domain model, output
//! rendering, duplicate and junk detection, synchronisation of changes,
//! and the engine's own model under [`domain`].
pub mod domain;
pub mod filter;
pub mod sort;
pub mod format;
pub mod formats;
pub mod treeops;
pub mod sync;
pub mod sync_laws;
pub mod syncer;
pub mod dupes;
pub mod junk;
pub mod tree;
pub mod cache;
pub mod trash;
pub mod service;
pub mod scanner;
pub mod walk_cache;
pub mod walktree;
pub mod snapshot;
pub mod output;
