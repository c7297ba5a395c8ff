//! The core of a polling file watcher.
//!
//! A watcher looks at the watched files again and again, compares what it finds with what it found
//! before, and tells its user of the difference. This library holds everything about that which
//! can be decided without touching a file: how paths are compared and reported, which watches may
//! stand side by side, what is recorded of an entry, what lies between two scans, and when the
//! next scan is due. Whoever uses it looks at files, keeps the time, and hands over what came of
//! it.
//!
//! - [`path`] and [`path_map`]: paths, and maps whose keys are paths.
//! - [`filter`], [`error`], [`event`]: what users ask for, and what they are told.
//! - [`paths`]: watched paths, their reported form, and the barriers between watches.
//! - [`data`], [`scan`], [`hash`]: what is known of files, and how it becomes known.
//! - [`poll_loop`], [`poll`], [`handler`]: the watcher, its loop, and those who listen to it.
//! - [`cache`]: caches of file IDs.
//! - the modules whose names end in `_laws`: what holds of all these together, of what is said of
//!   the functions, and of every call of them.

pub mod cache;
pub mod chain;
pub mod change_laws;
pub mod data;
pub mod data_laws;
pub mod error;
pub mod event;
pub mod event_laws;
pub mod filter;
pub mod filter_laws;
pub mod handler;
pub mod hash;
pub mod operation_laws;
pub mod path;
mod path_index;
pub mod path_laws;
pub mod path_map;
pub mod paths;
pub mod paths_laws;
pub mod poll;
pub mod poll_laws;
pub mod poll_loop;
pub mod scan;
pub mod scan_laws;
