//! `binlink` — a command-name dispatcher.
//!
//! One executable is symlinked under many binary names; whichever name it is
//! invoked as, it resolves that name to a concrete on-disk binary through two
//! layered configuration sources (a machine-wide one and a project-local one),
//! then hands process control to the resolved target, with script (shebang)
//! detection and loop prevention when falling back to a system `PATH` search.
//!
//! This crate is the resolution-and-replacement engine itself: the
//! configuration model, the resolver that merges the two sources into one
//! name-to-directory table, and the dispatcher logic that picks the target
//! and assembles its argument vector and environment. File reading, symlink
//! creation and the actual process replacement live outside the library.

pub mod cfg;
pub mod cli;
pub mod dispatch;
pub mod table;
