//! A debouncer for filesystem events, and the checks of a plugin project.
//!
//! A watcher reports changes of the file system as a stream of raw events: many of them,
//! often several for one change, and a rename as two. The debouncer collects them per path
//! for a debounce window, merges what belongs together, puts the two halves of a rename
//! together with the help of a cache of file identities, and hands out what has been quiet
//! for the window, ordered by deadline.
//!
//! - [`event`], [`file_id`], [`path`], [`path_map`]: the values the debouncer works on.
//!   Paths are strings, spelled in the one way that [`path::is_plain_path`] allows.
//! - [`cache`]: the cache of file identities as the debouncer sees it, and one that is told
//!   what the file system holds; [`testing`] has one that reads a map in memory.
//! - [`queue`]: the events pending for one path, and the merge table.
//! - [`model`]: what each operation makes of a state, over plain values.
//! - [`debouncer`]: the debouncer itself; [`driver`] gives it a clock.
//! - [`sort`]: the order of a batch.
//! - [`laws`]: what holds whatever comes in; [`lemmas`]: the steps of their proofs.
//! - [`schema`]: test cases in declarative form.
//! - [`project`], [`cli`], [`json`]: project files and the commands that check, sync and
//!   publish a plugin.

pub mod cache;
pub mod cli;
pub mod debouncer;
pub mod driver;
pub mod event;
pub mod file_id;
pub mod json;
pub mod laws;
pub mod lemmas;
pub mod model;
pub mod path;
pub mod path_map;
pub mod project;
pub mod queue;
pub mod schema;
pub mod sort;
pub mod testing;
