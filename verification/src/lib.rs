//! A simple search-path file finder.
//!
//! The [`SearchPath`] type keeps an ordered list of directory entries and
//! resolves file or directory names against them, the way a shell resolves
//! executables through the `PATH` environment variable. It can be built from
//! a single path, from an explicit list of paths, or from a delimited text
//! such as the value of an environment variable.

pub mod entry_list;
mod fs_probe;
pub mod path_text;
pub mod search_path;

pub use crate::search_path::all_hits;
pub use crate::search_path::first_hit;
pub use crate::search_path::SearchPath;
