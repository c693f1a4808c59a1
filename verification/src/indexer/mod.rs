//! The index of the paths of a workspace, and what is known of its contents.

pub mod candidates;
pub mod content;
pub mod path_index;
pub mod refresh;
pub mod runtime;
pub mod settings;
pub mod updates;
