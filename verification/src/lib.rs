//! Logic of the codeloupe MCP server: exploring, comparing and editing a
//! workspace of source files.

pub mod common;
pub mod diffs;
pub mod encoding;
pub mod fractions;
pub mod globs;
pub mod history;
pub mod indexer;
pub mod json;
pub mod line_endings;
pub mod line_search;
pub mod lines;
pub mod numbers;
pub mod order;
pub mod parsing;
pub mod path_order;
pub mod paths;
pub mod patterns;
pub mod requests;
pub mod security;
pub mod sorted;
pub mod sorted_map;
pub mod syntax;
pub mod text;
pub mod tools;
pub mod transport;
pub mod unicode;
pub mod words;
pub mod workspaces;
