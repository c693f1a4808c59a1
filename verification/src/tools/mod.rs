//! What the tools of the server do, apart from reading and writing files.

pub mod ast_support;
pub mod atomic_write;
pub mod batch_tool_call;
pub mod compare_directories;
pub mod compare_report;
pub mod compare_summary;
pub mod compare_symbols;
pub mod content_zones;
pub mod convert_file_format;
pub mod count_file_lines;
pub mod create_directory;
pub mod create_file;
pub mod delete_file;
pub mod edit_file;
pub mod errors;
pub mod extract_json_schema;
pub mod file_summary;
pub mod find_json_paths;
pub mod fuzzy_find;
pub mod get_call_graph;
pub mod glob_find;
pub mod list_exports;
pub mod list_imports;
pub mod markdown_sections;
pub mod markdown_support;
pub mod path_filters;
pub mod peek_archive;
pub mod project_map;
pub mod read_file;
pub mod read_snippets;
pub mod read_symbol_body;
pub mod registry;
pub mod resolve_path;
pub mod server_health;
pub mod sqlite_inspect;
pub mod symbol_search;
pub mod text_matches;
pub mod text_search;
pub mod workspace_stats;
