//! The tools that the server offers.

use vstd::prelude::*;

use crate::json::{as_text, field_of, text_of, Json};
use crate::text::str_eq;

verus! {

/// A tool.
#[derive(Clone, Copy, Debug, PartialEq, Eq, Structural)]
pub enum Tool {
    ResolvePath,
    ReadFileRange,
    CountFileLines,
    ReadSnippets,
    FileSummary,
    ConvertFileFormat,
    CreateFile,
    CreateDirectory,
    EditFile,
    DeleteFile,
    TextSearch,
    FuzzyFind,
    ProjectMap,
    WorkspaceStats,
    CompareDirectories,
    GetSymbols,
    ReadSymbolBody,
    FindDefinition,
    FindReferences,
    ListImports,
    ListExports,
    GetCallGraph,
    CompareSymbols,
    PeekArchive,
    ServerHealth,
    ContentIndexStatus,
    WarmContentIndex,
    BatchToolCall,
}

/// The names of the tools, in the order in which they are listed.
pub open spec fn listed() -> Seq<Seq<char>> {
    seq![
        "resolve_path"@,
        "read_file_range"@,
        "count_file_lines"@,
        "read_snippets"@,
        "file_summary"@,
        "convert_file_format"@,
        "create_file"@,
        "create_directory"@,
        "edit_file"@,
        "delete_file"@,
        "text_search"@,
        "fuzzy_find"@,
        "project_map"@,
        "workspace_stats"@,
        "compare_directories"@,
        "get_symbols"@,
        "read_symbol_body"@,
        "find_definition"@,
        "find_references"@,
        "list_imports"@,
        "list_exports"@,
        "get_call_graph"@,
        "compare_symbols"@,
        "peek_archive"@,
        "server_health"@,
        "content_index_status"@,
        "warm_content_index"@,
        "batch_tool_call"@,
    ]
}

/// The names of the tools, in the order in which they are listed.
pub fn list_tools() -> (r: Vec<&'static str>)
    ensures
        r@.len() == listed().len(),
        forall|i: int| 0 <= i < r@.len() ==> (#[trigger] r@[i])@ == listed()[i],
{
    let out: Vec<&'static str> = vec![
        "resolve_path",
        "read_file_range",
        "count_file_lines",
        "read_snippets",
        "file_summary",
        "convert_file_format",
        "create_file",
        "create_directory",
        "edit_file",
        "delete_file",
        "text_search",
        "fuzzy_find",
        "project_map",
        "workspace_stats",
        "compare_directories",
        "get_symbols",
        "read_symbol_body",
        "find_definition",
        "find_references",
        "list_imports",
        "list_exports",
        "get_call_graph",
        "compare_symbols",
        "peek_archive",
        "server_health",
        "content_index_status",
        "warm_content_index",
        "batch_tool_call",
    ];
    out
}

/// The tool of a name.
pub open spec fn tool_of(name: Seq<char>) -> Option<Tool> {
    if name == "resolve_path"@ {
        Some(Tool::ResolvePath)
    } else if name == "read_file_range"@ {
        Some(Tool::ReadFileRange)
    } else if name == "count_file_lines"@ {
        Some(Tool::CountFileLines)
    } else if name == "read_snippets"@ {
        Some(Tool::ReadSnippets)
    } else if name == "file_summary"@ {
        Some(Tool::FileSummary)
    } else if name == "convert_file_format"@ {
        Some(Tool::ConvertFileFormat)
    } else if name == "create_file"@ {
        Some(Tool::CreateFile)
    } else if name == "create_directory"@ {
        Some(Tool::CreateDirectory)
    } else if name == "edit_file"@ {
        Some(Tool::EditFile)
    } else if name == "delete_file"@ {
        Some(Tool::DeleteFile)
    } else if name == "text_search"@ {
        Some(Tool::TextSearch)
    } else if name == "fuzzy_find"@ {
        Some(Tool::FuzzyFind)
    } else if name == "project_map"@ {
        Some(Tool::ProjectMap)
    } else if name == "workspace_stats"@ {
        Some(Tool::WorkspaceStats)
    } else if name == "compare_directories"@ {
        Some(Tool::CompareDirectories)
    } else if name == "get_symbols"@ {
        Some(Tool::GetSymbols)
    } else if name == "read_symbol_body"@ {
        Some(Tool::ReadSymbolBody)
    } else if name == "find_definition"@ {
        Some(Tool::FindDefinition)
    } else if name == "find_references"@ {
        Some(Tool::FindReferences)
    } else if name == "list_imports"@ {
        Some(Tool::ListImports)
    } else if name == "list_exports"@ {
        Some(Tool::ListExports)
    } else if name == "get_call_graph"@ {
        Some(Tool::GetCallGraph)
    } else if name == "compare_symbols"@ {
        Some(Tool::CompareSymbols)
    } else if name == "peek_archive"@ {
        Some(Tool::PeekArchive)
    } else if name == "server_health"@ {
        Some(Tool::ServerHealth)
    } else if name == "content_index_status"@ {
        Some(Tool::ContentIndexStatus)
    } else if name == "warm_content_index"@ {
        Some(Tool::WarmContentIndex)
    } else if name == "batch_tool_call"@ {
        Some(Tool::BatchToolCall)
    } else {
        None
    }
}

/// The name that a tool is listed under.
pub open spec fn name_of(tool: Tool) -> Seq<char> {
    match tool {
        Tool::ResolvePath => "resolve_path"@,
        Tool::ReadFileRange => "read_file_range"@,
        Tool::CountFileLines => "count_file_lines"@,
        Tool::ReadSnippets => "read_snippets"@,
        Tool::FileSummary => "file_summary"@,
        Tool::ConvertFileFormat => "convert_file_format"@,
        Tool::CreateFile => "create_file"@,
        Tool::CreateDirectory => "create_directory"@,
        Tool::EditFile => "edit_file"@,
        Tool::DeleteFile => "delete_file"@,
        Tool::TextSearch => "text_search"@,
        Tool::FuzzyFind => "fuzzy_find"@,
        Tool::ProjectMap => "project_map"@,
        Tool::WorkspaceStats => "workspace_stats"@,
        Tool::CompareDirectories => "compare_directories"@,
        Tool::GetSymbols => "get_symbols"@,
        Tool::ReadSymbolBody => "read_symbol_body"@,
        Tool::FindDefinition => "find_definition"@,
        Tool::FindReferences => "find_references"@,
        Tool::ListImports => "list_imports"@,
        Tool::ListExports => "list_exports"@,
        Tool::GetCallGraph => "get_call_graph"@,
        Tool::CompareSymbols => "compare_symbols"@,
        Tool::PeekArchive => "peek_archive"@,
        Tool::ServerHealth => "server_health"@,
        Tool::ContentIndexStatus => "content_index_status"@,
        Tool::WarmContentIndex => "warm_content_index"@,
        Tool::BatchToolCall => "batch_tool_call"@,
    }
}

/// A name calls the tool that is listed under it, and no other.
pub proof fn law_tool_names(name: Seq<char>)
    ensures
        tool_of(name) matches Some(tool) ==> name_of(tool) == name,
{
}

/// The tool of a name.
pub fn find_tool(name: &str) -> (r: Option<Tool>)
    ensures
        r == tool_of(name@),
        r matches Some(tool) ==> name_of(tool) == name@,
        r is None <==> !listed().contains(name@),
{
    proof {
        law_tool_names(name@);
        law_listed_is_callable(name@);
    }
    if str_eq(name, "resolve_path") {
        Some(Tool::ResolvePath)
    } else if str_eq(name, "read_file_range") {
        Some(Tool::ReadFileRange)
    } else if str_eq(name, "count_file_lines") {
        Some(Tool::CountFileLines)
    } else if str_eq(name, "read_snippets") {
        Some(Tool::ReadSnippets)
    } else if str_eq(name, "file_summary") {
        Some(Tool::FileSummary)
    } else if str_eq(name, "convert_file_format") {
        Some(Tool::ConvertFileFormat)
    } else if str_eq(name, "create_file") {
        Some(Tool::CreateFile)
    } else if str_eq(name, "create_directory") {
        Some(Tool::CreateDirectory)
    } else if str_eq(name, "edit_file") {
        Some(Tool::EditFile)
    } else if str_eq(name, "delete_file") {
        Some(Tool::DeleteFile)
    } else if str_eq(name, "text_search") {
        Some(Tool::TextSearch)
    } else if str_eq(name, "fuzzy_find") {
        Some(Tool::FuzzyFind)
    } else if str_eq(name, "project_map") {
        Some(Tool::ProjectMap)
    } else if str_eq(name, "workspace_stats") {
        Some(Tool::WorkspaceStats)
    } else if str_eq(name, "compare_directories") {
        Some(Tool::CompareDirectories)
    } else if str_eq(name, "get_symbols") {
        Some(Tool::GetSymbols)
    } else if str_eq(name, "read_symbol_body") {
        Some(Tool::ReadSymbolBody)
    } else if str_eq(name, "find_definition") {
        Some(Tool::FindDefinition)
    } else if str_eq(name, "find_references") {
        Some(Tool::FindReferences)
    } else if str_eq(name, "list_imports") {
        Some(Tool::ListImports)
    } else if str_eq(name, "list_exports") {
        Some(Tool::ListExports)
    } else if str_eq(name, "get_call_graph") {
        Some(Tool::GetCallGraph)
    } else if str_eq(name, "compare_symbols") {
        Some(Tool::CompareSymbols)
    } else if str_eq(name, "peek_archive") {
        Some(Tool::PeekArchive)
    } else if str_eq(name, "server_health") {
        Some(Tool::ServerHealth)
    } else if str_eq(name, "content_index_status") {
        Some(Tool::ContentIndexStatus)
    } else if str_eq(name, "warm_content_index") {
        Some(Tool::WarmContentIndex)
    } else if str_eq(name, "batch_tool_call") {
        Some(Tool::BatchToolCall)
    } else {
        None
    }
}

/// A tool is found under a name exactly when it is listed under it.
pub proof fn law_listed_is_callable(name: Seq<char>)
    ensures
        tool_of(name) is Some <==> listed().contains(name),
{
    let all = listed();
    assert(all[0] == "resolve_path"@);
    assert(all[1] == "read_file_range"@);
    assert(all[2] == "count_file_lines"@);
    assert(all[3] == "read_snippets"@);
    assert(all[4] == "file_summary"@);
    assert(all[5] == "convert_file_format"@);
    assert(all[6] == "create_file"@);
    assert(all[7] == "create_directory"@);
    assert(all[8] == "edit_file"@);
    assert(all[9] == "delete_file"@);
    assert(all[10] == "text_search"@);
    assert(all[11] == "fuzzy_find"@);
    assert(all[12] == "project_map"@);
    assert(all[13] == "workspace_stats"@);
    assert(all[14] == "compare_directories"@);
    assert(all[15] == "get_symbols"@);
    assert(all[16] == "read_symbol_body"@);
    assert(all[17] == "find_definition"@);
    assert(all[18] == "find_references"@);
    assert(all[19] == "list_imports"@);
    assert(all[20] == "list_exports"@);
    assert(all[21] == "get_call_graph"@);
    assert(all[22] == "compare_symbols"@);
    assert(all[23] == "peek_archive"@);
    assert(all[24] == "server_health"@);
    assert(all[25] == "content_index_status"@);
    assert(all[26] == "warm_content_index"@);
    assert(all[27] == "batch_tool_call"@);
    if all.contains(name) {
        let i = choose|i: int| 0 <= i < all.len() && all[i] == name;
        assert(all[i] == name);
    }
}

/// The name of the tool that a call asks for; empty where it names none.
pub open spec fn called_name(params: Json) -> Seq<char> {
    match text_of(field_of(params, "name"@)) {
        Some(name) => name,
        None => Seq::empty(),
    }
}

/// The tool that a call asks for.
pub fn called_tool(params: &Json) -> (r: Result<Tool, String>)
    ensures
        match tool_of(called_name(*params)) {
            Some(tool) => r == Ok::<Tool, String>(tool),
            None => r matches Err(e) && e@ == "Tool not found: "@ + called_name(*params),
        },
{
    let name: String = match as_text(params.get("name")) {
        Some(name) => name.to_owned(),
        None => String::new(),
    };
    match find_tool(name.as_str()) {
        Some(tool) => Ok(tool),
        None => {
            let mut text = "Tool not found: ".to_owned();
            text.append(name.as_str());
            Err(text)
        },
    }
}

} // verus!
