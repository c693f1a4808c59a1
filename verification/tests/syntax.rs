use codeloupe_mcp::parsing::{build_tree, choose_grammar, parse_source, FlatNode, Grammar};
use codeloupe_mcp::syntax::{child_field_text, declaration_name, SyntaxNode};
use codeloupe_mcp::tools::ast_support::{
    collect_symbols, detect_language, name_matches, normalized_string_literal,
    parse_language_filter, visits, LanguageKind,
};
use codeloupe_mcp::tools::compare_symbols::{compare_symbols, side_label, SymbolSide};
use codeloupe_mcp::tools::get_call_graph::{callee_name, get_call_graph};
use codeloupe_mcp::tools::list_exports::{
    describe_js_export, extract_export_name, extract_from_source, has_swift_visibility,
    list_exports,
};
use codeloupe_mcp::tools::list_imports::{list_imports, parse_js_import_clause};
use codeloupe_mcp::tools::read_symbol_body::{
    choose_symbol, extract_heuristic_body, find_brace_delimited_end, find_indentation_delimited_end,
    heuristic_pattern, indentation_width, resolve_by_lines, resolve_by_syntax, try_ast_match,
    try_heuristic_match, unresolved_text,
};

fn node(kind: &str, text: &str, rows: (usize, usize), children: Vec<SyntaxNode>) -> SyntaxNode {
    SyntaxNode {
        kind: kind.to_string(),
        field: None,
        text: text.to_string(),
        valid: true,
        start_row: rows.0,
        end_row: rows.1,
        children,
    }
}

fn field(name: &str, kind: &str, text: &str) -> SyntaxNode {
    let mut own = node(kind, text, (0, 0), Vec::new());
    own.field = Some(name.to_string());
    own
}

/// The language of a file and its tree.
fn parse(path: &str, text: &str) -> (LanguageKind, &'static str, SyntaxNode) {
    let (kind, name) = detect_language(path).unwrap();
    let root = parse_source(choose_grammar(kind, path), text.as_bytes()).unwrap();
    (kind, name, root)
}

fn symbol_names(root: &SyntaxNode) -> Vec<String> {
    collect_symbols(root).into_iter().map(|symbol| symbol.name).collect()
}

fn assert_symbols(path: &str, text: &str, language: &str, expected: &[&str]) -> SyntaxNode {
    let (_, name, root) = parse(path, text);
    assert_eq!(name, language);
    let names = symbol_names(&root);
    for symbol in expected {
        assert!(names.contains(&symbol.to_string()), "{symbol} in {names:?}");
    }
    root
}

fn calls(root: &SyntaxNode, symbol: &str) -> Vec<String> {
    get_call_graph(root, symbol).ok().unwrap().outbound_calls
}

fn lines(text: &str) -> Vec<String> {
    text.split('\n').map(str::to_string).collect()
}

#[test]
fn imports_and_exports_of_given_trees() {
    let tsx = node("program", "", (0, 5), vec![
        node("import_statement", "import React from \"react\";", (0, 0), vec![
            field("source", "string", "\"react\""),
        ]),
        node("import_statement", "import type { Foo } from \"./types\";", (1, 1), vec![
            field("source", "string", "\"./types\""),
        ]),
        node("export_statement", "export { Foo } from \"./types\";", (2, 2), Vec::new()),
        node("export_statement", "export const answer = 42;", (3, 3), Vec::new()),
        node(
            "export_statement",
            "export default function App() { return <div />; }",
            (4, 4),
            Vec::new(),
        ),
    ]);
    let imports = list_imports(LanguageKind::JavaScript, &tsx).ok().unwrap();
    assert_eq!(imports.len(), 2);
    assert_eq!(imports[0].source, "react");
    assert_eq!(imports[0].clause, "React");
    assert_eq!(imports[0].kind, "import");
    assert_eq!(imports[1].kind, "type_import");
    let exports = list_exports(LanguageKind::JavaScript, &tsx).ok().unwrap();
    assert_eq!(exports.len(), 3);
    assert!(exports.iter().any(|item| item.kind == "reexport"));
    assert_eq!(exports[0].source.as_deref(), Some("./types"));
    assert_eq!(exports[1].name.as_deref(), Some("answer"));
    assert_eq!(exports[2].name.as_deref(), Some("App"));
    assert_eq!(exports[2].kind, "default");

    let rust = node("source_file", "", (0, 4), vec![
        node("use_declaration", "use crate::inner::Thing;", (0, 0), Vec::new()),
        node("use_declaration", "pub use crate::inner::PublicThing;", (1, 1), Vec::new()),
        node("struct_item", "pub struct Model;", (2, 2), vec![
            field("name", "type_identifier", "Model"),
        ]),
        node("function_item", "pub fn run() {}", (3, 3), vec![
            field("name", "identifier", "run"),
        ]),
    ]);
    let imports = list_imports(LanguageKind::Rust, &rust).ok().unwrap();
    assert_eq!(imports.len(), 2);
    assert_eq!(imports[0].source, "crate::inner::Thing");
    assert_eq!(imports[1].kind, "pub_use");
    let exports = list_exports(LanguageKind::Rust, &rust).ok().unwrap();
    assert!(exports.iter().any(|item| item.name.as_deref() == Some("run")));
    assert_eq!(exports[0].kind, "reexport");
    assert_eq!(exports[0].source.as_deref(), Some("crate::inner::PublicThing"));
    assert!(list_imports(LanguageKind::Go, &rust).is_err());
    assert!(list_exports(LanguageKind::Go, &rust).is_err());
}

#[test]
fn exports_of_a_swift_tree() {
    let text = "public struct Counter {\n    public(set) var count: Int\n}";
    let root = node("source_file", text, (0, 3), vec![
        node("class_declaration", text, (0, 2), vec![
            field("name", "type_identifier", "Counter"),
            node("property_declaration", "public(set) var count: Int", (1, 1), vec![
                field("name", "pattern", "count"),
            ]),
        ]),
    ]);
    let exports = list_exports(LanguageKind::Swift, &root).ok().unwrap();
    assert!(exports.iter().any(|item| item.name.as_deref() == Some("count")));
    assert_eq!(exports[1].kind, "public_property");
    assert!(has_swift_visibility("open class A", "open"));
    assert!(!has_swift_visibility("opened class A", "open"));
}

#[test]
fn swift_and_objective_c_imports() {
    let swift = node("source_file", "", (0, 1), vec![
        node("import_declaration", "import Foundation", (0, 0), Vec::new()),
    ]);
    let found = list_imports(LanguageKind::Swift, &swift).ok().unwrap();
    assert_eq!(found[0].source, "Foundation");
    let objc = node("translation_unit", "", (0, 3), vec![
        node("preproc_include", "#import <Foundation/Foundation.h>\n", (0, 0), Vec::new()),
        node("preproc_include", "#include \"a.h\"\n", (1, 1), Vec::new()),
        node("class_interface", "@interface Box : NSObject\n@end", (2, 3), vec![
            node("identifier", "Box", (2, 2), Vec::new()),
        ]),
    ]);
    let found = list_imports(LanguageKind::ObjectiveC, &objc).ok().unwrap();
    assert_eq!(found[0].source, "Foundation/Foundation.h");
    assert_eq!(found[0].kind, "import");
    assert_eq!(found[1].source, "a.h");
    assert_eq!(found[1].kind, "include");
    let exports = list_exports(LanguageKind::ObjectiveC, &objc).ok().unwrap();
    assert_eq!(exports[0].name.as_deref(), Some("Box"));
    assert_eq!(exports[0].kind, "interface");
    assert_eq!(exports[0].statement, "@interface Box : NSObject");
}

#[test]
fn statements_of_javascript() {
    assert_eq!(parse_js_import_clause("import { a, b } from './x';"), "{ a, b }");
    assert_eq!(parse_js_import_clause("import './x';"), "");
    assert_eq!(parse_js_import_clause("import from './x';"), "");
    assert_eq!(extract_from_source("export * from 'a'"), Some("a".to_string()));
    assert_eq!(extract_from_source("export const from = 1"), None);
    assert_eq!(
        extract_export_name("export async function go() {}"),
        Some("go".to_string())
    );
    assert_eq!(extract_export_name("export { a }"), None);
    let named = describe_js_export(4, "export { a };".to_string(), None, None);
    assert_eq!((named.kind, named.line), ("named", 5));
    assert_eq!(normalized_string_literal(" 'x' "), "x");
}

fn widget() -> SyntaxNode {
    let mut body = node("compound_statement", "{\n  HelperCall();\n  base::DoThing();\n}", (7, 10), vec![
        node("call_expression", "HelperCall()", (8, 8), vec![
            field("function", "identifier", "HelperCall"),
        ]),
        node("call_expression", "base::DoThing()", (9, 9), vec![
            field("function", "qualified_identifier", "base::DoThing"),
        ]),
        node("call_expression", "HelperCall()", (9, 9), vec![
            field("function", "identifier", "HelperCall"),
        ]),
    ]);
    body.field = Some("body".to_string());
    let mut declarator = node("function_declarator", "Widget::Render()", (7, 7), vec![
        field("declarator", "qualified_identifier", "Widget::Render"),
    ]);
    declarator.field = Some("declarator".to_string());
    node("translation_unit", "", (0, 12), vec![
        node("class_specifier", "class Widget {}", (2, 5), vec![
            field("name", "type_identifier", "Widget"),
        ]),
        node(
            "function_definition",
            "void Widget::Render() {\n  HelperCall();\n  base::DoThing();\n}",
            (7, 10),
            vec![declarator, body],
        ),
    ])
}

#[test]
fn symbols_body_and_calls_of_a_given_tree() {
    assert_eq!(detect_language("/w/widget.cc"), Some((LanguageKind::Cpp, "C++")));
    let root = widget();
    let names: Vec<String> = collect_symbols(&root).into_iter().map(|s| s.name).collect();
    assert_eq!(names, vec!["Widget".to_string(), "Widget::Render".to_string()]);
    let body = try_ast_match(&root, "Render", true).unwrap();
    assert!(body.content.contains("HelperCall"));
    assert_eq!((body.start_line, body.end_line), (8, 11));
    let graph = get_call_graph(&root, "Render").ok().unwrap();
    assert_eq!(
        graph.outbound_calls,
        vec!["HelperCall".to_string(), "base::DoThing".to_string()]
    );
    let missing = get_call_graph(&root, "Widget").err().unwrap();
    assert_eq!(missing, "Could not find function 'Widget' in the file");
}

#[test]
fn callees_of_other_languages() {
    let java = node("method_invocation", "System.out.println(\"ready\")", (0, 0), vec![
        field("object", "field_access", "System.out"),
        field("name", "identifier", "println"),
    ]);
    assert_eq!(callee_name(&java).as_deref(), Some("System.out.println"));
    let ruby = node("call", "helper_call()", (0, 0), vec![
        field("method", "identifier", "helper_call"),
    ]);
    assert_eq!(callee_name(&ruby).as_deref(), Some("helper_call"));
    let swift = node("call_expression", "print(\"x\")", (0, 0), Vec::new());
    assert_eq!(callee_name(&swift).as_deref(), Some("print"));
    assert_eq!(callee_name(&node("identifier", "x", (0, 0), Vec::new())), None);
}

#[test]
fn bodies_in_a_given_tree() {
    let text = "fn sample() {\n    println!(\"hi\");\n    call();\n}";
    let mut block = node("block", "{\n    println!(\"hi\");\n    call();\n}", (0, 3), Vec::new());
    block.field = Some("body".to_string());
    let root = node("source_file", text, (0, 6), vec![
        node("function_item", text, (0, 3), vec![field("name", "identifier", "sample"), block]),
    ]);
    let full = try_ast_match(&root, "sample", true).unwrap();
    assert!(full.content.contains("fn sample"));
    let body = try_ast_match(&root, "sample", false).unwrap();
    assert!(body.content.contains("println!"));
    assert!(!body.content.contains("fn sample"));
    assert!(try_ast_match(&root, "absent", true).is_none());
}

#[test]
fn bodies_are_found_by_the_shape_of_the_lines() {
    let rust = b"// head\nfn sample() {\n    if x {\n    }\n}\nfn other() {}\n";
    let body = try_heuristic_match(rust, "sample", true).ok().unwrap().unwrap();
    assert_eq!(body.content, "fn sample() {\n    if x {\n    }\n}");
    assert_eq!((body.start_line, body.end_line), (2, 5));
    assert_eq!(body.confidence, "medium");
    let inner = try_heuristic_match(rust, "SAMPLE", false).ok().unwrap().unwrap();
    assert_eq!(inner.start_line, 3);
    let python = b"def run(a):\n    x = 1\n\n    return x\nprint(1)\n";
    let body = try_heuristic_match(python, "run", true).ok().unwrap().unwrap();
    assert_eq!(body.content, "def run(a):\n    x = 1\n\n    return x");
    let flat = b"let a = 1;\nlet b = 2;\n";
    let body = try_heuristic_match(flat, "a", true).ok().unwrap().unwrap();
    assert_eq!(body.confidence, "low");
    assert!(try_heuristic_match(flat, "c", true).ok().unwrap().is_none());
    assert!(heuristic_pattern("a+b").ends_with("\\s+a\\+b\\b"));
    assert_eq!(unresolved_text("x"), "Could not resolve symbol 'x'");
}

#[test]
fn ends_of_bodies() {
    let all = lines("fn a() {\n  {\n  }\n}\nfn b();");
    assert_eq!(find_brace_delimited_end(&all, 0), Some(4));
    assert_eq!(find_brace_delimited_end(&all, 4), None);
    assert_eq!(find_brace_delimited_end(&lines("}}\n{ }"), 0), Some(2));
    let all = lines("def a:\n\n  x\n y\nz");
    assert_eq!(find_indentation_delimited_end(&all, 0, 0), Some(4));
    assert_eq!(find_indentation_delimited_end(&all, 3, 1), None);
    assert_eq!(indentation_width("\t  x"), 3);
    let one = extract_heuristic_body(&lines("fn a() { }"), 0, false);
    assert_eq!((one.start_line, one.end_line), (1, 1));
}

#[test]
fn languages_and_names() {
    assert_eq!(detect_language("a.TSX"), Some((LanguageKind::JavaScript, "TypeScript")));
    assert_eq!(detect_language("Makefile"), None);
    assert_eq!(
        parse_language_filter(&Some("C#".to_string())),
        Ok(Some(LanguageKind::CSharp))
    );
    assert_eq!(parse_language_filter(&None), Ok(None));
    assert!(parse_language_filter(&Some("cobol".to_string())).is_err());
    assert!(name_matches("a::b", "b"));
    assert!(!name_matches("ab", "b"));
    let item = node("function_item", "fn a() {}", (0, 0), vec![field("name", "identifier", "a")]);
    assert_eq!(declaration_name(&item).as_deref(), Some("a"));
    assert_eq!(child_field_text(&item, "body"), None);
}

#[test]
fn test_list_imports_and_exports_cover_typescript_and_rust() {
    let (kind, _, tsx) = parse(
        "widget.tsx",
        "import React from \"react\";\nimport type { Foo } from \"./types\";\nexport { Foo } from \"./types\";\nexport const answer = 42;\nexport default function App() { return <div />; }\n",
    );
    let imports = list_imports(kind, &tsx).ok().unwrap();
    assert_eq!(imports.len(), 2);
    assert_eq!(imports[0].source, "react");
    let exports = list_exports(kind, &tsx).ok().unwrap();
    assert_eq!(exports.len(), 3);
    assert!(exports.iter().any(|item| item.kind == "reexport"));

    let (kind, _, rust) = parse(
        "mod.rs",
        "use crate::inner::Thing;\npub use crate::inner::PublicThing;\npub struct Model;\npub fn run() {}\n",
    );
    assert_eq!(list_imports(kind, &rust).ok().unwrap().len(), 2);
    let exports = list_exports(kind, &rust).ok().unwrap();
    assert!(exports.iter().any(|item| item.name.as_deref() == Some("run")));
}

#[test]
fn test_list_exports_treats_swift_public_set_properties_as_public_api() {
    let (kind, _, root) = parse(
        "Counter.swift",
        "public struct Counter {\n    public(set) var count: Int\n}\n",
    );
    let exports = list_exports(kind, &root).ok().unwrap();
    assert!(exports.iter().any(|item| item.name.as_deref() == Some("count")));
}

#[test]
fn test_read_symbol_body_prefers_ast_and_supports_body_only_mode() {
    let (_, _, root) = parse(
        "lib.rs",
        "fn sample() {\n    println!(\"hi\");\n    call();\n}\n\nfn other() {}\n",
    );
    let full = try_ast_match(&root, "sample", true).unwrap();
    assert!(full.content.contains("fn sample"));
    assert_eq!((full.start_line, full.end_line), (1, 4));
    let body = try_ast_match(&root, "sample", false).unwrap();
    assert!(body.content.contains("println!"));
    assert!(!body.content.contains("fn sample"));

    let shown = resolve_by_syntax("lib.rs", &root, "sample", true);
    let guess = resolve_by_lines("lib.rs", b"fn sample() {\n}\n", "sample", true).ok().unwrap();
    let guess = guess.unwrap();
    assert_eq!((guess.match_source, guess.confidence), ("heuristic", "medium"));
    let found = choose_symbol("sample", shown, Some(guess)).ok().unwrap();
    assert_eq!((found.match_source, found.confidence), ("ast", "high"));
    assert_eq!(found.file, "lib.rs");
    assert!(resolve_by_syntax("lib.rs", &root, "absent", true).is_none());
    assert_eq!(
        choose_symbol("absent", None, None).err().as_deref(),
        Some("Could not resolve symbol 'absent'")
    );
}

#[test]
fn test_compare_symbols_returns_unified_diff() {
    let side = |file: &str, text: &str| {
        let (_, _, root) = parse(file, text);
        SymbolSide {
            file: file.to_string(),
            symbol: "provider".to_string(),
            content: try_ast_match(&root, "provider", true).unwrap().content,
        }
    };
    let left = side("left.rs", "fn provider() {\n    step_one();\n    step_two();\n}\n");
    let right = side("right.rs", "fn provider() {\n    step_one();\n    step_three();\n}\n");
    let res = compare_symbols(&left, &right);
    assert!(!res.same_content);
    assert!(res.unified_diff.contains("step_two"));
    assert!(res.unified_diff.contains("step_three"));
    assert!(res.unified_diff.contains("left.rs:provider"));
    assert_eq!(side_label(&right), "right.rs:provider");
}

#[test]
fn test_ast_tools_support_cpp_symbols_body_and_call_graph() {
    let text = "\nnamespace demo {\nclass Widget {\n public:\n  void Render();\n};\n\nvoid Widget::Render() {\n  HelperCall();\n  base::DoThing();\n}\n\nint FreeFunction() {\n  return ComputeValue();\n}\n}\n";
    let root =
        assert_symbols("widget.cc", text, "C++", &["Widget", "Widget::Render", "FreeFunction"]);
    let body = try_ast_match(&root, "Render", true).unwrap();
    assert!(body.content.contains("HelperCall"));
    let outbound = calls(&root, "Render");
    assert!(outbound.contains(&"HelperCall".to_string()));
    assert!(outbound.contains(&"base::DoThing".to_string()));
}

#[test]
fn test_ast_tools_support_popular_language_symbols_and_calls() {
    let go = "\npackage main\n\ntype Server struct{}\n\nfunc Start() {\n\thelperCall()\n\tfmt.Println(\"ready\")\n}\n\nfunc helperCall() {}\n";
    let root = assert_symbols("service.go", go, "Go", &["Server", "Start"]);
    assert!(calls(&root, "Start").contains(&"helperCall".to_string()));

    let java = "\nclass App {\n  void run() {\n    helperCall();\n    System.out.println(\"ready\");\n  }\n\n  void helperCall() {}\n}\n";
    let root = assert_symbols("App.java", java, "Java", &["App", "run"]);
    let outbound = calls(&root, "run");
    assert!(outbound.contains(&"helperCall".to_string()));
    assert!(outbound.contains(&"System.out.println".to_string()));

    let cs = "\nnamespace Demo {\n  class Worker {\n    void Run() {\n      Helper();\n      Console.WriteLine(\"ready\");\n    }\n\n    void Helper() {}\n  }\n}\n";
    let root = assert_symbols("Worker.cs", cs, "C#", &["Demo", "Worker", "Run"]);
    let outbound = calls(&root, "Run");
    assert!(outbound.contains(&"Helper".to_string()));
    assert!(outbound.contains(&"Console.WriteLine".to_string()));

    let php = "\n<?php\nclass Service {\n  function run() {\n    helper_call();\n    $this->emit();\n  }\n\n  function emit() {}\n}\n\nfunction helper_call() {}\n";
    let root = assert_symbols("Service.php", php, "PHP", &["Service", "run", "helper_call"]);
    assert!(calls(&root, "run").contains(&"helper_call".to_string()));

    let ruby = "\nmodule Demo\n  class Worker\n    def run\n      helper_call()\n      logger.info(\"ready\")\n    end\n\n    def helper_call\n    end\n  end\nend\n";
    let root =
        assert_symbols("worker.rb", ruby, "Ruby", &["Demo", "Worker", "run", "helper_call"]);
    assert!(calls(&root, "run").contains(&"helper_call".to_string()));
}

#[test]
fn the_other_grammars_are_read_too() {
    assert_symbols("a.py", "class A:\n    def run(self):\n        go()\n", "Python", &["A", "run"]);
    assert_symbols("a.js", "class A { run() { go(); } }\nfunction f() {}\n", "JavaScript", &[
        "A", "run", "f",
    ]);
    assert_symbols("a.ts", "interface A { x: number }\nfunction f(): void {}\n", "TypeScript", &[
        "A", "f",
    ]);
    assert_symbols("a.c", "struct s { int x; };\nint f(void) { return 0; }\n", "C", &["s", "f"]);
    assert_symbols("A.swift", "class A {\n  func run() { go() }\n}\n", "Swift", &["A", "run"]);
    assert_symbols("A.m", "@interface Box : NSObject\n@end\n", "Objective-C", &["Box"]);
    assert_eq!(choose_grammar(LanguageKind::JavaScript, "x.TSX"), Grammar::Tsx);
}

#[test]
fn trees_are_built_from_their_lists() {
    let flat = |depth: u32, kind: &str, start: usize, end: usize| FlatNode {
        depth,
        kind: kind.to_string(),
        field: None,
        start_byte: start,
        end_byte: end,
        start_row: 0,
        end_row: 0,
    };
    let list = [flat(0, "a", 0, 5), flat(1, "b", 0, 1), flat(2, "c", 0, 1), flat(1, "d", 2, 4)];
    let root = build_tree(&list, b"x+y\xffz").unwrap();
    assert_eq!(root.children.len(), 2);
    assert_eq!(root.children[0].children[0].kind, "c");
    assert_eq!(root.children[1].text, "y\u{fffd}");
    assert!(!root.children[1].valid);
    assert!(root.children[0].valid);
    assert!(build_tree(&list[1..], b"").is_none());
    assert!(build_tree(&[], b"").is_none());
}

#[test]
fn files_are_shown_by_language_and_once() {
    let hint = Some("/w/a.rs".to_string());
    assert!(visits("/w/b.rs", &hint, None));
    assert!(!visits("/w/a.rs", &hint, None));
    assert!(visits("/w/a.rs", &None, Some(LanguageKind::Rust)));
    assert!(!visits("/w/a.rs", &None, Some(LanguageKind::Go)));
    assert!(!visits("/w/notes.txt", &None, None));
}
