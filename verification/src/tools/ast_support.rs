//! The languages whose syntax is known, and the symbols that a source file declares.

use vstd::prelude::*;

use crate::paths::{extension, extension_of};
use crate::syntax::{
    all_nodes, declaration_name, declared_name, nodes, preorder, SyntaxNode,
};
use crate::text::{
    ascii_lower, ends_with, opt_view, str_ascii_lower, str_ends_with, str_eq, str_trim,
    str_without_back, str_without_front, trim, without_back, without_front,
};
use crate::tools::compare_directories::capped_sum;

verus! {

/// The largest file whose syntax is read, in bytes.
pub const DEFAULT_AST_FILE_SIZE_LIMIT: u64 = 2 * 1024 * 1024;

/// A language whose syntax is known.
#[derive(Clone, Copy, Debug, PartialEq, Eq, Structural)]
pub enum LanguageKind {
    Rust,
    Python,
    JavaScript,
    C,
    Cpp,
    Go,
    Java,
    CSharp,
    Php,
    Ruby,
    Swift,
    ObjectiveC,
}

/// The language of files with the extension, and what it is called.
pub open spec fn language_by_extension(ext: Seq<char>) -> Option<(LanguageKind, Seq<char>)> {
    if ext == "rs"@ {
        Some((LanguageKind::Rust, "Rust"@))
    } else if ext == "py"@ {
        Some((LanguageKind::Python, "Python"@))
    } else if ext == "js"@ || ext == "jsx"@ || ext == "mjs"@ || ext == "cjs"@ {
        Some((LanguageKind::JavaScript, "JavaScript"@))
    } else if ext == "ts"@ || ext == "tsx"@ {
        Some((LanguageKind::JavaScript, "TypeScript"@))
    } else if ext == "c"@ || ext == "h"@ {
        Some((LanguageKind::C, "C"@))
    } else if ext == "cc"@ || ext == "cpp"@ || ext == "cxx"@ || ext == "hpp"@ || ext == "hh"@ || ext
        == "hxx"@ {
        Some((LanguageKind::Cpp, "C++"@))
    } else if ext == "go"@ {
        Some((LanguageKind::Go, "Go"@))
    } else if ext == "java"@ {
        Some((LanguageKind::Java, "Java"@))
    } else if ext == "cs"@ {
        Some((LanguageKind::CSharp, "C#"@))
    } else if ext == "php"@ {
        Some((LanguageKind::Php, "PHP"@))
    } else if ext == "rb"@ {
        Some((LanguageKind::Ruby, "Ruby"@))
    } else if ext == "swift"@ {
        Some((LanguageKind::Swift, "Swift"@))
    } else if ext == "m"@ || ext == "mm"@ {
        Some((LanguageKind::ObjectiveC, "Objective-C"@))
    } else {
        None
    }
}

/// The language of a file, by the extension of its path without regard to case.
pub open spec fn language_of_path(path: Seq<char>) -> Option<(LanguageKind, Seq<char>)> {
    match extension_of(path) {
        Some(ext) => language_by_extension(ascii_lower(ext)),
        None => None,
    }
}

/// The file at the path is shown: it is of a known language, of the one asked
/// for where one is, and it is not the preferred file, which was shown before.
pub open spec fn is_shown(
    path: Seq<char>,
    hint: Option<Seq<char>>,
    filter: Option<LanguageKind>,
) -> bool {
    &&& hint != Some(path)
    &&& match language_of_path(path) {
        Some((kind, _)) => filter is None || filter == Some(kind),
        None => false,
    }
}

/// Whether the file at the path is shown.
pub fn visits(path: &str, hint: &Option<String>, filter: Option<LanguageKind>) -> (r: bool)
    ensures
        r == is_shown(path@, opt_view(*hint), filter),
{
    if let Some(preferred) = hint {
        if str_eq(preferred.as_str(), path) {
            return false;
        }
    }
    match detect_language(path) {
        Some((kind, _)) => match filter {
            Some(wanted) => wanted == kind,
            None => true,
        },
        None => false,
    }
}

/// The language of a file, and what it is called.
pub fn detect_language(path: &str) -> (r: Option<(LanguageKind, &'static str)>)
    ensures
        (match r {
            Some((kind, name)) => Some((kind, name@)),
            None => None,
        }) == language_of_path(path@),
{
    let ext: String = match extension(path) {
        Some(e) => str_ascii_lower(e.as_str()),
        None => {
            return None;
        },
    };
    let e = ext.as_str();
    if str_eq(e, "rs") {
        Some((LanguageKind::Rust, "Rust"))
    } else if str_eq(e, "py") {
        Some((LanguageKind::Python, "Python"))
    } else if str_eq(e, "js") || str_eq(e, "jsx") || str_eq(e, "mjs") || str_eq(e, "cjs") {
        Some((LanguageKind::JavaScript, "JavaScript"))
    } else if str_eq(e, "ts") || str_eq(e, "tsx") {
        Some((LanguageKind::JavaScript, "TypeScript"))
    } else if str_eq(e, "c") || str_eq(e, "h") {
        Some((LanguageKind::C, "C"))
    } else if str_eq(e, "cc") || str_eq(e, "cpp") || str_eq(e, "cxx") || str_eq(e, "hpp")
        || str_eq(e, "hh") || str_eq(e, "hxx") {
        Some((LanguageKind::Cpp, "C++"))
    } else if str_eq(e, "go") {
        Some((LanguageKind::Go, "Go"))
    } else if str_eq(e, "java") {
        Some((LanguageKind::Java, "Java"))
    } else if str_eq(e, "cs") {
        Some((LanguageKind::CSharp, "C#"))
    } else if str_eq(e, "php") {
        Some((LanguageKind::Php, "PHP"))
    } else if str_eq(e, "rb") {
        Some((LanguageKind::Ruby, "Ruby"))
    } else if str_eq(e, "swift") {
        Some((LanguageKind::Swift, "Swift"))
    } else if str_eq(e, "m") || str_eq(e, "mm") {
        Some((LanguageKind::ObjectiveC, "Objective-C"))
    } else {
        None
    }
}

/// The language that a caller asks for, by one of its names.
pub open spec fn language_by_name(name: Seq<char>) -> Option<LanguageKind> {
    if name == "rust"@ || name == "rs"@ {
        Some(LanguageKind::Rust)
    } else if name == "python"@ || name == "py"@ {
        Some(LanguageKind::Python)
    } else if name == "javascript"@ || name == "js"@ || name == "jsx"@ || name == "typescript"@
        || name == "ts"@ || name == "tsx"@ {
        Some(LanguageKind::JavaScript)
    } else if name == "c"@ {
        Some(LanguageKind::C)
    } else if name == "cpp"@ || name == "c++"@ {
        Some(LanguageKind::Cpp)
    } else if name == "go"@ {
        Some(LanguageKind::Go)
    } else if name == "java"@ {
        Some(LanguageKind::Java)
    } else if name == "csharp"@ || name == "c#"@ || name == "cs"@ {
        Some(LanguageKind::CSharp)
    } else if name == "php"@ {
        Some(LanguageKind::Php)
    } else if name == "ruby"@ || name == "rb"@ {
        Some(LanguageKind::Ruby)
    } else if name == "swift"@ {
        Some(LanguageKind::Swift)
    } else if name == "objc"@ || name == "objective-c"@ {
        Some(LanguageKind::ObjectiveC)
    } else {
        None
    }
}

/// The language that a caller asks for: none where nothing is asked; a name that is
/// not known is refused.
pub fn parse_language_filter(raw: &Option<String>) -> (r: Result<Option<LanguageKind>, String>)
    ensures
        match *raw {
            None => r matches Ok(kind) && kind is None,
            Some(text) => match language_by_name(ascii_lower(trim(text@))) {
                Some(kind) => r matches Ok(found) && found == Some(kind),
                None => r matches Err(e) && e@ == "Unsupported language filter: "@ + text@,
            },
        },
{
    let text: &String = match raw {
        None => {
            return Ok(None);
        },
        Some(text) => text,
    };
    let lower = str_ascii_lower(str_trim(text.as_str()).as_str());
    let n = lower.as_str();
    if str_eq(n, "rust") || str_eq(n, "rs") {
        Ok(Some(LanguageKind::Rust))
    } else if str_eq(n, "python") || str_eq(n, "py") {
        Ok(Some(LanguageKind::Python))
    } else if str_eq(n, "javascript") || str_eq(n, "js") || str_eq(n, "jsx") || str_eq(
        n,
        "typescript",
    ) || str_eq(n, "ts") || str_eq(n, "tsx") {
        Ok(Some(LanguageKind::JavaScript))
    } else if str_eq(n, "c") {
        Ok(Some(LanguageKind::C))
    } else if str_eq(n, "cpp") || str_eq(n, "c++") {
        Ok(Some(LanguageKind::Cpp))
    } else if str_eq(n, "go") {
        Ok(Some(LanguageKind::Go))
    } else if str_eq(n, "java") {
        Ok(Some(LanguageKind::Java))
    } else if str_eq(n, "csharp") || str_eq(n, "c#") || str_eq(n, "cs") {
        Ok(Some(LanguageKind::CSharp))
    } else if str_eq(n, "php") {
        Ok(Some(LanguageKind::Php))
    } else if str_eq(n, "ruby") || str_eq(n, "rb") {
        Ok(Some(LanguageKind::Ruby))
    } else if str_eq(n, "swift") {
        Ok(Some(LanguageKind::Swift))
    } else if str_eq(n, "objc") || str_eq(n, "objective-c") {
        Ok(Some(LanguageKind::ObjectiveC))
    } else {
        let mut e = "Unsupported language filter: ".to_owned();
        e.append(text.as_str());
        Err(e)
    }
}

/// The number of a line, from one, that has this number from zero.
pub open spec fn line_number(row: usize) -> nat {
    capped_sum(row as nat, 1)
}

/// A literal without its quotes.
pub open spec fn bare_literal(text: Seq<char>) -> Seq<char> {
    without_back(without_front(trim(text), "\"'`"@), "\"'`"@)
}

/// A literal without its quotes.
pub fn normalized_string_literal(text: &str) -> (r: String)
    ensures
        r@ == bare_literal(text@),
{
    let bare = str_trim(text);
    let front = str_without_front(bare.as_str(), "\"'`");
    str_without_back(front.as_str(), "\"'`")
}

/// A node of this kind declares a function.
pub open spec fn is_function_kind(kind: Seq<char>) -> bool {
    ||| kind == "function_item"@
    ||| kind == "function_definition"@
    ||| kind == "function_declaration"@
    ||| kind == "method_declaration"@
    ||| kind == "method_definition"@
    ||| kind == "constructor_declaration"@
    ||| kind == "init_declaration"@
    ||| kind == "local_function_statement"@
    ||| kind == "method"@
    ||| kind == "singleton_method"@
}

/// Whether a node of this kind declares a function.
pub fn kind_is_function(kind: &str) -> (r: bool)
    ensures
        r == is_function_kind(kind@),
{
    str_eq(kind, "function_item") || str_eq(kind, "function_definition") || str_eq(
        kind,
        "function_declaration",
    ) || str_eq(kind, "method_declaration") || str_eq(kind, "method_definition") || str_eq(
        kind,
        "constructor_declaration",
    ) || str_eq(kind, "init_declaration") || str_eq(kind, "local_function_statement") || str_eq(
        kind,
        "method",
    ) || str_eq(kind, "singleton_method")
}

/// A node of this kind declares a type, a module or a value of a module.
pub open spec fn is_type_kind(kind: Seq<char>) -> bool {
    ||| kind == "struct_item"@
    ||| kind == "enum_item"@
    ||| kind == "trait_item"@
    ||| kind == "mod_item"@
    ||| kind == "const_item"@
    ||| kind == "static_item"@
    ||| kind == "type_item"@
    ||| kind == "class_specifier"@
    ||| kind == "struct_specifier"@
    ||| kind == "enum_specifier"@
    ||| kind == "namespace_definition"@
    ||| kind == "class_declaration"@
    ||| kind == "class_definition"@
    ||| kind == "interface_declaration"@
    ||| kind == "enum_declaration"@
    ||| kind == "record_declaration"@
    ||| kind == "struct_declaration"@
    ||| kind == "namespace_declaration"@
    ||| kind == "trait_declaration"@
    ||| kind == "type_spec"@
    ||| kind == "type_alias_declaration"@
    ||| kind == "protocol_declaration"@
    ||| kind == "class_interface"@
    ||| kind == "class_implementation"@
    ||| kind == "category_interface"@
    ||| kind == "module"@
    ||| kind == "class"@
}

/// Whether a node of this kind declares a type, a module or a value of a module.
pub fn kind_is_type(kind: &str) -> (r: bool)
    ensures
        r == is_type_kind(kind@),
{
    str_eq(kind, "struct_item") || str_eq(kind, "enum_item") || str_eq(kind, "trait_item")
        || str_eq(kind, "mod_item") || str_eq(kind, "const_item") || str_eq(kind, "static_item")
        || str_eq(kind, "type_item") || str_eq(kind, "class_specifier") || str_eq(
        kind,
        "struct_specifier",
    ) || str_eq(kind, "enum_specifier") || str_eq(kind, "namespace_definition") || str_eq(
        kind,
        "class_declaration",
    ) || str_eq(kind, "class_definition") || str_eq(kind, "interface_declaration") || str_eq(
        kind,
        "enum_declaration",
    ) || str_eq(kind, "record_declaration") || str_eq(kind, "struct_declaration") || str_eq(
        kind,
        "namespace_declaration",
    ) || str_eq(kind, "trait_declaration") || str_eq(kind, "type_spec") || str_eq(
        kind,
        "type_alias_declaration",
    ) || str_eq(kind, "protocol_declaration") || str_eq(kind, "class_interface") || str_eq(
        kind,
        "class_implementation",
    ) || str_eq(kind, "category_interface") || str_eq(kind, "module") || str_eq(kind, "class")
}

/// The name of the symbol that a node declares, where it declares one.
pub open spec fn symbol_name(node: SyntaxNode, functions_only: bool) -> Option<Seq<char>> {
    if is_function_kind(node.kind@) || (!functions_only && is_type_kind(node.kind@)) {
        declared_name(node)
    } else {
        None
    }
}

/// The name of the symbol that a node declares, where it declares one.
fn name_of_symbol(node: &SyntaxNode, functions_only: bool) -> (r: Option<String>)
    ensures
        opt_view(r) == symbol_name(*node, functions_only),
{
    if kind_is_function(node.kind.as_str()) || (!functions_only && kind_is_type(
        node.kind.as_str(),
    )) {
        declaration_name(node)
    } else {
        None
    }
}

/// A symbol of a source file.
pub struct Symbol {
    pub name: String,
    pub kind: String,
    pub start_line: usize,
    pub end_line: usize,
}

/// A symbol of a source file.
pub struct SymbolView {
    pub name: Seq<char>,
    pub kind: Seq<char>,
    pub start_line: nat,
    pub end_line: nat,
}

impl View for Symbol {
    type V = SymbolView;

    open spec fn view(&self) -> SymbolView {
        SymbolView {
            name: self.name@,
            kind: self.kind@,
            start_line: self.start_line as nat,
            end_line: self.end_line as nat,
        }
    }
}

/// The symbols that are listed.
pub open spec fn symbol_views(list: Seq<Symbol>) -> Seq<SymbolView> {
    Seq::new(list.len(), |i: int| list[i]@)
}

/// The symbols that the first `n` nodes declare.
pub open spec fn symbols_of(all: Seq<SyntaxNode>, n: int) -> Seq<SymbolView>
    decreases n,
{
    if n <= 0 {
        Seq::empty()
    } else {
        let before = symbols_of(all, n - 1);
        let node = all[n - 1];
        match symbol_name(node, false) {
            Some(name) => before.push(
                SymbolView {
                    name,
                    kind: node.kind@,
                    start_line: line_number(node.start_row),
                    end_line: line_number(node.end_row),
                },
            ),
            None => before,
        }
    }
}

/// Whether the node declares a function or a type under a name.
pub open spec fn is_symbol(node: SyntaxNode) -> bool {
    (is_function_kind(node.kind@) || is_type_kind(node.kind@)) && declared_name(node) is Some
}

/// The symbols tell, one each and in their order, of the nodes that declare one.
pub open spec fn lists_symbols(list: Seq<SymbolView>, all: Seq<SyntaxNode>) -> bool {
    let declared = all.filter(|node: SyntaxNode| is_symbol(node));
    &&& list.len() == declared.len()
    &&& forall|i: int|
        0 <= i < list.len() ==> {
            &&& declared_name(declared[i]) == Some((#[trigger] list[i]).name)
            &&& list[i].kind == declared[i].kind@
            &&& declared[i].start_row < usize::MAX ==> list[i].start_line == declared[i].start_row
                + 1
            &&& declared[i].end_row < usize::MAX ==> list[i].end_line == declared[i].end_row + 1
        }
}

/// The symbols of a file are what it declares: no more, and no fewer.
pub proof fn law_symbols_listed(all: Seq<SyntaxNode>, n: int)
    requires
        0 <= n <= all.len(),
    ensures
        lists_symbols(symbols_of(all, n), all.take(n)),
    decreases n,
{
    reveal(Seq::filter);
    if n > 0 {
        law_symbols_listed(all, n - 1);
        assert(all.take(n).drop_last() =~= all.take(n - 1));
        assert(all.take(n).last() == all[n - 1]);
    }
}

/// Whether the node declares what is asked for: by its name, or by the last part of it.
pub open spec fn declares(node: SyntaxNode, symbol: Seq<char>, functions_only: bool) -> bool {
    &&& is_function_kind(node.kind@) || (!functions_only && is_type_kind(node.kind@))
    &&& declared_name(node) matches Some(name) && (name == symbol || ends_with(
        name,
        "::"@ + symbol,
    ) || ends_with(name, "."@ + symbol))
}

/// The node that is found is the first that declares the symbol.
pub proof fn law_declaring_first(
    all: Seq<SyntaxNode>,
    symbol: Seq<char>,
    functions_only: bool,
    from: int,
)
    requires
        0 <= from <= all.len(),
    ensures
        match declaring(all, symbol, functions_only, from) {
            Some(k) => from <= k < all.len() && declares(all[k], symbol, functions_only)
                && forall|j: int|
                from <= j < k ==> !declares(#[trigger] all[j], symbol, functions_only),
            None => forall|j: int|
                from <= j < all.len() ==> !declares(#[trigger] all[j], symbol, functions_only),
        },
    decreases all.len() - from,
{
    if from < all.len() {
        law_declaring_first(all, symbol, functions_only, from + 1);
    }
}

/// The symbols that a source file declares, in their order.
pub fn collect_symbols(root: &SyntaxNode) -> (r: Vec<Symbol>)
    ensures
        symbol_views(r@) == symbols_of(preorder(*root), preorder(*root).len() as int),
        lists_symbols(symbol_views(r@), preorder(*root)),
{
    let list = all_nodes(root);
    let ghost all = preorder(*root);
    assert(all.len() == list@.len());
    let mut out: Vec<Symbol> = Vec::new();
    assert(symbol_views(out@) =~= Seq::<SymbolView>::empty());
    for i in 0..list.len()
        invariant
            nodes(list@) == all,
            symbol_views(out@) == symbols_of(all, i as int),
    {
        let node: &SyntaxNode = list[i];
        assert(nodes(list@)[i as int] == *node);
        if let Some(name) = name_of_symbol(node, false) {
            let symbol = Symbol {
                name,
                kind: node.kind.clone(),
                start_line: node.start_row.saturating_add(1),
                end_line: node.end_row.saturating_add(1),
            };
            let ghost before = symbol_views(out@);
            let ghost shown = symbol@;
            out.push(symbol);
            assert(symbol_views(out@) =~= before.push(shown));
        }
    }
    proof {
        law_symbols_listed(all, all.len() as int);
        assert(all.take(all.len() as int) =~= all);
    }
    out
}

/// A name is that of a symbol: it is the symbol, or the symbol is its last part.
pub open spec fn is_called(name: Seq<char>, symbol: Seq<char>) -> bool {
    ||| name == symbol
    ||| ends_with(name, "::"@ + symbol)
    ||| ends_with(name, "."@ + symbol)
}

/// Whether a name is that of a symbol.
pub fn name_matches(name: &str, symbol: &str) -> (r: bool)
    ensures
        r == is_called(name@, symbol@),
{
    let mut scoped = "::".to_owned();
    scoped.append(symbol);
    let mut dotted = ".".to_owned();
    dotted.append(symbol);
    str_eq(name, symbol) || str_ends_with(name, scoped.as_str()) || str_ends_with(
        name,
        dotted.as_str(),
    )
}

/// The position of the first node, from `from` on, that declares the symbol.
pub open spec fn declaring(
    all: Seq<SyntaxNode>,
    symbol: Seq<char>,
    functions_only: bool,
    from: int,
) -> Option<int>
    decreases all.len() - from,
{
    if from < 0 || from >= all.len() {
        None
    } else if symbol_name(all[from], functions_only) matches Some(name) && is_called(
        name,
        symbol,
    ) {
        Some(from)
    } else {
        declaring(all, symbol, functions_only, from + 1)
    }
}

/// The node that declares a symbol.
pub open spec fn declaration_in(
    root: SyntaxNode,
    symbol: Seq<char>,
    functions_only: bool,
) -> Option<SyntaxNode> {
    match declaring(preorder(root), symbol, functions_only, 0) {
        Some(i) => Some(preorder(root)[i]),
        None => None,
    }
}

/// The first node that declares the symbol.
pub fn find_named_node<'a>(root: &'a SyntaxNode, symbol: &str, functions_only: bool) -> (r: Option<
    &'a SyntaxNode,
>)
    ensures
        (match r {
            Some(node) => Some(*node),
            None => None,
        }) == declaration_in(*root, symbol@, functions_only),
        r matches Some(node) ==> declares(*node, symbol@, functions_only) && preorder(
            *root,
        ).contains(*node),
        r is None ==> forall|j: int|
            0 <= j < preorder(*root).len() ==> !declares(
                #[trigger] preorder(*root)[j],
                symbol@,
                functions_only,
            ),
{
    let list = all_nodes(root);
    let ghost all = preorder(*root);
    proof {
        law_declaring_first(all, symbol@, functions_only, 0);
    }
    assert(all.len() == list@.len());
    let mut i: usize = 0;
    while i < list.len()
        invariant
            i <= list@.len(),
            all == preorder(*root),
            nodes(list@) == all,
            declaring(all, symbol@, functions_only, 0) == declaring(
                all,
                symbol@,
                functions_only,
                i as int,
            ),
        decreases list@.len() - i,
    {
        let node: &'a SyntaxNode = list[i];
        assert(nodes(list@)[i as int] == *node);
        if let Some(name) = name_of_symbol(node, functions_only) {
            if name_matches(name.as_str(), symbol) {
                return Some(node);
            }
        }
        i += 1;
    }
    assert(all.len() == list@.len());
    None
}

} // verus!
