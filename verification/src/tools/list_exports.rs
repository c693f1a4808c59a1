//! What a source file offers to others.

use vstd::prelude::*;

use crate::patterns::{find_group, first_group};
use crate::syntax::{
    all_nodes, declaration_name, declared_name, nodes, preorder, text_in, SyntaxNode,
};
use crate::text::{
    first_line, opt_view, starts_with, str_eq, str_first_line, str_starts_with, str_trim,
    str_without_back, str_without_prefixes, trim, views, without_back, without_prefixes,
};
use crate::tools::ast_support::{line_number, LanguageKind};
use crate::tools::list_imports::{lists_imports, supports_listing};
use crate::words::{split_words, words};

verus! {

/// An export: its line, what it is, its name, and where it comes from.
pub struct Export {
    pub line: usize,
    pub kind: &'static str,
    pub name: Option<String>,
    pub source: Option<String>,
    pub statement: String,
}

/// An export: its line, what it is, its name, and where it comes from.
pub struct ExportView {
    pub line: nat,
    pub kind: Seq<char>,
    pub name: Option<Seq<char>>,
    pub source: Option<Seq<char>>,
    pub statement: Seq<char>,
}

impl View for Export {
    type V = ExportView;

    open spec fn view(&self) -> ExportView {
        ExportView {
            line: self.line as nat,
            kind: self.kind@,
            name: opt_view(self.name),
            source: opt_view(self.source),
            statement: self.statement@,
        }
    }
}

/// The exports that are listed.
pub open spec fn export_views(list: Seq<Export>) -> Seq<ExportView> {
    Seq::new(list.len(), |i: int| list[i]@)
}

/// An export, where there is one.
pub open spec fn export_view(export: Option<Export>) -> Option<ExportView> {
    match export {
        Some(e) => Some(e@),
        None => None,
    }
}

/// A node of this kind is an item of Rust that can be public.
pub open spec fn is_rust_item(kind: Seq<char>) -> bool {
    ||| kind == "function_item"@
    ||| kind == "struct_item"@
    ||| kind == "enum_item"@
    ||| kind == "trait_item"@
    ||| kind == "impl_item"@
    ||| kind == "mod_item"@
    ||| kind == "const_item"@
    ||| kind == "static_item"@
    ||| kind == "type_item"@
    ||| kind == "type_alias"@
}

/// Whether a node of this kind is an item of Rust that can be public.
fn kind_is_rust_item(kind: &str) -> (r: bool)
    ensures
        r == is_rust_item(kind@),
{
    str_eq(kind, "function_item") || str_eq(kind, "struct_item") || str_eq(kind, "enum_item")
        || str_eq(kind, "trait_item") || str_eq(kind, "impl_item") || str_eq(kind, "mod_item")
        || str_eq(kind, "const_item") || str_eq(kind, "static_item") || str_eq(kind, "type_item")
        || str_eq(kind, "type_alias")
}

/// The export that a node of a Rust file is: what it passes on, or a public item.
pub open spec fn rust_export(node: SyntaxNode) -> Option<ExportView> {
    match text_in(node) {
        None => None,
        Some(text) => {
            let statement = trim(text);
            if node.kind@ == "use_declaration"@ && starts_with(statement, "pub use "@) {
                Some(
                    ExportView {
                        line: line_number(node.start_row),
                        kind: "reexport"@,
                        name: None,
                        source: Some(
                            trim(without_back(without_prefixes(statement, "pub use "@), ";"@)),
                        ),
                        statement,
                    },
                )
            } else if (starts_with(statement, "pub "@) || starts_with(statement, "pub("@))
                && is_rust_item(node.kind@) {
                Some(
                    ExportView {
                        line: line_number(node.start_row),
                        kind: "pub_item"@,
                        name: declared_name(node),
                        source: None,
                        statement: first_line(statement),
                    },
                )
            } else {
                None
            }
        },
    }
}

/// The export that a node of a Rust file is.
pub fn collect_rust_export(node: &SyntaxNode) -> (r: Option<Export>)
    ensures
        export_view(r) == rust_export(*node),
        r is Some == is_offered(LanguageKind::Rust, *node),
        r matches Some(export) ==> tells_of(export@, LanguageKind::Rust, *node),
{
    proof {
        law_offered(LanguageKind::Rust, *node);
    }
    if !node.valid {
        return None;
    }
    let statement = str_trim(node.text.as_str());
    let line: usize = node.start_row.saturating_add(1);
    if str_eq(node.kind.as_str(), "use_declaration") && str_starts_with(
        statement.as_str(),
        "pub use ",
    ) {
        let rest = str_without_prefixes(statement.as_str(), "pub use ");
        let source = str_trim(str_without_back(rest.as_str(), ";").as_str());
        return Some(
            Export { line, kind: "reexport", name: None, source: Some(source), statement },
        );
    }
    let public = str_starts_with(statement.as_str(), "pub ") || str_starts_with(
        statement.as_str(),
        "pub(",
    );
    if !public || !kind_is_rust_item(node.kind.as_str()) {
        return None;
    }
    Some(
        Export {
            line,
            kind: "pub_item",
            name: declaration_name(node),
            source: None,
            statement: str_first_line(statement.as_str()),
        },
    )
}

/// The expression that finds where a statement of JavaScript exports from.
pub open spec fn from_pattern() -> Seq<char> {
    "from\\s+[\"'`](.+?)[\"'`]"@
}

/// The expressions that find the name of an export, in the order in which they are
/// tried.
pub open spec fn name_patterns() -> Seq<Seq<char>> {
    seq![
        "export\\s+default\\s+function\\s+([A-Za-z0-9_$]+)"@,
        "export\\s+default\\s+class\\s+([A-Za-z0-9_$]+)"@,
        "export\\s+(?:async\\s+)?function\\s+([A-Za-z0-9_$]+)"@,
        "export\\s+class\\s+([A-Za-z0-9_$]+)"@,
        "export\\s+const\\s+([A-Za-z0-9_$]+)"@,
        "export\\s+let\\s+([A-Za-z0-9_$]+)"@,
        "export\\s+var\\s+([A-Za-z0-9_$]+)"@,
        "export\\s+interface\\s+([A-Za-z0-9_$]+)"@,
        "export\\s+type\\s+([A-Za-z0-9_$]+)"@,
        "export\\s+enum\\s+([A-Za-z0-9_$]+)"@,
    ]
}

/// What the first of the expressions, from `from` on, that finds a name finds.
pub open spec fn first_name(
    patterns: Seq<Seq<char>>,
    statement: Seq<char>,
    from: int,
) -> Option<Seq<char>>
    decreases patterns.len() - from,
{
    if from < 0 || from >= patterns.len() {
        None
    } else {
        match first_group(patterns[from], statement) {
            Some(name) => Some(name),
            None => first_name(patterns, statement, from + 1),
        }
    }
}

/// Where a statement of JavaScript exports from.
pub fn extract_from_source(statement: &str) -> (r: Option<String>)
    ensures
        opt_view(r) == first_group(from_pattern(), statement@),
{
    find_group("from\\s+[\"'`](.+?)[\"'`]", statement)
}

/// The name that a statement of JavaScript exports.
pub fn extract_export_name(statement: &str) -> (r: Option<String>)
    ensures
        opt_view(r) == first_name(name_patterns(), statement@, 0),
{
    let patterns: Vec<&'static str> = vec![
        "export\\s+default\\s+function\\s+([A-Za-z0-9_$]+)",
        "export\\s+default\\s+class\\s+([A-Za-z0-9_$]+)",
        "export\\s+(?:async\\s+)?function\\s+([A-Za-z0-9_$]+)",
        "export\\s+class\\s+([A-Za-z0-9_$]+)",
        "export\\s+const\\s+([A-Za-z0-9_$]+)",
        "export\\s+let\\s+([A-Za-z0-9_$]+)",
        "export\\s+var\\s+([A-Za-z0-9_$]+)",
        "export\\s+interface\\s+([A-Za-z0-9_$]+)",
        "export\\s+type\\s+([A-Za-z0-9_$]+)",
        "export\\s+enum\\s+([A-Za-z0-9_$]+)",
    ];
    let ghost all = name_patterns();
    let mut i: usize = 0;
    while i < patterns.len()
        invariant
            i <= patterns@.len(),
            all == name_patterns(),
            patterns@.len() == all.len(),
            forall|k: int| 0 <= k < all.len() ==> (#[trigger] patterns@[k])@ == all[k],
            first_name(all, statement@, 0) == first_name(all, statement@, i as int),
        decreases patterns@.len() - i,
    {
        assert(patterns@[i as int]@ == all[i as int]);
        if let Some(name) = find_group(patterns[i], statement) {
            return Some(name);
        }
        i += 1;
    }
    None
}

/// What an export of JavaScript is.
pub open spec fn js_export_kind(statement: Seq<char>, passed_on: bool) -> Seq<char> {
    if starts_with(statement, "export default"@) {
        "default"@
    } else if passed_on {
        "reexport"@
    } else if starts_with(statement, "export {"@) {
        "named"@
    } else {
        "declaration"@
    }
}

/// The export that a statement of JavaScript is, given where it exports from and the
/// name that it exports.
pub fn describe_js_export(
    row: usize,
    statement: String,
    source: Option<String>,
    name: Option<String>,
) -> (r: Export)
    ensures
        r@ == (ExportView {
            line: line_number(row),
            kind: js_export_kind(statement@, source is Some),
            name: opt_view(name),
            source: opt_view(source),
            statement: statement@,
        }),
{
    let kind: &'static str = if str_starts_with(statement.as_str(), "export default") {
        "default"
    } else if source.is_some() {
        "reexport"
    } else if str_starts_with(statement.as_str(), "export {") {
        "named"
    } else {
        "declaration"
    };
    Export { line: row.saturating_add(1), kind, name, source, statement }
}

/// The export that a node of a JavaScript file is.
pub open spec fn js_export(node: SyntaxNode) -> Option<ExportView> {
    match text_in(node) {
        Some(text) => if node.kind@ == "export_statement"@ {
            let statement = trim(text);
            let source = first_group(from_pattern(), statement);
            Some(
                ExportView {
                    line: line_number(node.start_row),
                    kind: js_export_kind(statement, source is Some),
                    name: first_name(name_patterns(), statement, 0),
                    source,
                    statement,
                },
            )
        } else {
            None
        },
        None => None,
    }
}

/// The export that a node of a JavaScript file is.
pub fn collect_js_export(node: &SyntaxNode) -> (r: Option<Export>)
    ensures
        export_view(r) == js_export(*node),
        r is Some == is_offered(LanguageKind::JavaScript, *node),
        r matches Some(export) ==> tells_of(export@, LanguageKind::JavaScript, *node),
{
    proof {
        law_offered(LanguageKind::JavaScript, *node);
    }
    if !node.valid || !str_eq(node.kind.as_str(), "export_statement") {
        return None;
    }
    let statement = str_trim(node.text.as_str());
    let source = extract_from_source(statement.as_str());
    let name = extract_export_name(statement.as_str());
    Some(describe_js_export(node.start_row, statement, source, name))
}

/// A word gives the visibility, alone or with what it holds for in brackets.
pub open spec fn gives(word: Seq<char>, visibility: Seq<char>) -> bool {
    word == visibility || starts_with(word, visibility + "("@)
}

/// A word of the line gives the visibility.
pub open spec fn is_visible(line: Seq<char>, visibility: Seq<char>) -> bool {
    exists|i: int| 0 <= i < words(line).len() && gives(#[trigger] words(line)[i], visibility)
}

/// Whether a word of the line gives the visibility.
pub fn has_swift_visibility(first_line: &str, visibility: &str) -> (r: bool)
    ensures
        r == is_visible(first_line@, visibility@),
{
    let parts = split_words(first_line);
    let ghost all = words(first_line@);
    assert(all.len() == parts@.len());
    let mut opened = visibility.to_owned();
    opened.append("(");
    for i in 0..parts.len()
        invariant
            views(parts@) == all,
            all == words(first_line@),
            opened@ == visibility@ + "("@,
            forall|k: int| 0 <= k < i ==> !gives(#[trigger] all[k], visibility@),
    {
        assert(views(parts@)[i as int] == parts@[i as int]@);
        if str_eq(parts[i].as_str(), visibility) || str_starts_with(
            parts[i].as_str(),
            opened.as_str(),
        ) {
            assert(gives(all[i as int], visibility@));
            return true;
        }
    }
    false
}

/// What an export of Swift is.
pub open spec fn swift_kind(kind: Seq<char>, open: bool) -> Option<Seq<char>> {
    if kind == "class_declaration"@ {
        Some(if open { "open_class"@ } else { "public_class"@ })
    } else if kind == "protocol_declaration"@ {
        Some(if open { "open_protocol"@ } else { "public_protocol"@ })
    } else if kind == "function_declaration"@ {
        Some(if open { "open_function"@ } else { "public_function"@ })
    } else if kind == "property_declaration"@ {
        Some(if open { "open_property"@ } else { "public_property"@ })
    } else if kind == "init_declaration"@ {
        Some(if open { "open_init"@ } else { "public_init"@ })
    } else {
        None
    }
}

/// What an export of Swift is.
pub fn swift_export_kind(kind: &str, open: bool) -> (r: Option<&'static str>)
    ensures
        (match r {
            Some(k) => Some(k@),
            None => None,
        }) == swift_kind(kind@, open),
{
    if str_eq(kind, "class_declaration") {
        Some(if open { "open_class" } else { "public_class" })
    } else if str_eq(kind, "protocol_declaration") {
        Some(if open { "open_protocol" } else { "public_protocol" })
    } else if str_eq(kind, "function_declaration") {
        Some(if open { "open_function" } else { "public_function" })
    } else if str_eq(kind, "property_declaration") {
        Some(if open { "open_property" } else { "public_property" })
    } else if str_eq(kind, "init_declaration") {
        Some(if open { "open_init" } else { "public_init" })
    } else {
        None
    }
}

/// The export that a node of a Swift file is.
pub open spec fn swift_export(node: SyntaxNode) -> Option<ExportView> {
    match text_in(node) {
        None => None,
        Some(text) => {
            let line = trim(first_line(trim(text)));
            let open = is_visible(line, "open"@);
            match swift_kind(node.kind@, open) {
                Some(kind) => if open || is_visible(line, "public"@) {
                    Some(
                        ExportView {
                            line: line_number(node.start_row),
                            kind,
                            name: declared_name(node),
                            source: None,
                            statement: line,
                        },
                    )
                } else {
                    None
                },
                None => None,
            }
        },
    }
}

/// The export that a node of a Swift file is.
pub fn collect_swift_export(node: &SyntaxNode) -> (r: Option<Export>)
    ensures
        export_view(r) == swift_export(*node),
        r is Some == is_offered(LanguageKind::Swift, *node),
        r matches Some(export) ==> tells_of(export@, LanguageKind::Swift, *node),
{
    proof {
        law_offered(LanguageKind::Swift, *node);
    }
    if !node.valid {
        return None;
    }
    let statement = str_trim(node.text.as_str());
    let line = str_trim(str_first_line(statement.as_str()).as_str());
    let open = has_swift_visibility(line.as_str(), "open");
    match swift_export_kind(node.kind.as_str(), open) {
        Some(kind) => {
            if !open && !has_swift_visibility(line.as_str(), "public") {
                return None;
            }
            Some(
                Export {
                    line: node.start_row.saturating_add(1),
                    kind,
                    name: declaration_name(node),
                    source: None,
                    statement: line,
                },
            )
        },
        None => None,
    }
}

/// What an export of Objective-C is.
pub open spec fn objc_kind(kind: Seq<char>) -> Option<Seq<char>> {
    if kind == "class_interface"@ {
        Some("interface"@)
    } else if kind == "protocol_declaration"@ {
        Some("protocol"@)
    } else if kind == "category_interface"@ {
        Some("category"@)
    } else {
        None
    }
}

/// The export that a node of an Objective-C file is.
pub open spec fn objc_export(node: SyntaxNode) -> Option<ExportView> {
    match (objc_kind(node.kind@), text_in(node)) {
        (Some(kind), Some(text)) => Some(
            ExportView {
                line: line_number(node.start_row),
                kind,
                name: declared_name(node),
                source: None,
                statement: first_line(trim(text)),
            },
        ),
        _ => None,
    }
}

/// The export that a node of an Objective-C file is.
pub fn collect_objc_export(node: &SyntaxNode) -> (r: Option<Export>)
    ensures
        export_view(r) == objc_export(*node),
        r is Some == is_offered(LanguageKind::ObjectiveC, *node),
        r matches Some(export) ==> tells_of(export@, LanguageKind::ObjectiveC, *node),
{
    proof {
        law_offered(LanguageKind::ObjectiveC, *node);
    }
    let k = node.kind.as_str();
    let kind: &'static str = if str_eq(k, "class_interface") {
        "interface"
    } else if str_eq(k, "protocol_declaration") {
        "protocol"
    } else if str_eq(k, "category_interface") {
        "category"
    } else {
        return None;
    };
    if !node.valid {
        return None;
    }
    let statement = str_trim(node.text.as_str());
    Some(
        Export {
            line: node.start_row.saturating_add(1),
            kind,
            name: declaration_name(node),
            source: None,
            statement: str_first_line(statement.as_str()),
        },
    )
}

/// The export that a node is, in a file of the language.
pub open spec fn export_of(language: LanguageKind, node: SyntaxNode) -> Option<ExportView> {
    match language {
        LanguageKind::Rust => rust_export(node),
        LanguageKind::JavaScript => js_export(node),
        LanguageKind::Swift => swift_export(node),
        LanguageKind::ObjectiveC => objc_export(node),
        _ => None,
    }
}

/// The node is one that a file of the language offers to others. In Rust it is an item
/// that is marked as public, or a public use; in JavaScript an export statement; in
/// Swift a declaration whose first line says that it is open or public; in Objective-C
/// an interface or a protocol.
pub open spec fn is_offered(language: LanguageKind, node: SyntaxNode) -> bool {
    let kind = node.kind@;
    let text = trim(node.text@);
    let line = words(trim(first_line(text)));
    &&& node.valid
    &&& match language {
        LanguageKind::Rust => (starts_with(text, "pub "@) || starts_with(text, "pub("@)) && (kind
            == "function_item"@ || kind == "struct_item"@ || kind == "enum_item"@ || kind
            == "trait_item"@ || kind == "impl_item"@ || kind == "mod_item"@ || kind
            == "const_item"@ || kind == "static_item"@ || kind == "type_item"@ || kind
            == "type_alias"@) || (kind == "use_declaration"@ && starts_with(text, "pub use "@)),
        LanguageKind::JavaScript => kind == "export_statement"@,
        LanguageKind::Swift => (kind == "class_declaration"@ || kind == "protocol_declaration"@
            || kind == "function_declaration"@ || kind == "property_declaration"@ || kind
            == "init_declaration"@) && exists|i: int|
            0 <= i < line.len() && (#[trigger] line[i] == "open"@ || line[i] == "public"@
                || starts_with(line[i], "open("@) || starts_with(line[i], "public("@)),
        LanguageKind::ObjectiveC => kind == "class_interface"@ || kind == "protocol_declaration"@
            || kind == "category_interface"@,
        _ => false,
    }
}

/// The export says of the node where it begins, what it is called, and how it begins.
pub open spec fn tells_of(export: ExportView, language: LanguageKind, node: SyntaxNode) -> bool {
    &&& node.start_row < usize::MAX ==> export.line == node.start_row + 1
    &&& language is Rust && node.kind@ != "use_declaration"@ ==> export.kind == "pub_item"@
        && export.name == declared_name(node) && export.statement == first_line(trim(node.text@))
    &&& language is Rust && node.kind@ == "use_declaration"@ ==> export.kind == "reexport"@
        && export.statement == trim(node.text@)
    &&& language is JavaScript ==> export.statement == trim(node.text@)
    &&& language is Swift || language is ObjectiveC ==> export.name == declared_name(node)
        && starts_with(trim(first_line(trim(node.text@))), trim(export.statement))
}

/// A node is an export exactly where a file of the language offers it, and the export
/// tells of the node.
pub proof fn law_offered(language: LanguageKind, node: SyntaxNode)
    ensures
        export_of(language, node) is Some == is_offered(language, node),
        export_of(language, node) matches Some(export) ==> tells_of(export, language, node),
{
    lemma_export_words();
    let line = trim(first_line(trim(node.text@)));
    let all = words(line);
    match language {
        LanguageKind::Swift => {
            assert("open"@ + "("@ =~= "open("@);
            assert("public"@ + "("@ =~= "public("@);
            if is_visible(line, "open"@) {
                let i = choose|i: int| 0 <= i < all.len() && gives(#[trigger] all[i], "open"@);
                assert(gives(all[i], "open"@));
            }
            if is_visible(line, "public"@) {
                let i = choose|i: int| 0 <= i < all.len() && gives(#[trigger] all[i], "public"@);
                assert(gives(all[i], "public"@));
            }
            if is_offered(language, node) {
                let i = choose|i: int|
                    0 <= i < all.len() && (#[trigger] all[i] == "open"@ || all[i] == "public"@
                        || starts_with(all[i], "open("@) || starts_with(all[i], "public("@));
                assert(gives(all[i], "open"@) || gives(all[i], "public"@));
            }
            lemma_trimmed_twice(first_line(trim(node.text@)));
            assert(line.take(line.len() as int) =~= line);
        },
        _ => {
            assert(line.take(line.len() as int) =~= line);
        },
    }
}

/// What was trimmed stays as it is.
proof fn lemma_trimmed_twice(s: Seq<char>)
    ensures
        trim(trim(s)) == trim(s),
{
    crate::text::law_trim(s);
    crate::text::law_trim(trim(s));
}

/// The words by which exports are told apart.
proof fn lemma_export_words()
    ensures
        "open"@ + "("@ == "open("@,
        "public"@ + "("@ == "public("@,
        "use_declaration"@.len() == 15,
        "function_item"@.len() == 13,
        "struct_item"@.len() == 11,
        "enum_item"@.len() == 9,
        "trait_item"@.len() == 10,
        "impl_item"@.len() == 9,
        "mod_item"@.len() == 8,
        "const_item"@.len() == 10,
        "static_item"@.len() == 11,
        "type_item"@.len() == 9,
        "type_alias"@.len() == 10,
{
    reveal_strlit("open");
    reveal_strlit("public");
    reveal_strlit("(");
    reveal_strlit("open(");
    reveal_strlit("public(");
    reveal_strlit("use_declaration");
    reveal_strlit("function_item");
    reveal_strlit("struct_item");
    reveal_strlit("enum_item");
    reveal_strlit("trait_item");
    reveal_strlit("impl_item");
    reveal_strlit("mod_item");
    reveal_strlit("const_item");
    reveal_strlit("static_item");
    reveal_strlit("type_item");
    reveal_strlit("type_alias");
    assert("open"@ + "("@ =~= "open("@);
    assert("public"@ + "("@ =~= "public("@);
}

/// The exports tell, one each and in their order, of the nodes that the file offers.
pub open spec fn lists_offers(
    list: Seq<ExportView>,
    language: LanguageKind,
    all: Seq<SyntaxNode>,
) -> bool {
    let offered = all.filter(|node: SyntaxNode| is_offered(language, node));
    &&& list.len() == offered.len()
    &&& forall|i: int|
        0 <= i < list.len() ==> tells_of(#[trigger] list[i], language, offered[i])
}

/// The exports of a file are what it offers: no more, and no fewer.
pub proof fn law_exports_offered(language: LanguageKind, all: Seq<SyntaxNode>, n: int)
    requires
        0 <= n <= all.len(),
    ensures
        lists_offers(exports_of(language, all, n), language, all.take(n)),
    decreases n,
{
    reveal(Seq::filter);
    let list = exports_of(language, all, n);
    let now = all.take(n);
    if n > 0 {
        law_exports_offered(language, all, n - 1);
        law_offered(language, all[n - 1]);
        assert(now.drop_last() =~= all.take(n - 1));
        assert(now.last() == all[n - 1]);
    }
}

/// The exports that the first `n` nodes are.
pub open spec fn exports_of(
    language: LanguageKind,
    all: Seq<SyntaxNode>,
    n: int,
) -> Seq<ExportView>
    decreases n,
{
    if n <= 0 {
        Seq::empty()
    } else {
        let before = exports_of(language, all, n - 1);
        match export_of(language, all[n - 1]) {
            Some(export) => before.push(export),
            None => before,
        }
    }
}

/// The exports of a source file, in their order.
pub fn list_exports(language: LanguageKind, root: &SyntaxNode) -> (r: Result<
    Vec<Export>,
    &'static str,
>)
    ensures
        match r {
            Ok(list) => lists_imports(language) && export_views(list@) == exports_of(
                language,
                preorder(*root),
                preorder(*root).len() as int,
            ),
            Err(e) => !lists_imports(language) && e@
                == "list_exports currently supports Rust, JavaScript/TypeScript, Swift, and Objective-C files"@,
        },
        r is Ok == (language is Rust || language is JavaScript || language is Swift
            || language is ObjectiveC),
        r matches Ok(list) ==> lists_offers(export_views(list@), language, preorder(*root)),
{
    if !supports_listing(language) {
        return Err(
            "list_exports currently supports Rust, JavaScript/TypeScript, Swift, and Objective-C files",
        );
    }
    let list = all_nodes(root);
    let ghost all = preorder(*root);
    assert(all.len() == list@.len());
    let mut out: Vec<Export> = Vec::new();
    assert(export_views(out@) =~= Seq::<ExportView>::empty());
    for i in 0..list.len()
        invariant
            nodes(list@) == all,
            export_views(out@) == exports_of(language, all, i as int),
    {
        assert(nodes(list@)[i as int] == *list@[i as int]);
        let found: Option<Export> = match language {
            LanguageKind::Rust => collect_rust_export(list[i]),
            LanguageKind::JavaScript => collect_js_export(list[i]),
            LanguageKind::Swift => collect_swift_export(list[i]),
            LanguageKind::ObjectiveC => collect_objc_export(list[i]),
            _ => None,
        };
        if let Some(export) = found {
            let ghost before = export_views(out@);
            let ghost shown = export@;
            out.push(export);
            assert(export_views(out@) =~= before.push(shown));
        }
    }
    proof {
        law_exports_offered(language, all, all.len() as int);
        assert(all.take(all.len() as int) =~= all);
    }
    Ok(out)
}

} // verus!
