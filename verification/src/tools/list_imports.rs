//! What a source file imports.

use vstd::prelude::*;

use crate::syntax::{
    all_nodes, child_field_text, nodes, preorder, role_text, text_in, SyntaxNode,
};
use crate::text::{
    chars_of, occurs_at, rfind, rfind_to, slice_of, starts_with, str_eq, str_starts_with, str_trim,
    str_without_back, str_without_front, str_without_prefixes, string_of, trim, without_back,
    without_front, without_prefixes,
};
use crate::tools::ast_support::{bare_literal, line_number, normalized_string_literal, LanguageKind};

verus! {

/// An import: its line, what it is, where from, and what is imported.
pub struct Import {
    pub line: usize,
    pub kind: &'static str,
    pub source: String,
    pub clause: String,
    pub statement: String,
}

/// An import: its line, what it is, where from, and what is imported.
pub struct ImportView {
    pub line: nat,
    pub kind: Seq<char>,
    pub source: Seq<char>,
    pub clause: Seq<char>,
    pub statement: Seq<char>,
}

impl View for Import {
    type V = ImportView;

    open spec fn view(&self) -> ImportView {
        ImportView {
            line: self.line as nat,
            kind: self.kind@,
            source: self.source@,
            clause: self.clause@,
            statement: self.statement@,
        }
    }
}

/// The imports that are listed.
pub open spec fn import_views(list: Seq<Import>) -> Seq<ImportView> {
    Seq::new(list.len(), |i: int| list[i]@)
}

/// Imports are listed for files in this language.
pub open spec fn lists_imports(language: LanguageKind) -> bool {
    ||| language == LanguageKind::Rust
    ||| language == LanguageKind::JavaScript
    ||| language == LanguageKind::Swift
    ||| language == LanguageKind::ObjectiveC
}

/// Whether imports and exports are listed for files in this language.
pub fn supports_listing(language: LanguageKind) -> (r: bool)
    ensures
        r == lists_imports(language),
{
    language == LanguageKind::Rust || language == LanguageKind::JavaScript || language
        == LanguageKind::Swift || language == LanguageKind::ObjectiveC
}

/// What a `use` statement names.
pub open spec fn rust_clause(statement: Seq<char>) -> Seq<char> {
    trim(without_back(without_prefixes(without_prefixes(statement, "pub "@), "use "@), ";"@))
}

/// What stands between `import` and the last `from` of a statement.
pub open spec fn js_clause(statement: Seq<char>) -> Seq<char> {
    let bare = trim(without_back(statement, ";"@));
    if !starts_with(bare, "import "@) {
        Seq::empty()
    } else {
        match rfind_to(bare, " from "@, bare.len() as int) {
            Some(i) => if i >= 7 {
                trim(bare.subrange(7, i))
            } else {
                Seq::empty()
            },
            None => Seq::empty(),
        }
    }
}

/// What stands between `import` and the last `from` of a statement.
pub fn parse_js_import_clause(statement: &str) -> (r: String)
    ensures
        r@ == js_clause(statement@),
{
    let bare = str_trim(str_without_back(statement, ";").as_str());
    if !str_starts_with(bare.as_str(), "import ") {
        return String::new();
    }
    let chars = chars_of(bare.as_str());
    let from = chars_of(" from ");
    match rfind(chars.as_slice(), from.as_slice()) {
        Some(i) => if i >= 7 {
            let part = slice_of(chars.as_slice(), 7, i);
            assert(part@ =~= bare@.subrange(7, i as int));
            str_trim(string_of(part.as_slice()).as_str())
        } else {
            String::new()
        },
        None => String::new(),
    }
}

/// What an import of JavaScript is.
pub open spec fn js_kind(statement: Seq<char>, clause: Seq<char>) -> Seq<char> {
    if starts_with(statement, "import type "@) {
        "type_import"@
    } else if clause.len() == 0 {
        "side_effect"@
    } else {
        "import"@
    }
}

/// The file that a directive of Objective-C names.
pub open spec fn objc_path(statement: Seq<char>, directive: Seq<char>) -> Seq<char> {
    let rest = trim(without_prefixes(statement, directive));
    without_back(without_front(rest, "\"<>"@), "\"<>"@)
}

/// The import that a node is, in a file of the language.
pub open spec fn import_of(language: LanguageKind, node: SyntaxNode) -> Option<ImportView> {
    match text_in(node) {
        None => None,
        Some(text) => {
            let line = line_number(node.start_row);
            let statement = trim(text);
            match language {
                LanguageKind::Rust => if node.kind@ == "use_declaration"@ {
                    let clause = rust_clause(statement);
                    Some(
                        ImportView {
                            line,
                            kind: if starts_with(statement, "pub use "@) {
                                "pub_use"@
                            } else {
                                "use"@
                            },
                            source: clause,
                            clause,
                            statement,
                        },
                    )
                } else {
                    None
                },
                LanguageKind::JavaScript => if node.kind@ == "import_statement"@ {
                    let clause = js_clause(statement);
                    Some(
                        ImportView {
                            line,
                            kind: js_kind(statement, clause),
                            source: match role_text(node, "source"@) {
                                Some(literal) => bare_literal(literal),
                                None => Seq::empty(),
                            },
                            clause,
                            statement,
                        },
                    )
                } else {
                    None
                },
                LanguageKind::Swift => if node.kind@ == "import_declaration"@ {
                    let clause = trim(without_prefixes(statement, "import "@));
                    Some(
                        ImportView { line, kind: "import"@, source: clause, clause, statement },
                    )
                } else {
                    None
                },
                LanguageKind::ObjectiveC => if node.kind@ == "preproc_include"@ {
                    let imported = starts_with(statement, "#import"@);
                    let clause = objc_path(
                        statement,
                        if imported {
                            "#import"@
                        } else {
                            "#include"@
                        },
                    );
                    Some(
                        ImportView {
                            line,
                            kind: if imported {
                                "import"@
                            } else {
                                "include"@
                            },
                            source: clause,
                            clause,
                            statement,
                        },
                    )
                } else {
                    None
                },
                _ => None,
            }
        },
    }
}

/// The import that a node is, in a file of the language.
pub fn read_import(language: LanguageKind, node: &SyntaxNode) -> (r: Option<Import>)
    ensures
        (match r {
            Some(import) => Some(import@),
            None => None,
        }) == import_of(language, *node),
        r is Some == is_import(language, *node),
        r matches Some(import) ==> tells_import(import@, language, *node),
{
    proof {
        law_imported(language, *node);
    }
    if !node.valid {
        return None;
    }
    let line: usize = node.start_row.saturating_add(1);
    let statement = str_trim(node.text.as_str());
    let kind = node.kind.as_str();
    match language {
        LanguageKind::Rust => {
            if !str_eq(kind, "use_declaration") {
                return None;
            }
            let public = str_starts_with(statement.as_str(), "pub use ");
            let first = str_without_prefixes(statement.as_str(), "pub ");
            let second = str_without_prefixes(first.as_str(), "use ");
            let clause = str_trim(str_without_back(second.as_str(), ";").as_str());
            Some(
                Import {
                    line,
                    kind: if public {
                        "pub_use"
                    } else {
                        "use"
                    },
                    source: clause.clone(),
                    clause,
                    statement,
                },
            )
        },
        LanguageKind::JavaScript => {
            if !str_eq(kind, "import_statement") {
                return None;
            }
            let source: String = match child_field_text(node, "source") {
                Some(literal) => normalized_string_literal(literal.as_str()),
                None => String::new(),
            };
            let clause = parse_js_import_clause(statement.as_str());
            let kind: &'static str = if str_starts_with(statement.as_str(), "import type ") {
                "type_import"
            } else if clause.as_str().is_empty() {
                "side_effect"
            } else {
                "import"
            };
            Some(Import { line, kind, source, clause, statement })
        },
        LanguageKind::Swift => {
            if !str_eq(kind, "import_declaration") {
                return None;
            }
            let clause = str_trim(str_without_prefixes(statement.as_str(), "import ").as_str());
            Some(Import { line, kind: "import", source: clause.clone(), clause, statement })
        },
        LanguageKind::ObjectiveC => {
            if !str_eq(kind, "preproc_include") {
                return None;
            }
            let imported = str_starts_with(statement.as_str(), "#import");
            let directive: &'static str = if imported {
                "#import"
            } else {
                "#include"
            };
            let rest = str_trim(str_without_prefixes(statement.as_str(), directive).as_str());
            let front = str_without_front(rest.as_str(), "\"<>");
            let clause = str_without_back(front.as_str(), "\"<>");
            Some(
                Import {
                    line,
                    kind: if imported {
                        "import"
                    } else {
                        "include"
                    },
                    source: clause.clone(),
                    clause,
                    statement,
                },
            )
        },
        _ => None,
    }
}

/// Whether the node imports something into a file of the language.
pub open spec fn is_import(language: LanguageKind, node: SyntaxNode) -> bool {
    &&& node.valid
    &&& match language {
        LanguageKind::Rust => node.kind@ == "use_declaration"@,
        LanguageKind::JavaScript => node.kind@ == "import_statement"@,
        LanguageKind::Swift => node.kind@ == "import_declaration"@,
        LanguageKind::ObjectiveC => node.kind@ == "preproc_include"@,
        _ => false,
    }
}

/// The import says of the node where it begins, how it is written and what it takes.
pub open spec fn tells_import(
    import: ImportView,
    language: LanguageKind,
    node: SyntaxNode,
) -> bool {
    let written = trim(node.text@);
    &&& node.start_row < usize::MAX ==> import.line == node.start_row + 1
    &&& import.statement == written
    &&& language is Rust ==> import.clause == rust_clause(written) && (import.kind == "pub_use"@
        <==> starts_with(written, "pub use "@))
    &&& language is JavaScript ==> import.clause == js_clause(written) && (starts_with(
        written,
        "import type "@,
    ) <==> import.kind == "type_import"@) && (role_text(node, "source"@) matches Some(literal)
        ==> import.source == bare_literal(literal))
    &&& language is Swift ==> import.clause == trim(without_prefixes(written, "import "@))
    &&& language is ObjectiveC ==> (import.kind == "import"@ <==> starts_with(written, "#import"@))
        && (starts_with(written, "#import"@) ==> import.clause == objc_path(written, "#import"@))
        && (!starts_with(written, "#import"@) ==> import.clause == objc_path(
        written,
        "#include"@,
    ))
    &&& language !is JavaScript ==> import.source == import.clause
}

/// A node is an import exactly where the language imports by it, and the import tells of
/// the node.
pub proof fn law_imported(language: LanguageKind, node: SyntaxNode)
    ensures
        import_of(language, node) is Some == is_import(language, node),
        import_of(language, node) matches Some(import) ==> tells_import(import, language, node),
{
    reveal_strlit("pub_use");
    reveal_strlit("use");
    reveal_strlit("type_import");
    reveal_strlit("side_effect");
    reveal_strlit("import");
    reveal_strlit("include");
    assert("pub_use"@.len() == 7 && "use"@.len() == 3);
    assert("type_import"@.len() == 11 && "side_effect"@.len() == 11 && "import"@.len() == 6);
    assert("type_import"@[0] == 't' && "side_effect"@[0] == 's');
    assert("include"@.len() == 7);
}

/// A path that can stand in a use declaration: nothing is left to trim from it.
pub open spec fn is_bare(path: Seq<char>) -> bool {
    &&& path.len() > 0
    &&& !crate::text::is_whitespace(path[0])
    &&& !crate::text::is_whitespace(path.last())
    &&& path.last() != ';'
}

/// What is used is what stands between the word and the semicolon, in public or not.
pub proof fn law_rust_clause(path: Seq<char>)
    requires
        is_bare(path),
        !starts_with(path + ";"@, "use "@),
    ensures
        rust_clause("use "@ + path + ";"@) == path,
        rust_clause("pub use "@ + path + ";"@) == path,
{
    reveal_strlit("use ");
    reveal_strlit("pub ");
    reveal_strlit("pub use ");
    reveal_strlit(";");
    let used = "use "@ + path + ";"@;
    let rest = path + ";"@;
    assert(used[0] == 'u' && "pub "@[0] == 'p');
    assert(!starts_with(used, "pub "@)) by {
        if starts_with(used, "pub "@) {
            assert(used.subrange(0, 4)[0] == 'p');
        }
    }
    assert(used.subrange(0, 4) =~= "use "@);
    assert(used.skip(4) =~= rest);
    assert(without_prefixes(rest, "use "@) == rest);
    assert(without_prefixes(used, "use "@) == rest);
    let public = "pub use "@ + path + ";"@;
    assert(public.subrange(0, 4) =~= "pub "@);
    assert(public.skip(4) =~= used);
    assert(without_prefixes(used, "pub "@) == used);
    assert(without_prefixes(public, "pub "@) == used);
    assert(rest.last() == ';' && ";"@[0] == ';');
    assert(";"@.contains(rest.last()));
    assert(rest.drop_last() =~= path);
    assert(!";"@.contains(path.last()));
    assert(without_back(path, ";"@) == path);
    assert(without_back(rest, ";"@) == path);
    crate::text::law_trim(path);
}

/// What is imported stands between the word and where it is imported from.
pub proof fn law_js_clause(clause: Seq<char>, source: Seq<char>)
    requires
        is_bare(source),
        !source.contains(' '),
    ensures
        js_clause("import "@ + clause + " from "@ + source) == trim(clause),
{
    let s = "import "@ + clause + " from "@ + source;
    let at = 7 + clause.len() as int;
    lemma_js_parts(clause, source);
    assert(" from "@ == seq![' ', 'f', 'r', 'o', 'm', ' ']);
    lemma_none_behind(s, at);
    lemma_rfind_last(s, " from "@, at, s.len() as int);
}

/// The parts of an import, and where they stand in it.
proof fn lemma_js_parts(clause: Seq<char>, source: Seq<char>)
    requires
        is_bare(source),
        !source.contains(' '),
    ensures
        ({
            let s = "import "@ + clause + " from "@ + source;
            let at = 7 + clause.len() as int;
            &&& trim(without_back(s, ";"@)) == s
            &&& starts_with(s, "import "@)
            &&& occurs_at(s, " from "@, at)
            &&& s.subrange(7, at) == clause
            &&& at <= s.len()
            &&& forall|i: int| at + 6 <= i < s.len() ==> s[i] != ' '
            &&& " from "@ == seq![' ', 'f', 'r', 'o', 'm', ' ']
        }),
{
    reveal_strlit("import ");
    reveal_strlit(" from ");
    reveal_strlit(";");
    let s = "import "@ + clause + " from "@ + source;
    let at = 7 + clause.len() as int;
    assert(" from "@ =~= seq![' ', 'f', 'r', 'o', 'm', ' ']);
    assert(s.last() == source.last());
    assert(s[0] == 'i');
    assert(!";"@.contains(s.last()));
    assert(without_back(s, ";"@) == s);
    assert(trim(s) == s) by {
        crate::text::law_trim(s);
    }
    assert(s.subrange(0, 7) =~= "import "@);
    assert(s.subrange(at, at + 6) =~= " from "@);
    assert(s.subrange(7, at) =~= clause);
    assert forall|i: int| at + 6 <= i < s.len() implies s[i] != ' ' by {
        assert(s[i] == source[i - at - 6]);
    }
}

/// The word does not stand again where no more spaces follow it.
proof fn lemma_none_behind(s: Seq<char>, at: int)
    requires
        occurs_at(s, " from "@, at),
        forall|i: int| at + 6 <= i < s.len() ==> s[i] != ' ',
        " from "@ == seq![' ', 'f', 'r', 'o', 'm', ' '],
    ensures
        forall|i: int| at < i <= s.len() ==> !occurs_at(s, " from "@, i),
{
    let word = " from "@;
    let here = s.subrange(at, at + 6);
    assert(s[at + 1] == here[1] && s[at + 2] == here[2] && s[at + 3] == here[3] && s[at + 4]
        == here[4]);
    assert forall|i: int| at < i <= s.len() implies !occurs_at(s, word, i) by {
        if occurs_at(s, word, i) {
            let found = s.subrange(i, i + 6);
            assert(s[i] == found[0] && s[i + 5] == found[5]);
        }
    }
}

/// The last occurrence is the one with none behind it.
proof fn lemma_rfind_last(s: Seq<char>, pat: Seq<char>, at: int, to: int)
    requires
        0 <= at <= to,
        occurs_at(s, pat, at),
        forall|i: int| at < i <= to ==> !occurs_at(s, pat, i),
    ensures
        rfind_to(s, pat, to) == Some(at),
    decreases to - at,
{
    if to > at {
        lemma_rfind_last(s, pat, at, to - 1);
    }
}

/// What is imported is what stands between the quotes or brackets.
pub proof fn law_objc_path(path: Seq<char>)
    requires
        path.len() > 0,
        !"\"<>"@.contains(path[0]),
        !"\"<>"@.contains(path.last()),
    ensures
        objc_path("#import <"@ + path + ">"@, "#import"@) == path,
        objc_path("#include \""@ + path + "\""@, "#include"@) == path,
{
    reveal_strlit("#import <");
    reveal_strlit("#import");
    reveal_strlit("#include \"");
    reveal_strlit("#include");
    reveal_strlit(">");
    reveal_strlit("\"");
    reveal_strlit("\"<>");
    let one = "#import <"@ + path + ">"@;
    assert(one.subrange(0, 7) =~= "#import"@);
    assert(one.skip(7) =~= seq![' ', '<'] + path + seq!['>']);
    lemma_enclosed(one.skip(7), '<', path, '>');
    assert(!starts_with(one.skip(7), "#import"@)) by {
        if starts_with(one.skip(7), "#import"@) {
            assert(one.skip(7).subrange(0, 7)[0] == '#');
        }
    }
    assert(without_prefixes(one.skip(7), "#import"@) == one.skip(7));
    assert(without_prefixes(one, "#import"@) == one.skip(7));
    let two = "#include \""@ + path + "\""@;
    assert(two.subrange(0, 8) =~= "#include"@);
    assert(two.skip(8) =~= seq![' ', '"'] + path + seq!['"']);
    lemma_enclosed(two.skip(8), '"', path, '"');
    assert(!starts_with(two.skip(8), "#include"@)) by {
        if starts_with(two.skip(8), "#include"@) {
            assert(two.skip(8).subrange(0, 8)[0] == '#');
        }
    }
    assert(without_prefixes(two.skip(8), "#include"@) == two.skip(8));
    assert(without_prefixes(two, "#include"@) == two.skip(8));
}

/// A path between quotes or brackets, behind a space, is left when these are taken away.
proof fn lemma_enclosed(s: Seq<char>, opening: char, path: Seq<char>, closing: char)
    requires
        s == seq![' ', opening] + path + seq![closing],
        opening == '"' || opening == '<',
        closing == '"' || closing == '>',
        path.len() > 0,
        !"\"<>"@.contains(path[0]),
        !"\"<>"@.contains(path.last()),
    ensures
        without_back(without_front(trim(s), "\"<>"@), "\"<>"@) == path,
{
    reveal_strlit("\"<>");
    let marks = "\"<>"@;
    assert(marks[0] == '"' && marks[1] == '<' && marks[2] == '>');
    assert(marks.contains(opening) && marks.contains(closing));
    let inner = seq![opening] + path + seq![closing];
    assert(s.skip(1) =~= inner);
    assert(crate::text::trim_start(s) == crate::text::trim_start(inner));
    assert(inner[0] == opening);
    assert(crate::text::trim_start(inner) == inner);
    assert(inner.last() == closing);
    assert(crate::text::trim_end(inner) == inner);
    assert(inner.skip(1) =~= path + seq![closing]);
    assert((path + seq![closing])[0] == path[0]);
    assert(without_front(path + seq![closing], marks) == path + seq![closing]);
    assert(without_front(inner, marks) == path + seq![closing]);
    assert((path + seq![closing]).drop_last() =~= path);
    assert(without_back(path, marks) == path);
}

/// The imports tell, one each and in their order, of the nodes that import.
pub open spec fn lists_imported(
    list: Seq<ImportView>,
    language: LanguageKind,
    all: Seq<SyntaxNode>,
) -> bool {
    let imported = all.filter(|node: SyntaxNode| is_import(language, node));
    &&& list.len() == imported.len()
    &&& forall|i: int|
        0 <= i < list.len() ==> tells_import(#[trigger] list[i], language, imported[i])
}

/// The imports of a file are what it imports: no more, and no fewer.
pub proof fn law_imports_listed(language: LanguageKind, all: Seq<SyntaxNode>, n: int)
    requires
        0 <= n <= all.len(),
    ensures
        lists_imported(imports_of(language, all, n), language, all.take(n)),
    decreases n,
{
    reveal(Seq::filter);
    if n > 0 {
        law_imports_listed(language, all, n - 1);
        law_imported(language, all[n - 1]);
        assert(all.take(n).drop_last() =~= all.take(n - 1));
        assert(all.take(n).last() == all[n - 1]);
    }
}

/// The imports that the first `n` nodes are.
pub open spec fn imports_of(
    language: LanguageKind,
    all: Seq<SyntaxNode>,
    n: int,
) -> Seq<ImportView>
    decreases n,
{
    if n <= 0 {
        Seq::empty()
    } else {
        let before = imports_of(language, all, n - 1);
        match import_of(language, all[n - 1]) {
            Some(import) => before.push(import),
            None => before,
        }
    }
}

/// The imports of a source file, in their order.
pub fn list_imports(language: LanguageKind, root: &SyntaxNode) -> (r: Result<
    Vec<Import>,
    &'static str,
>)
    ensures
        match r {
            Ok(list) => lists_imports(language) && import_views(list@) == imports_of(
                language,
                preorder(*root),
                preorder(*root).len() as int,
            ),
            Err(e) => !lists_imports(language) && e@
                == "list_imports currently supports Rust, JavaScript/TypeScript, Swift, and Objective-C files"@,
        },
        r is Ok == (language is Rust || language is JavaScript || language is Swift
            || language is ObjectiveC),
        r matches Ok(list) ==> lists_imported(import_views(list@), language, preorder(*root)),
{
    if !supports_listing(language) {
        return Err(
            "list_imports currently supports Rust, JavaScript/TypeScript, Swift, and Objective-C files",
        );
    }
    let list = all_nodes(root);
    let ghost all = preorder(*root);
    assert(all.len() == list@.len());
    let mut out: Vec<Import> = Vec::new();
    assert(import_views(out@) =~= Seq::<ImportView>::empty());
    for i in 0..list.len()
        invariant
            nodes(list@) == all,
            import_views(out@) == imports_of(language, all, i as int),
    {
        assert(nodes(list@)[i as int] == *list@[i as int]);
        if let Some(import) = read_import(language, list[i]) {
            let ghost before = import_views(out@);
            let ghost shown = import@;
            out.push(import);
            assert(import_views(out@) =~= before.push(shown));
        }
    }
    proof {
        law_imports_listed(language, all, all.len() as int);
        assert(all.take(all.len() as int) =~= all);
    }
    Ok(out)
}

} // verus!
