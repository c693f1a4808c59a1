//! Reading the syntax of a source text.

use vstd::prelude::*;
use vstd::slice::slice_subrange;
use vstd::utf8::valid_utf8;

use crate::encoding::{lossy_text, text_from_utf8, text_from_utf8_lossy};
use crate::paths::{extension, extension_of};
use crate::syntax::SyntaxNode;
use crate::text::{ascii_lower, opt_view, str_ascii_lower, str_eq};
use crate::tools::ast_support::LanguageKind;

verus! {

/// A grammar by which a text is read.
#[derive(Clone, Copy, Debug, PartialEq, Eq, Structural)]
pub enum Grammar {
    Rust,
    Python,
    JavaScript,
    TypeScript,
    Tsx,
    C,
    Cpp,
    Go,
    Java,
    CSharp,
    Php,
    Ruby,
    Swift,
    ObjectiveC,
}

/// The grammar for a file in the language: TypeScript has grammars of its own.
pub open spec fn grammar_for(language: LanguageKind, path: Seq<char>) -> Grammar {
    let ext = match extension_of(path) {
        Some(e) => ascii_lower(e),
        None => Seq::empty(),
    };
    match language {
        LanguageKind::Rust => Grammar::Rust,
        LanguageKind::Python => Grammar::Python,
        LanguageKind::JavaScript => if ext == "ts"@ {
            Grammar::TypeScript
        } else if ext == "tsx"@ {
            Grammar::Tsx
        } else {
            Grammar::JavaScript
        },
        LanguageKind::C => Grammar::C,
        LanguageKind::Cpp => Grammar::Cpp,
        LanguageKind::Go => Grammar::Go,
        LanguageKind::Java => Grammar::Java,
        LanguageKind::CSharp => Grammar::CSharp,
        LanguageKind::Php => Grammar::Php,
        LanguageKind::Ruby => Grammar::Ruby,
        LanguageKind::Swift => Grammar::Swift,
        LanguageKind::ObjectiveC => Grammar::ObjectiveC,
    }
}

/// The grammar for a file in the language.
pub fn choose_grammar(language: LanguageKind, path: &str) -> (r: Grammar)
    ensures
        r == grammar_for(language, path@),
{
    let ext: String = match extension(path) {
        Some(e) => str_ascii_lower(e.as_str()),
        None => String::new(),
    };
    assert(ext@.len() == 0 ==> ext@ =~= Seq::<char>::empty());
    match language {
        LanguageKind::Rust => Grammar::Rust,
        LanguageKind::Python => Grammar::Python,
        LanguageKind::JavaScript => if str_eq(ext.as_str(), "ts") {
            Grammar::TypeScript
        } else if str_eq(ext.as_str(), "tsx") {
            Grammar::Tsx
        } else {
            Grammar::JavaScript
        },
        LanguageKind::C => Grammar::C,
        LanguageKind::Cpp => Grammar::Cpp,
        LanguageKind::Go => Grammar::Go,
        LanguageKind::Java => Grammar::Java,
        LanguageKind::CSharp => Grammar::CSharp,
        LanguageKind::Php => Grammar::Php,
        LanguageKind::Ruby => Grammar::Ruby,
        LanguageKind::Swift => Grammar::Swift,
        LanguageKind::ObjectiveC => Grammar::ObjectiveC,
    }
}

/// A node of a tree in a list: how deep it lies, its kind and its role, and the bytes
/// and lines it spans.
pub struct FlatNode {
    pub depth: u32,
    pub kind: String,
    pub field: Option<String>,
    pub start_byte: usize,
    pub end_byte: usize,
    pub start_row: usize,
    pub end_row: usize,
}

/// A node of a tree in a list.
pub struct Flat {
    pub depth: int,
    pub kind: Seq<char>,
    pub field: Option<Seq<char>>,
    pub start_byte: int,
    pub end_byte: int,
    pub start_row: int,
    pub end_row: int,
}

impl View for FlatNode {
    type V = Flat;

    open spec fn view(&self) -> Flat {
        Flat {
            depth: self.depth as int,
            kind: self.kind@,
            field: opt_view(self.field),
            start_byte: self.start_byte as int,
            end_byte: self.end_byte as int,
            start_row: self.start_row as int,
            end_row: self.end_row as int,
        }
    }
}

/// The nodes that are listed.
pub open spec fn flat_views(list: Seq<FlatNode>) -> Seq<Flat> {
    Seq::new(list.len(), |i: int| list[i]@)
}

/// A grammar as `tree_sitter` takes it.
#[verifier::external_type_specification]
#[verifier::external_body]
pub struct ExLanguage(tree_sitter::Language);

/// The grammar that the crate of the language offers as a constant.
pub uninterp spec fn offered_grammar(grammar: Grammar) -> tree_sitter::Language;

/// The nodes of the tree that `tree_sitter::Parser::parse` makes of the bytes by the
/// grammar, each before those below it; none where it makes no tree.
pub uninterp spec fn parsed_nodes(language: tree_sitter::Language, source: Seq<u8>) -> Option<
    Seq<Flat>,
>;

/// The constant `LANGUAGE` of the crate of each grammar.
#[verifier::external_body]
fn load_grammar(grammar: Grammar) -> (r: tree_sitter::Language)
    ensures
        r == offered_grammar(grammar),
{
    let offered = match grammar {
        Grammar::Rust => tree_sitter_rust::LANGUAGE, Grammar::C => tree_sitter_c::LANGUAGE,
        Grammar::Cpp => tree_sitter_cpp::LANGUAGE, Grammar::Go => tree_sitter_go::LANGUAGE,
        Grammar::Java => tree_sitter_java::LANGUAGE, Grammar::Ruby => tree_sitter_ruby::LANGUAGE,
        Grammar::Python => tree_sitter_python::LANGUAGE, Grammar::Swift => tree_sitter_swift::LANGUAGE,
        Grammar::JavaScript => tree_sitter_javascript::LANGUAGE,
        Grammar::TypeScript => tree_sitter_typescript::LANGUAGE_TYPESCRIPT,
        Grammar::Tsx => tree_sitter_typescript::LANGUAGE_TSX,
        Grammar::CSharp => tree_sitter_c_sharp::LANGUAGE,
        Grammar::Php => tree_sitter_php::LANGUAGE_PHP,
        Grammar::ObjectiveC => tree_sitter_objc::LANGUAGE,
    };
    offered.into()
}

/// `tree_sitter::Parser::parse`, and the nodes of its tree in the order of
/// `tree_sitter::TreeCursor::goto_descendant`: a function of the grammar and the bytes.
/// What the nodes are is left to the grammar.
#[verifier::external_body]
fn parse_nodes(language: &tree_sitter::Language, source: &[u8]) -> (r: Option<Vec<FlatNode>>)
    ensures
        (match r {
            Some(list) => Some(flat_views(list@)),
            None => None,
        }) == parsed_nodes(*language, source@),
{
    let mut parser = tree_sitter::Parser::new();
    parser.set_language(language).ok()?;
    let tree = parser.parse(source, None)?;
    let (mut cursor, mut out) = (tree.walk(), Vec::new());
    for index in 0..tree.root_node().descendant_count() {
        cursor.goto_descendant(index);
        let (node, field) = (cursor.node(), cursor.field_name().map(str::to_owned));
        let (kind, span) = (node.kind().to_owned(), node.range());
        out.push(FlatNode { depth: cursor.depth(), kind, field, start_byte: span.start_byte,
            end_byte: span.end_byte, start_row: span.start_point.row, end_row: span.end_point.row });
    }
    Some(out)
}

/// The list is that of one tree: its first node is the only one that lies at the top,
/// and no node lies more than one deeper than the one before it.
pub open spec fn is_one_tree(list: Seq<Flat>) -> bool {
    &&& list.len() > 0
    &&& list[0].depth == 0
    &&& forall|k: int|
        #![trigger list[k]]
        0 < k < list.len() ==> 0 < list[k].depth <= list[k - 1].depth + 1
}

/// What is told of a node.
pub struct Label {
    pub depth: int,
    pub kind: Seq<char>,
    pub field: Option<Seq<char>>,
    pub text: Seq<char>,
    pub valid: bool,
    pub start_row: int,
    pub end_row: int,
}

/// The bytes that a node spans.
pub open spec fn span_of(source: Seq<u8>, start: int, end: int) -> Seq<u8> {
    if 0 <= start <= end <= source.len() {
        source.subrange(start, end)
    } else {
        Seq::empty()
    }
}

/// What is told of a node of a list.
pub open spec fn flat_label(source: Seq<u8>, node: Flat) -> Label {
    let bytes = span_of(source, node.start_byte, node.end_byte);
    Label {
        depth: node.depth,
        kind: node.kind,
        field: node.field,
        text: lossy_text(bytes),
        valid: valid_utf8(bytes),
        start_row: node.start_row,
        end_row: node.end_row,
    }
}

/// What is told of the nodes of a list.
pub open spec fn flat_labels(source: Seq<u8>, list: Seq<Flat>) -> Seq<Label> {
    Seq::new(list.len(), |i: int| flat_label(source, list[i]))
}

/// What is told of a node that lies so deep.
pub open spec fn label_of(node: SyntaxNode, depth: int) -> Label {
    Label {
        depth,
        kind: node.kind@,
        field: opt_view(node.field),
        text: node.text@,
        valid: node.valid,
        start_row: node.start_row as int,
        end_row: node.end_row as int,
    }
}

/// What is told of a node that lies so deep and of all below it, each before those below
/// it. The depths tell which lies below which.
pub open spec fn labels(node: SyntaxNode, depth: int) -> Seq<Label>
    decreases node, 1int, 0int,
{
    seq![label_of(node, depth)] + labels_below(node, depth, node.children@.len() as int)
}

/// What is told of the first `n` nodes below a node and of all below them.
pub open spec fn labels_below(node: SyntaxNode, depth: int, n: int) -> Seq<Label>
    decreases node, 0int, n,
{
    if 0 < n <= node.children@.len() {
        labels_below(node, depth, n - 1) + labels(node.children@[n - 1], depth + 1)
    } else {
        Seq::empty()
    }
}

/// What is told of the nodes of a list that lie so deep, and of all below them.
pub open spec fn labels_of_all(children: Seq<SyntaxNode>, depth: int, n: int) -> Seq<Label>
    decreases n,
{
    if 0 < n <= children.len() {
        labels_of_all(children, depth, n - 1) + labels(children[n - 1], depth)
    } else {
        Seq::empty()
    }
}

/// A node tells of the nodes below it what they tell.
proof fn lemma_labels_below(node: SyntaxNode, depth: int, n: int)
    requires
        0 <= n <= node.children@.len(),
    ensures
        labels_below(node, depth, n) == labels_of_all(node.children@, depth + 1, n),
    decreases n,
{
    if n > 0 {
        lemma_labels_below(node, depth, n - 1);
    }
}

/// What the first nodes of a list tell does not hang on the rest.
proof fn lemma_labels_prefix(a: Seq<SyntaxNode>, b: Seq<SyntaxNode>, depth: int, n: int)
    requires
        0 <= n <= a.len(),
        n <= b.len(),
        a.take(n) == b.take(n),
    ensures
        labels_of_all(a, depth, n) == labels_of_all(b, depth, n),
    decreases n,
{
    if n > 0 {
        assert(a.take(n - 1) =~= a.take(n).take(n - 1));
        assert(b.take(n - 1) =~= b.take(n).take(n - 1));
        assert(a.take(n)[n - 1] == a[n - 1]);
        assert(b.take(n)[n - 1] == b[n - 1]);
        lemma_labels_prefix(a, b, depth, n - 1);
    }
}

/// The text of the bytes that a node spans, and whether they are a text.
fn text_of_span(source: &[u8], start: usize, end: usize) -> (r: (String, bool))
    ensures
        r.0@ == lossy_text(span_of(source@, start as int, end as int)),
        r.1 == valid_utf8(span_of(source@, start as int, end as int)),
{
    if start <= end && end <= source.len() {
        let bytes = slice_subrange(source, start, end);
        (text_from_utf8_lossy(bytes), text_from_utf8(bytes).is_some())
    } else {
        let none: Vec<u8> = Vec::new();
        assert(none@ =~= Seq::<u8>::empty());
        (text_from_utf8_lossy(none.as_slice()), text_from_utf8(none.as_slice()).is_some())
    }
}

/// Builds the node at a position of the list with all below it, and says where the list
/// goes on.
fn build_node(list: &[FlatNode], source: &[u8], at: usize) -> (r: (SyntaxNode, usize))
    requires
        is_one_tree(flat_views(list@)),
        at < list@.len(),
    ensures
        at < r.1 <= list@.len(),
        r.1 < list@.len() ==> list@[r.1 as int].depth <= list@[at as int].depth,
        labels(r.0, list@[at as int].depth as int) == flat_labels(
            source@,
            flat_views(list@),
        ).subrange(at as int, r.1 as int),
    decreases list@.len() - at,
{
    let ghost flat = flat_views(list@);
    let ghost all = flat_labels(source@, flat);
    let count: usize = list.len();
    let own = &list[at];
    let depth: u32 = own.depth;
    assert(flat[at as int] == own@);
    let (text, valid) = text_of_span(source, own.start_byte, own.end_byte);
    let mut children: Vec<SyntaxNode> = Vec::new();
    let mut next: usize = at + 1;
    assert(all.subrange(at + 1, at + 1) =~= Seq::<Label>::empty());
    if next < count {
        assert(flat[next as int] == list@[next as int]@);
        assert(flat[next - 1] == list@[next - 1]@);
    }
    while next < count && list[next].depth > depth
        invariant
            count == list@.len(),
            flat == flat_views(list@),
            all == flat_labels(source@, flat),
            is_one_tree(flat),
            at < next <= count,
            depth == list@[at as int].depth,
            next < count ==> list@[next as int].depth <= depth + 1,
            labels_of_all(children@, depth + 1, children@.len() as int) == all.subrange(
                at + 1,
                next as int,
            ),
        decreases count - next,
    {
        let ghost before = children@;
        let ghost from = next as int;
        let (child, behind) = build_node(list, source, next);
        children.push(child);
        next = behind;
        proof {
            let n = before.len() as int;
            assert(children@.take(n) =~= before.take(n));
            lemma_labels_prefix(children@, before, depth + 1, n);
            assert(children@[n] == child);
            assert(all.subrange(at + 1, from) + all.subrange(from, behind as int) =~= all.subrange(
                at + 1,
                behind as int,
            ));
        }
    }
    let node = SyntaxNode {
        kind: own.kind.clone(),
        field: match &own.field {
            Some(f) => Some(f.clone()),
            None => None,
        },
        text,
        valid,
        start_row: own.start_row,
        end_row: own.end_row,
        children,
    };
    proof {
        let n = node.children@.len() as int;
        lemma_labels_below(node, depth as int, n);
        assert(label_of(node, depth as int) == all[at as int]);
        assert(seq![all[at as int]] + all.subrange(at + 1, next as int) =~= all.subrange(
            at as int,
            next as int,
        ));
    }
    (node, next)
}

/// Whether a list is that of one tree.
fn lists_one_tree(list: &[FlatNode]) -> (r: bool)
    ensures
        r == is_one_tree(flat_views(list@)),
{
    let ghost flat = flat_views(list@);
    if list.len() == 0 {
        return false;
    }
    assert(flat[0] == list@[0]@);
    if list[0].depth != 0 {
        return false;
    }
    for k in 1..list.len()
        invariant
            flat == flat_views(list@),
            list@.len() > 0,
            flat[0].depth == 0,
            forall|j: int|
                #![trigger flat[j]]
                0 < j < k ==> 0 < flat[j].depth <= flat[j - 1].depth + 1,
    {
        assert(flat[k as int] == list@[k as int]@);
        assert(flat[k - 1] == list@[k - 1]@);
        if list[k].depth == 0 || list[k].depth - 1 > list[k - 1].depth {
            return false;
        }
    }
    true
}

/// The tree of which a list tells; none where the list is not that of one tree.
pub fn build_tree(list: &[FlatNode], source: &[u8]) -> (r: Option<SyntaxNode>)
    ensures
        match r {
            Some(root) => is_one_tree(flat_views(list@)) && labels(root, 0) == flat_labels(
                source@,
                flat_views(list@),
            ),
            None => !is_one_tree(flat_views(list@)),
        },
{
    if !lists_one_tree(list) {
        return None;
    }
    let ghost flat = flat_views(list@);
    assert(flat[0] == list@[0]@);
    let (root, end) = build_node(list, source, 0);
    proof {
        if end < list@.len() {
            assert(flat[end as int] == list@[end as int]@);
        }
        let all = flat_labels(source@, flat);
        assert(all.subrange(0, end as int) =~= all);
    }
    Some(root)
}

/// The tree of a source text by a grammar; none where the text cannot be read by it.
pub fn parse_source(grammar: Grammar, source: &[u8]) -> (r: Option<SyntaxNode>)
    ensures
        match parsed_nodes(offered_grammar(grammar), source@) {
            Some(list) => if is_one_tree(list) {
                r matches Some(root) && labels(root, 0) == flat_labels(source@, list)
            } else {
                r is None
            },
            None => r is None,
        },
{
    let language = load_grammar(grammar);
    match parse_nodes(&language, source) {
        Some(list) => build_tree(list.as_slice(), source),
        None => None,
    }
}

} // verus!
