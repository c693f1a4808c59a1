//! The syntax of a source file, as a tree.

use vstd::prelude::*;

use crate::text::{opt_view, str_eq};

verus! {

/// A node of the tree: its kind, the role that it plays in the node above it, its
/// text, the lines it begins and ends on, from zero, and the nodes below it. `valid`
/// says that its bytes are a text; else `text` has replacements in it.
pub struct SyntaxNode {
    pub kind: String,
    pub field: Option<String>,
    pub text: String,
    pub valid: bool,
    pub start_row: usize,
    pub end_row: usize,
    pub children: Vec<SyntaxNode>,
}

/// A node below is smaller.
pub proof fn lemma_child_smaller(node: SyntaxNode, i: int)
    requires
        0 <= i < node.children@.len(),
    ensures
        decreases_to!(node => node.children@[i]),
{
    assert(decreases_to!(node => node.children));
    assert(decreases_to!(node.children => node.children@));
    assert(decreases_to!(node.children@ => node.children@[i]));
}

/// The node and all below it, each before those below it.
pub open spec fn preorder(node: SyntaxNode) -> Seq<SyntaxNode>
    decreases node, 1int, 0int,
{
    seq![node] + below(node, node.children@.len() as int)
}

/// The first `n` nodes below a node, each with all below it.
pub open spec fn below(node: SyntaxNode, n: int) -> Seq<SyntaxNode>
    decreases node, 0int, n,
{
    if 0 < n <= node.children@.len() {
        below(node, n - 1) + preorder(node.children@[n - 1])
    } else {
        Seq::empty()
    }
}

/// A node stands first among those from it on, and where one stands, so do those right
/// below it.
pub proof fn law_preorder(root: SyntaxNode, node: SyntaxNode, c: int)
    requires
        preorder(root).contains(node),
        0 <= c < node.children@.len(),
    ensures
        preorder(root)[0] == root,
        preorder(root).contains(node.children@[c]),
    decreases root, 1int, 0int,
{
    let all = preorder(root);
    let rest = below(root, root.children@.len() as int);
    let i = all.index_of(node);
    if i == 0 {
        lemma_child_below(root, root.children@.len() as int, c);
        let k = rest.index_of(root.children@[c]);
        assert(all[k + 1] == rest[k]);
    } else {
        assert(rest[i - 1] == node);
        lemma_below(root, root.children@.len() as int, node, c);
        let k = rest.index_of(node.children@[c]);
        assert(all[k + 1] == rest[k]);
    }
}

/// Each of the first `n` nodes right below stands among those below.
proof fn lemma_child_below(root: SyntaxNode, n: int, c: int)
    requires
        0 <= c < n <= root.children@.len(),
    ensures
        below(root, n).contains(root.children@[c]),
    decreases n,
{
    let before = below(root, n - 1);
    let last = preorder(root.children@[n - 1]);
    let all = before + last;
    if c == n - 1 {
        assert(last[0] == root.children@[c]);
        assert(all[before.len() as int] == last[0]);
    } else {
        lemma_child_below(root, n - 1, c);
        let k = before.index_of(root.children@[c]);
        assert(all[k] == before[k]);
    }
}

/// Where a node stands below the first `n`, so do those right below it.
proof fn lemma_below(root: SyntaxNode, n: int, node: SyntaxNode, c: int)
    requires
        below(root, n).contains(node),
        0 <= c < node.children@.len(),
        0 <= n <= root.children@.len(),
    ensures
        below(root, n).contains(node.children@[c]),
    decreases root, 0int, n,
{
    if n > 0 {
        let before = below(root, n - 1);
        let last = preorder(root.children@[n - 1]);
        let all = before + last;
        let i = all.index_of(node);
        if i < before.len() {
            assert(before[i] == node);
            lemma_below(root, n - 1, node, c);
            let k = before.index_of(node.children@[c]);
            assert(all[k] == before[k]);
        } else {
            assert(last[i - before.len()] == node);
            law_preorder(root.children@[n - 1], node, c);
            let k = last.index_of(node.children@[c]);
            assert(all[before.len() + k] == last[k]);
        }
    }
}

/// The nodes that are listed.
pub open spec fn nodes(list: Seq<&SyntaxNode>) -> Seq<SyntaxNode> {
    Seq::new(list.len(), |i: int| *list[i])
}

/// Adds the node and all below it.
fn push_nodes<'a>(node: &'a SyntaxNode, out: &mut Vec<&'a SyntaxNode>)
    ensures
        nodes(final(out)@) == nodes(old(out)@) + preorder(*node),
    decreases *node,
{
    let ghost before = nodes(out@);
    out.push(node);
    assert(nodes(out@) =~= before + seq![*node]);
    assert(before + seq![*node] + below(*node, 0) =~= before + seq![*node]);
    for i in 0..node.children.len()
        invariant
            nodes(out@) == before + seq![*node] + below(*node, i as int),
    {
        proof {
            lemma_child_smaller(*node, i as int);
        }
        push_nodes(&node.children[i], out);
        assert(nodes(out@) =~= before + seq![*node] + below(*node, i + 1));
    }
    assert(nodes(out@) =~= before + preorder(*node));
}

/// The node and all below it, each before those below it.
pub fn all_nodes<'a>(root: &'a SyntaxNode) -> (r: Vec<&'a SyntaxNode>)
    ensures
        nodes(r@) == preorder(*root),
{
    let mut out: Vec<&'a SyntaxNode> = Vec::new();
    push_nodes(root, &mut out);
    assert(nodes(out@) =~= preorder(*root));
    out
}

/// The text of a node, where its bytes are one.
pub open spec fn text_in(node: SyntaxNode) -> Option<Seq<char>> {
    if node.valid {
        Some(node.text@)
    } else {
        None
    }
}

/// The position of the first node below, from `from` on, that plays the role.
pub open spec fn role_position(node: SyntaxNode, field: Seq<char>, from: int) -> Option<int>
    decreases node.children@.len() - from,
{
    if from < 0 || from >= node.children@.len() {
        None
    } else if opt_view(node.children@[from].field) == Some(field) {
        Some(from)
    } else {
        role_position(node, field, from + 1)
    }
}

/// The node that plays a role is the first of those right below that do.
pub proof fn law_role_first(node: SyntaxNode, field: Seq<char>, from: int)
    requires
        0 <= from <= node.children@.len(),
    ensures
        match role_position(node, field, from) {
            Some(k) => from <= k < node.children@.len() && opt_view(node.children@[k].field)
                == Some(field) && forall|j: int|
                from <= j < k ==> opt_view((#[trigger] node.children@[j]).field) != Some(field),
            None => forall|j: int|
                from <= j < node.children@.len() ==> opt_view((#[trigger] node.children@[j]).field)
                    != Some(field),
        },
    decreases node.children@.len() - from,
{
    if from < node.children@.len() {
        law_role_first(node, field, from + 1);
    }
}

/// The position of the first node below that plays the role.
pub fn field_position(node: &SyntaxNode, field: &str) -> (r: Option<usize>)
    ensures
        (match r {
            Some(i) => Some(i as int),
            None => None,
        }) == role_position(*node, field@, 0),
        r matches Some(i) ==> i < node.children@.len(),
{
    let mut i: usize = 0;
    while i < node.children.len()
        invariant
            i <= node.children@.len(),
            role_position(*node, field@, 0) == role_position(*node, field@, i as int),
        decreases node.children@.len() - i,
    {
        if let Some(role) = &node.children[i].field {
            if str_eq(role.as_str(), field) {
                return Some(i);
            }
        }
        i += 1;
    }
    None
}

/// The text of the node below that plays the role.
pub open spec fn role_text(node: SyntaxNode, field: Seq<char>) -> Option<Seq<char>> {
    match role_position(node, field, 0) {
        Some(i) => text_in(node.children@[i]),
        None => None,
    }
}

/// The text of the node below that plays the role.
pub fn child_field_text(node: &SyntaxNode, field: &str) -> (r: Option<String>)
    ensures
        opt_view(r) == role_text(*node, field@),
{
    match field_position(node, field) {
        Some(i) => if node.children[i].valid {
            Some(node.children[i].text.clone())
        } else {
            None
        },
        None => None,
    }
}

/// A node of this kind is a name.
pub open spec fn is_name_kind(kind: Seq<char>) -> bool {
    ||| kind == "identifier"@
    ||| kind == "type_identifier"@
    ||| kind == "field_identifier"@
    ||| kind == "qualified_identifier"@
    ||| kind == "simple_identifier"@
    ||| kind == "destructor_name"@
    ||| kind == "operator_name"@
}

/// Whether a node of this kind is a name.
fn kind_is_name(kind: &str) -> (r: bool)
    ensures
        r == is_name_kind(kind@),
{
    str_eq(kind, "identifier") || str_eq(kind, "type_identifier") || str_eq(
        kind,
        "field_identifier",
    ) || str_eq(kind, "qualified_identifier") || str_eq(kind, "simple_identifier") || str_eq(
        kind,
        "destructor_name",
    ) || str_eq(kind, "operator_name")
}

/// The position of the first node below, from `from` on, that is a name.
pub open spec fn name_position(node: SyntaxNode, from: int) -> Option<int>
    decreases node.children@.len() - from,
{
    if from < 0 || from >= node.children@.len() {
        None
    } else if is_name_kind(node.children@[from].kind@) {
        Some(from)
    } else {
        name_position(node, from + 1)
    }
}

/// The name that a node declares: the text of its name; else that which its
/// declarator is or declares; else that of the first node below it that is a name.
pub open spec fn declared_name(node: SyntaxNode) -> Option<Seq<char>>
    decreases node,
{
    match role_position(node, "name"@, 0) {
        Some(i) => text_in(node.children@[i]),
        None => match role_position(node, "declarator"@, 0) {
            Some(i) => if 0 <= i < node.children@.len() {
                if is_name_kind(node.children@[i].kind@) {
                    text_in(node.children@[i])
                } else {
                    declared_name(node.children@[i])
                }
            } else {
                None
            },
            None => match name_position(node, 0) {
                Some(i) => text_in(node.children@[i]),
                None => None,
            },
        },
    }
}

/// The text of a node, where its bytes are one.
pub fn node_text(node: &SyntaxNode) -> (r: Option<String>)
    ensures
        opt_view(r) == text_in(*node),
{
    if node.valid {
        Some(node.text.clone())
    } else {
        None
    }
}

/// The position of the first node below that is a name.
fn find_name(node: &SyntaxNode) -> (r: Option<usize>)
    ensures
        (match r {
            Some(i) => Some(i as int),
            None => None,
        }) == name_position(*node, 0),
        r matches Some(i) ==> i < node.children@.len(),
{
    let mut i: usize = 0;
    while i < node.children.len()
        invariant
            i <= node.children@.len(),
            name_position(*node, 0) == name_position(*node, i as int),
        decreases node.children@.len() - i,
    {
        if kind_is_name(node.children[i].kind.as_str()) {
            return Some(i);
        }
        i += 1;
    }
    None
}

/// The name that a node declares.
pub fn declaration_name(node: &SyntaxNode) -> (r: Option<String>)
    ensures
        opt_view(r) == declared_name(*node),
    decreases *node,
{
    if let Some(i) = field_position(node, "name") {
        return node_text(&node.children[i]);
    }
    if let Some(i) = field_position(node, "declarator") {
        if kind_is_name(node.children[i].kind.as_str()) {
            return node_text(&node.children[i]);
        }
        proof {
            lemma_child_smaller(*node, i as int);
        }
        return declaration_name(&node.children[i]);
    }
    match find_name(node) {
        Some(i) => node_text(&node.children[i]),
        None => None,
    }
}

} // verus!
