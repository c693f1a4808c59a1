//! What a function calls.

use vstd::prelude::*;

use crate::sorted::{ascending, insert_unique};
use crate::syntax::{
    all_nodes, child_field_text, nodes, preorder, role_text, text_in, SyntaxNode,
};
use crate::text::{
    chars_of, find, find_from, first_line, opt_view, str_eq, str_first_line, str_take, views,
};
use crate::tools::ast_support::{declaration_in, find_named_node, line_number};

verus! {

/// A node of this kind is a call.
pub open spec fn is_call_kind(kind: Seq<char>) -> bool {
    ||| kind == "call_expression"@
    ||| kind == "call"@
    ||| kind == "invocation"@
    ||| kind == "method_invocation"@
    ||| kind == "invocation_expression"@
    ||| kind == "function_call_expression"@
    ||| kind == "member_call_expression"@
    ||| kind == "scoped_call_expression"@
}

/// Whether a node of this kind is a call.
fn kind_is_call(kind: &str) -> (r: bool)
    ensures
        r == is_call_kind(kind@),
{
    str_eq(kind, "call_expression") || str_eq(kind, "call") || str_eq(kind, "invocation")
        || str_eq(kind, "method_invocation") || str_eq(kind, "invocation_expression") || str_eq(
        kind,
        "function_call_expression",
    ) || str_eq(kind, "member_call_expression") || str_eq(kind, "scoped_call_expression")
}

/// The first line of what stands before the first bracket.
pub open spec fn before_bracket(text: Seq<char>) -> Seq<char> {
    first_line(
        match find_from(text, "("@, 0) {
            Some(i) => text.take(i),
            None => text,
        },
    )
}

/// The name of a method of something, or alone.
pub open spec fn qualified(owner: Option<Seq<char>>, name: Seq<char>) -> Seq<char> {
    match owner {
        Some(o) => o + "."@ + name,
        None => name,
    }
}

/// The name of what a call calls: the function that it names, or the method with what
/// it is called on; else what stands before the bracket.
pub open spec fn callee_of(node: SyntaxNode) -> Option<Seq<char>> {
    if !is_call_kind(node.kind@) {
        None
    } else {
        match text_in(node) {
            None => None,
            Some(text) => Some(
                match role_text(node, "function"@) {
                    Some(name) => first_line(name),
                    None => match role_text(node, "method"@) {
                        Some(name) => first_line(
                            qualified(role_text(node, "receiver"@), name),
                        ),
                        None => match role_text(node, "name"@) {
                            Some(name) => first_line(
                                qualified(role_text(node, "object"@), name),
                            ),
                            None => before_bracket(text),
                        },
                    },
                },
            ),
        }
    }
}

/// The name of a method of something, or alone.
fn qualify(owner: Option<String>, name: String) -> (r: String)
    ensures
        r@ == qualified(opt_view(owner), name@),
{
    match owner {
        Some(o) => {
            let mut text = o;
            text.append(".");
            text.append(name.as_str());
            text
        },
        None => name,
    }
}

/// The name of what a call calls.
pub fn callee_name(node: &SyntaxNode) -> (r: Option<String>)
    ensures
        opt_view(r) == callee_of(*node),
        r is Some == (is_call_kind(node.kind@) && node.valid),
        r is Some ==> (role_text(*node, "function"@) matches Some(name) ==> r->0@ == first_line(name)),
        r is Some && role_text(*node, "function"@) is None ==> (role_text(*node, "method"@) matches Some(
            name,
        ) ==> r->0@ == first_line(
            match role_text(*node, "receiver"@) {
                Some(owner) => owner + "."@ + name,
                None => name,
            },
        )),
        r is Some && role_text(*node, "function"@) is None && role_text(*node, "method"@) is None
            ==> (role_text(*node, "name"@) matches Some(name) ==> r->0@ == first_line(
            match role_text(*node, "object"@) {
                Some(owner) => owner + "."@ + name,
                None => name,
            },
        )),
{
    if !kind_is_call(node.kind.as_str()) || !node.valid {
        return None;
    }
    if let Some(name) = child_field_text(node, "function") {
        return Some(str_first_line(name.as_str()));
    }
    if let Some(name) = child_field_text(node, "method") {
        let full = qualify(child_field_text(node, "receiver"), name);
        return Some(str_first_line(full.as_str()));
    }
    if let Some(name) = child_field_text(node, "name") {
        let full = qualify(child_field_text(node, "object"), name);
        return Some(str_first_line(full.as_str()));
    }
    let chars = chars_of(node.text.as_str());
    let bracket = chars_of("(");
    match find(chars.as_slice(), bracket.as_slice(), 0) {
        Some(i) => {
            proof {
                crate::text::lemma_find_from(node.text@, "("@, 0);
            }
            Some(str_first_line(str_take(node.text.as_str(), i).as_str()))
        },
        None => Some(str_first_line(node.text.as_str())),
    }
}

/// The node or one below it calls this.
pub open spec fn is_called_in(root: SyntaxNode, name: Seq<char>) -> bool {
    exists|i: int|
        0 <= i < preorder(root).len() && callee_of(#[trigger] preorder(root)[i]) == Some(name)
}

/// What the node and those below it call, in order, each once.
pub fn find_outbound_calls(root: &SyntaxNode) -> (r: Vec<String>)
    ensures
        ascending(views(r@)),
        forall|p: Seq<char>| #[trigger] views(r@).contains(p) <==> is_called_in(*root, p),
{
    let list = all_nodes(root);
    let ghost all = preorder(*root);
    assert(all.len() == list@.len());
    let mut out: Vec<String> = Vec::new();
    for i in 0..list.len()
        invariant
            nodes(list@) == all,
            ascending(views(out@)),
            forall|p: Seq<char>| #[trigger]
                views(out@).contains(p) <==> exists|k: int|
                    0 <= k < i && callee_of(#[trigger] all[k]) == Some(p),
    {
        let ghost before = views(out@);
        assert(nodes(list@)[i as int] == *list@[i as int]);
        if let Some(name) = callee_name(list[i]) {
            insert_unique(&mut out, name);
        }
        assert forall|p: Seq<char>| #[trigger] views(out@).contains(p) <==> exists|k: int|
            0 <= k < i + 1 && callee_of(#[trigger] all[k]) == Some(p) by {
            assert(before.contains(p) <==> exists|k: int|
                0 <= k < i && callee_of(#[trigger] all[k]) == Some(p));
            if callee_of(all[i as int]) == Some(p) {
                assert(exists|k: int| 0 <= k < i + 1 && callee_of(#[trigger] all[k]) == Some(p));
            }
        }
    }
    out
}

/// What a function calls, and the lines it stands on.
pub struct CallGraph {
    pub start_line: usize,
    pub end_line: usize,
    pub outbound_calls: Vec<String>,
}

/// What a function of a source file calls.
pub fn get_call_graph(root: &SyntaxNode, symbol: &str) -> (r: Result<CallGraph, String>)
    ensures
        match declaration_in(*root, symbol@, true) {
            Some(node) => r matches Ok(graph) && {
                &&& graph.start_line == line_number(node.start_row)
                &&& graph.end_line == line_number(node.end_row)
                &&& ascending(views(graph.outbound_calls@))
                &&& forall|p: Seq<char>| #[trigger]
                    views(graph.outbound_calls@).contains(p) <==> is_called_in(node, p)
            },
            None => r matches Err(e) && e@ == "Could not find function '"@ + symbol@
                + "' in the file"@,
        },
{
    match find_named_node(root, symbol, true) {
        Some(node) => Ok(
            CallGraph {
                start_line: node.start_row.saturating_add(1),
                end_line: node.end_row.saturating_add(1),
                outbound_calls: find_outbound_calls(node),
            },
        ),
        None => {
            let mut text = "Could not find function '".to_owned();
            text.append(symbol);
            text.append("' in the file");
            Err(text)
        },
    }
}

} // verus!
