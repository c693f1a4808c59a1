//! Two symbols beside each other.

use vstd::prelude::*;

use crate::diffs::{build_diff_payload, leads, line_changes, unified_text, DiffPayload, CONTEXT_LINES};

verus! {

/// One of two symbols: its file, its name, and its body.
pub struct SymbolSide {
    pub file: String,
    pub symbol: String,
    pub content: String,
}

/// What a symbol is called in a comparison.
pub open spec fn label_of(side: SymbolSide) -> Seq<char> {
    side.file@ + ":"@ + side.symbol@
}

/// What a symbol is called in a comparison.
pub fn side_label(side: &SymbolSide) -> (r: String)
    ensures
        r@ == label_of(*side),
{
    let mut out = side.file.clone();
    out.append(":");
    out.append(side.symbol.as_str());
    out
}

/// Two symbols beside each other.
pub fn compare_symbols(left: &SymbolSide, right: &SymbolSide) -> (r: DiffPayload)
    ensures
        r.same_content == (left.content@ == right.content@),
        r.left_lines == crate::lines::lines(left.content@).len(),
        r.right_lines == crate::lines::lines(right.content@).len(),
        r.summary.counts(line_changes(left.content@, right.content@)),
        r.unified_diff@ == unified_text(
            left.content@,
            right.content@,
            CONTEXT_LINES,
            label_of(*left),
            label_of(*right),
        ),
        r.summary.leads(left.content@, right.content@),
        leads(
            r.unified_diff@,
            left.content@,
            right.content@,
            left.file@ + ":"@ + left.symbol@,
            right.file@ + ":"@ + right.symbol@,
        ),
{
    build_diff_payload(
        left.content.as_str(),
        right.content.as_str(),
        side_label(left).as_str(),
        side_label(right).as_str(),
    )
}

} // verus!
