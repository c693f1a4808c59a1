//! Differences between two texts, line by line.

use vstd::prelude::*;

use crate::lines::{lines, split, str_lines};
use crate::text::{starts_with, str_eq, views};
use crate::tools::read_file::text_lines;

verus! {

/// What became of one line: it stands in both texts, only in the new one, or
/// only in the old one.
#[derive(Clone, Copy, Debug, PartialEq, Eq, Structural)]
pub enum LineTag {
    Equal,
    Insert,
    Delete,
}

/// What `similar::TextDiff::from_lines` finds of each line.
pub uninterp spec fn line_changes(before: Seq<char>, after: Seq<char>) -> Seq<LineTag>;

/// How many lines of context stand round what differs.
pub const CONTEXT_LINES: usize = 3;

/// The unified diff, with so many lines of context, that `similar` writes for
/// two texts under the two labels.
pub uninterp spec fn unified_text(
    before: Seq<char>,
    after: Seq<char>,
    context: usize,
    old_label: Seq<char>,
    new_label: Seq<char>,
) -> Seq<char>;

/// Each carriage return of the text stands before a line feed.
pub open spec fn returns_end_lines(s: Seq<char>) -> bool {
    forall|i: int| 0 <= i < s.len() && #[trigger] s[i] == '\r' ==> i + 1 < s.len() && s[i + 1] == '\n'
}

/// The lines of a unified diff behind its two lines of labels and before the
/// `n`-th that begin with the mark, each without it.
pub open spec fn marked(diff: Seq<Seq<char>>, mark: char, n: int) -> Seq<Seq<char>>
    decreases n,
{
    if n <= 2 {
        Seq::empty()
    } else {
        let before = marked(diff, mark, n - 1);
        let line = diff[n - 1];
        if line.len() > 0 && line[0] == mark {
            before.push(line.skip(1))
        } else {
            before
        }
    }
}

/// The lines that a unified diff takes away.
pub open spec fn taken_away(diff: Seq<char>) -> Seq<Seq<char>> {
    marked(split(diff, '\n'), '-', split(diff, '\n').len() as int)
}

/// The lines that a unified diff puts in.
pub open spec fn put_in(diff: Seq<char>) -> Seq<Seq<char>> {
    marked(split(diff, '\n'), '+', split(diff, '\n').len() as int)
}

/// The unified diff leads from the one text to the other: it is empty where they
/// are the same, and names both where they are not; what it takes away are lines
/// of the first, what it puts in are lines of the second, and the lines of the
/// first with those put in are the lines of the second with those taken away. The
/// lines can be told apart only where no label holds a line feed and no carriage
/// return stands alone.
pub open spec fn leads(
    diff: Seq<char>,
    before: Seq<char>,
    after: Seq<char>,
    old_label: Seq<char>,
    new_label: Seq<char>,
) -> bool {
    &&& before == after ==> diff.len() == 0
    &&& before != after ==> starts_with(
        diff,
        "--- "@ + old_label + "\n+++ "@ + new_label + "\n"@,
    )
    &&& returns_end_lines(before) && returns_end_lines(after) && !old_label.contains('\n')
        && !new_label.contains('\n') ==> {
        &&& forall|k: int|
            0 <= k < taken_away(diff).len() ==> text_lines(before).contains(
                #[trigger] taken_away(diff)[k],
            )
        &&& forall|k: int|
            0 <= k < put_in(diff).len() ==> text_lines(after).contains(#[trigger] put_in(diff)[k])
        &&& text_lines(before).to_multiset().add(put_in(diff).to_multiset()) == text_lines(
            after,
        ).to_multiset().add(taken_away(diff).to_multiset())
    }
}

/// What is found of each line leads from the one text to the other: the lines
/// that are kept or deleted are as many as the first has, those that are kept or
/// inserted as many as the second, and some are deleted or inserted exactly where
/// the texts differ.
pub open spec fn tags_lead(tags: Seq<LineTag>, before: Seq<char>, after: Seq<char>) -> bool {
    &&& (before == after) == (count_tag(tags, LineTag::Insert) == 0 && count_tag(
        tags,
        LineTag::Delete,
    ) == 0)
    &&& returns_end_lines(before) && returns_end_lines(after) ==> {
        &&& count_tag(tags, LineTag::Equal) + count_tag(tags, LineTag::Delete) == text_lines(
            before,
        ).len()
        &&& count_tag(tags, LineTag::Equal) + count_tag(tags, LineTag::Insert) == text_lines(
            after,
        ).len()
    }
}

/// `similar::TextDiff::from_lines` and `iter_all_changes`: what is found of each
/// line is a function of the two texts, and leads from the one to the other.
#[verifier::external_body]
pub(crate) fn diff_lines(before: &str, after: &str) -> (r: Vec<LineTag>)
    ensures
        r@ == line_changes(before@, after@),
        tags_lead(r@, before@, after@),
{
    let diff = similar::TextDiff::from_lines(before, after);
    diff.iter_all_changes().map(|change| match change.tag() {
        similar::ChangeTag::Equal => LineTag::Equal,
        similar::ChangeTag::Insert => LineTag::Insert,
        similar::ChangeTag::Delete => LineTag::Delete,
    }).collect()
}

/// `similar::TextDiff::unified_diff` of two texts, with so many lines of context
/// and the two labels: a function of the texts, that number and the labels. The
/// crate doubles the number of lines, so that twice as many must be a number of
/// the machine. The diff leads from the one text to the other.
#[verifier::external_body]
pub(crate) fn unified_diff(
    before: &str,
    after: &str,
    context: usize,
    old_label: &str,
    new_label: &str,
) -> (r: String)
    requires
        context <= usize::MAX / 2,
    ensures
        r@ == unified_text(before@, after@, context, old_label@, new_label@),
        leads(r@, before@, after@, old_label@, new_label@),
{
    let diff = similar::TextDiff::from_lines(before, after);
    diff.unified_diff().context_radius(context).header(old_label, new_label).to_string()
}

/// How many of the lines have the tag.
pub open spec fn count_tag(tags: Seq<LineTag>, tag: LineTag) -> nat
    decreases tags.len(),
{
    if tags.len() == 0 {
        0
    } else {
        count_tag(tags.drop_last(), tag) + if tags.last() == tag {
            1nat
        } else {
            0nat
        }
    }
}

/// How many lines were inserted, deleted, and kept.
pub struct LineCounts {
    pub inserted: usize,
    pub deleted: usize,
    pub equal: usize,
}

impl LineCounts {
    /// The counts are those of the way from the one text to the other.
    pub open spec fn leads(&self, before: Seq<char>, after: Seq<char>) -> bool {
        &&& (before == after) == (self.inserted == 0 && self.deleted == 0)
        &&& returns_end_lines(before) && returns_end_lines(after) ==> {
            &&& self.equal + self.deleted == text_lines(before).len()
            &&& self.equal + self.inserted == text_lines(after).len()
        }
    }

    /// The counts are those of the tags.
    pub open spec fn counts(&self, tags: Seq<LineTag>) -> bool {
        &&& self.inserted == count_tag(tags, LineTag::Insert)
        &&& self.deleted == count_tag(tags, LineTag::Delete)
        &&& self.equal == count_tag(tags, LineTag::Equal)
        &&& self.inserted + self.deleted + self.equal == tags.len()
    }
}

/// How many lines have each tag.
pub fn count_tags(tags: &[LineTag]) -> (r: LineCounts)
    ensures
        r.counts(tags@),
{
    let mut counts = LineCounts { inserted: 0, deleted: 0, equal: 0 };
    assert(tags@.take(0) =~= Seq::<LineTag>::empty());
    for i in 0..tags.len()
        invariant
            counts.counts(tags@.take(i as int)),
    {
        assert(tags@.take(i + 1).drop_last() =~= tags@.take(i as int));
        match tags[i] {
            LineTag::Insert => counts.inserted += 1,
            LineTag::Delete => counts.deleted += 1,
            LineTag::Equal => counts.equal += 1,
        }
    }
    assert(tags@.take(tags@.len() as int) =~= tags@);
    counts
}

/// How many lines of two texts differ.
pub fn changed_lines(before: &str, after: &str) -> (r: LineCounts)
    ensures
        r.counts(line_changes(before@, after@)),
        r.leads(before@, after@),
{
    let tags = diff_lines(before, after);
    count_tags(tags.as_slice())
}

/// How many lines a text has.
pub fn count_lines(text: &str) -> (r: usize)
    ensures
        r == lines(text@).len(),
{
    let all = str_lines(text);
    assert(views(all@).len() == all@.len());
    all.len()
}

/// Two texts beside each other.
pub struct DiffPayload {
    pub same_content: bool,
    pub left_lines: usize,
    pub right_lines: usize,
    pub summary: LineCounts,
    pub unified_diff: String,
}

/// Two texts beside each other.
pub fn build_diff_payload(
    left: &str,
    right: &str,
    left_label: &str,
    right_label: &str,
) -> (r: DiffPayload)
    ensures
        r.same_content == (left@ == right@),
        r.left_lines == lines(left@).len(),
        r.right_lines == lines(right@).len(),
        r.summary.counts(line_changes(left@, right@)),
        r.unified_diff@ == unified_text(
            left@,
            right@,
            CONTEXT_LINES,
            left_label@,
            right_label@,
        ),
        r.summary.leads(left@, right@),
        leads(r.unified_diff@, left@, right@, left_label@, right_label@),
{
    DiffPayload {
        same_content: str_eq(left, right),
        left_lines: count_lines(left),
        right_lines: count_lines(right),
        summary: changed_lines(left, right),
        unified_diff: unified_diff(left, right, CONTEXT_LINES, left_label, right_label),
    }
}

} // verus!
