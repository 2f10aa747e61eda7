use vstd::prelude::*;

use crate::cascade::strings_view;
use crate::disk::path_exists;

verus! {

/// Where a line of a line diff comes from.
#[derive(Clone, Copy, PartialEq, Eq, Structural, Debug)]
pub enum LineTag {
    /// In both lists.
    Equal,
    /// Only in the old list.
    Delete,
    /// Only in the new list.
    Insert,
}

/// One line of a line diff.
#[derive(Clone, Debug)]
pub struct DiffLine {
    pub tag: LineTag,
    pub text: String,
}

/// The label of one reconciled row.
#[derive(Clone, Copy, PartialEq, Eq, Structural, Debug)]
pub enum ChangeKind {
    /// In both lists.
    Match,
    /// Only in the authoritative list, and absent from disk.
    RemovedStale,
    /// Only in the authoritative list, yet present on disk.
    RemovedExisting,
    /// Only in the cascade list.
    Added,
}

/// One reconciled row.
#[derive(Clone, Debug, PartialEq, Eq)]
pub struct ClassifiedChange {
    pub kind: ChangeKind,
    pub text: String,
}

/// The lines of a diff that come from the old list, in order.
pub open spec fn old_side(lines: Seq<DiffLine>) -> Seq<Seq<char>>
    decreases lines.len(),
{
    if lines.len() == 0 {
        Seq::empty()
    } else {
        let rest = old_side(lines.drop_last());
        if lines.last().tag is Insert {
            rest
        } else {
            rest.push(lines.last().text@)
        }
    }
}

/// The lines of a diff that come from the new list, in order.
pub open spec fn new_side(lines: Seq<DiffLine>) -> Seq<Seq<char>>
    decreases lines.len(),
{
    if lines.len() == 0 {
        Seq::empty()
    } else {
        let rest = new_side(lines.drop_last());
        if lines.last().tag is Delete {
            rest
        } else {
            rest.push(lines.last().text@)
        }
    }
}

/// The line diff of two lists: a function of the two lists alone.
pub uninterp spec fn line_diff_of(old: Seq<Seq<char>>, new: Seq<Seq<char>>) -> Seq<
    (LineTag, Seq<char>),
>;

/// The tag and text of each diff line.
pub open spec fn diff_view(lines: Seq<DiffLine>) -> Seq<(LineTag, Seq<char>)> {
    lines.map_values(|l: DiffLine| (l.tag, l.text@))
}

/// The length of a longest common subsequence of two lists.
pub open spec fn lcs_len(a: Seq<Seq<char>>, b: Seq<Seq<char>>) -> nat
    decreases a.len() + b.len(),
{
    if a.len() == 0 || b.len() == 0 {
        0
    } else if a.last() == b.last() {
        lcs_len(a.drop_last(), b.drop_last()) + 1
    } else {
        let x = lcs_len(a.drop_last(), b);
        let y = lcs_len(a, b.drop_last());
        if x >= y {
            x
        } else {
            y
        }
    }
}

/// The number of equal lines of a diff.
pub open spec fn equal_count(lines: Seq<DiffLine>) -> nat
    decreases lines.len(),
{
    if lines.len() == 0 {
        0
    } else if lines.last().tag is Equal {
        equal_count(lines.drop_last()) + 1
    } else {
        equal_count(lines.drop_last())
    }
}

/// Relies on `similar::TextDiff::from_slices` and `iter_all_changes`, with
/// the default configuration (Myers, no deadline): the result depends on the
/// two lists alone; its changes walk both lists from start to end, so the
/// equal and deleted lines spell out `old` and the equal and inserted lines
/// spell out `new`; and the diff is minimal, so it keeps as many equal lines
/// as a longest common subsequence has.
#[verifier::external_body]
fn line_diff(old: &Vec<String>, new: &Vec<String>) -> (r: Vec<DiffLine>)
    ensures
        diff_view(r@) == line_diff_of(strings_view(old@), strings_view(new@)),
        old_side(r@) == strings_view(old@),
        new_side(r@) == strings_view(new@),
        equal_count(r@) == lcs_len(strings_view(old@), strings_view(new@)),
{
    let old_lines: Vec<&str> = old.iter().map(|s| s.as_str()).collect();
    let new_lines: Vec<&str> = new.iter().map(|s| s.as_str()).collect();
    let diff = similar::TextDiff::from_slices(&old_lines, &new_lines);
    diff.iter_all_changes().map(|c| DiffLine {
        tag: match c.tag() {
            similar::ChangeTag::Equal => LineTag::Equal,
            similar::ChangeTag::Delete => LineTag::Delete,
            similar::ChangeTag::Insert => LineTag::Insert,
        },
        text: c.value().to_string(),
    }).collect()
}

/// The label of a diff line, given whether its path exists on disk.
pub open spec fn kind_of(tag: LineTag, exists: bool) -> ChangeKind {
    match tag {
        LineTag::Equal => ChangeKind::Match,
        LineTag::Insert => ChangeKind::Added,
        LineTag::Delete => if exists {
            ChangeKind::RemovedExisting
        } else {
            ChangeKind::RemovedStale
        },
    }
}

/// Labels a diff line, given whether its path exists on disk.
pub fn classify(tag: LineTag, exists: bool) -> (r: ChangeKind)
    ensures
        r == kind_of(tag, exists),
{
    match tag {
        LineTag::Equal => ChangeKind::Match,
        LineTag::Insert => ChangeKind::Added,
        LineTag::Delete => if exists {
            ChangeKind::RemovedExisting
        } else {
            ChangeKind::RemovedStale
        },
    }
}

/// Row `i` labels line `i` with its existence answer and keeps its text.
pub open spec fn classified_as(rows: Seq<ClassifiedChange>, lines: Seq<DiffLine>, existing: Seq<
    bool,
>) -> bool {
    &&& rows.len() == lines.len()
    &&& forall|i: int|
        0 <= i < rows.len() ==> (#[trigger] rows[i]).kind == kind_of(lines[i].tag, existing[i])
            && rows[i].text@ == lines[i].text@
}

/// Labels every line of a diff, given for each whether its path exists on
/// disk.
pub fn classify_lines(lines: &Vec<DiffLine>, existing: &Vec<bool>) -> (r: Vec<ClassifiedChange>)
    requires
        existing@.len() == lines@.len(),
    ensures
        classified_as(r@, lines@, existing@),
{
    let mut r: Vec<ClassifiedChange> = Vec::new();
    let mut i: usize = 0;
    while i < lines.len()
        invariant
            0 <= i <= lines.len(),
            existing@.len() == lines@.len(),
            classified_as(r@, lines@.subrange(0, i as int), existing@),
        decreases lines.len() - i,
    {
        let kind = classify(lines[i].tag, existing[i]);
        r.push(ClassifiedChange { kind, text: lines[i].text.clone() });
        i += 1;
    }
    assert(lines@.subrange(0, lines@.len() as int) =~= lines@);
    r
}

/// The rows that stand for entries of the authoritative list, in order.
pub open spec fn authoritative_side(rows: Seq<ClassifiedChange>) -> Seq<Seq<char>>
    decreases rows.len(),
{
    if rows.len() == 0 {
        Seq::empty()
    } else {
        let rest = authoritative_side(rows.drop_last());
        if rows.last().kind is Added {
            rest
        } else {
            rest.push(rows.last().text@)
        }
    }
}

/// The rows that stand for entries of the cascade list, in order.
pub open spec fn cascade_side(rows: Seq<ClassifiedChange>) -> Seq<Seq<char>>
    decreases rows.len(),
{
    if rows.len() == 0 {
        Seq::empty()
    } else {
        let rest = cascade_side(rows.drop_last());
        if rows.last().kind is Match || rows.last().kind is Added {
            rest.push(rows.last().text@)
        } else {
            rest
        }
    }
}

/// The number of `Match` rows.
pub open spec fn match_count(rows: Seq<ClassifiedChange>) -> nat
    decreases rows.len(),
{
    if rows.len() == 0 {
        0
    } else if rows.last().kind is Match {
        match_count(rows.drop_last()) + 1
    } else {
        match_count(rows.drop_last())
    }
}

/// Row `i` labels line `i` of `diff` and keeps its text: `Match` for an
/// equal line, `Added` for an inserted one, and `RemovedExisting` or
/// `RemovedStale` for a deleted one.
pub open spec fn rows_follow(rows: Seq<ClassifiedChange>, diff: Seq<(LineTag, Seq<char>)>) -> bool {
    &&& rows.len() == diff.len()
    &&& forall|i: int|
        0 <= i < rows.len() ==> (#[trigger] rows[i]).text@ == diff[i].1 && rows[i].kind
            == kind_of(diff[i].0, rows[i].kind is RemovedExisting)
}

/// Labelling keeps each side of the diff and its equal lines.
proof fn lemma_sides_kept(rows: Seq<ClassifiedChange>, lines: Seq<DiffLine>, existing: Seq<bool>)
    requires
        existing.len() == lines.len(),
        classified_as(rows, lines, existing),
    ensures
        authoritative_side(rows) == old_side(lines),
        cascade_side(rows) == new_side(lines),
        match_count(rows) == equal_count(lines),
        rows_follow(rows, diff_view(lines)),
    decreases rows.len(),
{
    if rows.len() > 0 {
        let n = rows.len() - 1;
        assert(rows[n].kind == kind_of(lines[n].tag, existing[n]));
        lemma_sides_kept(rows.drop_last(), lines.drop_last(), existing.drop_last());
    }
}

/// Compares the authoritative list (old) with the cascade list (new) line
/// by line and labels each row: `Match` for a shared entry, `Added` for one
/// only in the cascade list, and for one only in the authoritative list
/// `RemovedExisting` or `RemovedStale` as its path exists on disk or not.
/// The rows follow the line diff of the two lists; the rows that are not
/// `Added` spell out the authoritative list, the `Match` and `Added` rows
/// spell out the cascade list, and there are as many `Match` rows as a
/// longest common subsequence has entries.
pub fn reconcile(authoritative: &Vec<String>, cascade: &Vec<String>) -> (r: Vec<ClassifiedChange>)
    ensures
        rows_follow(r@, line_diff_of(strings_view(authoritative@), strings_view(cascade@))),
        match_count(r@) == lcs_len(strings_view(authoritative@), strings_view(cascade@)),
        authoritative_side(r@) == strings_view(authoritative@),
        cascade_side(r@) == strings_view(cascade@),
{
    let lines = line_diff(authoritative, cascade);
    let mut existing: Vec<bool> = Vec::new();
    let mut i: usize = 0;
    while i < lines.len()
        invariant
            0 <= i <= lines.len(),
            existing@.len() == i,
        decreases lines.len() - i,
    {
        let exists = match lines[i].tag {
            LineTag::Delete => path_exists(lines[i].text.as_str()),
            _ => false,
        };
        existing.push(exists);
        i += 1;
    }
    let r = classify_lines(&lines, &existing);
    proof {
        lemma_sides_kept(r@, lines@, existing@);
    }
    r
}

impl ChangeKind {
    /// The marker that starts this row in a report.
    pub fn marker(&self) -> (r: &'static str)
        ensures
            r@ == marker_of(*self),
    {
        match self {
            ChangeKind::Match => " ",
            ChangeKind::RemovedStale => "x",
            ChangeKind::RemovedExisting => "-",
            ChangeKind::Added => "+",
        }
    }
}

pub open spec fn marker_of(kind: ChangeKind) -> Seq<char> {
    match kind {
        ChangeKind::Match => " "@,
        ChangeKind::RemovedStale => "x"@,
        ChangeKind::RemovedExisting => "-"@,
        ChangeKind::Added => "+"@,
    }
}

/// Each label has its own marker.
pub proof fn lemma_markers_distinct(a: ChangeKind, b: ChangeKind)
    requires
        a != b,
    ensures
        marker_of(a) != marker_of(b),
{
    reveal_strlit(" ");
    reveal_strlit("x");
    reveal_strlit("-");
    reveal_strlit("+");
    assert(marker_of(a)[0] != marker_of(b)[0]);
}

} // verus!
