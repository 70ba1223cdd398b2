//! Unified-diff text: a two-line file header, then each hunk with its
//! `@@ -old_start,old_count +new_start,new_count @@` header and its lines.
use vstd::prelude::*;
use vstd::string::StringExecFns;
use crate::diff::{diff_spec, lemma_diff_self, DiffOp, TaggedLine, TaggedLineView};
use crate::hunks::{build_hunks, hunk_views, hunks_spec, lemma_self_no_hunks, Hunk, HunkView};
use crate::text::{decimal, lemma_lines_len, lines_of, push_char, push_decimal, split_lines};

verus! {

/// Unchanged lines shown on each side of a change.
pub const DIFF_CONTEXT: usize = 3;

/// The character that opens a line of a hunk.
pub open spec fn line_prefix(kind: DiffOp) -> char {
    match kind {
        DiffOp::Equal => ' ',
        DiffOp::Remove => '-',
        DiffOp::Add => '+',
    }
}

/// The text of a run of hunk lines, each prefixed and ended by a newline.
pub open spec fn lines_text(ls: Seq<TaggedLineView>) -> Seq<char>
    decreases ls.len(),
{
    if ls.len() == 0 {
        seq![]
    } else {
        lines_text(ls.drop_last()) + seq![line_prefix(ls.last().kind)] + ls.last().text + seq!['\n']
    }
}

/// The text of one hunk: its header line, then its lines.
pub open spec fn hunk_text(h: HunkView) -> Seq<char> {
    "@@ -"@ + decimal(h.old_start) + ","@ + decimal(h.old_count) + " +"@ + decimal(h.new_start)
        + ","@ + decimal(h.new_count) + " @@\n"@ + lines_text(h.lines)
}

/// The text of a run of hunks, one after the other.
pub open spec fn hunks_text(hs: Seq<HunkView>) -> Seq<char>
    decreases hs.len(),
{
    if hs.len() == 0 {
        seq![]
    } else {
        hunks_text(hs.drop_last()) + hunk_text(hs.last())
    }
}

/// The two header lines for the file `label`.
pub open spec fn header_text(label: Seq<char>) -> Seq<char> {
    "--- a/"@ + label + " (registry)\n"@ + "+++ b/"@ + label + " (local)\n"@
}

/// The unified diff from the lines `a` to the lines `b` of the file `label`.
pub open spec fn unified_text(a: Seq<Seq<char>>, b: Seq<Seq<char>>, label: Seq<char>) -> Seq<char> {
    header_text(label) + hunks_text(hunks_spec(a, b, DIFF_CONTEXT as int))
}

fn push_line(out: &mut String, l: &TaggedLine)
    ensures
        final(out)@ == old(out)@ + seq![line_prefix(l.kind)] + l.text@ + seq!['\n'],
{
    let c = match l.kind {
        DiffOp::Equal => ' ',
        DiffOp::Remove => '-',
        DiffOp::Add => '+',
    };
    push_char(out, c);
    out.append(l.text.as_str());
    push_char(out, '\n');
}

fn push_hunk(out: &mut String, h: &Hunk)
    ensures
        final(out)@ == old(out)@ + hunk_text(h@),
{
    out.append("@@ -");
    push_decimal(out, h.old_start);
    out.append(",");
    push_decimal(out, h.old_count);
    out.append(" +");
    push_decimal(out, h.new_start);
    out.append(",");
    push_decimal(out, h.new_count);
    out.append(" @@\n");
    let ghost head = out@;
    let mut k: usize = 0;
    while k < h.lines.len()
        invariant
            k <= h.lines@.len(),
            out@ == head + lines_text(h@.lines.take(k as int)),
        decreases h.lines.len() - k,
    {
        assert(h@.lines.take(k as int + 1).drop_last() =~= h@.lines.take(k as int));
        assert(h@.lines[k as int] == h.lines@[k as int]@);
        push_line(out, &h.lines[k]);
        assert(out@ =~= head + lines_text(h@.lines.take(k as int + 1)));
        k = k + 1;
    }
    assert(h@.lines.take(h.lines.len() as int) =~= h@.lines);
    assert(out@ =~= old(out)@ + hunk_text(h@));
}

/// Renders `hunks` after the header lines for `file_name`.
pub fn render_unified(file_name: &str, hunks: &Vec<Hunk>) -> (r: String)
    ensures
        r@ == header_text(file_name@) + hunks_text(hunk_views(hunks@)),
{
    let mut out = String::new();
    out.append("--- a/");
    out.append(file_name);
    out.append(" (registry)\n");
    out.append("+++ b/");
    out.append(file_name);
    out.append(" (local)\n");
    assert(out@ =~= header_text(file_name@));
    let ghost hs = hunk_views(hunks@);
    let mut k: usize = 0;
    while k < hunks.len()
        invariant
            k <= hunks@.len(),
            hs == hunk_views(hunks@),
            out@ == header_text(file_name@) + hunks_text(hs.take(k as int)),
        decreases hunks.len() - k,
    {
        assert(hs.take(k as int + 1).drop_last() =~= hs.take(k as int));
        push_hunk(&mut out, &hunks[k]);
        assert(out@ =~= header_text(file_name@) + hunks_text(hs.take(k as int + 1)));
        k = k + 1;
    }
    assert(hs.take(hunks.len() as int) =~= hs);
    out
}

/// The unified diff from `old` (the registry's text) to `new` (the local
/// text) of the file `file_name`, with three lines of context.
pub fn unified_diff(old: &str, new: &str, file_name: &str) -> (r: String)
    requires
        old@.len() < usize::MAX,
        new@.len() < usize::MAX,
    ensures
        r@ == unified_text(lines_of(old@), lines_of(new@), file_name@),
{
    let old_lines = split_lines(old);
    let new_lines = split_lines(new);
    proof {
        lemma_lines_len(old@);
        lemma_lines_len(new@);
    }
    let hunks = build_hunks(old_lines.as_slice(), new_lines.as_slice(), DIFF_CONTEXT);
    render_unified(file_name, &hunks)
}

/// Comparing lines with themselves gives an edit script of `Equal` steps
/// only, one per line, and a unified diff of the two header lines alone.
pub proof fn lemma_diff_identity(a: Seq<Seq<char>>, label: Seq<char>)
    ensures
        diff_spec(a, a) == Seq::new(a.len(), |k: int| DiffOp::Equal),
        unified_text(a, a, label) == header_text(label),
{
    lemma_diff_self(a);
    lemma_self_no_hunks(a, DIFF_CONTEXT as int);
    assert(hunks_spec(a, a, DIFF_CONTEXT as int) =~= seq![]);
    assert(unified_text(a, a, label) =~= header_text(label));
}

} // verus!
