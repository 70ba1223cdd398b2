//! Hunk formatter: groups the changed lines of a diff into hunks that carry
//! a few lines of context on each side.
use vstd::prelude::*;
use crate::text::views;
use crate::diff::{
    count_new, count_old, diff_ops, diff_spec, kinds, lemma_diff_reconstructs, lemma_tag_bounds,
    lemma_diff_self, lemma_tag_shape, tag_lines, tag_spec, tagged_views, DiffOp, TaggedLine, TaggedLineView,
};

verus! {

/// A contiguous run of tagged lines with its header fields; the start
/// values count from 1.
pub struct Hunk {
    pub old_start: usize,
    pub old_count: usize,
    pub new_start: usize,
    pub new_count: usize,
    pub lines: Vec<TaggedLine>,
}

/// What a `Hunk` stands for.
pub struct HunkView {
    pub old_start: nat,
    pub old_count: nat,
    pub new_start: nat,
    pub new_count: nat,
    pub lines: Seq<TaggedLineView>,
}

impl View for Hunk {
    type V = HunkView;

    open spec fn view(&self) -> HunkView {
        HunkView {
            old_start: self.old_start as nat,
            old_count: self.old_count as nat,
            new_start: self.new_start as nat,
            new_count: self.new_count as nat,
            lines: tagged_views(self.lines@),
        }
    }
}

/// What a run of `Hunk`s stands for.
pub open spec fn hunk_views(v: Seq<Hunk>) -> Seq<HunkView> {
    v.map_values(|h: Hunk| h@)
}

/// The positions of the tagged lines that are not `Equal`, ascending.
pub open spec fn change_indices(t: Seq<TaggedLineView>) -> Seq<int>
    decreases t.len(),
{
    if t.len() == 0 {
        seq![]
    } else if t.last().kind != DiffOp::Equal {
        change_indices(t.drop_last()).push(t.len() - 1)
    } else {
        change_indices(t.drop_last())
    }
}

/// Groups change positions into ranges `(first, last)`: a change opens a new
/// range when more than `2 * context` unchanged lines separate it from the
/// previous change, and extends the current range otherwise.
pub open spec fn group_changes(c: Seq<int>, context: int) -> Seq<(int, int)>
    decreases c.len(),
{
    if c.len() == 0 {
        seq![]
    } else if c.len() == 1 {
        seq![(c[0], c[0])]
    } else {
        let g = group_changes(c.drop_last(), context);
        let cur = c.last();
        if cur - c[c.len() - 2] - 1 > 2 * context {
            g.push((cur, cur))
        } else {
            g.update(g.len() - 1, (g.last().0, cur))
        }
    }
}

/// Where the window of a change range starting at `first` begins.
pub open spec fn window_lo(first: int, context: int) -> int {
    if first >= context {
        first - context
    } else {
        0
    }
}

/// Where the window of a change range ending at `last` ends (exclusive).
pub open spec fn window_hi(len: int, last: int, context: int) -> int {
    if last + context + 1 <= len {
        last + context + 1
    } else {
        len
    }
}

/// The hunk for the change range `first..=last`: the window reaches
/// `context` lines beyond each end of the range, clamped to the tagged lines.
pub open spec fn hunk_window(t: Seq<TaggedLineView>, first: int, last: int, context: int) -> HunkView {
    let lines = t.subrange(window_lo(first, context), window_hi(t.len() as int, last, context));
    HunkView {
        old_start: lines[0].old_line + 1,
        old_count: count_old(kinds(lines)),
        new_start: lines[0].new_line + 1,
        new_count: count_new(kinds(lines)),
        lines,
    }
}

/// The hunks of a run of tagged lines, in order.
pub open spec fn hunks_of(t: Seq<TaggedLineView>, context: int) -> Seq<HunkView> {
    group_changes(change_indices(t), context).map_values(
        |g: (int, int)| hunk_window(t, g.0, g.1, context),
    )
}

/// The hunks of the diff from `a` to `b`.
pub open spec fn hunks_spec(a: Seq<Seq<char>>, b: Seq<Seq<char>>, context: int) -> Seq<HunkView> {
    hunks_of(tag_spec(a, b, diff_spec(a, b)), context)
}

proof fn lemma_change_indices_sorted(t: Seq<TaggedLineView>)
    ensures
        forall|k: int|
            0 <= k < change_indices(t).len() ==> 0 <= #[trigger] change_indices(t)[k] < t.len(),
        forall|k: int|
            0 < k < change_indices(t).len() ==> change_indices(t)[k - 1] < #[trigger] change_indices(
                t,
            )[k],
    decreases t.len(),
{
    if t.len() > 0 {
        let p = t.drop_last();
        lemma_change_indices_sorted(p);
        let cp = change_indices(p);
        let ct = change_indices(t);
        if t.last().kind != DiffOp::Equal {
            assert forall|k: int| 0 <= k < ct.len() implies 0 <= #[trigger] ct[k] < t.len() by {
                if k < cp.len() {
                    assert(ct[k] == cp[k]);
                }
            }
            assert forall|k: int| 0 < k < ct.len() implies ct[k - 1] < #[trigger] ct[k] by {
                if k < cp.len() {
                    assert(ct[k] == cp[k]);
                } else {
                    assert(ct[k - 1] == cp[k - 1]);
                }
            }
        }
    }
}

/// Every range holds positions of `c`, first before last.
proof fn lemma_ranges_within(c: Seq<int>, context: int, len: int)
    requires
        forall|k: int| 0 <= k < c.len() ==> 0 <= #[trigger] c[k] < len,
        forall|k: int| 0 < k < c.len() ==> c[k - 1] < #[trigger] c[k],
    ensures
        forall|i: int|
            0 <= i < group_changes(c, context).len() ==> 0 <= (#[trigger] group_changes(
                c,
                context,
            )[i]).0 <= group_changes(c, context)[i].1 < len,
        c.len() > 0 ==> group_changes(c, context).len() > 0 && group_changes(c, context).last().1
            == c.last(),
    decreases c.len(),
{
    if c.len() > 1 {
        let p = c.drop_last();
        lemma_ranges_within(p, context, len);
    }
}

/// The positions of the changed lines in `tagged`.
fn find_changes(tagged: &Vec<TaggedLine>) -> (r: Vec<usize>)
    ensures
        r@.map_values(|x: usize| x as int) == change_indices(tagged_views(tagged@)),
{
    let ghost t = tagged_views(tagged@);
    let mut r: Vec<usize> = Vec::new();
    let mut k: usize = 0;
    while k < tagged.len()
        invariant
            k <= tagged.len(),
            t == tagged_views(tagged@),
            r@.map_values(|x: usize| x as int) == change_indices(t.take(k as int)),
        decreases tagged.len() - k,
    {
        let ghost before = r@.map_values(|x: usize| x as int);
        assert(t.take(k as int + 1).drop_last() =~= t.take(k as int));
        if tagged[k].kind != DiffOp::Equal {
            r.push(k);
            assert(r@.map_values(|x: usize| x as int) =~= before.push(k as int));
        }
        k = k + 1;
    }
    assert(t.take(tagged.len() as int) =~= t);
    r
}

/// Groups ascending change positions into ranges, as `group_changes` does.
fn group_ranges(changes: &Vec<usize>, context: usize) -> (r: Vec<(usize, usize)>)
    requires
        forall|k: int| 0 < k < changes@.len() ==> changes@[k - 1] < #[trigger] changes@[k],
    ensures
        r@.map_values(|g: (usize, usize)| (g.0 as int, g.1 as int)) == group_changes(
            changes@.map_values(|x: usize| x as int),
            context as int,
        ),
{
    let ghost c = changes@.map_values(|x: usize| x as int);
    let mut ranges: Vec<(usize, usize)> = Vec::new();
    if changes.len() == 0 {
        assert(ranges@.map_values(|g: (usize, usize)| (g.0 as int, g.1 as int)) =~= seq![]);
        return ranges;
    }
    let mut start = changes[0];
    let mut end = changes[0];
    assert(c.take(1) =~= seq![c[0]]);
    let mut k: usize = 1;
    while k < changes.len()
        invariant
            1 <= k <= changes@.len(),
            c == changes@.map_values(|x: usize| x as int),
            forall|i: int| 0 < i < changes@.len() ==> changes@[i - 1] < #[trigger] changes@[i],
            end == changes@[k - 1],
            ranges@.map_values(|g: (usize, usize)| (g.0 as int, g.1 as int)).push(
                (start as int, end as int),
            ) == group_changes(c.take(k as int), context as int),
        decreases changes.len() - k,
    {
        let ghost before = ranges@.map_values(|g: (usize, usize)| (g.0 as int, g.1 as int));
        let ci = changes[k];
        assert(c.take(k as int + 1).drop_last() =~= c.take(k as int));
        let gap = ci - end - 1;
        if gap > context && gap - context > context {
            ranges.push((start, end));
            assert(ranges@.map_values(|g: (usize, usize)| (g.0 as int, g.1 as int)) =~= before.push(
                (start as int, end as int),
            ));
            start = ci;
        }
        end = ci;
        k = k + 1;
        assert(ranges@.map_values(|g: (usize, usize)| (g.0 as int, g.1 as int)).push(
            (start as int, end as int),
        ) =~= group_changes(c.take(k as int), context as int));
    }
    let ghost before = ranges@.map_values(|g: (usize, usize)| (g.0 as int, g.1 as int));
    ranges.push((start, end));
    assert(ranges@.map_values(|g: (usize, usize)| (g.0 as int, g.1 as int)) =~= before.push(
        (start as int, end as int),
    ));
    assert(c.take(changes.len() as int) =~= c);
    ranges
}

fn copy_line(l: &TaggedLine) -> (r: TaggedLine)
    ensures
        r@ == l@,
{
    TaggedLine { kind: l.kind, old_line: l.old_line, new_line: l.new_line, text: l.text.clone() }
}

/// Builds the hunk for the change range `first..=last` of `tagged`.
fn make_hunk(tagged: &Vec<TaggedLine>, first: usize, last: usize, context: usize) -> (r: Hunk)
    requires
        first <= last < tagged@.len(),
        forall|k: int|
            0 <= k < tagged@.len() ==> (#[trigger] tagged@[k]).old_line < usize::MAX
                && tagged@[k].new_line < usize::MAX,
    ensures
        r@ == hunk_window(tagged_views(tagged@), first as int, last as int, context as int),
{
    let ghost t = tagged_views(tagged@);
    let len = tagged.len();
    let lo = if first >= context {
        first - context
    } else {
        0
    };
    let hi = if context < len - last {
        last + context + 1
    } else {
        len
    };
    let mut lines: Vec<TaggedLine> = Vec::new();
    let mut old_count: usize = 0;
    let mut new_count: usize = 0;
    let mut k: usize = lo;
    while k < hi
        invariant
            lo <= k <= hi <= tagged@.len(),
            t == tagged_views(tagged@),
            old_count <= k - lo,
            new_count <= k - lo,
            tagged_views(lines@) == t.subrange(lo as int, k as int),
            old_count == count_old(kinds(t.subrange(lo as int, k as int))),
            new_count == count_new(kinds(t.subrange(lo as int, k as int))),
        decreases hi - k,
    {
        let ghost before = tagged_views(lines@);
        assert(kinds(t.subrange(lo as int, k as int + 1)).drop_last() =~= kinds(
            t.subrange(lo as int, k as int),
        ));
        if tagged[k].kind != DiffOp::Add {
            old_count = old_count + 1;
        }
        if tagged[k].kind != DiffOp::Remove {
            new_count = new_count + 1;
        }
        lines.push(copy_line(&tagged[k]));
        assert(tagged_views(lines@) =~= t.subrange(lo as int, k as int + 1));
        k = k + 1;
    }
    Hunk {
        old_start: tagged[lo].old_line + 1,
        old_count,
        new_start: tagged[lo].new_line + 1,
        new_count,
        lines,
    }
}

/// The hunks of the diff from `old` to `new`, each with `context` unchanged
/// lines around its changes where there are that many.
pub fn build_hunks(old: &[String], new: &[String], context: usize) -> (r: Vec<Hunk>)
    requires
        old@.len() < usize::MAX,
        new@.len() < usize::MAX,
    ensures
        hunk_views(r@) == hunks_spec(views(old@), views(new@), context as int),
{
    let ghost a = views(old@);
    let ghost b = views(new@);
    let ops = diff_ops(old, new);
    proof {
        lemma_diff_reconstructs(a, b);
        lemma_tag_bounds(a, b, ops@);
    }
    let tagged = tag_lines(old, new, ops.as_slice());
    let ghost t = tagged_views(tagged@);
    assert forall|k: int| 0 <= k < tagged@.len() implies (#[trigger] tagged@[k]).old_line
        < usize::MAX && tagged@[k].new_line < usize::MAX by {
        assert(t[k] == tagged@[k]@);
    }
    let changes = find_changes(&tagged);
    proof {
        lemma_change_indices_sorted(t);
    }
    let ghost c = changes@.map_values(|x: usize| x as int);
    assert forall|k: int| 0 < k < changes@.len() implies changes@[k - 1] < #[trigger] changes@[k] by {
        assert(c[k] == changes@[k] as int && c[k - 1] == changes@[k - 1] as int);
    }
    assert forall|k: int| 0 <= k < changes@.len() implies #[trigger] changes@[k] < tagged@.len() by {
        assert(c[k] == changes@[k] as int);
    }
    let ranges = group_ranges(&changes, context);
    let ghost g = ranges@.map_values(|x: (usize, usize)| (x.0 as int, x.1 as int));
    proof {
        lemma_ranges_within(c, context as int, t.len() as int);
    }
    let mut hunks: Vec<Hunk> = Vec::new();
    let mut k: usize = 0;
    while k < ranges.len()
        invariant
            k <= ranges@.len(),
            t == tagged_views(tagged@),
            g == ranges@.map_values(|x: (usize, usize)| (x.0 as int, x.1 as int)),
            g == group_changes(c, context as int),
            forall|i: int| 0 <= i < g.len() ==> 0 <= (#[trigger] g[i]).0 <= g[i].1 < t.len(),
            forall|i: int|
                0 <= i < tagged@.len() ==> (#[trigger] tagged@[i]).old_line < usize::MAX
                    && tagged@[i].new_line < usize::MAX,
            hunk_views(hunks@) == g.take(k as int).map_values(
                |x: (int, int)| hunk_window(t, x.0, x.1, context as int),
            ),
        decreases ranges.len() - k,
    {
        let (first, last) = ranges[k];
        assert(g[k as int] == (first as int, last as int));
        let h = make_hunk(&tagged, first, last, context);
        let ghost before = hunk_views(hunks@);
        hunks.push(h);
        assert(hunk_views(hunks@) =~= before.push(h@));
        assert(g.take(k as int + 1) =~= g.take(k as int).push(g[k as int]));
        assert(hunk_views(hunks@) =~= g.take(k as int + 1).map_values(
            |x: (int, int)| hunk_window(t, x.0, x.1, context as int),
        ));
        k = k + 1;
    }
    assert(g.take(g.len() as int) =~= g);
    hunks
}

/// Tagged lines without a change give no hunk.
pub proof fn lemma_no_changes_no_hunks(t: Seq<TaggedLineView>, context: int)
    requires
        forall|k: int| 0 <= k < t.len() ==> (#[trigger] t[k]).kind == DiffOp::Equal,
    ensures
        hunks_of(t, context).len() == 0,
{
    lemma_no_change_indices(t);
}

proof fn lemma_no_change_indices(t: Seq<TaggedLineView>)
    requires
        forall|k: int| 0 <= k < t.len() ==> (#[trigger] t[k]).kind == DiffOp::Equal,
    ensures
        change_indices(t).len() == 0,
    decreases t.len(),
{
    if t.len() > 0 {
        lemma_no_change_indices(t.drop_last());
    }
}

/// A sequence compared with itself has no hunks.
pub proof fn lemma_self_no_hunks(a: Seq<Seq<char>>, context: int)
    ensures
        hunks_spec(a, a, context).len() == 0,
{
    lemma_diff_self(a);
    let ops = diff_spec(a, a);
    lemma_tag_shape(a, a, ops);
    lemma_no_changes_no_hunks(tag_spec(a, a, ops), context);
}

/// Each hunk's old count is the number of its lines that are not `Add`,
/// and its new count the number of its lines that are not `Remove`.
pub proof fn lemma_hunk_counts(a: Seq<Seq<char>>, b: Seq<Seq<char>>, context: int)
    ensures
        forall|k: int|
            0 <= k < hunks_spec(a, b, context).len() ==> {
                &&& (#[trigger] hunks_spec(a, b, context)[k]).old_count == count_old(
                    kinds(hunks_spec(a, b, context)[k].lines),
                )
                &&& hunks_spec(a, b, context)[k].new_count == count_new(
                    kinds(hunks_spec(a, b, context)[k].lines),
                )
            },
{
}

proof fn lemma_groups_apart(c: Seq<int>, context: int)
    requires
        context >= 0,
        forall|k: int| 0 < k < c.len() ==> c[k - 1] < #[trigger] c[k],
    ensures
        forall|k: int|
            0 <= k < group_changes(c, context).len() ==> (#[trigger] group_changes(c, context)[k]).0
                <= group_changes(c, context)[k].1,
        forall|k: int|
            0 <= k < group_changes(c, context).len() - 1 ==> #[trigger] group_changes(c, context)[k
                + 1].0 - group_changes(c, context)[k].1 - 1 > 2 * context,
        c.len() > 0 ==> group_changes(c, context).len() > 0 && group_changes(c, context).last().1
            == c.last(),
    decreases c.len(),
{
    if c.len() > 1 {
        let p = c.drop_last();
        lemma_groups_apart(p, context);
        let g = group_changes(p, context);
        assert(c[c.len() - 2] == p.last());
        assert(c[c.len() - 2] < c.last());
    }
}

/// The hunks come in ascending order of position and never overlap: each
/// hunk's window ends at or before the start of the next one's, and no
/// window is empty.
pub proof fn lemma_hunks_ordered(t: Seq<TaggedLineView>, context: int)
    requires
        context >= 0,
    ensures
        forall|k: int|
            0 <= k < group_changes(change_indices(t), context).len() ==> {
                let g = #[trigger] group_changes(change_indices(t), context)[k];
                window_lo(g.0, context) < window_hi(t.len() as int, g.1, context)
            },
        forall|k: int|
            0 <= k < group_changes(change_indices(t), context).len() - 1 ==> window_hi(
                t.len() as int,
                (#[trigger] group_changes(change_indices(t), context)[k]).1,
                context,
            ) <= window_lo(group_changes(change_indices(t), context)[k + 1].0, context),
{
    let c = change_indices(t);
    lemma_change_indices_sorted(t);
    lemma_groups_apart(c, context);
    lemma_ranges_within(c, context, t.len() as int);
}

} // verus!
