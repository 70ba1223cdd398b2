//! Line differ: an edit script between two line sequences, from a table of
//! longest-common-subsequence lengths and a backtrack through it.
use vstd::prelude::*;
use crate::text::views;

verus! {

/// One step of an edit script. `Equal` and `Remove` consume a line of the
/// old sequence; `Equal` and `Add` consume a line of the new sequence.
#[derive(Debug, Clone, Copy, PartialEq, Eq, Structural)]
pub enum DiffOp {
    Equal,
    Remove,
    Add,
}

/// Length of a longest common subsequence of `a[..i]` and `b[..j]`.
pub open spec fn lcs_len(a: Seq<Seq<char>>, b: Seq<Seq<char>>, i: nat, j: nat) -> nat
    decreases i + j,
{
    if i == 0 || j == 0 {
        0
    } else if a[i - 1] == b[j - 1] {
        lcs_len(a, b, (i - 1) as nat, (j - 1) as nat) + 1
    } else {
        let up = lcs_len(a, b, (i - 1) as nat, j);
        let left = lcs_len(a, b, i, (j - 1) as nat);
        if up >= left {
            up
        } else {
            left
        }
    }
}

/// The edit script from `a[..i]` to `b[..j]`, as the backtrack from `(i, j)`
/// finds it: a match first, else an `Add` when the table to the left is at
/// least as good as the one above, else a `Remove`.
pub open spec fn edit_script(a: Seq<Seq<char>>, b: Seq<Seq<char>>, i: nat, j: nat) -> Seq<DiffOp>
    decreases i + j,
{
    if i == 0 && j == 0 {
        seq![]
    } else if i > 0 && j > 0 && a[i - 1] == b[j - 1] {
        edit_script(a, b, (i - 1) as nat, (j - 1) as nat).push(DiffOp::Equal)
    } else if j > 0 && (i == 0 || lcs_len(a, b, i, (j - 1) as nat) >= lcs_len(
        a,
        b,
        (i - 1) as nat,
        j,
    )) {
        edit_script(a, b, i, (j - 1) as nat).push(DiffOp::Add)
    } else {
        edit_script(a, b, (i - 1) as nat, j).push(DiffOp::Remove)
    }
}

/// The edit script that turns `a` into `b`.
pub open spec fn diff_spec(a: Seq<Seq<char>>, b: Seq<Seq<char>>) -> Seq<DiffOp> {
    edit_script(a, b, a.len(), b.len())
}

/// A line of the edit script with its 0-based positions in the old and new
/// sequences and its text.
pub struct TaggedLine {
    pub kind: DiffOp,
    pub old_line: usize,
    pub new_line: usize,
    pub text: String,
}

/// What a `TaggedLine` stands for.
pub struct TaggedLineView {
    pub kind: DiffOp,
    pub old_line: nat,
    pub new_line: nat,
    pub text: Seq<char>,
}

impl View for TaggedLine {
    type V = TaggedLineView;

    open spec fn view(&self) -> TaggedLineView {
        TaggedLineView {
            kind: self.kind,
            old_line: self.old_line as nat,
            new_line: self.new_line as nat,
            text: self.text@,
        }
    }
}

/// What a run of `TaggedLine`s stands for.
pub open spec fn tagged_views(v: Seq<TaggedLine>) -> Seq<TaggedLineView> {
    v.map_values(|l: TaggedLine| l@)
}

/// The number of old lines that `ops` consumes (every step but `Add`).
pub open spec fn count_old(ops: Seq<DiffOp>) -> nat
    decreases ops.len(),
{
    if ops.len() == 0 {
        0
    } else {
        count_old(ops.drop_last()) + if ops.last() != DiffOp::Add {
            1nat
        } else {
            0nat
        }
    }
}

/// The number of new lines that `ops` consumes (every step but `Remove`).
pub open spec fn count_new(ops: Seq<DiffOp>) -> nat
    decreases ops.len(),
{
    if ops.len() == 0 {
        0
    } else {
        count_new(ops.drop_last()) + if ops.last() != DiffOp::Remove {
            1nat
        } else {
            0nat
        }
    }
}

/// The kinds of a run of tagged lines.
pub open spec fn kinds(t: Seq<TaggedLineView>) -> Seq<DiffOp> {
    t.map_values(|l: TaggedLineView| l.kind)
}

/// The tagged lines of `ops` replayed over `a` and `b`: each step carries
/// the number of old and new lines consumed before it, and the line it
/// consumes (the new one for `Add`, the old one otherwise).
pub open spec fn tag_spec(a: Seq<Seq<char>>, b: Seq<Seq<char>>, ops: Seq<DiffOp>) -> Seq<
    TaggedLineView,
>
    decreases ops.len(),
{
    if ops.len() == 0 {
        seq![]
    } else {
        let p = ops.drop_last();
        let op = ops.last();
        let o = count_old(p);
        let n = count_new(p);
        tag_spec(a, b, p).push(
            TaggedLineView {
                kind: op,
                old_line: o,
                new_line: n,
                text: if op == DiffOp::Add {
                    b[n as int]
                } else {
                    a[o as int]
                },
            },
        )
    }
}

/// The texts of the tagged lines that are not `Add`, in order.
pub open spec fn old_side(t: Seq<TaggedLineView>) -> Seq<Seq<char>>
    decreases t.len(),
{
    if t.len() == 0 {
        seq![]
    } else if t.last().kind != DiffOp::Add {
        old_side(t.drop_last()).push(t.last().text)
    } else {
        old_side(t.drop_last())
    }
}

/// The texts of the tagged lines that are not `Remove`, in order.
pub open spec fn new_side(t: Seq<TaggedLineView>) -> Seq<Seq<char>>
    decreases t.len(),
{
    if t.len() == 0 {
        seq![]
    } else if t.last().kind != DiffOp::Remove {
        new_side(t.drop_last()).push(t.last().text)
    } else {
        new_side(t.drop_last())
    }
}

proof fn lemma_lcs_bounded(a: Seq<Seq<char>>, b: Seq<Seq<char>>, i: nat, j: nat)
    ensures
        lcs_len(a, b, i, j) <= i,
        lcs_len(a, b, i, j) <= j,
    decreases i + j,
{
    if i > 0 && j > 0 {
        lemma_lcs_bounded(a, b, (i - 1) as nat, (j - 1) as nat);
        lemma_lcs_bounded(a, b, (i - 1) as nat, j);
        lemma_lcs_bounded(a, b, i, (j - 1) as nat);
    }
}

proof fn lemma_script_replays(a: Seq<Seq<char>>, b: Seq<Seq<char>>, i: nat, j: nat)
    requires
        i <= a.len(),
        j <= b.len(),
    ensures
        count_old(edit_script(a, b, i, j)) == i,
        count_new(edit_script(a, b, i, j)) == j,
        old_side(tag_spec(a, b, edit_script(a, b, i, j))) == a.take(i as int),
        new_side(tag_spec(a, b, edit_script(a, b, i, j))) == b.take(j as int),
    decreases i + j,
{
    if i == 0 && j == 0 {
        assert(a.take(0) =~= seq![]);
        assert(b.take(0) =~= seq![]);
    } else {
        let s = edit_script(a, b, i, j);
        let (pi, pj) = if i > 0 && j > 0 && a[i - 1] == b[j - 1] {
            ((i - 1) as nat, (j - 1) as nat)
        } else if j > 0 && (i == 0 || lcs_len(a, b, i, (j - 1) as nat) >= lcs_len(
            a,
            b,
            (i - 1) as nat,
            j,
        )) {
            (i, (j - 1) as nat)
        } else {
            ((i - 1) as nat, j)
        };
        lemma_script_replays(a, b, pi, pj);
        let p = edit_script(a, b, pi, pj);
        assert(s.drop_last() =~= p);
        assert(tag_spec(a, b, s).drop_last() =~= tag_spec(a, b, p));
        assert(a.take(i as int) =~= if pi < i { a.take(pi as int).push(a[pi as int]) } else { a.take(pi as int) });
        assert(b.take(j as int) =~= if pj < j { b.take(pj as int).push(b[pj as int]) } else { b.take(pj as int) });
    }
}

/// A replayed script lines up with its tagged lines, one for one.
pub proof fn lemma_tag_shape(a: Seq<Seq<char>>, b: Seq<Seq<char>>, ops: Seq<DiffOp>)
    ensures
        tag_spec(a, b, ops).len() == ops.len(),
        forall|k: int|
            0 <= k < ops.len() ==> {
                &&& (#[trigger] tag_spec(a, b, ops)[k]).kind == ops[k]
                &&& tag_spec(a, b, ops)[k].old_line == count_old(ops.take(k))
                &&& tag_spec(a, b, ops)[k].new_line == count_new(ops.take(k))
            },
    decreases ops.len(),
{
    if ops.len() > 0 {
        let p = ops.drop_last();
        lemma_tag_shape(a, b, p);
        assert(ops.take(ops.len() - 1) =~= p);
        assert forall|k: int| 0 <= k < p.len() implies ops.take(k) =~= p.take(k) by {}
    }
}

/// The steps before position `k` consume no more lines than the whole script.
proof fn lemma_count_prefix(ops: Seq<DiffOp>, k: int)
    requires
        0 <= k <= ops.len(),
    ensures
        count_old(ops.take(k)) <= count_old(ops),
        count_new(ops.take(k)) <= count_new(ops),
        k < ops.len() ==> count_old(ops.take(k + 1)) == count_old(ops.take(k)) + if ops[k]
            != DiffOp::Add {
            1nat
        } else {
            0nat
        },
        k < ops.len() ==> count_new(ops.take(k + 1)) == count_new(ops.take(k)) + if ops[k]
            != DiffOp::Remove {
            1nat
        } else {
            0nat
        },
    decreases ops.len(),
{
    if k < ops.len() {
        assert(ops.take(k + 1).drop_last() =~= ops.take(k));
        lemma_count_prefix(ops.drop_last(), if k < ops.len() - 1 { k } else { k });
        if k < ops.len() - 1 {
            assert(ops.drop_last().take(k) =~= ops.take(k));
        } else {
            assert(ops.drop_last() =~= ops.take(k));
        }
    } else {
        assert(ops.take(k) =~= ops);
    }
}

/// Every tagged line stands at positions within the lines that the whole
/// script consumes.
pub proof fn lemma_tag_bounds(a: Seq<Seq<char>>, b: Seq<Seq<char>>, ops: Seq<DiffOp>)
    ensures
        tag_spec(a, b, ops).len() == ops.len(),
        forall|k: int|
            0 <= k < ops.len() ==> (#[trigger] tag_spec(a, b, ops)[k]).old_line <= count_old(ops)
                && tag_spec(a, b, ops)[k].new_line <= count_new(ops),
{
    lemma_tag_shape(a, b, ops);
    assert forall|k: int| 0 <= k < ops.len() implies (#[trigger] tag_spec(a, b, ops)[k]).old_line
        <= count_old(ops) && tag_spec(a, b, ops)[k].new_line <= count_new(ops) by {
        lemma_count_prefix(ops, k);
    }
}

/// Replaying the diff from `a` to `b` and keeping the lines that are not
/// `Add` gives back `a`; keeping those that are not `Remove` gives back `b`.
pub proof fn lemma_diff_reconstructs(a: Seq<Seq<char>>, b: Seq<Seq<char>>)
    ensures
        old_side(tag_spec(a, b, diff_spec(a, b))) == a,
        new_side(tag_spec(a, b, diff_spec(a, b))) == b,
        count_old(diff_spec(a, b)) == a.len(),
        count_new(diff_spec(a, b)) == b.len(),
{
    lemma_script_replays(a, b, a.len(), b.len());
    assert(a.take(a.len() as int) =~= a);
    assert(b.take(b.len() as int) =~= b);
}

/// The diff of a sequence against itself keeps every line.
pub proof fn lemma_diff_self(a: Seq<Seq<char>>)
    ensures
        diff_spec(a, a) == Seq::new(a.len(), |k: int| DiffOp::Equal),
{
    lemma_script_self(a, a.len());
}

proof fn lemma_script_self(a: Seq<Seq<char>>, i: nat)
    requires
        i <= a.len(),
    ensures
        edit_script(a, a, i, i) == Seq::new(i, |k: int| DiffOp::Equal),
    decreases i,
{
    if i > 0 {
        lemma_script_self(a, (i - 1) as nat);
        assert(edit_script(a, a, i, i) =~= Seq::new(i, |k: int| DiffOp::Equal));
    } else {
        assert(edit_script(a, a, 0, 0) =~= Seq::new(0, |k: int| DiffOp::Equal));
    }
}

/// Computes the edit script from `old` to `new`.
pub fn diff_ops(old: &[String], new: &[String]) -> (ops: Vec<DiffOp>)
    requires
        old@.len() < usize::MAX,
        new@.len() < usize::MAX,
    ensures
        ops@ == diff_spec(views(old@), views(new@)),
{
    let ghost a = views(old@);
    let ghost b = views(new@);
    let m = old.len();
    let n = new.len();

    // table[i][j] is the length of a longest common subsequence of
    // old[..i] and new[..j].
    let mut table: Vec<Vec<usize>> = Vec::new();
    let mut first: Vec<usize> = Vec::new();
    for j in 0..n + 1
        invariant
            first.len() == j,
            forall|c: int| 0 <= c < j ==> first@[c] == 0,
    {
        first.push(0);
    }
    table.push(first);
    let mut i: usize = 1;
    while i <= m
        invariant
            1 <= i <= m + 1,
            m < usize::MAX,
            n < usize::MAX,
            m == old@.len(),
            n == new@.len(),
            a == views(old@),
            b == views(new@),
            table.len() == i,
            forall|r: int| 0 <= r < i ==> (#[trigger] table@[r]).len() == n + 1,
            forall|r: int, c: int|
                0 <= r < i && 0 <= c <= n ==> table@[r]@[c] == lcs_len(a, b, r as nat, c as nat),
        decreases m + 1 - i,
    {
        let mut row: Vec<usize> = Vec::new();
        row.push(0);
        let mut j: usize = 1;
        while j <= n
            invariant
                1 <= i <= m,
                1 <= j <= n + 1,
                n < usize::MAX,
                m == old@.len(),
                n == new@.len(),
                a == views(old@),
                b == views(new@),
                table.len() == i,
                row.len() == j,
                forall|r: int| 0 <= r < i ==> (#[trigger] table@[r]).len() == n + 1,
                forall|r: int, c: int|
                    0 <= r < i && 0 <= c <= n ==> table@[r]@[c] == lcs_len(a, b, r as nat, c as nat),
                forall|c: int| 0 <= c < j ==> row@[c] == lcs_len(a, b, i as nat, c as nat),
            decreases n + 1 - j,
        {
            let v: usize;
            if old[i - 1] == new[j - 1] {
                proof {
                    lemma_lcs_bounded(a, b, (i - 1) as nat, (j - 1) as nat);
                }
                v = table[i - 1][j - 1] + 1;
            } else {
                let up = table[i - 1][j];
                let left = row[j - 1];
                v = if up >= left {
                    up
                } else {
                    left
                };
            }
            assert(a[i - 1] == old@[i - 1]@ && b[j - 1] == new@[j - 1]@);
            row.push(v);
            j = j + 1;
        }
        table.push(row);
        i = i + 1;
    }

    // Backtrack from (m, n), collecting the script back to front.
    let mut rev: Vec<DiffOp> = Vec::new();
    let mut i: usize = m;
    let mut j: usize = n;
    while i > 0 || j > 0
        invariant
            i <= m,
            j <= n,
            m == old@.len(),
            n == new@.len(),
            a == views(old@),
            b == views(new@),
            table.len() == m + 1,
            forall|r: int| 0 <= r <= m ==> (#[trigger] table@[r]).len() == n + 1,
            forall|r: int, c: int|
                0 <= r <= m && 0 <= c <= n ==> table@[r]@[c] == lcs_len(a, b, r as nat, c as nat),
            diff_spec(a, b) == edit_script(a, b, i as nat, j as nat) + rev@.reverse(),
        decreases i + j,
    {
        let ghost prev = rev@;
        let ghost (pi, pj) = (i, j);
        if i > 0 && j > 0 && old[i - 1] == new[j - 1] {
            assert(a[i - 1] == old@[i - 1]@ && b[j - 1] == new@[j - 1]@);
            rev.push(DiffOp::Equal);
            i = i - 1;
            j = j - 1;
        } else if j > 0 && (i == 0 || table[i][j - 1] >= table[i - 1][j]) {
            assert(i > 0 ==> a[i - 1] != b[j - 1]) by {
                if i > 0 {
                    assert(a[i - 1] == old@[i - 1]@ && b[j - 1] == new@[j - 1]@);
                }
            }
            rev.push(DiffOp::Add);
            j = j - 1;
        } else {
            assert(j > 0 ==> a[i - 1] != b[j - 1]) by {
                if j > 0 {
                    assert(a[i - 1] == old@[i - 1]@ && b[j - 1] == new@[j - 1]@);
                }
            }
            rev.push(DiffOp::Remove);
            i = i - 1;
        }
        assert(rev@.reverse() =~= seq![rev@.last()] + prev.reverse());
        assert(edit_script(a, b, pi as nat, pj as nat) == edit_script(a, b, i as nat, j as nat).push(
            rev@.last(),
        ));
        assert(edit_script(a, b, i as nat, j as nat) + rev@.reverse() =~= edit_script(
            a,
            b,
            pi as nat,
            pj as nat,
        ) + prev.reverse());
    }

    let mut ops: Vec<DiffOp> = Vec::new();
    let mut k: usize = rev.len();
    while k > 0
        invariant
            k <= rev.len(),
            ops.len() == rev.len() - k,
            forall|t: int| 0 <= t < ops.len() ==> ops@[t] == rev@[rev.len() - 1 - t],
        decreases k,
    {
        k = k - 1;
        ops.push(rev[k]);
    }
    assert(edit_script(a, b, 0, 0) + rev@.reverse() =~= rev@.reverse());
    assert(ops@ =~= rev@.reverse());
    ops
}

/// Replays `ops` over `old` and `new`: each step is tagged with the number
/// of old and new lines consumed before it and with the line it consumes.
pub fn tag_lines(old: &[String], new: &[String], ops: &[DiffOp]) -> (r: Vec<TaggedLine>)
    requires
        count_old(ops@) == old@.len(),
        count_new(ops@) == new@.len(),
    ensures
        tagged_views(r@) == tag_spec(views(old@), views(new@), ops@),
{
    let ghost a = views(old@);
    let ghost b = views(new@);
    let mut tagged: Vec<TaggedLine> = Vec::new();
    let new_len = new.len();
    let mut o: usize = 0;
    let mut n: usize = 0;
    let mut k: usize = 0;
    while k < ops.len()
        invariant
            k <= ops@.len(),
            a == views(old@),
            b == views(new@),
            count_old(ops@) == old@.len(),
            count_new(ops@) == new@.len(),
            new_len == new@.len(),
            o == count_old(ops@.take(k as int)),
            n == count_new(ops@.take(k as int)),
            tagged_views(tagged@) == tag_spec(a, b, ops@.take(k as int)),
        decreases ops.len() - k,
    {
        proof {
            lemma_count_prefix(ops@, k as int);
            lemma_count_prefix(ops@, k as int + 1);
            assert(ops@.take(k as int + 1).drop_last() =~= ops@.take(k as int));
        }
        let ghost before = tagged_views(tagged@);
        let line = match ops[k] {
            DiffOp::Equal => {
                let t = TaggedLine { kind: DiffOp::Equal, old_line: o, new_line: n, text: old[o].clone() };
                o = o + 1;
                n = n + 1;
                t
            },
            DiffOp::Remove => {
                let t = TaggedLine { kind: DiffOp::Remove, old_line: o, new_line: n, text: old[o].clone() };
                o = o + 1;
                t
            },
            DiffOp::Add => {
                let t = TaggedLine { kind: DiffOp::Add, old_line: o, new_line: n, text: new[n].clone() };
                n = n + 1;
                t
            },
        };
        tagged.push(line);
        assert(tagged_views(tagged@) =~= before.push(line@));
        k = k + 1;
    }
    assert(ops@.take(ops@.len() as int) =~= ops@);
    tagged
}

} // verus!
