//! The module list of a components directory: the modules that an existing
//! `mod.rs` declares, merged with newly installed components, sorted, and
//! written back as `pub mod` lines.
use vstd::prelude::*;
use vstd::seq_lib::{to_multiset_build, to_multiset_insert};
use vstd::string::StringExecFns;
use crate::text::{contains_name, lines_of, push_char, split_lines, views};

verus! {

/// Whether `c` is white space in Unicode's sense.
pub uninterp spec fn white_space(c: char) -> bool;

/// Relies on `char::is_whitespace`: whether `c` has Unicode's `White_Space`
/// property, a function of `c` alone.
#[verifier::external_body]
fn is_white_space(c: char) -> (r: bool)
    ensures
        r == white_space(c),
{
    c.is_whitespace()
}

/// `s` without its leading white space.
pub open spec fn trim_start(s: Seq<char>) -> Seq<char>
    decreases s.len(),
{
    if s.len() > 0 && white_space(s[0]) {
        trim_start(s.drop_first())
    } else {
        s
    }
}

/// `s` without its trailing white space.
pub open spec fn trim_end(s: Seq<char>) -> Seq<char>
    decreases s.len(),
{
    if s.len() > 0 && white_space(s.last()) {
        trim_end(s.drop_last())
    } else {
        s
    }
}

/// `s` without leading or trailing white space.
pub open spec fn trimmed(s: Seq<char>) -> Seq<char> {
    trim_end(trim_start(s))
}

/// The text that opens a module declaration.
pub open spec fn decl_prefix() -> Seq<char> {
    seq!['p', 'u', 'b', ' ', 'm', 'o', 'd', ' ']
}

/// The module that `line` declares: the trimmed line reads `pub mod `, the
/// name, then `;`.
pub open spec fn declared_module(line: Seq<char>) -> Option<Seq<char>> {
    let t = trimmed(line);
    if t.len() >= 9 && t.take(8) == decl_prefix() && t.last() == ';' {
        Some(t.subrange(8, t.len() - 1))
    } else {
        None
    }
}

/// The modules that `lines` declare, in order.
pub open spec fn declared_modules(lines: Seq<Seq<char>>) -> Seq<Seq<char>>
    decreases lines.len(),
{
    if lines.len() == 0 {
        seq![]
    } else {
        match declared_module(lines.last()) {
            Some(m) => declared_modules(lines.drop_last()).push(m),
            None => declared_modules(lines.drop_last()),
        }
    }
}

/// `mods` followed by each of `added` that is not there yet.
pub open spec fn add_missing(mods: Seq<Seq<char>>, added: Seq<Seq<char>>) -> Seq<Seq<char>>
    decreases added.len(),
{
    if added.len() == 0 {
        mods
    } else {
        let m = add_missing(mods, added.drop_last());
        if m.contains(added.last()) {
            m
        } else {
            m.push(added.last())
        }
    }
}

/// `a` comes no later than `b` in character order.
pub open spec fn lex_le(a: Seq<char>, b: Seq<char>) -> bool
    decreases a.len(),
{
    if a.len() == 0 {
        true
    } else if b.len() == 0 {
        false
    } else if a[0] != b[0] {
        a[0] < b[0]
    } else {
        lex_le(a.drop_first(), b.drop_first())
    }
}

/// `s` is in ascending character order.
pub open spec fn sorted(s: Seq<Seq<char>>) -> bool {
    forall|i: int, j: int| 0 <= i < j < s.len() ==> lex_le(s[i], s[j])
}

/// The `mod.rs` lines for `mods`, joined by newlines.
pub open spec fn decl_lines(mods: Seq<Seq<char>>) -> Seq<char>
    decreases mods.len(),
{
    if mods.len() == 0 {
        seq![]
    } else if mods.len() == 1 {
        decl_prefix() + mods[0] + seq![';']
    } else {
        decl_lines(mods.drop_last()) + seq!['\n'] + decl_prefix() + mods.last() + seq![';']
    }
}

/// The text of a `mod.rs` declaring `mods`.
pub open spec fn mod_file(mods: Seq<Seq<char>>) -> Seq<char> {
    "//! UI components generated by shadcn-ui.\n\n"@ + decl_lines(mods) + "\n"@
}

proof fn lemma_trim_start_at(s: Seq<char>, lo: int)
    requires
        0 <= lo <= s.len(),
        forall|k: int| 0 <= k < lo ==> white_space(#[trigger] s[k]),
        lo == s.len() || !white_space(s[lo]),
    ensures
        trim_start(s) == s.skip(lo),
    decreases lo,
{
    if lo == 0 {
        assert(s.skip(0) =~= s);
    } else {
        let t = s.drop_first();
        assert forall|k: int| 0 <= k < lo - 1 implies white_space(#[trigger] t[k]) by {
            assert(t[k] == s[k + 1]);
        }
        if lo - 1 < t.len() {
            assert(t[lo - 1] == s[lo]);
        }
        lemma_trim_start_at(t, lo - 1);
        assert(t.skip(lo - 1) =~= s.skip(lo));
    }
}

proof fn lemma_trim_end_at(s: Seq<char>, hi: int)
    requires
        0 <= hi <= s.len(),
        forall|k: int| hi <= k < s.len() ==> white_space(#[trigger] s[k]),
        hi == 0 || !white_space(s[hi - 1]),
    ensures
        trim_end(s) == s.take(hi),
    decreases s.len() - hi,
{
    if hi == s.len() {
        assert(s.take(hi) =~= s);
    } else {
        let t = s.drop_last();
        assert forall|k: int| hi <= k < t.len() implies white_space(#[trigger] t[k]) by {
            assert(t[k] == s[k]);
        }
        if hi > 0 {
            assert(t[hi - 1] == s[hi - 1]);
        }
        lemma_trim_end_at(t, hi);
        assert(t.take(hi) =~= s.take(hi));
    }
}

/// The span `lo..hi` that is left of a run of characters once the leading
/// and trailing ones marked white in `white` are removed.
pub fn trim_span(white: &Vec<bool>) -> (r: (usize, usize))
    ensures
        r.0 <= r.1 <= white@.len(),
        forall|k: int| 0 <= k < r.0 ==> #[trigger] white@[k],
        forall|k: int| r.1 <= k < white@.len() ==> #[trigger] white@[k],
        r.0 < white@.len() ==> !white@[r.0 as int],
        r.0 < r.1 ==> !white@[r.1 - 1],
{
    let mut lo: usize = 0;
    while lo < white.len() && white[lo]
        invariant
            lo <= white@.len(),
            forall|k: int| 0 <= k < lo ==> #[trigger] white@[k],
        decreases white.len() - lo,
    {
        lo = lo + 1;
    }
    let mut hi: usize = white.len();
    while hi > lo && white[hi - 1]
        invariant
            lo <= hi <= white@.len(),
            forall|k: int| hi <= k < white@.len() ==> #[trigger] white@[k],
        decreases hi,
    {
        hi = hi - 1;
    }
    (lo, hi)
}

/// `s` with leading and trailing white space removed.
pub fn trim_text(s: &str) -> (r: String)
    ensures
        r@ == trimmed(s@),
{
    let mut cs: Vec<char> = Vec::new();
    let mut white: Vec<bool> = Vec::new();
    for c in it: s.chars()
        invariant
            cs@ == it.seq().take(it.index() as int),
            white@.len() == cs@.len(),
            forall|k: int| 0 <= k < cs@.len() ==> white@[k] == white_space(#[trigger] cs@[k]),
    {
        cs.push(c);
        white.push(is_white_space(c));
        assert(cs@ == it.seq().take(it.index() as int + 1));
    }
    assert(cs@ == s@);
    let (lo, hi) = trim_span(&white);
    proof {
        assert forall|k: int| 0 <= k < lo implies white_space(#[trigger] s@[k]) by {
            assert(white@[k]);
        }
        lemma_trim_start_at(s@, lo as int);
    }
    let ghost front = s@.skip(lo as int);
    proof {
        assert forall|k: int| hi - lo <= k < front.len() implies white_space(#[trigger] front[k]) by {
            assert(front[k] == cs@[k + lo]);
            assert(white@[k + lo]);
        }
        if hi > lo {
            assert(front[hi - lo - 1] == cs@[hi - 1]);
        }
        lemma_trim_end_at(front, hi - lo);
    }
    let mut r = String::new();
    let mut k: usize = lo;
    while k < hi
        invariant
            lo <= k <= hi <= cs@.len(),
            r@ == cs@.subrange(lo as int, k as int),
        decreases hi - k,
    {
        push_char(&mut r, cs[k]);
        assert(r@ =~= cs@.subrange(lo as int, k as int + 1));
        k = k + 1;
    }
    assert(r@ =~= front.take(hi - lo));
    r
}

/// The module that `line` declares, if it is a module declaration.
pub fn module_of(line: &str) -> (r: Option<String>)
    ensures
        match declared_module(line@) {
            Some(m) => r is Some && r->0@ == m,
            None => r is None,
        },
{
    let t = trim_text(line);
    let n = t.as_str().unicode_len();
    if n < 9 {
        return None;
    }
    let ts = t.as_str();
    let opens = ts.get_char(0) == 'p' && ts.get_char(1) == 'u' && ts.get_char(2) == 'b'
        && ts.get_char(3) == ' ' && ts.get_char(4) == 'm' && ts.get_char(5) == 'o'
        && ts.get_char(6) == 'd' && ts.get_char(7) == ' ';
    assert(opens == (t@.take(8) =~= decl_prefix()));
    if opens && ts.get_char(n - 1) == ';' {
        let name = ts.substring_char(8, n - 1);
        Some(String::from_str(name))
    } else {
        None
    }
}

proof fn lemma_lex_total(a: Seq<char>, b: Seq<char>)
    ensures
        lex_le(a, b) || lex_le(b, a),
    decreases a.len(),
{
    if a.len() > 0 && b.len() > 0 && a[0] == b[0] {
        lemma_lex_total(a.drop_first(), b.drop_first());
    }
}

proof fn lemma_lex_trans(a: Seq<char>, b: Seq<char>, c: Seq<char>)
    requires
        lex_le(a, b),
        lex_le(b, c),
    ensures
        lex_le(a, c),
    decreases a.len(),
{
    if a.len() > 0 && b.len() > 0 && c.len() > 0 && a[0] == b[0] && b[0] == c[0] {
        lemma_lex_trans(a.drop_first(), b.drop_first(), c.drop_first());
    }
}

/// Whether `a` comes no later than `b` in character order.
pub fn text_le(a: &str, b: &str) -> (r: bool)
    ensures
        r == lex_le(a@, b@),
{
    let na = a.unicode_len();
    let nb = b.unicode_len();
    let mut i: usize = 0;
    assert(a@.skip(0) =~= a@ && b@.skip(0) =~= b@);
    while i < na && i < nb
        invariant
            na == a@.len(),
            nb == b@.len(),
            i <= na,
            i <= nb,
            lex_le(a@, b@) == lex_le(a@.skip(i as int), b@.skip(i as int)),
        decreases na - i,
    {
        let ca = a.get_char(i);
        let cb = b.get_char(i);
        assert(a@.skip(i as int)[0] == ca && b@.skip(i as int)[0] == cb);
        if ca != cb {
            return ca < cb;
        }
        assert(a@.skip(i as int).drop_first() =~= a@.skip(i as int + 1));
        assert(b@.skip(i as int).drop_first() =~= b@.skip(i as int + 1));
        i = i + 1;
    }
    i == na
}

/// `names` in ascending character order.
pub fn sort_names(names: &Vec<String>) -> (r: Vec<String>)
    ensures
        sorted(views(r@)),
        views(r@).to_multiset() == views(names@).to_multiset(),
{
    let mut out: Vec<String> = Vec::new();
    let mut k: usize = 0;
    assert(views(names@).take(0) =~= seq![]);
    assert(views(out@) =~= seq![]);
    while k < names.len()
        invariant
            k <= names@.len(),
            sorted(views(out@)),
            views(out@).to_multiset() == views(names@).take(k as int).to_multiset(),
        decreases names.len() - k,
    {
        let x = names[k].clone();
        let mut p: usize = 0;
        while p < out.len() && text_le(out[p].as_str(), x.as_str())
            invariant
                p <= out@.len(),
                forall|q: int| 0 <= q < p ==> lex_le(#[trigger] out@[q]@, x@),
            decreases out.len() - p,
        {
            p = p + 1;
        }
        let ghost before = views(out@);
        proof {
            if p < out.len() {
                lemma_lex_total(out@[p as int]@, x@);
                assert forall|q: int| p <= q < before.len() implies lex_le(x@, #[trigger] before[q]) by {
                    if q > p {
                        lemma_lex_trans(x@, before[p as int], before[q]);
                    }
                }
            }
        }
        out.insert(p, x);
        assert(views(out@) =~= before.insert(p as int, names@[k as int]@));
        proof {
            let now = views(out@);
            assert forall|i: int, j: int| 0 <= i < j < now.len() implies lex_le(now[i], now[j]) by {
                if j < p {
                } else if j == p {
                    assert(now[i] == out@[i]@);
                } else if i < p {
                    assert(lex_le(before[i], x@));
                    assert(lex_le(x@, before[j - 1]));
                    lemma_lex_trans(before[i], x@, before[j - 1]);
                } else if i == p {
                } else {
                }
            }
            to_multiset_insert(before, p as int, names@[k as int]@);
            assert(views(names@).take(k as int + 1) =~= views(names@).take(k as int).push(names@[k as int]@));
            to_multiset_build(views(names@).take(k as int), names@[k as int]@);
        }
        k = k + 1;
    }
    assert(views(names@).take(k as int) =~= views(names@));
    out
}

/// The modules for a `mod.rs`: those that `existing` declares, then each of
/// `new_components` not declared yet, all in ascending order.
pub fn module_list(existing: &str, new_components: &[String]) -> (r: Vec<String>)
    ensures
        sorted(views(r@)),
        views(r@).to_multiset() == add_missing(
            declared_modules(lines_of(existing@)),
            views(new_components@),
        ).to_multiset(),
{
    let lines = split_lines(existing);
    let ghost ls = lines_of(existing@);
    let mut mods: Vec<String> = Vec::new();
    let mut i: usize = 0;
    assert(ls.take(0) =~= seq![]);
    assert(views(mods@) =~= seq![]);
    while i < lines.len()
        invariant
            i <= lines@.len(),
            views(lines@) == ls,
            views(mods@) == declared_modules(ls.take(i as int)),
        decreases lines.len() - i,
    {
        assert(ls.take(i as int + 1).drop_last() =~= ls.take(i as int));
        assert(ls[i as int] == lines@[i as int]@);
        let ghost before = views(mods@);
        match module_of(lines[i].as_str()) {
            Some(m) => {
                mods.push(m);
                assert(views(mods@) =~= before.push(mods@.last()@));
            },
            None => {},
        }
        i = i + 1;
    }
    assert(ls.take(i as int) =~= ls);
    let ghost declared = views(mods@);
    let ghost added = views(new_components@);
    let mut j: usize = 0;
    assert(added.take(0) =~= seq![]);
    while j < new_components.len()
        invariant
            j <= new_components@.len(),
            added == views(new_components@),
            views(mods@) == add_missing(declared, added.take(j as int)),
        decreases new_components.len() - j,
    {
        assert(added.take(j as int + 1).drop_last() =~= added.take(j as int));
        assert(added[j as int] == new_components@[j as int]@);
        let ghost before = views(mods@);
        if !contains_name(&mods, &new_components[j]) {
            mods.push(new_components[j].clone());
            assert(views(mods@) =~= before.push(added[j as int]));
        }
        j = j + 1;
    }
    assert(added.take(j as int) =~= added);
    sort_names(&mods)
}

/// The text of a `mod.rs` that declares `modules`, in the given order.
pub fn mod_file_text(modules: &Vec<String>) -> (r: String)
    ensures
        r@ == mod_file(views(modules@)),
{
    let mut out = String::from_str("//! UI components generated by shadcn-ui.\n\n");
    let ghost head = out@;
    let ghost ms = views(modules@);
    let mut k: usize = 0;
    assert(ms.take(0) =~= seq![]);
    while k < modules.len()
        invariant
            k <= modules@.len(),
            ms == views(modules@),
            out@ == head + decl_lines(ms.take(k as int)),
        decreases modules.len() - k,
    {
        assert(ms.take(k as int + 1).drop_last() =~= ms.take(k as int));
        assert(ms[k as int] == modules@[k as int]@);
        if k > 0 {
            push_char(&mut out, '\n');
        }
        out.append("pub mod ");
        proof {
            reveal_strlit("pub mod ");
        }
        out.append(modules[k].as_str());
        push_char(&mut out, ';');
        assert(out@ =~= head + decl_lines(ms.take(k as int + 1)));
        k = k + 1;
    }
    assert(ms.take(k as int) =~= ms);
    out.append("\n");
    out
}

} // verus!
