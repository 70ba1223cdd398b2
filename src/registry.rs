use vstd::prelude::*;
use vstd::set_lib::lemma_len_subset;
use vstd::string::StringExecFns;
use crate::text::{contains_name, views};

verus! {

/// Component categories.
#[derive(Debug, Clone, Copy, PartialEq, Eq, Structural)]
pub enum ComponentCategory {
    Input,
    Display,
    Feedback,
    Navigation,
    Layout,
    Special,
}

impl ComponentCategory {
    /// Human-readable display name for the category.
    pub fn display_name(&self) -> (r: &'static str)
        ensures
            r@ == category_label(*self),
    {
        match self {
            ComponentCategory::Input => "Input",
            ComponentCategory::Display => "Display",
            ComponentCategory::Feedback => "Feedback",
            ComponentCategory::Navigation => "Navigation",
            ComponentCategory::Layout => "Layout",
            ComponentCategory::Special => "Special",
        }
    }
}

/// The label under which a category is shown.
pub open spec fn category_label(c: ComponentCategory) -> Seq<char> {
    match c {
        ComponentCategory::Input => "Input"@,
        ComponentCategory::Display => "Display"@,
        ComponentCategory::Feedback => "Feedback"@,
        ComponentCategory::Navigation => "Navigation"@,
        ComponentCategory::Layout => "Layout"@,
        ComponentCategory::Special => "Special"@,
    }
}

/// Metadata of a component in the registry.
#[derive(Debug)]
pub struct ComponentMeta {
    pub name: String,
    pub version: String,
    pub description: String,
    pub gpui_version: String,
    pub files: Vec<String>,
    pub dependencies: Vec<String>,
    pub category: ComponentCategory,
}

/// The catalog of available components, with its version.
#[derive(Debug)]
pub struct Registry {
    pub version: String,
    pub components: Vec<ComponentMeta>,
}

/// The names of the components, in catalog order.
pub open spec fn names_of(comps: Seq<ComponentMeta>) -> Seq<Seq<char>> {
    comps.map_values(|c: ComponentMeta| c.name@)
}

/// The position of the first component named `name`, if any.
pub open spec fn find_index(comps: Seq<ComponentMeta>, name: Seq<char>) -> Option<int>
    decreases comps.len(),
{
    if comps.len() == 0 {
        None
    } else {
        match find_index(comps.drop_last(), name) {
            Some(i) => Some(i),
            None => if comps.last().name@ == name {
                Some(comps.len() - 1)
            } else {
                None
            },
        }
    }
}

/// The declared dependencies of `name`: those of the first component with
/// that name, and none for a name the catalog lacks.
pub open spec fn deps_of(comps: Seq<ComponentMeta>, name: Seq<char>) -> Seq<Seq<char>> {
    match find_index(comps, name) {
        Some(i) => views(comps[i].dependencies@),
        None => seq![],
    }
}

/// The components of category `cat`, in catalog order.
pub open spec fn members_of(comps: Seq<ComponentMeta>, cat: ComponentCategory) -> Seq<ComponentMeta>
    decreases comps.len(),
{
    if comps.len() == 0 {
        seq![]
    } else if comps.last().category == cat {
        members_of(comps.drop_last(), cat).push(comps.last())
    } else {
        members_of(comps.drop_last(), cat)
    }
}

/// Where a dependency walk stands: the names seen so far and the names
/// placed in installation order so far.
pub struct WalkState {
    pub visited: Set<Seq<char>>,
    pub resolved: Seq<Seq<char>>,
}

/// The number of catalog names that the walk has not seen yet.
pub open spec fn unvisited(comps: Seq<ComponentMeta>, visited: Set<Seq<char>>) -> nat {
    names_of(comps).to_set().difference(visited).len()
}

/// Visits `name`: unless seen already, marks it seen, visits its
/// dependencies in order, then places it.
pub open spec fn visit(comps: Seq<ComponentMeta>, name: Seq<char>, st: WalkState) -> WalkState
    decreases unvisited(comps, st.visited), 0nat, 0nat,
{
    if st.visited.contains(name) {
        st
    } else {
        let seen = WalkState { visited: st.visited.insert(name), resolved: st.resolved };
        let after = match find_index(comps, name) {
            Some(i) => {
                proof {
                    lemma_find_index(comps, name);
                    lemma_unvisited_shrinks(comps, st.visited, name);
                }
                visit_all(comps, views(comps[i].dependencies@), seen)
            },
            None => seen,
        };
        WalkState { visited: after.visited, resolved: after.resolved.push(name) }
    }
}

/// Visits each of `names` in turn.
pub open spec fn visit_all(comps: Seq<ComponentMeta>, names: Seq<Seq<char>>, st: WalkState) -> WalkState
    decreases unvisited(comps, st.visited), 1nat, names.len(),
{
    if names.len() == 0 {
        st
    } else {
        let next = visit(comps, names[0], st);
        // A visit only adds to what has been seen, so this always holds.
        if unvisited(comps, next.visited) <= unvisited(comps, st.visited) {
            visit_all(comps, names.drop_first(), next)
        } else {
            next
        }
    }
}

/// The installation order for `names`: each name after its dependencies,
/// each name once.
pub open spec fn resolve_spec(comps: Seq<ComponentMeta>, names: Seq<Seq<char>>) -> Seq<Seq<char>> {
    visit_all(comps, names, WalkState { visited: Set::empty(), resolved: seq![] }).resolved
}

pub proof fn lemma_find_index(comps: Seq<ComponentMeta>, name: Seq<char>)
    ensures
        match find_index(comps, name) {
            Some(i) => 0 <= i < comps.len() && comps[i].name@ == name && forall|j: int|
                0 <= j < i ==> comps[j].name@ != name,
            None => forall|j: int| 0 <= j < comps.len() ==> comps[j].name@ != name,
        },
        find_index(comps, name) is Some <==> names_of(comps).contains(name),
    decreases comps.len(),
{
    if comps.len() > 0 {
        let p = comps.drop_last();
        lemma_find_index(p, name);
        assert(names_of(p) =~= names_of(comps).drop_last());
        assert(forall|j: int| 0 <= j < p.len() ==> p[j] == comps[j]);
        if names_of(comps).contains(name) {
            let j = choose|j: int| 0 <= j < names_of(comps).len() && names_of(comps)[j] == name;
            if j < comps.len() - 1 {
                assert(names_of(comps.drop_last())[j] == name);
            }
        }
        if find_index(comps, name) is Some {
            let i = find_index(comps, name)->0;
            assert(names_of(comps)[i] == name);
        }
    }
}

pub proof fn lemma_unvisited_shrinks(comps: Seq<ComponentMeta>, visited: Set<Seq<char>>, name: Seq<char>)
    requires
        names_of(comps).contains(name),
        !visited.contains(name),
    ensures
        unvisited(comps, visited.insert(name)) < unvisited(comps, visited),
{
    let all = names_of(comps).to_set();
    assert(all.difference(visited.insert(name)) =~= all.difference(visited).remove(name));
    assert(all.difference(visited).contains(name));
}

proof fn lemma_unvisited_monotone(comps: Seq<ComponentMeta>, v1: Set<Seq<char>>, v2: Set<Seq<char>>)
    requires
        v1.subset_of(v2),
    ensures
        unvisited(comps, v2) <= unvisited(comps, v1),
{
    let all = names_of(comps).to_set();
    lemma_len_subset(all.difference(v2), all.difference(v1));
}

/// `x` has been seen by the walk but not placed yet: the walk is still
/// visiting its dependencies.
pub open spec fn in_progress(st: WalkState, x: Seq<char>) -> bool {
    st.visited.contains(x) && !st.resolved.contains(x)
}

/// Every name in `r` comes after each of its declared dependencies.
pub open spec fn placed_after_deps(comps: Seq<ComponentMeta>, r: Seq<Seq<char>>) -> bool {
    forall|i: int, d: Seq<char>|
        0 <= i < r.len() && #[trigger] deps_of(comps, r[i]).contains(d) ==> exists|j: int|
            0 <= j < i && r[j] == d
}

/// `rank` strictly decreases from each name to each of its dependencies.
pub open spec fn ranked(comps: Seq<ComponentMeta>, rank: spec_fn(Seq<char>) -> nat) -> bool {
    forall|n: Seq<char>, d: Seq<char>| #[trigger] deps_of(comps, n).contains(d) ==> rank(d) < rank(n)
}

/// No name depends on itself, directly or through other names.
pub open spec fn acyclic(comps: Seq<ComponentMeta>) -> bool {
    exists|rank: spec_fn(Seq<char>) -> nat| ranked(comps, rank)
}

/// Names are placed once each, and only names that were seen.
pub open spec fn walk_ok(st: WalkState) -> bool {
    &&& st.resolved.no_duplicates()
    &&& forall|i: int| 0 <= i < st.resolved.len() ==> st.visited.contains(#[trigger] st.resolved[i])
}

/// Every name still in progress ranks above `bound`.
pub open spec fn ranks_above(st: WalkState, rank: spec_fn(Seq<char>) -> nat, bound: nat) -> bool {
    forall|x: Seq<char>| #[trigger] in_progress(st, x) ==> rank(x) > bound
}

/// `st2` extends `st1`: more seen, more placed after what was placed, and
/// the same names in progress.
pub open spec fn walk_extends(st1: WalkState, st2: WalkState) -> bool {
    &&& st1.visited.subset_of(st2.visited)
    &&& st1.resolved.len() <= st2.resolved.len()
    &&& st2.resolved.take(st1.resolved.len() as int) == st1.resolved
    &&& forall|x: Seq<char>| #[trigger] in_progress(st2, x) == in_progress(st1, x)
}

proof fn lemma_prefix_contains(r1: Seq<Seq<char>>, r2: Seq<Seq<char>>, x: Seq<char>)
    requires
        r1.len() <= r2.len(),
        r2.take(r1.len() as int) == r1,
        r1.contains(x),
    ensures
        r2.contains(x),
{
    let j = choose|j: int| 0 <= j < r1.len() && r1[j] == x;
    assert(r2.take(r1.len() as int)[j] == r2[j]);
}

proof fn lemma_visit(comps: Seq<ComponentMeta>, name: Seq<char>, st: WalkState, rank: spec_fn(Seq<char>) -> nat)
    requires
        walk_ok(st),
    ensures
        walk_ok(visit(comps, name, st)),
        walk_extends(st, visit(comps, name, st)),
        visit(comps, name, st).visited.contains(name),
        !in_progress(st, name) ==> visit(comps, name, st).resolved.contains(name),
        ranked(comps, rank) && placed_after_deps(comps, st.resolved) && ranks_above(st, rank, rank(name))
            ==> placed_after_deps(comps, visit(comps, name, st).resolved),
    decreases unvisited(comps, st.visited), 0nat, 0nat,
{
    let out = visit(comps, name, st);
    assert(st.resolved.take(st.resolved.len() as int) =~= st.resolved);
    if st.visited.contains(name) {
    } else {
        let seen = WalkState { visited: st.visited.insert(name), resolved: st.resolved };
        assert(!st.resolved.contains(name));
        assert forall|x: Seq<char>| #[trigger] in_progress(seen, x) == (in_progress(st, x) || x == name) by {}
        let deps = deps_of(comps, name);
        lemma_find_index(comps, name);
        let after = match find_index(comps, name) {
            Some(i) => {
                lemma_unvisited_shrinks(comps, st.visited, name);
                lemma_visit_all(comps, deps, seen, rank);
                visit_all(comps, deps, seen)
            },
            None => seen,
        };
        assert(walk_extends(seen, after));
        assert(in_progress(after, name));
        assert(out.resolved == after.resolved.push(name));
        assert(out.resolved.no_duplicates());
        assert(out.resolved.take(after.resolved.len() as int) =~= after.resolved);
        assert(out.resolved.take(st.resolved.len() as int) =~= st.resolved) by {
            assert(out.resolved.take(st.resolved.len() as int) =~= after.resolved.take(st.resolved.len() as int));
        }
        assert forall|x: Seq<char>| #[trigger] in_progress(out, x) == in_progress(st, x) by {
            assert(out.resolved.contains(x) == (after.resolved.contains(x) || x == name)) by {
                if after.resolved.contains(x) {
                    lemma_prefix_contains(after.resolved, out.resolved, x);
                }
                if x == name {
                    assert(out.resolved[after.resolved.len() as int] == name);
                }
            }
            assert(in_progress(after, x) == in_progress(seen, x));
        }
        assert(out.resolved.contains(name)) by {
            assert(out.resolved[after.resolved.len() as int] == name);
        }
        if ranked(comps, rank) && placed_after_deps(comps, st.resolved) && ranks_above(st, rank, rank(name)) {
            if find_index(comps, name) is Some {
                assert forall|i: int| 0 <= i < deps.len() implies ranks_above(seen, rank, rank(#[trigger] deps[i])) by {
                    assert(deps.contains(deps[i]));
                    assert forall|x: Seq<char>| #[trigger] in_progress(seen, x) implies rank(x) > rank(deps[i]) by {
                        if x != name {
                            assert(in_progress(st, x));
                        }
                    }
                }
                assert forall|i: int| 0 <= i < deps.len() implies !in_progress(seen, #[trigger] deps[i]) by {
                    assert(ranks_above(seen, rank, rank(deps[i])));
                    if in_progress(seen, deps[i]) {
                        assert(rank(deps[i]) > rank(deps[i]));
                    }
                }
            }
            assert(placed_after_deps(comps, after.resolved));
            assert forall|d: Seq<char>| #[trigger] deps.contains(d) implies after.resolved.contains(d) by {
                let k = choose|k: int| 0 <= k < deps.len() && deps[k] == d;
            }
            let r = out.resolved;
            let n = after.resolved.len() as int;
            assert forall|i: int, d: Seq<char>|
                0 <= i < r.len() && #[trigger] deps_of(comps, r[i]).contains(d) implies exists|j: int|
                    0 <= j < i && r[j] == d by {
                if i < n {
                    assert(r[i] == after.resolved[i]);
                    let j = choose|j: int| 0 <= j < i && after.resolved[j] == d;
                    assert(r[j] == d);
                } else {
                    assert(r[i] == name);
                    assert(after.resolved.contains(d));
                    let j = choose|j: int| 0 <= j < n && after.resolved[j] == d;
                    assert(r[j] == d);
                }
            }
        }
    }
}

proof fn lemma_visit_all(
    comps: Seq<ComponentMeta>,
    names: Seq<Seq<char>>,
    st: WalkState,
    rank: spec_fn(Seq<char>) -> nat,
)
    requires
        walk_ok(st),
    ensures
        walk_ok(visit_all(comps, names, st)),
        walk_extends(st, visit_all(comps, names, st)),
        (forall|i: int| 0 <= i < names.len() ==> !in_progress(st, #[trigger] names[i])) ==> forall|i: int|
            0 <= i < names.len() ==> visit_all(comps, names, st).resolved.contains(#[trigger] names[i]),
        ranked(comps, rank) && placed_after_deps(comps, st.resolved) && (forall|i: int|
            0 <= i < names.len() ==> ranks_above(st, rank, rank(#[trigger] names[i])))
            ==> placed_after_deps(comps, visit_all(comps, names, st).resolved),
    decreases unvisited(comps, st.visited), 1nat, names.len(),
{
    if names.len() == 0 {
        assert(st.resolved.take(st.resolved.len() as int) =~= st.resolved);
    } else {
        let next = visit(comps, names[0], st);
        lemma_visit(comps, names[0], st, rank);
        lemma_unvisited_monotone(comps, st.visited, next.visited);
        let rest = names.drop_first();
        lemma_visit_all(comps, rest, next, rank);
        let out = visit_all(comps, rest, next);
        assert(visit_all(comps, names, st) == out);
        assert(out.resolved.take(st.resolved.len() as int) =~= st.resolved) by {
            assert(out.resolved.take(next.resolved.len() as int) =~= next.resolved);
            assert(out.resolved.take(st.resolved.len() as int) =~= next.resolved.take(st.resolved.len() as int));
        }
        if forall|i: int| 0 <= i < names.len() ==> !in_progress(st, #[trigger] names[i]) {
            assert(!in_progress(st, names[0]));
            assert forall|i: int| 0 <= i < rest.len() implies !in_progress(next, #[trigger] rest[i]) by {
                assert(rest[i] == names[i + 1]);
            }
            assert forall|i: int| 0 <= i < names.len() implies out.resolved.contains(#[trigger] names[i]) by {
                if i == 0 {
                    lemma_prefix_contains(next.resolved, out.resolved, names[0]);
                } else {
                    assert(names[i] == rest[i - 1]);
                }
            }
        }
        if ranked(comps, rank) && placed_after_deps(comps, st.resolved) && (forall|i: int|
            0 <= i < names.len() ==> ranks_above(st, rank, rank(#[trigger] names[i]))) {
            assert(ranks_above(st, rank, rank(names[0])));
            assert forall|i: int| 0 <= i < rest.len() implies ranks_above(next, rank, rank(#[trigger] rest[i])) by {
                assert(rest[i] == names[i + 1]);
                assert(ranks_above(st, rank, rank(names[i + 1])));
            }
        }
    }
}

/// The installation order holds each name once, and holds every requested
/// name.
pub proof fn lemma_resolve_no_duplicates(comps: Seq<ComponentMeta>, names: Seq<Seq<char>>)
    ensures
        resolve_spec(comps, names).no_duplicates(),
        forall|i: int| 0 <= i < names.len() ==> resolve_spec(comps, names).contains(#[trigger] names[i]),
{
    let st = WalkState { visited: Set::empty(), resolved: seq![] };
    lemma_visit_all(comps, names, st, |n: Seq<char>| 0nat);
    assert forall|i: int| 0 <= i < names.len() implies !in_progress(st, #[trigger] names[i]) by {}
}

/// When no name depends on itself through the catalog, every name of the
/// installation order comes after each dependency that the catalog declares
/// for it.
pub proof fn lemma_resolve_dependencies_first(comps: Seq<ComponentMeta>, names: Seq<Seq<char>>)
    requires
        acyclic(comps),
    ensures
        placed_after_deps(comps, resolve_spec(comps, names)),
{
    let rank = choose|rank: spec_fn(Seq<char>) -> nat| ranked(comps, rank);
    let st = WalkState { visited: Set::empty(), resolved: seq![] };
    lemma_visit_all(comps, names, st, rank);
    assert forall|i: int| 0 <= i < names.len() implies ranks_above(st, rank, rank(#[trigger] names[i])) by {}
}

/// Resolution is a function of the catalog and the requested names alone:
/// two resolutions of the same request agree.
pub proof fn lemma_resolve_deterministic(
    comps: Seq<ComponentMeta>,
    names: Seq<Seq<char>>,
    r1: Seq<Seq<char>>,
    r2: Seq<Seq<char>>,
)
    requires
        r1 == resolve_spec(comps, names),
        r2 == resolve_spec(comps, names),
    ensures
        r1 == r2,
{
}

/// The walk state that a seen list and a placed list stand for.
pub open spec fn walk_state(visited: Seq<String>, resolved: Seq<String>) -> WalkState {
    WalkState { visited: views(visited).to_set(), resolved: views(resolved) }
}

impl Registry {
    /// The names of all components, in catalog order.
    pub fn component_names(&self) -> (r: Vec<&str>)
        ensures
            r@.map_values(|s: &str| s@) == names_of(self.components@),
    {
        let mut r: Vec<&str> = Vec::new();
        let mut i: usize = 0;
        while i < self.components.len()
            invariant
                i <= self.components@.len(),
                r@.map_values(|s: &str| s@) == names_of(self.components@.take(i as int)),
            decreases self.components.len() - i,
        {
            let ghost before = r@.map_values(|s: &str| s@);
            r.push(self.components[i].name.as_str());
            assert(self.components@.take(i as int + 1) =~= self.components@.take(i as int).push(
                self.components@[i as int],
            ));
            assert(r@.map_values(|s: &str| s@) =~= before.push(self.components@[i as int].name@));
            assert(r@.map_values(|s: &str| s@) =~= names_of(self.components@.take(i as int + 1)));
            i = i + 1;
        }
        assert(self.components@.take(i as int) =~= self.components@);
        r
    }

    /// The first component named `name`, if any.
    pub fn find(&self, name: &str) -> (r: Option<&ComponentMeta>)
        ensures
            match find_index(self.components@, name@) {
                Some(i) => r == Some(&self.components@[i]),
                None => r is None,
            },
    {
        let key = String::from_str(name);
        let mut i: usize = 0;
        while i < self.components.len()
            invariant
                i <= self.components@.len(),
                key@ == name@,
                find_index(self.components@.take(i as int), name@) is None,
            decreases self.components.len() - i,
        {
            assert(self.components@.take(i as int + 1).drop_last() =~= self.components@.take(i as int));
            if self.components[i].name == key {
                proof {
                    lemma_find_prefix(self.components@, name@, i as int + 1);
                }
                return Some(&self.components[i]);
            }
            i = i + 1;
        }
        assert(self.components@.take(i as int) =~= self.components@);
        None
    }

    /// The components of category `category`, in catalog order.
    pub fn by_category(&self, category: ComponentCategory) -> (r: Vec<&ComponentMeta>)
        ensures
            r@.map_values(|c: &ComponentMeta| *c) == members_of(self.components@, category),
    {
        let mut r: Vec<&ComponentMeta> = Vec::new();
        let mut i: usize = 0;
        while i < self.components.len()
            invariant
                i <= self.components@.len(),
                r@.map_values(|c: &ComponentMeta| *c) == members_of(self.components@.take(i as int), category),
            decreases self.components.len() - i,
        {
            assert(self.components@.take(i as int + 1).drop_last() =~= self.components@.take(i as int));
            let ghost before = r@.map_values(|c: &ComponentMeta| *c);
            if self.components[i].category == category {
                r.push(&self.components[i]);
                assert(r@.map_values(|c: &ComponentMeta| *c) =~= before.push(self.components@[i as int]));
            }
            i = i + 1;
        }
        assert(self.components@.take(i as int) =~= self.components@);
        r
    }

    /// The installation order for `names`: every requested name and its
    /// dependencies, transitively, each once, each dependency before the
    /// components that need it. Names the catalog lacks are placed as
    /// components without dependencies.
    pub fn resolve_dependencies(&self, names: &[&str]) -> (r: Vec<String>)
        ensures
            views(r@) == resolve_spec(self.components@, names@.map_values(|s: &str| s@)),
    {
        let ghost comps = self.components@;
        let ghost all = names@.map_values(|s: &str| s@);
        let mut resolved: Vec<String> = Vec::new();
        let mut visited: Vec<String> = Vec::new();
        let ghost start = walk_state(visited@, resolved@);
        assert(start == WalkState { visited: Set::empty(), resolved: seq![] }) by {
            assert(views(visited@).to_set() =~= Set::empty());
            assert(views(resolved@) =~= seq![]);
        }
        assert(all.skip(0) =~= all);
        let mut k: usize = 0;
        while k < names.len()
            invariant
                k <= names@.len(),
                comps == self.components@,
                all == names@.map_values(|s: &str| s@),
                walk_ok(walk_state(visited@, resolved@)),
                visit_all(comps, all, start) == visit_all(comps, all.skip(k as int), walk_state(visited@, resolved@)),
            decreases names.len() - k,
        {
            let ghost before = walk_state(visited@, resolved@);
            self.resolve_recursive(names[k], &mut resolved, &mut visited);
            proof {
                lemma_visit(comps, all[k as int], before, |n: Seq<char>| 0nat);
                lemma_unvisited_monotone(comps, before.visited, walk_state(visited@, resolved@).visited);
                assert(all.skip(k as int)[0] == all[k as int]);
                assert(all.skip(k as int).drop_first() =~= all.skip(k as int + 1));
            }
            k = k + 1;
        }
        assert(all.skip(k as int) =~= seq![]);
        resolved
    }

    /// Visits `name` as `visit` describes, updating the seen and placed lists.
    fn resolve_recursive(&self, name: &str, resolved: &mut Vec<String>, visited: &mut Vec<String>)
        requires
            walk_ok(walk_state(old(visited)@, old(resolved)@)),
        ensures
            walk_state(final(visited)@, final(resolved)@) == visit(
                self.components@,
                name@,
                walk_state(old(visited)@, old(resolved)@),
            ),
        decreases unvisited(self.components@, views(old(visited)@).to_set()),
    {
        let ghost comps = self.components@;
        let ghost entry = walk_state(visited@, resolved@);
        let key = String::from_str(name);
        if contains_name(visited, &key) {
            return;
        }
        visited.push(key);
        let ghost seen = walk_state(visited@, resolved@);
        assert(seen == WalkState { visited: entry.visited.insert(name@), resolved: entry.resolved }) by {
            let sv = views(visited@);
            let so = views(old(visited)@);
            assert(sv =~= so.push(name@));
            assert forall|x: Seq<char>| sv.contains(x) <==> (so.contains(x) || x == name@) by {
                if so.contains(x) {
                    let j = choose|j: int| 0 <= j < so.len() && so[j] == x;
                    assert(sv[j] == x);
                }
                if sv.contains(x) {
                    let j = choose|j: int| 0 <= j < sv.len() && sv[j] == x;
                    if j < so.len() {
                        assert(so[j] == x);
                    }
                }
                if x == name@ {
                    assert(sv[so.len() as int] == x);
                }
            }
            assert(sv.to_set() =~= entry.visited.insert(name@));
        }
        assert(walk_ok(seen)) by {
            assert forall|i: int| 0 <= i < seen.resolved.len() implies seen.visited.contains(#[trigger] seen.resolved[i]) by {
                assert(entry.visited.contains(entry.resolved[i]));
            }
        }
        match self.find(name) {
            Some(component) => {
                let ghost deps = views(component.dependencies@);
                proof {
                    lemma_find_index(comps, name@);
                    lemma_unvisited_shrinks(comps, entry.visited, name@);
                    assert(seen.resolved.take(seen.resolved.len() as int) =~= seen.resolved);
                    assert(deps.skip(0) =~= deps);
                }
                let mut k: usize = 0;
                while k < component.dependencies.len()
                    invariant
                        k <= component.dependencies@.len(),
                        comps == self.components@,
                        deps == views(component.dependencies@),
                        walk_ok(walk_state(visited@, resolved@)),
                        walk_extends(seen, walk_state(visited@, resolved@)),
                        unvisited(comps, seen.visited) < unvisited(comps, entry.visited),
                        entry == walk_state(old(visited)@, old(resolved)@),
                        visit_all(comps, deps, seen) == visit_all(comps, deps.skip(k as int), walk_state(visited@, resolved@)),
                    decreases component.dependencies.len() - k,
                {
                    let ghost before = walk_state(visited@, resolved@);
                    proof {
                        lemma_unvisited_monotone(comps, seen.visited, before.visited);
                    }
                    self.resolve_recursive(component.dependencies[k].as_str(), resolved, visited);
                    proof {
                        let after = walk_state(visited@, resolved@);
                        lemma_visit(comps, deps[k as int], before, |n: Seq<char>| 0nat);
                        lemma_unvisited_monotone(comps, before.visited, after.visited);
                        assert(deps.skip(k as int)[0] == deps[k as int]);
                        assert(deps.skip(k as int).drop_first() =~= deps.skip(k as int + 1));
                        lemma_extends_trans(seen, before, after);
                    }
                    k = k + 1;
                }
                assert(deps.skip(k as int) =~= seq![]);
            },
            None => {
                assert(seen.resolved.take(seen.resolved.len() as int) =~= seen.resolved);
            },
        }
        let ghost placed = walk_state(visited@, resolved@);
        resolved.push(String::from_str(name));
        assert(views(resolved@) =~= placed.resolved.push(name@));
    }
}

proof fn lemma_find_prefix(comps: Seq<ComponentMeta>, name: Seq<char>, k: int)
    requires
        0 < k <= comps.len(),
        find_index(comps.take(k - 1), name) is None,
        comps[k - 1].name@ == name,
    ensures
        find_index(comps, name) == Some(k - 1),
{
    assert(comps.take(k).drop_last() =~= comps.take(k - 1));
    lemma_find_index(comps.take(k), name);
    lemma_find_index(comps, name);
    if find_index(comps, name) != Some(k - 1) {
        let i = find_index(comps, name)->0;
        if i < k - 1 {
            assert(comps.take(k)[i] == comps[i]);
        } else {
            assert(comps[k - 1].name@ == name);
        }
    }
}

proof fn lemma_extends_trans(st1: WalkState, st2: WalkState, st3: WalkState)
    requires
        walk_extends(st1, st2),
        walk_extends(st2, st3),
    ensures
        walk_extends(st1, st3),
{
    assert(st3.resolved.take(st1.resolved.len() as int) =~= st2.resolved.take(st1.resolved.len() as int));
}

/// One row of the built-in catalog.
pub struct CatalogRow {
    pub name: Seq<char>,
    pub version: Seq<char>,
    pub description: Seq<char>,
    pub file: Seq<char>,
    pub dependencies: Seq<Seq<char>>,
    pub category: ComponentCategory,
}

/// The rows of the built-in catalog, in order.
pub open spec fn default_catalog() -> Seq<CatalogRow> {
    seq![
        CatalogRow {
            name: "button"@,
            version: "0.1.0"@,
            description: "A button component with multiple variants and sizes"@,
            file: "button.rs"@,
            dependencies: seq![],
            category: ComponentCategory::Input,
        },
        CatalogRow {
            name: "input"@,
            version: "0.1.0"@,
            description: "A text input component"@,
            file: "input.rs"@,
            dependencies: seq![],
            category: ComponentCategory::Input,
        },
        CatalogRow {
            name: "label"@,
            version: "0.1.0"@,
            description: "A label component for form fields"@,
            file: "label.rs"@,
            dependencies: seq![],
            category: ComponentCategory::Input,
        },
        CatalogRow {
            name: "checkbox"@,
            version: "0.1.0"@,
            description: "A checkbox input with checked/unchecked/indeterminate states"@,
            file: "checkbox.rs"@,
            dependencies: seq![],
            category: ComponentCategory::Input,
        },
        CatalogRow {
            name: "radio"@,
            version: "0.1.0"@,
            description: "A radio group component for single selection"@,
            file: "radio.rs"@,
            dependencies: seq![],
            category: ComponentCategory::Input,
        },
        CatalogRow {
            name: "switch"@,
            version: "0.1.0"@,
            description: "A toggle switch component"@,
            file: "switch.rs"@,
            dependencies: seq![],
            category: ComponentCategory::Input,
        },
        CatalogRow {
            name: "slider"@,
            version: "0.1.0"@,
            description: "A slider input for selecting a value from a range"@,
            file: "slider.rs"@,
            dependencies: seq![],
            category: ComponentCategory::Input,
        },
        CatalogRow {
            name: "select"@,
            version: "0.1.0"@,
            description: "A select dropdown for choosing from a list of options"@,
            file: "select.rs"@,
            dependencies: seq![],
            category: ComponentCategory::Input,
        },
        CatalogRow {
            name: "toggle"@,
            version: "0.1.0"@,
            description: "A toggle button that can be on or off"@,
            file: "toggle.rs"@,
            dependencies: seq![],
            category: ComponentCategory::Input,
        },
        CatalogRow {
            name: "toggle_group"@,
            version: "0.1.0"@,
            description: "A group of toggle buttons with single or multiple selection"@,
            file: "toggle_group.rs"@,
            dependencies: seq!["toggle"@],
            category: ComponentCategory::Input,
        },
        CatalogRow {
            name: "card"@,
            version: "0.1.0"@,
            description: "A card container with header, content, and footer sections"@,
            file: "card.rs"@,
            dependencies: seq![],
            category: ComponentCategory::Display,
        },
        CatalogRow {
            name: "dialog"@,
            version: "0.1.0"@,
            description: "A modal dialog overlay with backdrop"@,
            file: "dialog.rs"@,
            dependencies: seq!["button"@],
            category: ComponentCategory::Feedback,
        },
        CatalogRow {
            name: "alert"@,
            version: "0.2.0"@,
            description: "A static alert box with icon, title, and description"@,
            file: "alert.rs"@,
            dependencies: seq![],
            category: ComponentCategory::Feedback,
        },
        CatalogRow {
            name: "alert_dialog"@,
            version: "0.2.0"@,
            description: "A modal confirmation dialog with action and cancel buttons"@,
            file: "alert_dialog.rs"@,
            dependencies: seq!["dialog"@],
            category: ComponentCategory::Feedback,
        },
        CatalogRow {
            name: "tooltip"@,
            version: "0.2.0"@,
            description: "A hover-triggered overlay with text content"@,
            file: "tooltip.rs"@,
            dependencies: seq![],
            category: ComponentCategory::Display,
        },
        CatalogRow {
            name: "popover"@,
            version: "0.2.0"@,
            description: "A click-triggered overlay with arbitrary content"@,
            file: "popover.rs"@,
            dependencies: seq![],
            category: ComponentCategory::Display,
        },
        CatalogRow {
            name: "hover_card"@,
            version: "0.2.0"@,
            description: "A hover-triggered card overlay with rich content"@,
            file: "hover_card.rs"@,
            dependencies: seq![],
            category: ComponentCategory::Display,
        },
        CatalogRow {
            name: "dropdown_menu"@,
            version: "0.2.0"@,
            description: "A click-triggered menu with items, separators, and labels"@,
            file: "dropdown_menu.rs"@,
            dependencies: seq![],
            category: ComponentCategory::Navigation,
        },
        CatalogRow {
            name: "sheet"@,
            version: "0.2.0"@,
            description: "A slide-in overlay panel from screen edge"@,
            file: "sheet.rs"@,
            dependencies: seq![],
            category: ComponentCategory::Layout,
        },
        CatalogRow {
            name: "drawer"@,
            version: "0.2.0"@,
            description: "A bottom sheet variant with drag handle"@,
            file: "drawer.rs"@,
            dependencies: seq!["sheet"@],
            category: ComponentCategory::Layout,
        },
        CatalogRow {
            name: "toast"@,
            version: "0.2.0"@,
            description: "A temporary notification with auto-dismiss support"@,
            file: "toast.rs"@,
            dependencies: seq![],
            category: ComponentCategory::Feedback,
        },
        CatalogRow {
            name: "sonner"@,
            version: "0.2.0"@,
            description: "A stacked toast notification system"@,
            file: "sonner.rs"@,
            dependencies: seq![],
            category: ComponentCategory::Feedback,
        },
    ]
}

/// `c` is the component that `row` describes.
pub open spec fn matches_row(c: ComponentMeta, row: CatalogRow) -> bool {
    &&& c.name@ == row.name
    &&& c.version@ == row.version
    &&& c.description@ == row.description
    &&& c.gpui_version@ == ">=0.2.0"@
    &&& views(c.files@) == seq![row.file]
    &&& views(c.dependencies@) == row.dependencies
    &&& c.category == row.category
}

/// A component of the built-in catalog, for the toolkit from version 0.2.0 on.
fn component(
    name: &str,
    version: &str,
    description: &str,
    file: &str,
    dependency: Option<&str>,
    category: ComponentCategory,
) -> (c: ComponentMeta)
    ensures
        matches_row(
            c,
            CatalogRow {
                name: name@,
                version: version@,
                description: description@,
                file: file@,
                dependencies: match dependency {
                    Some(d) => seq![d@],
                    None => seq![],
                },
                category,
            },
        ),
{
    let mut files: Vec<String> = Vec::new();
    files.push(String::from_str(file));
    let mut dependencies: Vec<String> = Vec::new();
    match dependency {
        Some(d) => dependencies.push(String::from_str(d)),
        None => {},
    }
    assert(views(files@) =~= seq![file@]);
    assert(views(dependencies@) =~= match dependency {
        Some(d) => seq![d@],
        None => seq![],
    });
    ComponentMeta {
        name: String::from_str(name),
        version: String::from_str(version),
        description: String::from_str(description),
        gpui_version: String::from_str(">=0.2.0"),
        files,
        dependencies,
        category,
    }
}

/// The built-in catalog of components, at version 0.2.0.
pub fn default_registry() -> (r: Registry)
    ensures
        r.version@ == "0.2.0"@,
        r.components@.len() == default_catalog().len(),
        forall|i: int|
            0 <= i < r.components@.len() ==> matches_row(#[trigger] r.components@[i], default_catalog()[i]),
{
    let mut components: Vec<ComponentMeta> = Vec::new();
    components.push(
        component(
            "button",
            "0.1.0",
            "A button component with multiple variants and sizes",
            "button.rs",
            None,
            ComponentCategory::Input,
        ),
    );
    components.push(
        component(
            "input",
            "0.1.0",
            "A text input component",
            "input.rs",
            None,
            ComponentCategory::Input,
        ),
    );
    components.push(
        component(
            "label",
            "0.1.0",
            "A label component for form fields",
            "label.rs",
            None,
            ComponentCategory::Input,
        ),
    );
    components.push(
        component(
            "checkbox",
            "0.1.0",
            "A checkbox input with checked/unchecked/indeterminate states",
            "checkbox.rs",
            None,
            ComponentCategory::Input,
        ),
    );
    components.push(
        component(
            "radio",
            "0.1.0",
            "A radio group component for single selection",
            "radio.rs",
            None,
            ComponentCategory::Input,
        ),
    );
    components.push(
        component(
            "switch",
            "0.1.0",
            "A toggle switch component",
            "switch.rs",
            None,
            ComponentCategory::Input,
        ),
    );
    components.push(
        component(
            "slider",
            "0.1.0",
            "A slider input for selecting a value from a range",
            "slider.rs",
            None,
            ComponentCategory::Input,
        ),
    );
    components.push(
        component(
            "select",
            "0.1.0",
            "A select dropdown for choosing from a list of options",
            "select.rs",
            None,
            ComponentCategory::Input,
        ),
    );
    components.push(
        component(
            "toggle",
            "0.1.0",
            "A toggle button that can be on or off",
            "toggle.rs",
            None,
            ComponentCategory::Input,
        ),
    );
    components.push(
        component(
            "toggle_group",
            "0.1.0",
            "A group of toggle buttons with single or multiple selection",
            "toggle_group.rs",
            Some("toggle"),
            ComponentCategory::Input,
        ),
    );
    components.push(
        component(
            "card",
            "0.1.0",
            "A card container with header, content, and footer sections",
            "card.rs",
            None,
            ComponentCategory::Display,
        ),
    );
    components.push(
        component(
            "dialog",
            "0.1.0",
            "A modal dialog overlay with backdrop",
            "dialog.rs",
            Some("button"),
            ComponentCategory::Feedback,
        ),
    );
    components.push(
        component(
            "alert",
            "0.2.0",
            "A static alert box with icon, title, and description",
            "alert.rs",
            None,
            ComponentCategory::Feedback,
        ),
    );
    components.push(
        component(
            "alert_dialog",
            "0.2.0",
            "A modal confirmation dialog with action and cancel buttons",
            "alert_dialog.rs",
            Some("dialog"),
            ComponentCategory::Feedback,
        ),
    );
    components.push(
        component(
            "tooltip",
            "0.2.0",
            "A hover-triggered overlay with text content",
            "tooltip.rs",
            None,
            ComponentCategory::Display,
        ),
    );
    components.push(
        component(
            "popover",
            "0.2.0",
            "A click-triggered overlay with arbitrary content",
            "popover.rs",
            None,
            ComponentCategory::Display,
        ),
    );
    components.push(
        component(
            "hover_card",
            "0.2.0",
            "A hover-triggered card overlay with rich content",
            "hover_card.rs",
            None,
            ComponentCategory::Display,
        ),
    );
    components.push(
        component(
            "dropdown_menu",
            "0.2.0",
            "A click-triggered menu with items, separators, and labels",
            "dropdown_menu.rs",
            None,
            ComponentCategory::Navigation,
        ),
    );
    components.push(
        component(
            "sheet",
            "0.2.0",
            "A slide-in overlay panel from screen edge",
            "sheet.rs",
            None,
            ComponentCategory::Layout,
        ),
    );
    components.push(
        component(
            "drawer",
            "0.2.0",
            "A bottom sheet variant with drag handle",
            "drawer.rs",
            Some("sheet"),
            ComponentCategory::Layout,
        ),
    );
    components.push(
        component(
            "toast",
            "0.2.0",
            "A temporary notification with auto-dismiss support",
            "toast.rs",
            None,
            ComponentCategory::Feedback,
        ),
    );
    components.push(
        component(
            "sonner",
            "0.2.0",
            "A stacked toast notification system",
            "sonner.rs",
            None,
            ComponentCategory::Feedback,
        ),
    );
    Registry { version: String::from_str("0.2.0"), components }
}

} // verus!
