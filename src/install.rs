//! Decisions of the `add` workflow: which installed component needs a given
//! dependency, and how a component's name reads as a title or a type name.
use vstd::prelude::*;
use vstd::string::StringExecFns;
use crate::registry::{deps_of, Registry};
use crate::text::views;

verus! {

/// The first name of `order` that declares `dep` as a dependency.
pub open spec fn dependent_of(
    comps: Seq<crate::registry::ComponentMeta>,
    order: Seq<Seq<char>>,
    dep: Seq<char>,
) -> Option<Seq<char>>
    decreases order.len(),
{
    if order.len() == 0 {
        None
    } else if deps_of(comps, order[0]).contains(dep) {
        Some(order[0])
    } else {
        dependent_of(comps, order.drop_first(), dep)
    }
}

/// The first name of `install_order` whose component declares `dep_name`
/// as a dependency, or `unknown` when there is none.
pub fn find_dependent(install_order: &[String], dep_name: &str, registry: &Registry) -> (r: String)
    ensures
        r@ == match dependent_of(registry.components@, views(install_order@), dep_name@) {
            Some(n) => n,
            None => "unknown"@,
        },
{
    let ghost comps = registry.components@;
    let ghost order = views(install_order@);
    let key = String::from_str(dep_name);
    assert(order.skip(0) =~= order);
    let mut i: usize = 0;
    while i < install_order.len()
        invariant
            i <= install_order@.len(),
            comps == registry.components@,
            order == views(install_order@),
            key@ == dep_name@,
            dependent_of(comps, order, dep_name@) == dependent_of(comps, order.skip(i as int), dep_name@),
        decreases install_order.len() - i,
    {
        assert(order.skip(i as int)[0] == install_order@[i as int]@);
        assert(order.skip(i as int).drop_first() =~= order.skip(i as int + 1));
        let name = &install_order[i];
        match registry.find(name.as_str()) {
            Some(meta) => {
                let ghost deps = views(meta.dependencies@);
                assert(deps == deps_of(comps, name@));
                let mut j: usize = 0;
                while j < meta.dependencies.len()
                    invariant
                        j <= meta.dependencies@.len(),
                        deps == views(meta.dependencies@),
                        deps == deps_of(comps, name@),
                        i < install_order@.len(),
                        order.skip(i as int)[0] == name@,
                        comps == registry.components@,
                        order == views(install_order@),
                        dependent_of(comps, order, dep_name@) == dependent_of(comps, order.skip(i as int), dep_name@),
                        key@ == dep_name@,
                        forall|k: int| 0 <= k < j ==> deps[k] != dep_name@,
                    decreases meta.dependencies.len() - j,
                {
                    assert(deps[j as int] == meta.dependencies@[j as int]@);
                    if meta.dependencies[j] == key {
                        assert(deps.contains(dep_name@));
                        assert(dependent_of(comps, order.skip(i as int), dep_name@) == Some(name@));
                        let r = name.clone();
                        assert(r@ == name@);
                        return r;
                    }
                    j = j + 1;
                }
                assert(!deps.contains(dep_name@));
            },
            None => {
                assert(deps_of(comps, name@) == Seq::<Seq<char>>::empty());
            },
        }
        i = i + 1;
    }
    assert(order.skip(i as int) =~= seq![]);
    String::from_str("unknown")
}

/// The upper-case form of a character, which may be several characters.
pub uninterp spec fn upper_of(c: char) -> Seq<char>;

/// Relies on `char::to_uppercase`: the upper-case mapping of `c`, a
/// function of `c` alone.
#[verifier::external_body]
fn uppercase(c: char) -> (r: String)
    ensures
        r@ == upper_of(c),
{
    c.to_uppercase().collect()
}

/// `s` cut into words at each `_`; each word keeps its characters but the
/// first, which becomes its entry of `upper` (the character upper-cased);
/// each `_` becomes `sep`.
pub open spec fn cased_by(s: Seq<char>, sep: Seq<char>, upper: Seq<Seq<char>>) -> Seq<char>
    decreases s.len(),
{
    if s.len() == 0 {
        seq![]
    } else {
        let p = s.drop_last();
        let c = s.last();
        if c == '_' {
            cased_by(p, sep, upper.drop_last()) + sep
        } else if p.len() == 0 || p.last() == '_' {
            cased_by(p, sep, upper.drop_last()) + upper.last()
        } else {
            cased_by(p, sep, upper.drop_last()).push(c)
        }
    }
}

/// `s` with each word capitalised as `upper_of` does, each `_` turned into
/// `sep`.
pub open spec fn cased(s: Seq<char>, sep: Seq<char>) -> Seq<char> {
    cased_by(s, sep, s.map_values(|c: char| upper_of(c)))
}

/// `s` cased as `cased_by` describes, given in `upper` the upper-case form of
/// each of its characters.
pub fn cased_with(s: &str, sep: &str, upper: &Vec<String>) -> (r: String)
    requires
        upper@.len() == s@.len(),
    ensures
        r@ == cased_by(s@, sep@, views(upper@)),
{
    let mut out = String::new();
    let mut at_start = true;
    let ghost mut seen: Seq<char> = seq![];
    let mut i: usize = 0;
    let n = upper.len();
    for c in it: s.chars()
        invariant
            seen == it.seq().take(it.index() as int),
            it.seq() == s@,
            i == it.index(),
            n == upper@.len(),
            upper@.len() == s@.len(),
            out@ == cased_by(seen, sep@, views(upper@).take(i as int)),
            at_start == (seen.len() == 0 || seen.last() == '_'),
    {
        proof {
            assert(seen.push(c).drop_last() == seen);
            assert(views(upper@).take(i as int + 1).drop_last() =~= views(upper@).take(i as int));
            assert(views(upper@)[i as int] == upper@[i as int]@);
            assert(i < n);
        }
        if c == '_' {
            out.append(sep);
            at_start = true;
        } else if at_start {
            out.append(upper[i].as_str());
            at_start = false;
        } else {
            crate::text::push_char(&mut out, c);
        }
        proof {
            seen = seen.push(c);
            assert(seen == it.seq().take(it.index() as int + 1));
        }
        i = i + 1;
    }
    assert(seen == s@);
    assert(views(upper@).take(i as int) =~= views(upper@));
    out
}

fn cased_words(s: &str, sep: &str) -> (r: String)
    ensures
        r@ == cased(s@, sep@),
{
    let mut upper: Vec<String> = Vec::new();
    let ghost mut seen: Seq<char> = seq![];
    for c in it: s.chars()
        invariant
            seen == it.seq().take(it.index() as int),
            views(upper@) == seen.map_values(|c: char| upper_of(c)),
    {
        let ghost before = views(upper@);
        upper.push(uppercase(c));
        proof {
            assert(views(upper@) =~= before.push(upper_of(c)));
            assert(seen.push(c).map_values(|c: char| upper_of(c)) =~= before.push(upper_of(c)));
            seen = seen.push(c);
            assert(seen == it.seq().take(it.index() as int + 1));
        }
    }
    assert(seen == s@);
    cased_with(s, sep, &upper)
}

/// `s` as a title: words split at `_`, each capitalised, joined by spaces.
pub fn title_case(s: &str) -> (r: String)
    ensures
        r@ == cased(s@, " "@),
{
    cased_words(s, " ")
}

/// `s` as a type name: words split at `_`, each capitalised, joined.
pub fn to_pascal_case(s: &str) -> (r: String)
    ensures
        r@ == cased(s@, ""@),
{
    cased_words(s, "")
}

} // verus!
