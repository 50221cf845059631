//! The order in which registered plugins must run so that each runs after those it
//! depends on.

use crate::multimedia::richmedia::contains_string;
use crate::plugins::{texts, PluginMetadata, PluginResult};
use crate::text::str_eq;
use vstd::prelude::*;

verus! {

/// `i` is the position of the first plugin of `meta` named `name`.
pub open spec fn is_first_named(meta: Seq<PluginMetadata>, name: Seq<char>, i: int) -> bool {
    &&& 0 <= i < meta.len()
    &&& meta[i].name@ == name
    &&& forall|j: int| 0 <= j < i ==> meta[j].name@ != name
}

/// The dependencies of the plugin `name` (those of the first so named); none when no
/// plugin has that name.
pub open spec fn deps_of(meta: Seq<PluginMetadata>, name: Seq<char>) -> Seq<Seq<char>> {
    if exists|i: int| is_first_named(meta, name, i) {
        texts(meta[choose|i: int| is_first_named(meta, name, i)].dependencies@)
    } else {
        seq![]
    }
}

/// The walk's state: the plugins ordered so far, those finished, and those whose
/// dependencies are being walked.
pub type OrderState = (Seq<Seq<char>>, Set<Seq<char>>, Set<Seq<char>>);

/// The error for a plugin met again while its own dependencies are walked.
pub open spec fn cycle_text(name: Seq<char>) -> Seq<char> {
    "Circular dependency detected involving '"@ + name + "'"@
}

/// Walks the plugin `name`: an error when it is already being walked; nothing when it is
/// finished; else its dependencies in turn, then the plugin itself is ordered. The walk
/// never goes deeper than `fuel`.
pub open spec fn visit_order(meta: Seq<PluginMetadata>, name: Seq<char>, st: OrderState, fuel: nat) -> Result<
    OrderState,
    Seq<char>,
>
    decreases fuel, 0nat,
{
    if st.2.contains(name) {
        Err(cycle_text(name))
    } else if st.1.contains(name) {
        Ok(st)
    } else if fuel == 0 {
        Ok(st)
    } else {
        match visit_all_order(meta, deps_of(meta, name), (st.0, st.1, st.2.insert(name)), (fuel - 1) as nat) {
            Err(e) => Err(e),
            Ok(s) => Ok((s.0.push(name), s.1.insert(name), s.2.remove(name))),
        }
    }
}

/// Walks the plugins `names` in turn, stopping at the first error.
pub open spec fn visit_all_order(
    meta: Seq<PluginMetadata>,
    names: Seq<Seq<char>>,
    st: OrderState,
    fuel: nat,
) -> Result<OrderState, Seq<char>>
    decreases fuel, names.len(),
{
    if names.len() == 0 {
        Ok(st)
    } else {
        match visit_all_order(meta, names.drop_last(), st, fuel) {
            Err(e) => Err(e),
            Ok(s) => visit_order(meta, names.last(), s, fuel),
        }
    }
}

/// Every name that the plugins mention: their own and those they depend on.
pub open spec fn mentioned_names(meta: Seq<PluginMetadata>) -> Seq<Seq<char>>
    decreases meta.len(),
{
    if meta.len() == 0 {
        seq![]
    } else {
        mentioned_names(meta.drop_last()) + seq![meta.last().name@] + texts(
            meta.last().dependencies@,
        )
    }
}

/// The names that a walk from `names` can meet.
pub open spec fn walk_names(meta: Seq<PluginMetadata>, names: Seq<Seq<char>>) -> Seq<Seq<char>> {
    names + mentioned_names(meta)
}

/// The order in which the plugins `names` and, before each, those it depends on (directly
/// or not) must run: a depth-first walk of the dependencies, each plugin ordered once after
/// its dependencies; an error names a plugin met again while its own dependencies are
/// walked. The walk is never deeper than the number of names met, which the bound on its
/// depth exceeds.
pub open spec fn dependency_order(meta: Seq<PluginMetadata>, names: Seq<Seq<char>>) -> Result<
    OrderState,
    Seq<char>,
> {
    visit_all_order(meta, names, (seq![], Set::empty(), Set::empty()), walk_names(meta, names).len() + 1)
}

/// The dependencies of each plugin are among the names mentioned.
proof fn lemma_mentioned_deps(meta: Seq<PluginMetadata>)
    ensures
        forall|i: int, d: Seq<char>|
            0 <= i < meta.len() && #[trigger] texts(meta[i].dependencies@).contains(d)
                ==> mentioned_names(meta).contains(d),
    decreases meta.len(),
{
    if meta.len() > 0 {
        let p = meta.drop_last();
        lemma_mentioned_deps(p);
        let last_deps = texts(meta.last().dependencies@);
        let m = mentioned_names(meta);
        let mp = mentioned_names(p);
        assert(m == mp + seq![meta.last().name@] + last_deps);
        assert forall|i: int, d: Seq<char>|
            0 <= i < meta.len() && #[trigger] texts(meta[i].dependencies@).contains(d) implies m.contains(
            d,
        ) by {
            if i < meta.len() - 1 {
                assert(meta[i] == p[i]);
                let k = choose|k: int| 0 <= k < mp.len() && mp[k] == d;
                assert(m[k] == d);
            } else {
                let k = choose|k: int| 0 <= k < last_deps.len() && last_deps[k] == d;
                assert(m[mp.len() + 1 + k] == d);
            }
        }
    }
}

/// The dependencies of any name are among the names a walk can meet.
proof fn lemma_deps_in_walk(meta: Seq<PluginMetadata>, names: Seq<Seq<char>>, name: Seq<char>)
    ensures
        forall|d: Seq<char>| #[trigger] deps_of(meta, name).contains(d) ==> walk_names(meta, names).contains(d),
{
    lemma_mentioned_deps(meta);
    let w = walk_names(meta, names);
    if exists|i: int| is_first_named(meta, name, i) {
        let i = choose|i: int| is_first_named(meta, name, i);
        assert forall|d: Seq<char>| #[trigger] deps_of(meta, name).contains(d) implies w.contains(d) by {
            assert(texts(meta[i].dependencies@).contains(d));
            let m = mentioned_names(meta);
            let k = choose|k: int| 0 <= k < m.len() && m[k] == d;
            assert(w[names.len() + k] == d);
        }
    }
}

/// Once a walk fails, the names after it change nothing.
proof fn lemma_walk_failed(meta: Seq<PluginMetadata>, a: Seq<Seq<char>>, b: Seq<Seq<char>>, st: OrderState, fuel: nat)
    requires
        visit_all_order(meta, a, st, fuel) is Err,
    ensures
        visit_all_order(meta, a + b, st, fuel) == visit_all_order(meta, a, st, fuel),
    decreases b.len(),
{
    if b.len() == 0 {
        assert(a + b =~= a);
    } else {
        lemma_walk_failed(meta, a, b.drop_last(), st, fuel);
        assert((a + b).drop_last() =~= a + b.drop_last());
    }
}

/// A stack of distinct names, all among `all`, that lacks one of them is shorter than
/// `all`.
proof fn lemma_stack_shorter(stack: Seq<Seq<char>>, all: Seq<Seq<char>>, x: Seq<char>)
    requires
        stack.no_duplicates(),
        forall|y: Seq<char>| #[trigger] stack.contains(y) ==> all.contains(y),
        all.contains(x),
        !stack.contains(x),
    ensures
        stack.len() + 1 <= all.len(),
{
    let s = stack.push(x);
    assert(s.no_duplicates()) by {
        assert forall|i: int, j: int| 0 <= i < s.len() && 0 <= j < s.len() && i != j implies s[i]
            != s[j] by {
            if i < stack.len() && j < stack.len() {
                assert(s[i] == stack[i] && s[j] == stack[j]);
            } else if i < stack.len() {
                assert(stack.contains(s[i]));
            } else {
                assert(stack.contains(s[j]));
            }
        }
    }
    s.unique_seq_to_set();
    all.lemma_cardinality_of_set();
    assert forall|y: Seq<char>| s.to_set().contains(y) implies all.to_set().contains(y) by {
        assert(s.contains(y));
        if y != x {
            let k = choose|k: int| 0 <= k < s.len() && s[k] == y;
            assert(k < stack.len());
            assert(stack[k] == y);
            assert(stack.contains(y));
        }
        assert(all.contains(y));
    }
    vstd::seq_lib::seq_to_set_is_finite(all);
    vstd::set_lib::lemma_len_subset(s.to_set(), all.to_set());
}

/// Pushing a name that a stack of distinct names lacks keeps its names distinct.
proof fn lemma_push_fresh(stack: Seq<Seq<char>>, all: Seq<Seq<char>>, x: Seq<char>)
    requires
        stack.no_duplicates(),
        forall|y: Seq<char>| #[trigger] stack.contains(y) ==> all.contains(y),
        all.contains(x),
        !stack.contains(x),
    ensures
        stack.push(x).no_duplicates(),
        forall|y: Seq<char>| #[trigger] stack.push(x).contains(y) ==> all.contains(y),
{
    let s = stack.push(x);
    assert forall|i: int, j: int| 0 <= i < s.len() && 0 <= j < s.len() && i != j implies s[i]
        != s[j] by {
        if i < stack.len() && j < stack.len() {
            assert(s[i] == stack[i] && s[j] == stack[j]);
        } else if i < stack.len() {
            assert(stack.contains(s[i]));
        } else {
            assert(stack.contains(s[j]));
        }
    }
    assert forall|y: Seq<char>| #[trigger] s.contains(y) implies all.contains(y) by {
        if y != x {
            let k = choose|k: int| 0 <= k < s.len() && s[k] == y;
            assert(stack[k] == y);
            assert(stack.contains(y));
        }
    }
}

/// The walk's state as the lists that hold it.
pub open spec fn state_of(result: Seq<String>, visited: Seq<String>, visiting: Seq<String>) -> OrderState {
    (texts(result), texts(visited).to_set(), texts(visiting).to_set())
}

/// The position of the first plugin named `name`.
fn find_plugin(meta: &[PluginMetadata], name: &str) -> (r: Option<usize>)
    ensures
        match r {
            Some(i) => is_first_named(meta@, name@, i as int),
            None => forall|i: int| 0 <= i < meta@.len() ==> meta@[i].name@ != name@,
        },
{
    let mut i: usize = 0;
    while i < meta.len()
        invariant
            i <= meta@.len(),
            forall|j: int| 0 <= j < i ==> meta@[j].name@ != name@,
        decreases meta@.len() - i,
    {
        if str_eq(meta[i].name.as_str(), name) {
            return Some(i);
        }
        i += 1;
    }
    None
}

/// Walks the plugin `name`, as [`visit_order`] says.
fn visit(
    meta: &[PluginMetadata],
    name: &str,
    result: &mut Vec<String>,
    visited: &mut Vec<String>,
    visiting: &mut Vec<String>,
    Ghost(names): Ghost<Seq<Seq<char>>>,
    Ghost(fuel): Ghost<nat>,
) -> (r: Result<(), String>)
    requires
        walk_names(meta@, names).contains(name@),
        texts(old(visiting)@).no_duplicates(),
        forall|x: Seq<char>| #[trigger] texts(old(visiting)@).contains(x) ==> walk_names(meta@, names).contains(x),
        fuel + old(visiting)@.len() >= walk_names(meta@, names).len() + 1,
    ensures
        match visit_order(meta@, name@, state_of(old(result)@, old(visited)@, old(visiting)@), fuel) {
            Ok(s) => r is Ok && state_of(final(result)@, final(visited)@, final(visiting)@) == s
                && texts(final(visiting)@) == texts(old(visiting)@),
            Err(e) => r matches Err(m) && m@ == e,
        },
    decreases fuel,
{
    let ghost walk = walk_names(meta@, names);
    let ghost st0 = state_of(result@, visited@, visiting@);
    let ghost stack0 = texts(visiting@);
    if contains_string(visiting, name) {
        assert(stack0.to_set().contains(name@));
        let mut m = "Circular dependency detected involving '".to_string();
        m.append(name);
        m.append("'");
        return Err(m);
    }
    if contains_string(visited, name) {
        assert(texts(visited@).to_set().contains(name@));
        return Ok(());
    }
    proof {
        lemma_stack_shorter(stack0, walk, name@);
        lemma_push_fresh(stack0, walk, name@);
        assert(!st0.2.contains(name@));
        assert(!st0.1.contains(name@));
        assert(fuel >= 1);
    }
    let ghost f1 = (fuel - 1) as nat;
    visiting.push(name.to_string());
    proof {
        assert(texts(visiting@) =~= stack0.push(name@));
        stack0.lemma_push_to_set_commute(name@);
    }
    let ghost st1 = (st0.0, st0.1, st0.2.insert(name@));
    assert(state_of(result@, visited@, visiting@) == st1);
    let ghost deps = deps_of(meta@, name@);
    proof {
        lemma_deps_in_walk(meta@, names, name@);
    }
    match find_plugin(meta, name) {
        Some(i) => {
            proof {
                let q = choose|q: int| is_first_named(meta@, name@, q);
                assert(is_first_named(meta@, name@, q));
                assert(q == i);
                assert(deps == texts(meta@[i as int].dependencies@));
            }
            let mut j: usize = 0;
            while j < meta[i].dependencies.len()
                invariant
                    i < meta@.len(),
                    j <= meta@[i as int].dependencies@.len(),
                    f1 + 1 == fuel,
                    st0 == state_of(old(result)@, old(visited)@, old(visiting)@),
                    stack0 == texts(old(visiting)@),
                    !st0.2.contains(name@),
                    !st0.1.contains(name@),
                    st1 == (st0.0, st0.1, st0.2.insert(name@)),
                    deps == deps_of(meta@, name@),
                    deps == texts(meta@[i as int].dependencies@),
                    walk == walk_names(meta@, names),
                    forall|d: Seq<char>| #[trigger] deps.contains(d) ==> walk.contains(d),
                    texts(visiting@) == stack0.push(name@),
                    texts(visiting@).no_duplicates(),
                    forall|x: Seq<char>| #[trigger] texts(visiting@).contains(x) ==> walk.contains(x),
                    f1 + visiting@.len() >= walk.len() + 1,
                    visit_all_order(meta@, deps.take(j as int), st1, f1) == Ok::<OrderState, Seq<char>>(
                        state_of(result@, visited@, visiting@),
                    ),
                decreases meta@[i as int].dependencies@.len() - j,
            {
                let dep = meta[i].dependencies[j].as_str();
                assert(deps[j as int] == dep@);
                assert(deps.contains(dep@));
                assert(deps.take(j + 1).drop_last() =~= deps.take(j as int));
                assert(deps.take(j + 1).last() == dep@);
                match visit(meta, dep, result, visited, visiting, Ghost(names), Ghost(f1)) {
                    Err(e) => {
                        proof {
                            lemma_walk_failed(
                                meta@,
                                deps.take(j + 1),
                                deps.skip(j + 1),
                                st1,
                                f1,
                            );
                            assert(deps.take(j + 1) + deps.skip(j + 1) =~= deps);
                        }
                        return Err(e);
                    },
                    Ok(()) => {},
                }
                assert(texts(visiting@).len() == visiting@.len());
                j += 1;
            }
            assert(deps.take(j as int) =~= deps);
        },
        None => {
            assert(!exists|q: int| is_first_named(meta@, name@, q));
            assert(deps =~= Seq::<Seq<char>>::empty());
            assert(deps.take(0) =~= deps);
        },
    }
    assert(texts(visiting@) == stack0.push(name@));
    let ghost st2 = state_of(result@, visited@, visiting@);
    let ghost visited0 = texts(visited@);
    let ghost result0 = texts(result@);
    let ghost before_pop = visiting@;
    assert(texts(before_pop).len() == before_pop.len());
    visiting.pop();
    proof {
        assert(visiting@ =~= before_pop.drop_last());
        assert(texts(visiting@) =~= texts(before_pop).drop_last());
        assert(texts(visiting@) =~= stack0);
        assert(st2.2 == stack0.to_set().insert(name@));
        assert(stack0.to_set().insert(name@).remove(name@) =~= stack0.to_set());
    }
    visited.push(name.to_string());
    proof {
        assert(texts(visited@) =~= visited0.push(name@));
        visited0.lemma_push_to_set_commute(name@);
    }
    result.push(name.to_string());
    assert(texts(result@) =~= result0.push(name@));
    Ok(())
}

/// The order in which the plugins `plugin_names` and those they depend on must run, given
/// what each registered plugin depends on: each plugin after its dependencies, and each
/// once; an error when a plugin depends on itself through others.
pub fn get_dependency_order(meta: &[PluginMetadata], plugin_names: &[String]) -> (r: Result<
    Vec<String>,
    String,
>)
    ensures
        match dependency_order(meta@, texts(plugin_names@)) {
            Ok(s) => r matches Ok(v) && texts(v@) == s.0,
            Err(e) => r matches Err(m) && m@ == e,
        },
{
    let ghost names = texts(plugin_names@);
    let ghost walk = walk_names(meta@, names);
    let ghost fuel = (walk.len() + 1) as nat;
    let mut result: Vec<String> = Vec::new();
    let mut visited: Vec<String> = Vec::new();
    let mut visiting: Vec<String> = Vec::new();
    let ghost init: OrderState = (seq![], Set::empty(), Set::empty());
    assert(state_of(result@, visited@, visiting@) == init) by {
        assert(texts(result@) =~= Seq::<Seq<char>>::empty());
        assert(texts(visited@).to_set() =~= Set::<Seq<char>>::empty());
        assert(texts(visiting@).to_set() =~= Set::<Seq<char>>::empty());
    }
    let mut k: usize = 0;
    while k < plugin_names.len()
        invariant
            k <= plugin_names@.len(),
            names == texts(plugin_names@),
            walk == walk_names(meta@, names),
            fuel == walk.len() + 1,
            init == (Seq::<Seq<char>>::empty(), Set::<Seq<char>>::empty(), Set::<Seq<char>>::empty()),
            texts(visiting@) == Seq::<Seq<char>>::empty(),
            visit_all_order(meta@, names.take(k as int), init, fuel) == Ok::<OrderState, Seq<char>>(
                state_of(result@, visited@, visiting@),
            ),
        decreases plugin_names@.len() - k,
    {
        let name = plugin_names[k].as_str();
        assert(names[k as int] == name@);
        assert(walk[k as int] == name@);
        assert(names.take(k + 1).drop_last() =~= names.take(k as int));
        assert(names.take(k + 1).last() == name@);
        assert(texts(visiting@).no_duplicates());
        match visit(meta, name, &mut result, &mut visited, &mut visiting, Ghost(names), Ghost(fuel)) {
            Err(e) => {
                proof {
                    lemma_walk_failed(meta@, names.take(k + 1), names.skip(k + 1), init, fuel);
                    assert(names.take(k + 1) + names.skip(k + 1) =~= names);
                }
                return Err(e);
            },
            Ok(()) => {},
        }
        k += 1;
    }
    assert(names.take(k as int) =~= names);
    Ok(result)
}

/// Each plugin of `order` comes after every plugin it depends on.
pub open spec fn ordered_after_deps(meta: Seq<PluginMetadata>, order: Seq<Seq<char>>) -> bool {
    forall|p: int, d: Seq<char>|
        0 <= p < order.len() && #[trigger] deps_of(meta, order[p]).contains(d) ==> exists|q: int|
            0 <= q < p && #[trigger] order[q] == d
}

/// What a walk keeps of its state: each plugin ordered once, the finished plugins being
/// those ordered, each after its dependencies, and none both finished and being walked.
pub open spec fn walk_invariant(meta: Seq<PluginMetadata>, st: OrderState) -> bool {
    &&& st.0.no_duplicates()
    &&& st.0.to_set() == st.1
    &&& ordered_after_deps(meta, st.0)
    &&& forall|x: Seq<char>| !(#[trigger] st.1.contains(x) && st.2.contains(x))
}

/// A walk with enough depth left keeps its invariant, finishes the plugin it walks, and
/// leaves the plugins being walked as they were.
proof fn lemma_visit_keeps(meta: Seq<PluginMetadata>, walk: Seq<Seq<char>>, name: Seq<char>, st: OrderState, fuel: nat)
    requires
        walk_invariant(meta, st),
        st.2.finite(),
        st.2.subset_of(walk.to_set()),
        fuel + st.2.len() >= walk.len() + 1,
        walk.contains(name),
        forall|x: Seq<char>, d: Seq<char>| #[trigger] deps_of(meta, x).contains(d) ==> walk.contains(d),
    ensures
        visit_order(meta, name, st, fuel) matches Ok(s) ==> {
            &&& walk_invariant(meta, s)
            &&& s.1.contains(name)
            &&& st.1.subset_of(s.1)
            &&& s.2 == st.2
        },
    decreases fuel, 0nat,
{
    if !st.2.contains(name) && !st.1.contains(name) {
        let w = walk.to_set();
        walk.lemma_cardinality_of_set();
        vstd::seq_lib::seq_to_set_is_finite(walk);
        assert(st.2.insert(name).subset_of(w));
        vstd::set_lib::lemma_len_subset(st.2.insert(name), w);
        assert(fuel >= 1);
        let f1 = (fuel - 1) as nat;
        let st1 = (st.0, st.1, st.2.insert(name));
        let deps = deps_of(meta, name);
        assert(walk_invariant(meta, st1));
        assert forall|i: int| 0 <= i < deps.len() implies walk.contains(#[trigger] deps[i]) by {
            assert(deps.contains(deps[i]));
        }
        lemma_visit_all_keeps(meta, walk, deps, st1, f1);
        match visit_all_order(meta, deps, st1, f1) {
            Ok(s) => {
                let r = (s.0.push(name), s.1.insert(name), s.2.remove(name));
                assert(!s.1.contains(name));
                s.0.lemma_push_to_set_commute(name);
                assert(r.0.no_duplicates()) by {
                    assert forall|i: int, j: int|
                        0 <= i < r.0.len() && 0 <= j < r.0.len() && i != j implies r.0[i] != r.0[j] by {
                        if i < s.0.len() && j < s.0.len() {
                            assert(r.0[i] == s.0[i] && r.0[j] == s.0[j]);
                        } else if i < s.0.len() {
                            assert(s.0.to_set().contains(s.0[i]));
                        } else {
                            assert(s.0.to_set().contains(s.0[j]));
                        }
                    }
                }
                assert(r.2 =~= st.2);
                assert forall|p: int, d: Seq<char>|
                    0 <= p < r.0.len() && #[trigger] deps_of(meta, r.0[p]).contains(d) implies exists|q: int|
                    0 <= q < p && #[trigger] r.0[q] == d by {
                    if p < s.0.len() {
                        assert(r.0[p] == s.0[p]);
                        let q = choose|q: int| 0 <= q < p && #[trigger] s.0[q] == d;
                        assert(r.0[q] == d);
                    } else {
                        assert(r.0[p] == name);
                        assert(deps.contains(d));
                        assert(s.1.contains(d));
                        assert(s.0.to_set().contains(d));
                        let q = choose|q: int| 0 <= q < s.0.len() && s.0[q] == d;
                        assert(r.0[q] == d);
                    }
                }
                assert(walk_invariant(meta, r));
            },
            Err(_) => {},
        }
    }
}

/// Walking names in turn with enough depth left keeps the invariant and finishes each of
/// them.
proof fn lemma_visit_all_keeps(
    meta: Seq<PluginMetadata>,
    walk: Seq<Seq<char>>,
    names: Seq<Seq<char>>,
    st: OrderState,
    fuel: nat,
)
    requires
        walk_invariant(meta, st),
        st.2.finite(),
        st.2.subset_of(walk.to_set()),
        fuel + st.2.len() >= walk.len() + 1,
        forall|i: int| 0 <= i < names.len() ==> walk.contains(#[trigger] names[i]),
        forall|x: Seq<char>, d: Seq<char>| #[trigger] deps_of(meta, x).contains(d) ==> walk.contains(d),
    ensures
        visit_all_order(meta, names, st, fuel) matches Ok(s) ==> {
            &&& walk_invariant(meta, s)
            &&& forall|i: int| 0 <= i < names.len() ==> s.1.contains(#[trigger] names[i])
            &&& st.1.subset_of(s.1)
            &&& s.2 == st.2
        },
    decreases fuel, names.len(),
{
    if names.len() > 0 {
        let p = names.drop_last();
        assert forall|i: int| 0 <= i < p.len() implies walk.contains(#[trigger] p[i]) by {
            assert(p[i] == names[i]);
        }
        lemma_visit_all_keeps(meta, walk, p, st, fuel);
        match visit_all_order(meta, p, st, fuel) {
            Ok(s1) => {
                assert(walk.contains(names[names.len() - 1]));
                lemma_visit_keeps(meta, walk, names.last(), s1, fuel);
                match visit_order(meta, names.last(), s1, fuel) {
                    Ok(s) => {
                        assert forall|i: int| 0 <= i < names.len() implies s.1.contains(
                            #[trigger] names[i],
                        ) by {
                            if i < names.len() - 1 {
                                assert(p[i] == names[i]);
                                assert(s1.1.contains(p[i]));
                            }
                        }
                    },
                    Err(_) => {},
                }
            },
            Err(_) => {},
        }
    }
}

/// When the order can be found, it holds each plugin at most once, each requested plugin,
/// and each plugin after every plugin it depends on.
pub proof fn lemma_dependency_order_sound(meta: Seq<PluginMetadata>, names: Seq<Seq<char>>)
    ensures
        dependency_order(meta, names) matches Ok(s) ==> {
            &&& s.0.no_duplicates()
            &&& forall|i: int| 0 <= i < names.len() ==> s.0.contains(#[trigger] names[i])
            &&& ordered_after_deps(meta, s.0)
        },
{
    let walk = walk_names(meta, names);
    let init: OrderState = (seq![], Set::empty(), Set::empty());
    assert(init.0.to_set() =~= init.1);
    assert(walk_invariant(meta, init));
    assert forall|i: int| 0 <= i < names.len() implies walk.contains(#[trigger] names[i]) by {
        assert(walk[i] == names[i]);
    }
    assert forall|x: Seq<char>, d: Seq<char>| #[trigger] deps_of(meta, x).contains(d) implies walk.contains(d) by {
        lemma_deps_in_walk(meta, names, x);
    }
    lemma_visit_all_keeps(meta, walk, names, init, (walk.len() + 1) as nat);
    match dependency_order(meta, names) {
        Ok(s) => {
            assert forall|i: int| 0 <= i < names.len() implies s.0.contains(#[trigger] names[i]) by {
                assert(s.1.contains(names[i]));
                assert(s.0.to_set().contains(names[i]));
            }
        },
        Err(_) => {},
    }
}

/// `b` is `a`, or a plugin that `a` depends on through exactly `k` links.
pub open spec fn depends_within(meta: Seq<PluginMetadata>, a: Seq<char>, b: Seq<char>, k: nat) -> bool
    decreases k,
{
    if k == 0 {
        a == b
    } else {
        exists|c: Seq<char>|
            #[trigger] deps_of(meta, a).contains(c) && depends_within(meta, c, b, (k - 1) as nat)
    }
}

/// The plugin `x` depends on itself through one link or more.
pub open spec fn in_dependency_cycle(meta: Seq<PluginMetadata>, x: Seq<char>) -> bool {
    exists|k: nat| k > 0 && #[trigger] depends_within(meta, x, x, k)
}

/// A failed walk from `name` names a plugin that `name` depends on, and that plugin was
/// being walked already or depends on itself.
proof fn lemma_visit_error(meta: Seq<PluginMetadata>, name: Seq<char>, st: OrderState, fuel: nat)
    ensures
        visit_order(meta, name, st, fuel) matches Err(e) ==> exists|x: Seq<char>, k: nat|
            #![trigger depends_within(meta, name, x, k)]
            e == cycle_text(x) && depends_within(meta, name, x, k) && (st.2.contains(x)
                || in_dependency_cycle(meta, x)),
    decreases fuel, 0nat,
{
    if st.2.contains(name) {
        assert(depends_within(meta, name, name, 0));
    } else if !st.1.contains(name) && fuel > 0 {
        let f1 = (fuel - 1) as nat;
        let st1 = (st.0, st.1, st.2.insert(name));
        let deps = deps_of(meta, name);
        lemma_visit_all_error(meta, deps, st1, f1);
        match visit_all_order(meta, deps, st1, f1) {
            Err(e) => {
                let (d, x, k) = choose|d: Seq<char>, x: Seq<char>, k: nat|
                    #![trigger depends_within(meta, d, x, k)]
                    deps.contains(d) && e == cycle_text(x) && depends_within(meta, d, x, k) && (
                    st1.2.contains(x) || in_dependency_cycle(meta, x));
                assert(depends_within(meta, name, x, k + 1));
                if x == name {
                    assert(in_dependency_cycle(meta, name));
                }
            },
            Ok(_) => {},
        }
    }
}

/// A failed walk of several names fails in one of them, as [`lemma_visit_error`] says.
proof fn lemma_visit_all_error(meta: Seq<PluginMetadata>, names: Seq<Seq<char>>, st: OrderState, fuel: nat)
    ensures
        visit_all_order(meta, names, st, fuel) matches Err(e) ==> exists|d: Seq<char>, x: Seq<char>, k: nat|
            #![trigger depends_within(meta, d, x, k)]
            names.contains(d) && e == cycle_text(x) && depends_within(meta, d, x, k) && (st.2.contains(
                x,
            ) || in_dependency_cycle(meta, x)),
    decreases fuel, names.len(),
{
    if names.len() > 0 {
        let p = names.drop_last();
        lemma_visit_all_error(meta, p, st, fuel);
        match visit_all_order(meta, p, st, fuel) {
            Err(e) => {
                let (d, x, k) = choose|d: Seq<char>, x: Seq<char>, k: nat|
                    #![trigger depends_within(meta, d, x, k)]
                    p.contains(d) && e == cycle_text(x) && depends_within(meta, d, x, k) && (
                    st.2.contains(x) || in_dependency_cycle(meta, x));
                let i = choose|i: int| 0 <= i < p.len() && p[i] == d;
                assert(names[i] == d);
            },
            Ok(s1) => {
                lemma_visit_error(meta, names.last(), s1, fuel);
                lemma_visit_all_keeps_walking(meta, p, st, fuel);
                assert(names[names.len() - 1] == names.last());
            },
        }
    }
}

/// A walk that succeeds leaves the plugins being walked as they were.
proof fn lemma_visit_keeps_walking(meta: Seq<PluginMetadata>, name: Seq<char>, st: OrderState, fuel: nat)
    ensures
        visit_order(meta, name, st, fuel) matches Ok(s) ==> s.2 == st.2,
    decreases fuel, 0nat,
{
    if !st.2.contains(name) && !st.1.contains(name) && fuel > 0 {
        let f1 = (fuel - 1) as nat;
        let st1 = (st.0, st.1, st.2.insert(name));
        lemma_visit_all_keeps_walking(meta, deps_of(meta, name), st1, f1);
        match visit_all_order(meta, deps_of(meta, name), st1, f1) {
            Ok(s) => {
                assert(s.2.remove(name) =~= st.2);
            },
            Err(_) => {},
        }
    }
}

/// Walks that succeed leave the plugins being walked as they were.
proof fn lemma_visit_all_keeps_walking(meta: Seq<PluginMetadata>, names: Seq<Seq<char>>, st: OrderState, fuel: nat)
    ensures
        visit_all_order(meta, names, st, fuel) matches Ok(s) ==> s.2 == st.2,
    decreases fuel, names.len(),
{
    if names.len() > 0 {
        lemma_visit_all_keeps_walking(meta, names.drop_last(), st, fuel);
        match visit_all_order(meta, names.drop_last(), st, fuel) {
            Ok(s1) => {
                lemma_visit_keeps_walking(meta, names.last(), s1, fuel);
            },
            Err(_) => {},
        }
    }
}

/// When no order can be found, the error names a plugin that depends on itself, and that a
/// requested plugin depends on.
pub proof fn lemma_dependency_order_error_is_cycle(meta: Seq<PluginMetadata>, names: Seq<Seq<char>>)
    ensures
        dependency_order(meta, names) matches Err(e) ==> exists|d: Seq<char>, x: Seq<char>, k: nat|
            #![trigger depends_within(meta, d, x, k)]
            names.contains(d) && e == cycle_text(x) && depends_within(meta, d, x, k)
                && in_dependency_cycle(meta, x),
{
    let init: OrderState = (seq![], Set::empty(), Set::empty());
    lemma_visit_all_error(meta, names, init, (walk_names(meta, names).len() + 1) as nat);
}

/// The plugin `name` is registered.
pub open spec fn registered(meta: Seq<PluginMetadata>, name: Seq<char>) -> bool {
    exists|i: int| 0 <= i < meta.len() && meta[i].name@ == name
}

/// The outcome of checking that what the plugin `name` depends on is registered: the
/// error for the first dependency that is not, or for a plugin that is not registered
/// itself.
pub open spec fn dependency_check(meta: Seq<PluginMetadata>, name: Seq<char>) -> Result<(), Seq<char>> {
    if !registered(meta, name) {
        Err("Plugin '"@ + name + "' not found"@)
    } else {
        let deps = deps_of(meta, name);
        if exists|j: int| 0 <= j < deps.len() && !registered(meta, deps[j]) {
            let j = choose|j: int|
                0 <= j < deps.len() && !registered(meta, deps[j]) && forall|k: int|
                    0 <= k < j ==> registered(meta, deps[k]);
            Err("Plugin '"@ + name + "' depends on '"@ + deps[j] + "' which is not registered"@)
        } else {
            Ok(())
        }
    }
}

/// Checks that what the plugin `name` depends on is registered.
pub fn check_dependencies(meta: &[PluginMetadata], name: &str) -> (r: PluginResult)
    ensures
        match dependency_check(meta@, name@) {
            Ok(()) => r is Success,
            Err(e) => r matches PluginResult::Error(m) && m@ == e,
        },
{
    let i = match find_plugin(meta, name) {
        Some(i) => i,
        None => {
            let mut m = "Plugin '".to_string();
            m.append(name);
            m.append("' not found");
            return PluginResult::Error(m);
        },
    };
    let ghost deps = deps_of(meta@, name@);
    proof {
        let q = choose|q: int| is_first_named(meta@, name@, q);
        assert(is_first_named(meta@, name@, q));
        assert(q == i);
        assert(deps == texts(meta@[i as int].dependencies@));
    }
    let mut j: usize = 0;
    while j < meta[i].dependencies.len()
        invariant
            i < meta@.len(),
            is_first_named(meta@, name@, i as int),
            deps == deps_of(meta@, name@),
            deps == texts(meta@[i as int].dependencies@),
            j <= deps.len(),
            forall|k: int| 0 <= k < j ==> registered(meta@, deps[k]),
        decreases deps.len() - j,
    {
        let dep = meta[i].dependencies[j].as_str();
        assert(deps[j as int] == dep@);
        if find_plugin(meta, dep).is_none() {
            proof {
                assert(registered(meta@, name@)) by {
                    assert(meta@[i as int].name@ == name@);
                }
                assert(!registered(meta@, deps[j as int]));
                assert(exists|jj: int| 0 <= jj < deps.len() && !registered(meta@, deps[jj]));
                let w = choose|w: int|
                    0 <= w < deps.len() && !registered(meta@, deps[w]) && forall|k: int|
                        0 <= k < w ==> registered(meta@, deps[k]);
                assert(!registered(meta@, deps[j as int]));
                assert(0 <= j < deps.len() && !registered(meta@, deps[j as int]) && forall|k: int|
                    0 <= k < j ==> registered(meta@, deps[k]));
                if w < j {
                    assert(registered(meta@, deps[w]));
                }
                if j < w {
                    assert(registered(meta@, deps[j as int]));
                }
                assert(w == j);
            }
            let mut m = "Plugin '".to_string();
            m.append(name);
            m.append("' depends on '");
            m.append(dep);
            m.append("' which is not registered");
            return PluginResult::Error(m);
        }
        j += 1;
    }
    PluginResult::Success
}

/// The names of the plugins tagged `tag`, in order.
pub open spec fn names_with_tag(meta: Seq<PluginMetadata>, tag: Seq<char>) -> Seq<Seq<char>>
    decreases meta.len(),
{
    if meta.len() == 0 {
        seq![]
    } else if texts(meta.last().tags@).contains(tag) {
        names_with_tag(meta.drop_last(), tag).push(meta.last().name@)
    } else {
        names_with_tag(meta.drop_last(), tag)
    }
}

/// The names of the plugins tagged `tag`, in order.
pub fn find_by_tag(meta: &[PluginMetadata], tag: &str) -> (r: Vec<String>)
    ensures
        texts(r@) == names_with_tag(meta@, tag@),
{
    let mut out: Vec<String> = Vec::new();
    let mut i: usize = 0;
    while i < meta.len()
        invariant
            i <= meta@.len(),
            texts(out@) == names_with_tag(meta@.take(i as int), tag@),
        decreases meta@.len() - i,
    {
        assert(meta@.take(i + 1).drop_last() =~= meta@.take(i as int));
        assert(meta@.take(i + 1).last() == meta@[i as int]);
        if contains_string(&meta[i].tags, tag) {
            let ghost before = out@;
            out.push(meta[i].name.as_str().to_string());
            assert(texts(out@) =~= texts(before).push(meta@[i as int].name@));
        }
        i += 1;
    }
    assert(meta@.take(i as int) =~= meta@);
    out
}

/// The names of the plugins by `author`, in order.
pub open spec fn names_by_author(meta: Seq<PluginMetadata>, author: Seq<char>) -> Seq<Seq<char>>
    decreases meta.len(),
{
    if meta.len() == 0 {
        seq![]
    } else if meta.last().author@ == author {
        names_by_author(meta.drop_last(), author).push(meta.last().name@)
    } else {
        names_by_author(meta.drop_last(), author)
    }
}

/// The names of the plugins by `author`, in order.
pub fn find_by_author(meta: &[PluginMetadata], author: &str) -> (r: Vec<String>)
    ensures
        texts(r@) == names_by_author(meta@, author@),
{
    let mut out: Vec<String> = Vec::new();
    let mut i: usize = 0;
    while i < meta.len()
        invariant
            i <= meta@.len(),
            texts(out@) == names_by_author(meta@.take(i as int), author@),
        decreases meta@.len() - i,
    {
        assert(meta@.take(i + 1).drop_last() =~= meta@.take(i as int));
        assert(meta@.take(i + 1).last() == meta@[i as int]);
        if str_eq(meta[i].author.as_str(), author) {
            let ghost before = out@;
            out.push(meta[i].name.as_str().to_string());
            assert(texts(out@) =~= texts(before).push(meta@[i as int].name@));
        }
        i += 1;
    }
    assert(meta@.take(i as int) =~= meta@);
    out
}

} // verus!
