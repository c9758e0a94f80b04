//! Whether the dependencies between metrics run in a circle.

use vstd::prelude::*;
use vstd::string::*;
use crate::error::ErrorView;
use crate::error::SidemanticError;
use crate::graph::GraphView;
use crate::graph::SemanticGraph;
use crate::model::Metric;
use crate::model::MetricView;
use crate::names::NameSet;
use crate::text::concat3;
use crate::text::contains_name;
use crate::text::first_named;
use crate::text::lemma_distinct_names;
use crate::text::lemma_first_named;
use crate::text::views;
use crate::text::str_eq;
use crate::dependency::dependencies;
use crate::dependency::extract_dependencies;

verus! {

/// Whether the metric `a` depends on `b`: some entry for `a` names `b`.
pub open spec fn has_edge(deps: Seq<(Seq<char>, Set<Seq<char>>)>, a: Seq<char>, b: Seq<char>) -> bool {
    exists|i: int| 0 <= i < deps.len() && (#[trigger] deps[i]).0 == a && deps[i].1.contains(b)
}

/// Whether `w` is a directed cycle: it ends where it starts, has at least
/// one step, and each step goes from a metric to one that it depends on.
pub open spec fn is_cycle(deps: Seq<(Seq<char>, Set<Seq<char>>)>, w: Seq<Seq<char>>) -> bool {
    &&& w.len() >= 2
    &&& w[0] == w.last()
    &&& forall|i: int, j: int|
        0 <= i && j == i + 1 && j < w.len() ==> has_edge(deps, #[trigger] w[i], #[trigger] w[j])
}

/// Whether the metric `n` lies on a directed cycle.
pub open spec fn on_cycle(deps: Seq<(Seq<char>, Set<Seq<char>>)>, n: Seq<char>) -> bool {
    exists|w: Seq<Seq<char>>| #[trigger] is_cycle(deps, w) && w[0] == n
}

/// Whether the dependencies run in no circle.
pub open spec fn acyclic(deps: Seq<(Seq<char>, Set<Seq<char>>)>) -> bool {
    forall|w: Seq<Seq<char>>| !#[trigger] is_cycle(deps, w)
}

/// The names of the entries.
pub open spec fn entry_names(deps: Seq<(Seq<char>, Set<Seq<char>>)>) -> Seq<Seq<char>> {
    deps.map_values(|e: (Seq<char>, Set<Seq<char>>)| e.0)
}

/// What holds during the depth-first walk: `stack` is the path from the
/// start to the metric in hand, `done` the metrics that are finished, in
/// the order in which they were finished, and `visited` both together.
/// Whatever a finished metric depends on was finished before it.
pub open spec fn walk_inv(
    deps: Seq<(Seq<char>, Set<Seq<char>>)>,
    visited: Seq<Seq<char>>,
    stack: Seq<Seq<char>>,
    done: Seq<Seq<char>>,
) -> bool {
    &&& forall|i: int, j: int|
        0 <= i && j == i + 1 && j < stack.len() ==> has_edge(
            deps,
            #[trigger] stack[i],
            #[trigger] stack[j],
        )
    &&& forall|x: Seq<char>| #[trigger] visited.contains(x) ==> stack.contains(x) || done.contains(x)
    &&& forall|x: Seq<char>| #[trigger] stack.contains(x) ==> visited.contains(x)
    &&& forall|x: Seq<char>| #[trigger] done.contains(x) ==> visited.contains(x)
    &&& forall|k: int, b: Seq<char>|
        0 <= k < done.len() && #[trigger] has_edge(deps, done[k], b) ==> exists|j: int|
            0 <= j < k && done[j] == b
    &&& stack.no_duplicates()
}

/// A dependency of the metric in hand that is on the path closes a cycle
/// through itself.
proof fn lemma_back_edge(
    deps: Seq<(Seq<char>, Set<Seq<char>>)>,
    stack: Seq<Seq<char>>,
    v: Seq<char>,
)
    requires
        stack.len() > 0,
        forall|i: int, j: int|
            0 <= i && j == i + 1 && j < stack.len() ==> has_edge(
                deps,
                #[trigger] stack[i],
                #[trigger] stack[j],
            ),
        has_edge(deps, stack.last(), v),
        stack.contains(v),
    ensures
        on_cycle(deps, v),
{
    let p = choose|p: int| 0 <= p < stack.len() && stack[p] == v;
    let w = stack.subrange(p, stack.len() as int).push(v);
    assert(w[0] == stack[p]);
    assert(w.last() == v);
    assert forall|i: int, j: int| 0 <= i && j == i + 1 && j < w.len() implies has_edge(
        deps,
        #[trigger] w[i],
        #[trigger] w[j],
    ) by {
        if j < w.len() - 1 {
            assert(w[i] == stack[p + i]);
            assert(w[j] == stack[p + j]);
        } else {
            assert(w[i] == stack.last());
        }
    }
    assert(is_cycle(deps, w));
}

/// Along a walk that starts at a finished metric every metric is
/// finished, and each was finished before the one that depends on it.
proof fn lemma_descend(
    deps: Seq<(Seq<char>, Set<Seq<char>>)>,
    done: Seq<Seq<char>>,
    w: Seq<Seq<char>>,
    p: int,
)
    requires
        forall|k: int, b: Seq<char>|
            0 <= k < done.len() && #[trigger] has_edge(deps, done[k], b) ==> exists|j: int|
                0 <= j < k && done[j] == b,
        forall|i: int, j: int|
            0 <= i && j == i + 1 && j < w.len() ==> has_edge(deps, #[trigger] w[i], #[trigger] w[j]),
        w.len() > 0,
        done.contains(w[0]),
        0 <= p < w.len(),
    ensures
        first_named(done, w[p], 0) is Some,
        first_named(done, w[0], 0) is Some,
        first_named(done, w[p], 0)->Some_0 + p <= first_named(done, w[0], 0)->Some_0,
    decreases p,
{
    lemma_first_named(done, w[0], 0);
    if p > 0 {
        lemma_descend(deps, done, w, p - 1);
        let x = w[p - 1];
        lemma_first_named(done, x, 0);
        let k = first_named(done, x, 0)->Some_0;
        assert(has_edge(deps, w[p - 1], w[p]));
        assert(has_edge(deps, done[k], w[p]));
        let j = choose|j: int| 0 <= j < k && done[j] == w[p];
        lemma_first_named(done, w[p], 0);
    }
}

/// Once every metric is finished, with what each depends on finished
/// before it, there is no cycle.
proof fn lemma_no_cycle(deps: Seq<(Seq<char>, Set<Seq<char>>)>, done: Seq<Seq<char>>)
    requires
        forall|k: int, b: Seq<char>|
            0 <= k < done.len() && #[trigger] has_edge(deps, done[k], b) ==> exists|j: int|
                0 <= j < k && done[j] == b,
        forall|i: int| 0 <= i < deps.len() ==> done.contains((#[trigger] deps[i]).0),
    ensures
        acyclic(deps),
{
    assert forall|w: Seq<Seq<char>>| !#[trigger] is_cycle(deps, w) by {
        if is_cycle(deps, w) {
            assert(has_edge(deps, w[0], w[1]));
            let i = choose|i: int|
                0 <= i < deps.len() && (#[trigger] deps[i]).0 == w[0] && deps[i].1.contains(w[1]);
            assert(done.contains(deps[i].0));
            lemma_descend(deps, done, w, w.len() - 1);
        }
    }
}

/// The views of the entries of a dependency graph.
pub open spec fn entries_view(entries: Seq<(String, NameSet)>) -> Seq<(Seq<char>, Set<Seq<char>>)> {
    entries.map_values(|e: (String, NameSet)| (e.0@, e.1@))
}

/// Walks depth first from `node`, which has not been visited. It returns
/// a metric on a cycle as soon as it meets a dependency that is on the
/// path, and else finishes `node` and all that it reaches.
fn visit(
    entries: &Vec<(String, NameSet)>,
    node: &str,
    visited: &mut Vec<String>,
    stack: &mut Vec<String>,
    done: Ghost<Seq<Seq<char>>>,
) -> (r: (Option<String>, Ghost<Seq<Seq<char>>>))
    requires
        walk_inv(entries_view(entries@), views(old(visited)@), views(old(stack)@), done@),
        !views(old(visited)@).contains(node@),
        forall|i: int|
            0 <= i < old(stack)@.len() ==> entry_names(entries_view(entries@)).contains(
                #[trigger] views(old(stack)@)[i],
            ),
        old(stack)@.len() > 0 ==> has_edge(
            entries_view(entries@),
            views(old(stack)@).last(),
            node@,
        ),
    ensures
        match r.0 {
            Some(name) => on_cycle(entries_view(entries@), name@),
            None => {
                &&& walk_inv(
                    entries_view(entries@),
                    views(final(visited)@),
                    views(final(stack)@),
                    r.1@,
                )
                &&& views(final(stack)@) == views(old(stack)@)
                &&& r.1@.contains(node@)
                &&& forall|x: Seq<char>| #[trigger]
                    views(old(visited)@).contains(x) ==> views(final(visited)@).contains(x)
                &&& forall|x: Seq<char>| #[trigger] done@.contains(x) ==> r.1@.contains(x)
            },
        },
    decreases entries@.len() - old(stack)@.len(),
{
    let ghost deps = entries_view(entries@);
    let ghost stack0 = views(stack@);
    let ghost visited0 = views(visited@);
    let ghost done0 = done@;
    let ghost mut fin = done@;
    proof {
        lemma_distinct_names(stack0, entry_names(deps));
    }
    visited.push(node.to_owned());
    stack.push(node.to_owned());
    proof {
        assert(views(visited@) =~= visited0.push(node@));
        assert(views(stack@) =~= stack0.push(node@));
        lemma_pushed(visited0, node@);
        lemma_pushed(stack0, node@);
        assert(views(stack@).no_duplicates()) by {
            assert forall|i: int, j: int|
                0 <= i < stack0.len() + 1 && 0 <= j < stack0.len() + 1 && i != j implies stack0.push(
                node@,
            )[i] != stack0.push(node@)[j] by {
                if i < stack0.len() && j < stack0.len() {
                } else if i < stack0.len() {
                    assert(stack0.contains(stack0[i]));
                } else {
                    assert(stack0.contains(stack0[j]));
                }
            }
        }
        assert forall|i: int, j: int|
            0 <= i && j == i + 1 && j < views(stack@).len() implies has_edge(
            deps,
            #[trigger] views(stack@)[i],
            #[trigger] views(stack@)[j],
        ) by {
            if j < stack0.len() {
                assert(views(stack@)[i] == stack0[i]);
                assert(views(stack@)[j] == stack0[j]);
            } else {
                assert(views(stack@)[i] == stack0.last());
            }
        }
    }
    let ghost stack1 = views(stack@);
    let mut i: usize = 0;
    while i < entries.len()
        invariant
            i <= entries.len(),
            deps == entries_view(entries@),
            stack1 == stack0.push(node@),
            views(stack@) == stack1,
            stack0.len() == old(stack)@.len(),
            entries@.len() - stack0.len() >= 0,
            walk_inv(deps, views(visited@), views(stack@), fin),
            forall|x: Seq<char>| #[trigger] visited0.contains(x) ==> views(visited@).contains(x),
            forall|x: Seq<char>| #[trigger] done0.contains(x) ==> fin.contains(x),
            forall|k: int|
                0 <= k < stack0.len() ==> entry_names(deps).contains(#[trigger] stack0[k]),
            forall|k: int, b: Seq<char>|
                0 <= k < i && (#[trigger] deps[k]).0 == node@ && #[trigger] deps[k].1.contains(b)
                    ==> fin.contains(b),
        decreases entries.len() - i,
    {
        assert(deps[i as int] == (entries@[i as int].0@, entries@[i as int].1@));
        if str_eq(entries[i].0.as_str(), node) {
            let n = entries[i].1.len();
            let ghost order = entries@[i as int].1.order();
            proof {
                entries@[i as int].1.lemma_order();
                assert(entry_names(deps)[i as int] == node@);
                assert forall|k: int| 0 <= k < stack1.len() implies entry_names(deps).contains(
                    #[trigger] stack1[k],
                ) by {
                    if k < stack0.len() {
                        assert(stack1[k] == stack0[k]);
                    }
                }
                lemma_distinct_names(stack1, entry_names(deps));
            }
            let mut j: usize = 0;
            while j < n
                invariant
                    j <= n,
                    i < entries.len(),
                    n == order.len(),
                    order == entries@[i as int].1.order(),
                    order.to_set() == entries@[i as int].1@,
                    deps == entries_view(entries@),
                    deps[i as int] == (entries@[i as int].0@, entries@[i as int].1@),
                    deps[i as int].0 == node@,
                    stack1 == stack0.push(node@),
                    views(stack@) == stack1,
                    stack0.len() == old(stack)@.len(),
                    stack1.len() <= entries@.len(),
                    walk_inv(deps, views(visited@), views(stack@), fin),
                    forall|x: Seq<char>| #[trigger]
                        visited0.contains(x) ==> views(visited@).contains(x),
                    forall|x: Seq<char>| #[trigger] done0.contains(x) ==> fin.contains(x),
                    forall|k: int|
                        0 <= k < stack1.len() ==> entry_names(deps).contains(#[trigger] stack1[k]),
                    forall|k: int, b: Seq<char>|
                        0 <= k < i && (#[trigger] deps[k]).0 == node@ && #[trigger] deps[k].1.contains(
                            b,
                        ) ==> fin.contains(b),
                    forall|t: int| 0 <= t < j ==> fin.contains(#[trigger] order[t]),
                decreases n - j,
            {
                let v = entries[i].1.get(j);
                proof {
                    assert(deps[i as int].1.contains(v@));
                    assert(has_edge(deps, node@, v@));
                    assert(stack1.last() == node@);
                }
                if !contains_name(visited, v) {
                    assert(stack@.len() == stack1.len());
                    let (found, next) = visit(entries, v, visited, stack, Ghost(fin));
                    match found {
                        Some(name) => {
                            return (Some(name), Ghost(fin));
                        },
                        None => {
                            proof {
                                fin = next@;
                            }
                        },
                    }
                } else if contains_name(stack, v) {
                    proof {
                        lemma_back_edge(deps, stack1, v@);
                    }
                    return (Some(v.to_owned()), Ghost(fin));
                } else {
                    assert(fin.contains(v@));
                }
                j = j + 1;
            }
            proof {
                assert forall|b: Seq<char>| #[trigger] deps[i as int].1.contains(b) implies fin.contains(
                    b,
                ) by {
                    let t = choose|t: int| 0 <= t < order.len() && order[t] == b;
                    assert(fin.contains(order[t]));
                }
            }
        }
        i = i + 1;
    }
    let ghost visited1 = views(visited@);
    let ghost full = stack@;
    stack.pop();
    proof {
        assert(views(full) == stack1);
        assert(stack@ =~= full.drop_last());
        assert(views(stack@) =~= stack1.drop_last());
        assert(stack1.drop_last() =~= stack0);
        let fin2 = fin.push(node@);
        lemma_pushed(fin, node@);
        assert(walk_inv(deps, visited1, stack0, fin2)) by {
            assert forall|a: int, b: int| 0 <= a && b == a + 1 && b < stack0.len() implies has_edge(
                deps,
                #[trigger] stack0[a],
                #[trigger] stack0[b],
            ) by {
                assert(stack1[a] == stack0[a]);
                assert(stack1[b] == stack0[b]);
            }
            assert forall|x: Seq<char>| #[trigger] visited1.contains(x) implies stack0.contains(x)
                || fin2.contains(x) by {
                if stack1.contains(x) {
                    let k = choose|k: int| 0 <= k < stack1.len() && stack1[k] == x;
                    if k < stack0.len() {
                        assert(stack0[k] == x);
                    }
                }
            }
            assert forall|x: Seq<char>| #[trigger] stack0.contains(x) implies visited1.contains(
                x,
            ) by {
                let k = choose|k: int| 0 <= k < stack0.len() && stack0[k] == x;
                assert(stack1[k] == x);
                assert(stack1.contains(x));
            }
            assert forall|x: Seq<char>| #[trigger] fin2.contains(x) implies visited1.contains(
                x,
            ) by {
                if x == node@ {
                    assert(stack1[stack0.len() as int] == node@);
                    assert(stack1.contains(node@));
                }
            }
            assert forall|k: int, b: Seq<char>|
                0 <= k < fin2.len() && #[trigger] has_edge(deps, fin2[k], b) implies exists|j: int|
                0 <= j < k && fin2[j] == b by {
                if k < fin.len() {
                    assert(fin2[k] == fin[k]);
                    let j = choose|j: int| 0 <= j < k && fin[j] == b;
                    assert(fin2[j] == b);
                } else {
                    let e = choose|e: int|
                        0 <= e < deps.len() && (#[trigger] deps[e]).0 == node@ && deps[e].1.contains(
                            b,
                        );
                    assert(fin.contains(b));
                    let j = choose|j: int| 0 <= j < fin.len() && fin[j] == b;
                    assert(fin2[j] == b);
                }
            }
            assert(stack0.no_duplicates());
        }
        fin = fin2;
    }
    (None, Ghost(fin))
}

/// What a list holds after one more name: the names before, and the new one.
proof fn lemma_pushed(s: Seq<Seq<char>>, n: Seq<char>)
    ensures
        forall|x: Seq<char>| s.contains(x) ==> #[trigger] s.push(n).contains(x),
        s.push(n).contains(n),
        forall|x: Seq<char>| #[trigger] s.push(n).contains(x) ==> s.contains(x) || x == n,
{
    assert forall|x: Seq<char>| s.contains(x) implies #[trigger] s.push(n).contains(x) by {
        let k = choose|k: int| 0 <= k < s.len() && s[k] == x;
        assert(s.push(n)[k] == x);
    }
    assert(s.push(n)[s.len() as int] == n);
    assert forall|x: Seq<char>| #[trigger] s.push(n).contains(x) implies s.contains(x) || x
        == n by {
        let k = choose|k: int| 0 <= k < s.push(n).len() && s.push(n)[k] == x;
        if k < s.len() {
            assert(s[k] == x);
        }
    }
}

/// The dependency graph of a list of named metrics: each name with the
/// direct dependencies of its metric, resolved against the graph.
pub open spec fn dependency_graph(metrics: Seq<(Seq<char>, MetricView)>, g: GraphView) -> Seq<
    (Seq<char>, Set<Seq<char>>),
> {
    metrics.map_values(|m: (Seq<char>, MetricView)| (m.0, dependencies(m.1, Some(g))))
}

/// The views of a list of named metrics.
pub open spec fn metrics_view(metrics: Seq<(&str, &Metric)>) -> Seq<(Seq<char>, MetricView)> {
    metrics.map_values(|m: (&str, &Metric)| (m.0@, m.1@))
}

/// The text of the complaint about a cycle through the metric `name`.
pub open spec fn cycle_complaint(name: Seq<char>) -> Seq<char> {
    "Circular dependency detected involving metric '"@ + name + "'"@
}

/// Whether the given dependencies run in no circle; if they do, a metric
/// on a cycle.
pub fn find_cycle(entries: &Vec<(String, NameSet)>) -> (r: Option<String>)
    ensures
        match r {
            Some(name) => on_cycle(entries_view(entries@), name@),
            None => acyclic(entries_view(entries@)),
        },
{
    let ghost deps = entries_view(entries@);
    let mut visited: Vec<String> = Vec::new();
    let mut stack: Vec<String> = Vec::new();
    let ghost mut fin: Seq<Seq<char>> = Seq::empty();
    assert(views(visited@) =~= Seq::empty());
    assert(views(stack@) =~= Seq::empty());
    let mut i: usize = 0;
    while i < entries.len()
        invariant
            i <= entries.len(),
            deps == entries_view(entries@),
            views(stack@) == Seq::<Seq<char>>::empty(),
            walk_inv(deps, views(visited@), views(stack@), fin),
            forall|k: int| 0 <= k < i ==> fin.contains((#[trigger] deps[k]).0),
        decreases entries.len() - i,
    {
        assert(deps[i as int] == (entries@[i as int].0@, entries@[i as int].1@));
        if !contains_name(&visited, entries[i].0.as_str()) {
            let (found, next) = visit(entries, entries[i].0.as_str(), &mut visited, &mut stack, Ghost(fin));
            match found {
                Some(name) => {
                    return Some(name);
                },
                None => {
                    proof {
                        fin = next@;
                    }
                },
            }
        }
        i = i + 1;
    }
    proof {
        lemma_no_cycle(deps, fin);
    }
    None
}

/// Checks that the dependencies between the given metrics run in no
/// circle. Where they do, the error names one metric on a cycle.
pub fn check_circular_dependencies(metrics: &[(&str, &Metric)], graph: &SemanticGraph) -> (r: Result<
    (),
    SidemanticError,
>)
    ensures
        r is Ok <==> acyclic(dependency_graph(metrics_view(metrics@), graph@)),
        r is Err ==> exists|name: Seq<char>|
            on_cycle(dependency_graph(metrics_view(metrics@), graph@), name) && r->Err_0@
                == ErrorView::Validation(cycle_complaint(name)),
{
    let ghost target = dependency_graph(metrics_view(metrics@), graph@);
    let mut entries: Vec<(String, NameSet)> = Vec::new();
    let mut i: usize = 0;
    while i < metrics.len()
        invariant
            i <= metrics.len(),
            target == dependency_graph(metrics_view(metrics@), graph@),
            entries@.len() == i,
            forall|k: int| 0 <= k < i ==> entries_view(entries@)[k] == #[trigger] target[k],
        decreases metrics.len() - i,
    {
        let (name, metric) = metrics[i];
        let deps = extract_dependencies(metric, Some(graph));
        let ghost before = entries_view(entries@);
        let entry = (name.to_owned(), deps);
        assert((entry.0@, entry.1@) == target[i as int]);
        entries.push(entry);
        assert(entries_view(entries@) =~= before.push(target[i as int]));
        i = i + 1;
    }
    assert(entries_view(entries@) =~= target);
    match find_cycle(&entries) {
        None => Ok(()),
        Some(name) => {
            proof {
                assert(is_cycle(target, choose|w: Seq<Seq<char>>| #[trigger]
                    is_cycle(target, w) && w[0] == name@));
            }
            Err(
                SidemanticError::Validation(
                    concat3("Circular dependency detected involving metric '", name.as_str(), "'"),
                ),
            )
        },
    }
}

} // verus!
