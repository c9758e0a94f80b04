//! The search for a shortest walk along the join edges, breadth first.

use vstd::prelude::*;
use vstd::string::*;
use std::collections::VecDeque;
use crate::text::contains_name;
use crate::text::str_eq;
use crate::text::views;
use crate::graph::JoinStep;
use crate::graph::JoinStepView;
use crate::graph::steps_view;
use crate::graph::clone_steps;
use crate::graph::is_walk;
use crate::graph::is_shortest_walk;
use crate::graph::connected;

verus! {

/// A model that the search has reached, with the walk that led to it.
pub struct VisitView {
    pub node: Seq<char>,
    pub path: Seq<JoinStepView>,
}

struct Visit {
    node: String,
    path: Vec<JoinStep>,
}

impl View for Visit {
    type V = VisitView;

    closed spec fn view(&self) -> VisitView {
        VisitView { node: self.node@, path: steps_view(self.path@) }
    }
}

/// The models that the search has reached.
pub open spec fn nodes(q: Seq<VisitView>) -> Seq<Seq<char>> {
    q.map_values(|v: VisitView| v.node)
}

/// What holds of a breadth-first search from `from` for `to` over `edges`
/// when it has reached the models in `q`, has tried every edge of the first
/// `head` of them, and the first `e` edges of the next one.
pub open spec fn search_inv(
    edges: Seq<JoinStepView>,
    from: Seq<char>,
    to: Seq<char>,
    q: Seq<VisitView>,
    head: int,
    e: int,
) -> bool {
    &&& 0 < q.len()
    &&& 0 <= head <= q.len()
    &&& 0 <= e <= edges.len()
    &&& head == q.len() ==> e == 0
    &&& q[0].node == from
    &&& !nodes(q).contains(to)
    &&& forall|j: int| 0 <= j < q.len() ==> is_walk(edges, from, (#[trigger] q[j]).node, q[j].path)
    &&& forall|j: int, w: Seq<JoinStepView>|
        0 <= j < q.len() && #[trigger] is_walk(edges, from, q[j].node, w) ==> q[j].path.len()
            <= w.len()
    &&& forall|i: int, j: int|
        0 <= i <= j < q.len() ==> (#[trigger] q[i]).path.len() <= (#[trigger] q[j]).path.len()
    &&& forall|j: int|
        0 <= j < q.len() && head < q.len() ==> (#[trigger] q[j]).path.len() <= q[head].path.len()
            + 1
    &&& forall|j: int, k: int|
        0 <= j < head && 0 <= k < edges.len() && (#[trigger] edges[k]).from_model == (
        #[trigger] q[j]).node ==> nodes(q).contains(edges[k].to_model)
    &&& forall|k: int|
        0 <= k < e && head < q.len() && (#[trigger] edges[k]).from_model == q[head].node
            ==> nodes(q).contains(edges[k].to_model)
}

/// The breadth-first search, step by step: the models in `q` wait in the
/// order in which they were reached, `head` is the one in turn, and `e`
/// the next of `edges` to try from it. The first edge that leads from the
/// model in turn to `to` ends the search with the walk through it.
pub open spec fn search_steps(
    edges: Seq<JoinStepView>,
    to: Seq<char>,
    q: Seq<VisitView>,
    head: int,
    e: int,
) -> Option<Seq<JoinStepView>>
    decreases edges.len() + 1 - head, edges.len() - e,
{
    if head < 0 || e < 0 || head >= q.len() || head > edges.len() {
        None
    } else if e >= edges.len() {
        search_steps(edges, to, q, head + 1, 0)
    } else if edges[e].from_model == q[head].node && !nodes(q).contains(edges[e].to_model) {
        if edges[e].to_model == to {
            Some(q[head].path.push(edges[e]))
        } else {
            search_steps(
                edges,
                to,
                q.push(VisitView { node: edges[e].to_model, path: q[head].path.push(edges[e]) }),
                head,
                e + 1,
            )
        }
    } else {
        search_steps(edges, to, q, head, e + 1)
    }
}

/// The walk that the breadth-first search from `from` finds to `to`. Among
/// the shortest walks it is the one whose edges come first in `edges`.
pub open spec fn search(edges: Seq<JoinStepView>, from: Seq<char>, to: Seq<char>) -> Option<
    Seq<JoinStepView>,
> {
    search_steps(edges, to, seq![VisitView { node: from, path: Seq::empty() }], 0, 0)
}

/// The first step of `w` at or after `i` that leaves the models in `q`.
proof fn first_exit(q: Seq<VisitView>, w: Seq<JoinStepView>, i: int) -> (p: int)
    requires
        0 <= i < w.len(),
        !nodes(q).contains(w.last().to_model),
        forall|k: int| 0 <= k < i ==> nodes(q).contains(#[trigger] w[k].to_model),
    ensures
        i <= p < w.len(),
        !nodes(q).contains(w[p].to_model),
        forall|k: int| 0 <= k < p ==> nodes(q).contains(#[trigger] w[k].to_model),
    decreases w.len() - i,
{
    if !nodes(q).contains(w[i].to_model) {
        i
    } else {
        first_exit(q, w, i + 1)
    }
}

/// A walk from `from` to a model that the search has not reached leaves
/// the reached models at one that still waits, so it is longer than the
/// walk to the model whose edges are being tried; and once no model waits,
/// there is no such walk.
proof fn lemma_frontier(
    edges: Seq<JoinStepView>,
    from: Seq<char>,
    to: Seq<char>,
    q: Seq<VisitView>,
    head: int,
    e: int,
    t: Seq<char>,
    w: Seq<JoinStepView>,
)
    requires
        search_inv(edges, from, to, q, head, e),
        !nodes(q).contains(t),
        is_walk(edges, from, t, w),
    ensures
        head < q.len(),
        w.len() >= q[head].path.len() + 1,
{
    assert(nodes(q)[0] == from);
    assert(w.len() > 0);
    let p = first_exit(q, w, 0);
    let start = w[p].from_model;
    assert(nodes(q).contains(start)) by {
        if p > 0 {
            assert(w[p - 1].to_model == w[p].from_model);
        }
    }
    let j = choose|j: int| 0 <= j < nodes(q).len() && nodes(q)[j] == start;
    assert(q[j].node == start);
    assert(edges.contains(w[p]));
    let k = choose|k: int| 0 <= k < edges.len() && edges[k] == w[p];
    assert(edges[k].from_model == q[j].node);
    assert(j >= head);
    if j == head {
        assert(k >= e);
    }
    let prefix = w.subrange(0, p);
    assert(is_walk(edges, from, start, prefix)) by {
        if p > 0 {
            assert(prefix[0] == w[0]);
            assert(prefix.last() == w[p - 1]);
            assert(w[p - 1].to_model == w[p].from_model);
            assert forall|i: int| 0 <= i < prefix.len() implies edges.contains(
                #[trigger] prefix[i],
            ) by {
                assert(prefix[i] == w[i]);
            }
            assert forall|i: int, j: int| 0 <= i && j == i + 1 && j < prefix.len() implies (
            #[trigger] prefix[i]).to_model == (#[trigger] prefix[j]).from_model by {
                assert(prefix[i] == w[i]);
                assert(prefix[j] == w[j]);
            }
        }
    }
    assert(q[j].path.len() <= prefix.len());
    assert(q[head].path.len() <= q[j].path.len());
}

/// A walk stays a walk when an edge that starts at its end is added.
proof fn lemma_push_walk(
    edges: Seq<JoinStepView>,
    from: Seq<char>,
    mid: Seq<char>,
    w: Seq<JoinStepView>,
    s: JoinStepView,
)
    requires
        is_walk(edges, from, mid, w),
        edges.contains(s),
        s.from_model == mid,
    ensures
        is_walk(edges, from, s.to_model, w.push(s)),
{
    let v = w.push(s);
    assert(v.last() == s);
    assert forall|i: int| 0 <= i < v.len() implies edges.contains(#[trigger] v[i]) by {
        if i < w.len() {
            assert(v[i] == w[i]);
        }
    }
    assert forall|i: int, j: int| 0 <= i && j == i + 1 && j < v.len() implies (
    #[trigger] v[i]).to_model == (#[trigger] v[j]).from_model by {
        if j < w.len() {
            assert(v[i] == w[i]);
            assert(v[j] == w[j]);
        } else {
            assert(v[i] == w.last());
        }
    }
    if w.len() > 0 {
        assert(v[0] == w[0]);
    }
}

/// Reaching one more model keeps every model reached so far.
proof fn lemma_nodes_push(q: Seq<VisitView>, v: VisitView)
    ensures
        nodes(q.push(v)) == nodes(q).push(v.node),
        forall|x: Seq<char>| nodes(q).contains(x) ==> #[trigger] nodes(q.push(v)).contains(x),
        nodes(q.push(v)).contains(v.node),
        forall|x: Seq<char>| #[trigger]
            nodes(q.push(v)).contains(x) ==> nodes(q).contains(x) || x == v.node,
{
    assert(nodes(q.push(v)) =~= nodes(q).push(v.node));
    assert forall|x: Seq<char>| nodes(q).contains(x) implies #[trigger] nodes(q.push(v)).contains(
        x,
    ) by {
        let j = choose|j: int| 0 <= j < nodes(q).len() && nodes(q)[j] == x;
        assert(nodes(q.push(v))[j] == x);
    }
    assert(nodes(q.push(v))[q.len() as int] == v.node);
    assert forall|x: Seq<char>| #[trigger] nodes(q.push(v)).contains(x) implies nodes(q).contains(
        x,
    ) || x == v.node by {
        let j = choose|j: int| 0 <= j < nodes(q.push(v)).len() && nodes(q.push(v))[j] == x;
        if j < q.len() {
            assert(nodes(q)[j] == x);
        }
    }
}

/// The search starts with `from` alone, reached by the empty walk.
proof fn lemma_search_start(edges: Seq<JoinStepView>, from: Seq<char>, to: Seq<char>)
    requires
        from != to,
    ensures
        search_inv(
            edges,
            from,
            to,
            seq![VisitView { node: from, path: Seq::empty() }],
            0,
            0,
        ),
{
    let q = seq![VisitView { node: from, path: Seq::<JoinStepView>::empty() }];
    assert(nodes(q) =~= seq![from]);
    assert(!nodes(q).contains(to)) by {
        if nodes(q).contains(to) {
            let j = choose|j: int| 0 <= j < nodes(q).len() && nodes(q)[j] == to;
        }
    }
}

/// An edge from the model in turn to a model not yet reached, other than
/// the goal, adds that model with the walk through the edge.
proof fn lemma_search_enqueue(
    edges: Seq<JoinStepView>,
    from: Seq<char>,
    to: Seq<char>,
    q: Seq<VisitView>,
    head: int,
    e: int,
    visit: VisitView,
)
    requires
        search_inv(edges, from, to, q, head, e),
        head < q.len(),
        e < edges.len(),
        edges[e].from_model == q[head].node,
        !nodes(q).contains(edges[e].to_model),
        edges[e].to_model != to,
        visit == (VisitView { node: edges[e].to_model, path: q[head].path.push(edges[e]) }),
    ensures
        search_inv(edges, from, to, q.push(visit), head, e + 1),
{
    let q2 = q.push(visit);
    lemma_nodes_push(q, visit);
    assert(edges.contains(edges[e]));
    lemma_push_walk(edges, from, q[head].node, q[head].path, edges[e]);
    assert forall|j: int| 0 <= j < q2.len() implies is_walk(
        edges,
        from,
        (#[trigger] q2[j]).node,
        q2[j].path,
    ) by {
        if j < q.len() {
            assert(q2[j] == q[j]);
        }
    }
    assert forall|j: int, w: Seq<JoinStepView>|
        0 <= j < q2.len() && #[trigger] is_walk(edges, from, q2[j].node, w) implies q2[j].path.len()
        <= w.len() by {
        if j < q.len() {
            assert(q2[j] == q[j]);
        } else {
            lemma_frontier(edges, from, to, q, head, e, visit.node, w);
        }
    }
    assert forall|i: int, j: int| 0 <= i <= j < q2.len() implies (#[trigger] q2[i]).path.len() <= (
    #[trigger] q2[j]).path.len() by {
        if j < q.len() {
            assert(q2[i] == q[i]);
            assert(q2[j] == q[j]);
        } else if i < q.len() {
            assert(q2[i] == q[i]);
        }
    }
    assert(q2[head] == q[head]);
    assert forall|j: int| 0 <= j < q2.len() && head < q2.len() implies (
    #[trigger] q2[j]).path.len() <= q2[head].path.len() + 1 by {
        if j < q.len() {
            assert(q2[j] == q[j]);
        }
    }
    assert forall|j: int, k: int|
        0 <= j < head && 0 <= k < edges.len() && (#[trigger] edges[k]).from_model == (
        #[trigger] q2[j]).node implies nodes(q2).contains(edges[k].to_model) by {
        assert(q2[j] == q[j]);
    }
    assert(!nodes(q2).contains(to));
}

/// An edge that starts elsewhere, or leads to a model already reached,
/// changes nothing.
proof fn lemma_search_skip(
    edges: Seq<JoinStepView>,
    from: Seq<char>,
    to: Seq<char>,
    q: Seq<VisitView>,
    head: int,
    e: int,
)
    requires
        search_inv(edges, from, to, q, head, e),
        head < q.len(),
        e < edges.len(),
        edges[e].from_model != q[head].node || nodes(q).contains(edges[e].to_model),
    ensures
        search_inv(edges, from, to, q, head, e + 1),
{
}

/// Once every edge of the model in turn has been tried, the next model
/// that waits has its turn.
proof fn lemma_search_advance(
    edges: Seq<JoinStepView>,
    from: Seq<char>,
    to: Seq<char>,
    q: Seq<VisitView>,
    head: int,
)
    requires
        search_inv(edges, from, to, q, head, edges.len() as int),
        head < q.len(),
    ensures
        search_inv(edges, from, to, q, head + 1, 0),
{
    assert forall|j: int| 0 <= j < q.len() && head + 1 < q.len() implies (
    #[trigger] q[j]).path.len() <= q[head + 1].path.len() + 1 by {
        assert(q[head].path.len() <= q[head + 1].path.len());
    }
}

/// An edge from the model in turn to the goal completes a shortest walk.
proof fn lemma_search_found(
    edges: Seq<JoinStepView>,
    from: Seq<char>,
    to: Seq<char>,
    q: Seq<VisitView>,
    head: int,
    e: int,
)
    requires
        search_inv(edges, from, to, q, head, e),
        head < q.len(),
        e < edges.len(),
        edges[e].from_model == q[head].node,
        edges[e].to_model == to,
    ensures
        is_shortest_walk(edges, from, to, q[head].path.push(edges[e])),
{
    assert(edges.contains(edges[e]));
    lemma_push_walk(edges, from, q[head].node, q[head].path, edges[e]);
    assert forall|v: Seq<JoinStepView>| #[trigger] is_walk(edges, from, to, v) implies q[head].path.push(
        edges[e],
    ).len() <= v.len() by {
        lemma_frontier(edges, from, to, q, head, e, to, v);
    }
}

/// Once no reached model waits, the goal cannot be reached at all.
proof fn lemma_search_exhausted(
    edges: Seq<JoinStepView>,
    from: Seq<char>,
    to: Seq<char>,
    q: Seq<VisitView>,
)
    requires
        search_inv(edges, from, to, q, q.len() as int, 0),
    ensures
        !connected(edges, from, to),
{
    if connected(edges, from, to) {
        let w = choose|w: Seq<JoinStepView>| is_walk(edges, from, to, w);
        lemma_frontier(edges, from, to, q, q.len() as int, 0, to, w);
    }
}

/// Which edge led to each reached model: `-1` for the start, else the
/// place of the edge in `edges`. No edge led to two models.
pub open spec fn found_by_edges(edges: Seq<JoinStepView>, q: Seq<VisitView>, found_by: Seq<int>) -> bool {
    &&& found_by.len() == q.len()
    &&& found_by.no_duplicates()
    &&& forall|i: int| 0 <= i < found_by.len() ==> -1 <= #[trigger] found_by[i] < edges.len()
    &&& forall|i: int|
        0 <= i < found_by.len() && found_by[i] >= 0 ==> edges[#[trigger] found_by[i]].to_model
            == q[i].node
}

/// One more model, reached by the edge at `e`, which led to none before.
proof fn lemma_found_by_push(
    edges: Seq<JoinStepView>,
    q: Seq<VisitView>,
    found_by: Seq<int>,
    e: int,
    visit: VisitView,
)
    requires
        found_by_edges(edges, q, found_by),
        0 <= e < edges.len(),
        visit.node == edges[e].to_model,
        !nodes(q).contains(edges[e].to_model),
    ensures
        found_by_edges(edges, q.push(visit), found_by.push(e)),
{
    assert(!found_by.contains(e)) by {
        if found_by.contains(e) {
            let i = choose|i: int| 0 <= i < found_by.len() && found_by[i] == e;
            assert(nodes(q)[i] == edges[e].to_model);
        }
    }
    assert forall|i: int, j: int|
        0 <= i < found_by.len() + 1 && 0 <= j < found_by.len() + 1 && i != j implies found_by.push(
        e,
    )[i] != found_by.push(e)[j] by {
        if i < found_by.len() && j < found_by.len() {
        } else if i < found_by.len() {
            assert(found_by.contains(found_by[i]));
        } else {
            assert(found_by.contains(found_by[j]));
        }
    }
}

/// From any state that the search can be in, what it goes on to find is a
/// shortest walk, and it finds one if there is any walk.
proof fn lemma_search_steps(
    edges: Seq<JoinStepView>,
    from: Seq<char>,
    to: Seq<char>,
    q: Seq<VisitView>,
    head: int,
    e: int,
    found_by: Seq<int>,
)
    requires
        search_inv(edges, from, to, q, head, e),
        found_by_edges(edges, q, found_by),
    ensures
        match search_steps(edges, to, q, head, e) {
            Some(p) => is_shortest_walk(edges, from, to, p),
            None => !connected(edges, from, to),
        },
    decreases edges.len() + 1 - head, edges.len() - e,
{
    lemma_distinct_bounded(found_by, edges.len() as int);
    if head >= q.len() {
        lemma_search_exhausted(edges, from, to, q);
    } else if e >= edges.len() {
        lemma_search_advance(edges, from, to, q, head);
        lemma_search_steps(edges, from, to, q, head + 1, 0, found_by);
    } else if edges[e].from_model == q[head].node && !nodes(q).contains(edges[e].to_model) {
        if edges[e].to_model == to {
            lemma_search_found(edges, from, to, q, head, e);
        } else {
            let visit = VisitView { node: edges[e].to_model, path: q[head].path.push(edges[e]) };
            lemma_search_enqueue(edges, from, to, q, head, e, visit);
            lemma_found_by_push(edges, q, found_by, e, visit);
            lemma_search_steps(edges, from, to, q.push(visit), head, e + 1, found_by.push(e));
        }
    } else {
        lemma_search_skip(edges, from, to, q, head, e);
        lemma_search_steps(edges, from, to, q, head, e + 1, found_by);
    }
}

/// The breadth-first search finds a shortest walk, and finds one whenever
/// a walk exists.
pub proof fn lemma_search(edges: Seq<JoinStepView>, from: Seq<char>, to: Seq<char>)
    requires
        from != to,
    ensures
        match search(edges, from, to) {
            Some(p) => is_shortest_walk(edges, from, to, p),
            None => !connected(edges, from, to),
        },
{
    let q = seq![VisitView { node: from, path: Seq::<JoinStepView>::empty() }];
    lemma_search_start(edges, from, to);
    let found_by = seq![-1int];
    lemma_search_steps(edges, from, to, q, 0, 0, found_by);
}

/// What holds of the models that a search has reached, whatever it looks
/// for: the first was reached by no step, no model was reached twice,
/// each walk ends at its model, and each walk grew step by step from
/// walks of models reached before.
pub open spec fn tree_inv(q: Seq<VisitView>) -> bool {
    &&& 0 < q.len()
    &&& q[0].path.len() == 0
    &&& forall|i: int, j: int|
        0 <= i < j < q.len() ==> (#[trigger] q[i]).node != (#[trigger] q[j]).node
    &&& forall|j: int|
        0 <= j < q.len() && (#[trigger] q[j]).path.len() > 0 ==> q[j].path.last().to_model
            == q[j].node
    &&& forall|j: int, n: int|
        0 <= j < q.len() && 0 < n <= q[j].path.len() ==> exists|m: int|
            0 <= m < q.len() && (#[trigger] q[m]).path == #[trigger] q[j].path.subrange(0, n)
}

/// One more model reached, by one step from a model reached before,
/// keeps what holds of the models reached.
proof fn lemma_tree_push(q: Seq<VisitView>, head: int, step: JoinStepView)
    requires
        tree_inv(q),
        0 <= head < q.len(),
        !nodes(q).contains(step.to_model),
    ensures
        tree_inv(q.push(VisitView { node: step.to_model, path: q[head].path.push(step) })),
{
    let np = q[head].path.push(step);
    let visit = VisitView { node: step.to_model, path: np };
    let q2 = q.push(visit);
    assert forall|i: int, j: int| 0 <= i < j < q2.len() implies (#[trigger] q2[i]).node != (
    #[trigger] q2[j]).node by {
        if j == q.len() {
            assert(nodes(q)[i] == q[i].node);
        }
    }
    assert forall|j: int, n: int| 0 <= j < q2.len() && 0 < n <= q2[j].path.len() implies exists|
        m: int,
    |
        0 <= m < q2.len() && (#[trigger] q2[m]).path == #[trigger] q2[j].path.subrange(0, n) by {
        if j == q.len() {
            if n == np.len() {
                assert(np.subrange(0, n) =~= np);
                assert(q2[j].path == np.subrange(0, n));
            } else {
                assert(np.subrange(0, n) =~= q[head].path.subrange(0, n));
                let m = choose|m: int|
                    0 <= m < q.len() && (#[trigger] q[m]).path == q[head].path.subrange(0, n);
                assert(q2[m].path == q2[j].path.subrange(0, n));
            }
        } else {
            let m = choose|m: int|
                0 <= m < q.len() && (#[trigger] q[m]).path == q[j].path.subrange(0, n);
            assert(q2[m].path == q2[j].path.subrange(0, n));
        }
    }
}

/// Where the walk that a search finds passes a model reached before, it
/// is by the walk of that model.
proof fn lemma_found_through(
    edges: Seq<JoinStepView>,
    to: Seq<char>,
    q: Seq<VisitView>,
    head: int,
    e: int,
    m: int,
    k: int,
)
    requires
        tree_inv(q),
        0 <= head,
        0 <= e,
        search_steps(edges, to, q, head, e) is Some,
        0 <= m < q.len(),
        0 <= k < search_steps(edges, to, q, head, e)->Some_0.len(),
        search_steps(edges, to, q, head, e)->Some_0[k].to_model == q[m].node,
    ensures
        search_steps(edges, to, q, head, e)->Some_0.subrange(0, k + 1) == q[m].path,
    decreases edges.len() + 1 - head, edges.len() - e,
{
    let p = search_steps(edges, to, q, head, e)->Some_0;
    if e >= edges.len() {
        lemma_found_through(edges, to, q, head + 1, 0, m, k);
    } else if edges[e].from_model == q[head].node && !nodes(q).contains(edges[e].to_model) {
        let np = q[head].path.push(edges[e]);
        if edges[e].to_model == to {
            assert(nodes(q)[m] == q[m].node);
            assert(k < np.len() - 1);
            assert(np.subrange(0, k + 1) =~= q[head].path.subrange(0, k + 1));
            let m2 = choose|m2: int|
                0 <= m2 < q.len() && (#[trigger] q[m2]).path == q[head].path.subrange(0, k + 1);
            assert(q[m2].path.last() == p[k]);
            assert(q[m2].node == q[m].node);
            assert(m2 == m);
        } else {
            lemma_tree_push(q, head, edges[e]);
            let q2 = q.push(VisitView { node: edges[e].to_model, path: np });
            assert(q2[m] == q[m]);
            lemma_found_through(edges, to, q2, head, e + 1, m, k);
        }
    } else {
        lemma_found_through(edges, to, q, head, e + 1, m, k);
    }
}

/// Where the walk that a search finds passes a model not reached yet,
/// the search for that model finds the walk up to there.
proof fn lemma_search_steps_prefix(
    edges: Seq<JoinStepView>,
    to: Seq<char>,
    q: Seq<VisitView>,
    head: int,
    e: int,
    k: int,
)
    requires
        tree_inv(q),
        0 <= head,
        0 <= e,
        search_steps(edges, to, q, head, e) is Some,
        0 <= k < search_steps(edges, to, q, head, e)->Some_0.len(),
        !nodes(q).contains(search_steps(edges, to, q, head, e)->Some_0[k].to_model),
    ensures
        search_steps(
            edges,
            search_steps(edges, to, q, head, e)->Some_0[k].to_model,
            q,
            head,
            e,
        ) == Some(search_steps(edges, to, q, head, e)->Some_0.subrange(0, k + 1)),
    decreases edges.len() + 1 - head, edges.len() - e,
{
    let p = search_steps(edges, to, q, head, e)->Some_0;
    let t = p[k].to_model;
    if e >= edges.len() {
        lemma_search_steps_prefix(edges, to, q, head + 1, 0, k);
    } else if edges[e].from_model == q[head].node && !nodes(q).contains(edges[e].to_model) {
        let np = q[head].path.push(edges[e]);
        if edges[e].to_model == to {
            if k < np.len() - 1 {
                assert(np.subrange(0, k + 1) =~= q[head].path.subrange(0, k + 1));
                let m2 = choose|m2: int|
                    0 <= m2 < q.len() && (#[trigger] q[m2]).path == q[head].path.subrange(
                        0,
                        k + 1,
                    );
                assert(q[m2].path.last() == p[k]);
                assert(nodes(q)[m2] == q[m2].node);
            }
            assert(np.subrange(0, k + 1) =~= np);
        } else {
            lemma_tree_push(q, head, edges[e]);
            let q2 = q.push(VisitView { node: edges[e].to_model, path: np });
            if edges[e].to_model == t {
                assert(q2[q.len() as int].node == t);
                lemma_found_through(edges, to, q2, head, e + 1, q.len() as int, k);
            } else {
                assert forall|x: int| 0 <= x < q2.len() implies nodes(q2)[x] != t by {
                    if x < q.len() {
                        assert(nodes(q)[x] == nodes(q2)[x]);
                    }
                }
                lemma_search_steps_prefix(edges, to, q2, head, e + 1, k);
            }
        }
    } else {
        lemma_search_steps_prefix(edges, to, q, head, e + 1, k);
    }
}

/// The walk that the search finds to a model holds, up to each model that
/// it passes, the walk that the search finds to that model; and it does
/// not come back to where it started.
pub proof fn lemma_search_prefix(
    edges: Seq<JoinStepView>,
    from: Seq<char>,
    to: Seq<char>,
    k: int,
)
    requires
        search(edges, from, to) is Some,
        0 <= k < search(edges, from, to)->Some_0.len(),
    ensures
        search(edges, from, to)->Some_0[k].to_model != from,
        search(edges, from, search(edges, from, to)->Some_0[k].to_model) == Some(
            search(edges, from, to)->Some_0.subrange(0, k + 1),
        ),
{
    let q = seq![VisitView { node: from, path: Seq::<JoinStepView>::empty() }];
    let p = search(edges, from, to)->Some_0;
    assert(tree_inv(q));
    if p[k].to_model == from {
        lemma_found_through(edges, to, q, 0, 0, 0, k);
        assert(p.subrange(0, k + 1).len() == k + 1);
    }
    assert forall|x: int| 0 <= x < q.len() implies nodes(q)[x] != p[k].to_model by {}
    lemma_search_steps_prefix(edges, to, q, 0, 0, k);
}

/// The views of the models reached.
spec fn visits_view(q: Seq<Visit>) -> Seq<VisitView> {
    q.map_values(|v: Visit| v@)
}

/// As many distinct numbers from `-1` up to `n - 1` as there can be.
proof fn lemma_distinct_bounded(s: Seq<int>, n: int)
    requires
        0 <= n,
        s.no_duplicates(),
        forall|i: int| 0 <= i < s.len() ==> -1 <= #[trigger] s[i] < n,
    ensures
        s.len() <= n + 1,
{
    crate::text::lemma_distinct_in_range(s, -1, n);
}

/// A shortest walk along `edges` from `from` to `to`, if there is any walk.
/// Breadth first: the models wait in the order in which they were reached,
/// and the edges of each are tried in the order of `edges`.
pub fn shortest_walk(edges: &Vec<JoinStep>, from: &str, to: &str) -> (r: Option<Vec<JoinStep>>)
    requires
        from@ != to@,
    ensures
        match r {
            Some(p) => search(steps_view(edges@), from@, to@) == Some(steps_view(p@))
                && is_shortest_walk(steps_view(edges@), from@, to@, steps_view(p@)),
            None => search(steps_view(edges@), from@, to@) is None && !connected(
                steps_view(edges@),
                from@,
                to@,
            ),
        },
{
    let ghost es = steps_view(edges@);
    let mut seen: Vec<String> = Vec::new();
    seen.push(from.to_owned());
    let mut waiting: VecDeque<Visit> = VecDeque::new();
    waiting.push_back(Visit { node: from.to_owned(), path: Vec::new() });
    let ghost mut q: Seq<VisitView> = seq![
        VisitView { node: from@, path: Seq::<JoinStepView>::empty() },
    ];
    let ghost mut head: int = 0;
    let ghost mut found_by: Seq<int> = seq![-1int];
    proof {
        lemma_search(es, from@, to@);
        assert(waiting@[0]@.path =~= Seq::<JoinStepView>::empty());
        assert(waiting@[0]@.node == from@);
        assert(visits_view(waiting@) =~= q.subrange(0, 1));
        assert(views(seen@) =~= nodes(q));
    }
    loop
        invariant
            es == steps_view(edges@),
            0 <= head <= q.len(),
            visits_view(waiting@) == q.subrange(head, q.len() as int),
            views(seen@) == nodes(q),
            search(es, from@, to@) == search_steps(es, to@, q, head, 0),
            found_by_edges(es, q, found_by),
            match search(es, from@, to@) {
                Some(p) => is_shortest_walk(es, from@, to@, p),
                None => !connected(es, from@, to@),
            },
        decreases es.len() + 1 - head,
    {
        proof {
            lemma_distinct_bounded(found_by, es.len() as int);
        }
        let ghost before = waiting@;
        let visit = match waiting.pop_front() {
            Some(v) => v,
            None => {
                assert(q.subrange(head, q.len() as int).len() == 0);
                return None;
            },
        };
        assert(visits_view(before).len() == before.len());
        assert(q.subrange(head, q.len() as int).len() == q.len() - head);
        assert(visits_view(before)[0] == visit@);
        assert(head < q.len());
        assert(waiting@.len() == before.len() - 1);
        assert(visits_view(waiting@).len() == waiting@.len());
        assert(q[head] == q.subrange(head, q.len() as int)[0]);
        assert(visits_view(waiting@) =~= q.subrange(head + 1, q.len() as int)) by {
            assert forall|i: int| 0 <= i < waiting@.len() implies visits_view(waiting@)[i]
                == q.subrange(head + 1, q.len() as int)[i] by {
                assert(waiting@[i] == before[i + 1]);
                assert(visits_view(before)[i + 1] == q.subrange(head, q.len() as int)[i + 1]);
            }
        }
        let current = visit.node;
        let base = visit.path;
        assert(q[head].node == current@);
        assert(q[head].path == steps_view(base@));
        let mut e: usize = 0;
        while e < edges.len()
            invariant
                es == steps_view(edges@),
                e <= edges.len(),
                0 <= head < q.len(),
                visits_view(waiting@) == q.subrange(head + 1, q.len() as int),
                views(seen@) == nodes(q),
                search(es, from@, to@) == search_steps(es, to@, q, head, e as int),
                q.len() <= es.len() + 1,
                q[head].node == current@,
                q[head].path == steps_view(base@),
                found_by_edges(es, q, found_by),
                match search(es, from@, to@) {
                    Some(p) => is_shortest_walk(es, from@, to@, p),
                    None => !connected(es, from@, to@),
                },
            decreases edges.len() - e,
        {
            assert(es[e as int] == edges@[e as int]@);
            let starts_here = str_eq(edges[e].from_model.as_str(), current.as_str());
            if starts_here && !contains_name(&seen, edges[e].to_model.as_str()) {
                let mut path = clone_steps(&base);
                path.push(edges[e].clone());
                assert(steps_view(path@) =~= q[head].path.push(es[e as int]));
                if str_eq(edges[e].to_model.as_str(), to) {
                    return Some(path);
                }
                let next = Visit { node: edges[e].to_model.clone(), path };
                let ghost old_q = q;
                let ghost old_waiting = visits_view(waiting@);
                let ghost old_seen = views(seen@);
                proof {
                    lemma_found_by_push(es, q, found_by, e as int, next@);
                    found_by = found_by.push(e as int);
                    q = q.push(next@);
                    lemma_distinct_bounded(found_by, es.len() as int);
                }
                seen.push(edges[e].to_model.clone());
                waiting.push_back(next);
                assert(views(seen@) =~= old_seen.push(next@.node));
                assert(nodes(q) =~= nodes(old_q).push(next@.node));
                assert(visits_view(waiting@) =~= old_waiting.push(next@));
                assert(q.subrange(head + 1, q.len() as int) =~= old_q.subrange(
                    head + 1,
                    old_q.len() as int,
                ).push(next@));
            }
            e = e + 1;
        }
        proof {
            head = head + 1;
        }
    }
}

} // verus!
