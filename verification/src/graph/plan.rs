//! Join plans: the joins that bring several models in, each model once.

use vstd::prelude::*;
use vstd::string::*;
use crate::error::ErrorView;
use crate::error::SidemanticError;
use crate::text::str_eq;
use crate::graph::JoinStep;
use crate::graph::JoinStepView;
use crate::graph::steps_view;
use crate::graph::is_walk;
use crate::graph::GraphView;
use crate::graph::SemanticGraph;
use crate::graph::lemma_join_path;
use crate::graph::search::lemma_search_prefix;
use crate::graph::search::search;

verus! {

/// The models that the steps of a plan join, in order.
pub open spec fn joined(plan: Seq<JoinStepView>) -> Seq<Seq<char>> {
    plan.map_values(|s: JoinStepView| s.to_model)
}

/// The plan with the steps of `path` from `i` on added, but for those that
/// lead to a model that is present already or that the plan joins already.
pub open spec fn add_path(
    plan: Seq<JoinStepView>,
    present: Seq<Seq<char>>,
    path: Seq<JoinStepView>,
    i: int,
) -> Seq<JoinStepView>
    decreases path.len() - i,
{
    if i < 0 || i >= path.len() {
        plan
    } else if present.contains(path[i].to_model) || joined(plan).contains(path[i].to_model) {
        add_path(plan, present, path, i + 1)
    } else {
        add_path(plan.push(path[i]), present, path, i + 1)
    }
}

impl GraphView {
    /// The joins that bring in the targets from `i` on, after those of `plan`.
    pub open spec fn join_plan_from(
        self,
        base: Seq<char>,
        present: Seq<Seq<char>>,
        targets: Seq<Seq<char>>,
        i: int,
        plan: Seq<JoinStepView>,
    ) -> Result<Seq<JoinStepView>, ErrorView>
        decreases targets.len() - i,
    {
        if i < 0 || i >= targets.len() {
            Ok(plan)
        } else {
            match self.join_path(base, targets[i]) {
                Err(e) => Err(e),
                Ok(p) => self.join_plan_from(
                    base,
                    present,
                    targets,
                    i + 1,
                    add_path(plan, present, p, 0),
                ),
            }
        }
    }

    /// The joins that bring in every target, starting from `base`, where
    /// the models of `present` are there already: the steps of the join
    /// path from `base` to each target in turn, each model joined once, by
    /// the first step that leads to it. The first target without a join
    /// path gives its error.
    pub open spec fn join_plan(
        self,
        base: Seq<char>,
        present: Seq<Seq<char>>,
        targets: Seq<Seq<char>>,
    ) -> Result<Seq<JoinStepView>, ErrorView> {
        self.join_plan_from(base, present, targets, 0, Seq::empty())
    }
}

/// What holds of a join plan for the first `n` of `targets`, where the
/// models of `present` are there already: no model is joined twice, none
/// that is present is joined, every step is an edge of the graph and
/// starts at a model that is present or was joined before it, and each of
/// those targets is present or is joined.
pub open spec fn plan_covers(
    g: GraphView,
    present: Seq<Seq<char>>,
    targets: Seq<Seq<char>>,
    n: int,
    plan: Seq<JoinStepView>,
) -> bool {
    &&& joined(plan).no_duplicates()
    &&& forall|k: int| 0 <= k < plan.len() ==> !present.contains(#[trigger] joined(plan)[k])
    &&& forall|k: int| 0 <= k < plan.len() ==> g.edges().contains(#[trigger] plan[k])
    &&& forall|k: int|
        0 <= k < plan.len() ==> present.contains((#[trigger] plan[k]).from_model) || joined(
            plan.subrange(0, k),
        ).contains(plan[k].from_model)
    &&& forall|t: int|
        0 <= t < n && t < targets.len() ==> present.contains(#[trigger] targets[t]) || joined(
            plan,
        ).contains(targets[t])
}

/// One more step joins one more model.
proof fn lemma_joined_push(plan: Seq<JoinStepView>, s: JoinStepView)
    ensures
        joined(plan.push(s)) == joined(plan).push(s.to_model),
        forall|x: Seq<char>| joined(plan).contains(x) ==> #[trigger] joined(plan.push(s)).contains(x),
        joined(plan.push(s)).contains(s.to_model),
{
    assert(joined(plan.push(s)) =~= joined(plan).push(s.to_model));
    assert forall|x: Seq<char>| joined(plan).contains(x) implies #[trigger] joined(
        plan.push(s),
    ).contains(x) by {
        let j = choose|j: int| 0 <= j < joined(plan).len() && joined(plan)[j] == x;
        assert(joined(plan.push(s))[j] == x);
    }
    assert(joined(plan.push(s))[plan.len() as int] == s.to_model);
}

/// Adding the rest of a walk from a present model keeps a plan in order
/// and joins every model that the walk passes from `i` on.
proof fn lemma_add_path(
    g: GraphView,
    base: Seq<char>,
    present: Seq<Seq<char>>,
    targets: Seq<Seq<char>>,
    n: int,
    plan: Seq<JoinStepView>,
    path: Seq<JoinStepView>,
    end: Seq<char>,
    i: int,
)
    requires
        plan_covers(g, present, targets, n, plan),
        present.contains(base),
        is_walk(g.edges(), base, end, path),
        0 <= i <= path.len(),
        i > 0 ==> present.contains(path[i - 1].to_model) || joined(plan).contains(
            path[i - 1].to_model,
        ),
    ensures
        plan_covers(g, present, targets, n, add_path(plan, present, path, i)),
        present.contains(end) || joined(add_path(plan, present, path, i)).contains(end),
        forall|x: Seq<char>|
            joined(plan).contains(x) ==> #[trigger] joined(add_path(plan, present, path, i)).contains(
                x,
            ),
    decreases path.len() - i,
{
    if i >= path.len() {
        if path.len() > 0 {
            assert(path[i - 1] == path.last());
        }
    } else {
        let s = path[i];
        assert(present.contains(s.from_model) || joined(plan).contains(s.from_model)) by {
            if i > 0 {
                assert(path[i - 1].to_model == path[i].from_model);
            }
        }
        if present.contains(s.to_model) || joined(plan).contains(s.to_model) {
            lemma_add_path(g, base, present, targets, n, plan, path, end, i + 1);
        } else {
            let next = plan.push(s);
            lemma_joined_push(plan, s);
            assert(plan_covers(g, present, targets, n, next)) by {
                assert(joined(next).no_duplicates()) by {
                    assert forall|a: int, b: int|
                        0 <= a < joined(next).len() && 0 <= b < joined(next).len() && a
                            != b implies joined(next)[a] != joined(next)[b] by {
                        if a < plan.len() && b < plan.len() {
                            assert(joined(next)[a] == joined(plan)[a]);
                            assert(joined(next)[b] == joined(plan)[b]);
                        } else if a < plan.len() {
                            assert(joined(plan)[a] == joined(next)[a]);
                            assert(joined(plan).contains(joined(plan)[a]));
                        } else {
                            assert(joined(plan)[b] == joined(next)[b]);
                            assert(joined(plan).contains(joined(plan)[b]));
                        }
                    }
                }
                assert forall|k: int| 0 <= k < next.len() implies !present.contains(
                    #[trigger] joined(next)[k],
                ) by {
                    if k < plan.len() {
                        assert(joined(next)[k] == joined(plan)[k]);
                    }
                }
                assert forall|k: int| 0 <= k < next.len() implies g.edges().contains(
                    #[trigger] next[k],
                ) by {
                    if k < plan.len() {
                        assert(next[k] == plan[k]);
                    }
                }
                assert forall|k: int| 0 <= k < next.len() implies present.contains(
                    (#[trigger] next[k]).from_model,
                ) || joined(next.subrange(0, k)).contains(next[k].from_model) by {
                    if k < plan.len() {
                        assert(next[k] == plan[k]);
                        assert(next.subrange(0, k) =~= plan.subrange(0, k));
                    } else {
                        assert(next.subrange(0, k) =~= plan);
                    }
                }
            }
            lemma_add_path(g, base, present, targets, n, next, path, end, i + 1);
        }
    }
}

/// A join plan that is in order so far stays in order to its end.
pub proof fn lemma_join_plan_from(
    g: GraphView,
    base: Seq<char>,
    present: Seq<Seq<char>>,
    targets: Seq<Seq<char>>,
    i: int,
    plan: Seq<JoinStepView>,
)
    requires
        0 <= i <= targets.len(),
        present.contains(base),
        plan_covers(g, present, targets, i, plan),
    ensures
        match g.join_plan_from(base, present, targets, i, plan) {
            Ok(p) => plan_covers(g, present, targets, targets.len() as int, p),
            Err(e) => true,
        },
    decreases targets.len() - i,
{
    if i < targets.len() {
        lemma_join_path(g, base, targets[i]);
        match g.join_path(base, targets[i]) {
            Err(e) => {},
            Ok(p) => {
                lemma_add_path(g, base, present, targets, i, plan, p, targets[i], 0);
                let next = add_path(plan, present, p, 0);
                lemma_join_plan_from(g, base, present, targets, i + 1, next);
            },
        }
    }
}

/// Every join plan is in order: each target that is not present already
/// is joined, no model is joined twice, and every step is an edge of the
/// graph that starts at a model that is present or was joined before it.
pub proof fn lemma_join_plan(
    g: GraphView,
    base: Seq<char>,
    present: Seq<Seq<char>>,
    targets: Seq<Seq<char>>,
)
    requires
        present.contains(base),
    ensures
        match g.join_plan(base, present, targets) {
            Ok(p) => plan_covers(g, present, targets, targets.len() as int, p),
            Err(e) => true,
        },
{
    assert(joined(Seq::<JoinStepView>::empty()) =~= Seq::empty());
    lemma_join_plan_from(g, base, present, targets, 0, Seq::empty());
}

/// Whether each step of a plan that joins a model of the graph is the
/// last step of the join path from `base` to that model.
pub open spec fn ends_paths(g: GraphView, base: Seq<char>, plan: Seq<JoinStepView>) -> bool {
    forall|k: int|
        0 <= k < plan.len() && g.has_model((#[trigger] plan[k]).to_model) ==> {
            &&& g.join_path(base, plan[k].to_model) is Ok
            &&& g.join_path(base, plan[k].to_model)->Ok_0.len() > 0
            &&& g.join_path(base, plan[k].to_model)->Ok_0.last() == plan[k]
        }
}

/// The steps added from a join path are the last steps of the join paths
/// to the models that they join.
proof fn lemma_add_path_ends(
    g: GraphView,
    base: Seq<char>,
    present: Seq<Seq<char>>,
    plan: Seq<JoinStepView>,
    path: Seq<JoinStepView>,
    to: Seq<char>,
    i: int,
)
    requires
        ends_paths(g, base, plan),
        g.join_path(base, to) == Ok::<Seq<JoinStepView>, ErrorView>(path),
        0 <= i <= path.len(),
    ensures
        ends_paths(g, base, add_path(plan, present, path, i)),
    decreases path.len() - i,
{
    if i < path.len() {
        let s = path[i];
        if present.contains(s.to_model) || joined(plan).contains(s.to_model) {
            lemma_add_path_ends(g, base, present, plan, path, to, i + 1);
        } else {
            let next = plan.push(s);
            assert(ends_paths(g, base, next)) by {
                assert forall|k: int|
                    0 <= k < next.len() && g.has_model((#[trigger] next[k]).to_model) implies {
                    &&& g.join_path(base, next[k].to_model) is Ok
                    &&& g.join_path(base, next[k].to_model)->Ok_0.len() > 0
                    &&& g.join_path(base, next[k].to_model)->Ok_0.last() == next[k]
                } by {
                    if k < plan.len() {
                        assert(next[k] == plan[k]);
                    } else {
                        assert(search(g.edges(), base, to) == Some(path));
                        lemma_search_prefix(g.edges(), base, to, i);
                        assert(path.subrange(0, i + 1).last() == path[i]);
                    }
                }
            }
            lemma_add_path_ends(g, base, present, next, path, to, i + 1);
        }
    }
}

/// A join plan whose steps so far end join paths keeps to that to its end.
proof fn lemma_join_plan_from_ends(
    g: GraphView,
    base: Seq<char>,
    present: Seq<Seq<char>>,
    targets: Seq<Seq<char>>,
    i: int,
    plan: Seq<JoinStepView>,
)
    requires
        0 <= i <= targets.len(),
        ends_paths(g, base, plan),
    ensures
        match g.join_plan_from(base, present, targets, i, plan) {
            Ok(p) => ends_paths(g, base, p),
            Err(e) => true,
        },
    decreases targets.len() - i,
{
    if i < targets.len() {
        match g.join_path(base, targets[i]) {
            Err(e) => {},
            Ok(p) => {
                lemma_add_path_ends(g, base, present, plan, p, targets[i], 0);
                lemma_join_plan_from_ends(
                    g,
                    base,
                    present,
                    targets,
                    i + 1,
                    add_path(plan, present, p, 0),
                );
            },
        }
    }
}

/// Each step of a join plan is the last step of the join path from the
/// base to the model that it joins, also where the model was joined on
/// the way to another: the plan joins every model as its own join path
/// would.
pub proof fn lemma_join_plan_ends(
    g: GraphView,
    base: Seq<char>,
    present: Seq<Seq<char>>,
    targets: Seq<Seq<char>>,
)
    ensures
        match g.join_plan(base, present, targets) {
            Ok(p) => ends_paths(g, base, p),
            Err(e) => true,
        },
{
    lemma_join_plan_from_ends(g, base, present, targets, 0, Seq::empty());
}

impl SemanticGraph {
    /// The joins that bring in every target, starting from `base`, where
    /// the models of `present` are there already.
    pub fn join_plan(&self, base: &str, present: &Vec<String>, targets: &Vec<String>) -> (r: Result<
        Vec<JoinStep>,
        SidemanticError,
    >)
        requires
            self.wf(),
        ensures
            match r {
                Ok(p) => self@.join_plan(
                    base@,
                    crate::text::views(present@),
                    crate::text::views(targets@),
                ) == Ok::<Seq<JoinStepView>, ErrorView>(steps_view(p@)),
                Err(e) => self@.join_plan(
                    base@,
                    crate::text::views(present@),
                    crate::text::views(targets@),
                ) == Err::<Seq<JoinStepView>, ErrorView>(e@),
            },
    {
        let ghost ts = crate::text::views(targets@);
        let ghost ps = crate::text::views(present@);
        let mut plan: Vec<JoinStep> = Vec::new();
        assert(steps_view(plan@) =~= Seq::empty());
        let mut i: usize = 0;
        while i < targets.len()
            invariant
                i <= targets.len(),
                self.wf(),
                ts == crate::text::views(targets@),
                ps == crate::text::views(present@),
                self@.join_plan(base@, ps, ts) == self@.join_plan_from(
                    base@,
                    ps,
                    ts,
                    i as int,
                    steps_view(plan@),
                ),
            decreases targets.len() - i,
        {
            assert(ts[i as int] == targets@[i as int]@);
            let path = match self.find_join_path(base, targets[i].as_str()) {
                Ok(p) => p,
                Err(e) => {
                    return Err(e);
                },
            };
            let mut k: usize = 0;
            let ghost start = steps_view(plan@);
            while k < path.steps.len()
                invariant
                    k <= path.steps.len(),
                    ps == crate::text::views(present@),
                    add_path(start, ps, path@, 0) == add_path(
                        steps_view(plan@),
                        ps,
                        path@,
                        k as int,
                    ),
                decreases path.steps.len() - k,
            {
                let step = &path.steps[k];
                assert(path@[k as int] == step@);
                if !crate::text::contains_name(present, step.to_model.as_str()) && !joins(
                    &plan,
                    step.to_model.as_str(),
                ) {
                    let ghost prev = steps_view(plan@);
                    plan.push(step.clone());
                    assert(steps_view(plan@) =~= prev.push(step@));
                }
                k = k + 1;
            }
            i = i + 1;
        }
        Ok(plan)
    }
}

/// Whether the plan joins the model `name`.
fn joins(plan: &Vec<JoinStep>, name: &str) -> (r: bool)
    ensures
        r == joined(steps_view(plan@)).contains(name@),
{
    let mut i: usize = 0;
    while i < plan.len()
        invariant
            i <= plan.len(),
            forall|j: int| 0 <= j < i ==> joined(steps_view(plan@))[j] != name@,
        decreases plan.len() - i,
    {
        if str_eq(plan[i].to_model.as_str(), name) {
            assert(joined(steps_view(plan@))[i as int] == name@);
            return true;
        }
        i = i + 1;
    }
    false
}

} // verus!
