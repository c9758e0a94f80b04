//! What holds of every rewritten `SELECT`.

use vstd::prelude::*;
use vstd::string::*;
use crate::error::ErrorView;
use crate::graph::GraphView;
use crate::graph::JoinStepView;
use crate::model::Aggregation;
use crate::model::MetricType;
use crate::text::fresh_alias;
use crate::tree::ColumnNameView;
use crate::tree::ExprView;
use crate::tree::FromView;
use crate::tree::GroupByView;
use crate::tree::ItemView;
use crate::tree::LeftJoinView;
use crate::tree::SelectView;
use crate::tree::TableRefView;
use crate::rewriter::plan::ModelRefView;
use crate::rewriter::plan::ref_models;
use crate::rewriter::plan::table_model;
use crate::rewriter::plan::visible_name;
use crate::rewriter::plan::visible_names_from;
use crate::rewriter::plan::from_refs_from;
use crate::rewriter::plan::from_refs;
use crate::rewriter::plan::alias_from;
use crate::rewriter::plan::source_of;
use crate::rewriter::plan::planned_joins_from;
use crate::rewriter::plan::PlanView;
use crate::rewriter::plan::join_targets;
use crate::rewriter::plan::plan_select;
use crate::rewriter::expr::ParsedMetricView;
use crate::rewriter::expr::Context;
use crate::rewriter::expr::resolve_from;
use crate::rewriter::expr::rewrite_column;
use crate::rewriter::expr::rewrite_expr;
use crate::rewriter::as_joins;
use crate::rewriter::rewrite_from_from;
use crate::rewriter::expr::is_plain_item;
use crate::rewriter::expr::has_aggregate;
use crate::rewriter::expr::has_plain;
use crate::rewriter::expr::plain_positions_from;
use crate::rewriter::expr::group_by_for;
use crate::rewriter::rewrite_select;
use crate::rewriter::passes;
use crate::rewriter::printed;
use crate::rewriter::rewritten;
use crate::sql::admitted;
use crate::sql::parsed_statements;

verus! {

/// What holds of the places collected up to item `i`: each is the place
/// of an expression that does not aggregate, they rise, and none such
/// before `i` is missing.
pub open spec fn positions_upto(items: Seq<ItemView>, i: int, ps: Seq<usize>) -> bool {
    &&& forall|k: int|
        0 <= k < ps.len() ==> 1 <= #[trigger] ps[k] <= i && is_plain_item(items[ps[k] - 1])
    &&& forall|a: int, b: int| 0 <= a < b < ps.len() ==> #[trigger] ps[a] < #[trigger] ps[b]
    &&& forall|j: int|
        0 <= j < i && is_plain_item(#[trigger] items[j]) ==> ps.contains((j + 1) as usize)
}

/// The places collected from item `i` on keep what holds of the places so far.
proof fn lemma_positions_from(items: Seq<ItemView>, i: int, acc: Seq<usize>)
    requires
        0 <= i <= items.len(),
        items.len() < usize::MAX,
        positions_upto(items, i, acc),
    ensures
        positions_upto(items, items.len() as int, plain_positions_from(items, i, acc)),
    decreases items.len() - i,
{
    if i < items.len() {
        if is_plain_item(items[i]) {
            let next = acc.push((i + 1) as usize);
            assert(positions_upto(items, i + 1, next)) by {
                assert forall|k: int| 0 <= k < next.len() implies 1 <= #[trigger] next[k] <= i + 1
                    && is_plain_item(items[next[k] - 1]) by {
                    if k < acc.len() {
                        assert(next[k] == acc[k]);
                    }
                }
                assert forall|a: int, b: int| 0 <= a < b < next.len() implies #[trigger] next[a]
                    < #[trigger] next[b] by {
                    assert(next[a] == acc[a]);
                    if b < acc.len() {
                        assert(next[b] == acc[b]);
                    }
                }
                assert forall|j: int| 0 <= j < i + 1 && is_plain_item(
                    #[trigger] items[j],
                ) implies next.contains((j + 1) as usize) by {
                    if j < i {
                        let k = choose|k: int| 0 <= k < acc.len() && acc[k] == (j + 1) as usize;
                        assert(next[k] == acc[k]);
                    } else {
                        assert(next[acc.len() as int] == (i + 1) as usize);
                    }
                }
            }
            lemma_positions_from(items, i + 1, next);
        } else {
            lemma_positions_from(items, i + 1, acc);
        }
    }
}

/// Where a select list holds both an item that aggregates and an
/// expression that does not, the grouping is by place: one place for each
/// expression that does not aggregate, in the order of the list.
pub proof fn lemma_group_by_positions(items: Seq<ItemView>, written: GroupByView)
    requires
        items.len() < usize::MAX,
        has_aggregate(items),
        has_plain(items),
    ensures
        group_by_for(items, written) is Positions,
        positions_upto(items, items.len() as int, group_by_for(items, written)->Positions_0),
{
    lemma_positions_from(items, 0, Seq::empty());
}

/// How many tables after `FROM`, from `i` on, name a model.
pub open spec fn count_models(g: GraphView, from: Seq<FromView>, i: int) -> nat
    decreases from.len() - i,
{
    if i < 0 || i >= from.len() {
        0
    } else if table_model(g, from[i].table) is Some {
        1 + count_models(g, from, i + 1)
    } else {
        count_models(g, from, i + 1)
    }
}

/// The references after `FROM` are as many as the tables that name a
/// model, and those found before stay.
proof fn lemma_from_refs_count(
    g: GraphView,
    from: Seq<FromView>,
    i: int,
    refs: Seq<ModelRefView>,
    taken: Seq<Seq<char>>,
)
    requires
        0 <= i,
    ensures
        from_refs_from(g, from, i, refs, taken).0.len() == refs.len() + count_models(g, from, i),
        refs.len() <= from_refs_from(g, from, i, refs, taken).0.len(),
        forall|k: int|
            0 <= k < refs.len() ==> from_refs_from(g, from, i, refs, taken).0[k] == #[trigger] refs[k],
    decreases from.len() - i,
{
    if i < from.len() {
        match table_model(g, from[i].table) {
            None => {
                lemma_from_refs_count(g, from, i + 1, refs, taken);
            },
            Some(m) => match from[i].table->Named_alias_name {
                Some(a) => {
                    let next = refs.push(ModelRefView { model: m, alias: a });
                    lemma_from_refs_count(g, from, i + 1, next, taken);
                    assert forall|k: int| 0 <= k < refs.len() implies from_refs_from(
                        g,
                        from,
                        i,
                        refs,
                        taken,
                    ).0[k] == #[trigger] refs[k] by {
                        assert(next[k] == refs[k]);
                    }
                },
                None => {
                    let a = fresh_alias(taken, m);
                    let next = refs.push(ModelRefView { model: m, alias: a });
                    lemma_from_refs_count(g, from, i + 1, next, taken.push(a));
                    assert forall|k: int| 0 <= k < refs.len() implies from_refs_from(
                        g,
                        from,
                        i,
                        refs,
                        taken,
                    ).0[k] == #[trigger] refs[k] by {
                        assert(next[k] == refs[k]);
                    }
                },
            },
        }
    }
}

/// The joins of a plan are as many as its steps, each with the keys of
/// its step and the source of the model that the step leads to, and each
/// joined model is a reference under the alias of its join.
pub proof fn lemma_planned_joins(
    g: GraphView,
    steps: Seq<JoinStepView>,
    i: int,
    refs: Seq<ModelRefView>,
    taken: Seq<Seq<char>>,
    joins: Seq<LeftJoinView>,
)
    requires
        0 <= i <= steps.len(),
        planned_joins_from(g, steps, i, refs, taken, joins) is Ok,
    ensures
        ({
            let (all, out) = planned_joins_from(g, steps, i, refs, taken, joins)->Ok_0;
            &&& all.len() == refs.len() + (steps.len() - i)
            &&& out.len() == joins.len() + (steps.len() - i)
            &&& forall|k: int| 0 <= k < refs.len() ==> all[k] == #[trigger] refs[k]
            &&& forall|k: int| 0 <= k < joins.len() ==> out[k] == #[trigger] joins[k]
            &&& forall|k: int|
                i <= k < steps.len() ==> {
                    let j = #[trigger] out[joins.len() + (k - i)];
                    let r = all[refs.len() + (k - i)];
                    &&& j.from_key == steps[k].from_key
                    &&& j.to_key == steps[k].to_key
                    &&& g.get_model(steps[k].to_model) is Some
                    &&& j.table == source_of(g.get_model(steps[k].to_model)->Some_0)
                    &&& r.model == steps[k].to_model
                    &&& r.alias == j.alias
                }
        }),
    decreases steps.len() - i,
{
    if i < steps.len() {
        let m = g.get_model(steps[i].to_model)->Some_0;
        let from_alias = alias_from(refs, steps[i].from_model, 0)->Some_0;
        let a = fresh_alias(taken, steps[i].to_model);
        let refs2 = refs.push(ModelRefView { model: steps[i].to_model, alias: a });
        let join = LeftJoinView {
            table: source_of(m),
            alias: a,
            from_alias,
            from_key: steps[i].from_key,
            to_key: steps[i].to_key,
        };
        let joins2 = joins.push(join);
        lemma_planned_joins(g, steps, i + 1, refs2, taken.push(a), joins2);
        let (all, out) = planned_joins_from(g, steps, i, refs, taken, joins)->Ok_0;
        assert forall|k: int| 0 <= k < refs.len() implies all[k] == #[trigger] refs[k] by {
            assert(refs2[k] == refs[k]);
        }
        assert forall|k: int| 0 <= k < joins.len() implies out[k] == #[trigger] joins[k] by {
            assert(joins2[k] == joins[k]);
        }
        assert forall|k: int| i <= k < steps.len() implies {
            let j = #[trigger] out[joins.len() + (k - i)];
            let r = all[refs.len() + (k - i)];
            &&& j.from_key == steps[k].from_key
            &&& j.to_key == steps[k].to_key
            &&& g.get_model(steps[k].to_model) is Some
            &&& j.table == source_of(g.get_model(steps[k].to_model)->Some_0)
            &&& r.model == steps[k].to_model
            &&& r.alias == j.alias
        } by {
            if k == i {
                assert(out[joins.len() as int] == joins2[joins.len() as int]);
                assert(all[refs.len() as int] == refs2[refs.len() as int]);
            } else {
                assert(out[joins2.len() + (k - (i + 1))] == out[joins.len() + (k - i)]);
            }
        }
    }
}

/// The steps of the join plan of a `SELECT` that has a plan.
pub open spec fn plan_steps(g: GraphView, s: SelectView) -> Seq<JoinStepView> {
    let refs = from_refs(g, s.from).0;
    g.join_plan(refs[0].model, ref_models(refs), join_targets(g, refs, s))->Ok_0
}

/// Every model that a `SELECT` refers to and that is not after `FROM` is
/// joined exactly once: the plan has one join for each step of the join
/// plan, with the keys of that step, each step is an edge of the graph,
/// no model is joined twice or joined though it is after `FROM`, and
/// every model to join is among the joined ones.
pub proof fn lemma_auto_joins(g: GraphView, s: SelectView)
    requires
        plan_select(g, s) is Ok,
        plan_select(g, s)->Ok_0 is Some,
    ensures
        ({
            let plan = plan_select(g, s)->Ok_0->Some_0;
            let refs = from_refs(g, s.from).0;
            let steps = plan_steps(g, s);
            &&& plan.joins.len() == steps.len()
            &&& plan.refs.len() == refs.len() + steps.len()
            &&& crate::graph::plan::plan_covers(
                g,
                ref_models(refs),
                join_targets(g, refs, s),
                join_targets(g, refs, s).len() as int,
                steps,
            )
            &&& forall|k: int|
                0 <= k < steps.len() ==> {
                    let j = #[trigger] plan.joins[k];
                    &&& j.from_key == steps[k].from_key
                    &&& j.to_key == steps[k].to_key
                    &&& g.get_model(steps[k].to_model) is Some
                    &&& j.table == source_of(g.get_model(steps[k].to_model)->Some_0)
                    &&& plan.refs[refs.len() + k].model == steps[k].to_model
                    &&& plan.refs[refs.len() + k].alias == j.alias
                }
        }),
{
    let (refs, taken) = from_refs(g, s.from);
    let steps = plan_steps(g, s);
    assert(ref_models(refs)[0] == refs[0].model);
    crate::graph::plan::lemma_join_plan(g, refs[0].model, ref_models(refs), join_targets(g, refs, s));
    lemma_planned_joins(g, steps, 0, refs, taken, Seq::empty());
    let plan = plan_select(g, s)->Ok_0->Some_0;
    assert forall|k: int| 0 <= k < steps.len() implies {
        let j = #[trigger] plan.joins[k];
        &&& j.from_key == steps[k].from_key
        &&& j.to_key == steps[k].to_key
        &&& g.get_model(steps[k].to_model) is Some
        &&& j.table == source_of(g.get_model(steps[k].to_model)->Some_0)
        &&& plan.refs[refs.len() + k].model == steps[k].to_model
        &&& plan.refs[refs.len() + k].alias == j.alias
    } by {
        assert(plan.joins[0 + (k - 0)] == plan.joins[k]);
    }
}

/// Each added join is by the last step of the join path from the first
/// model after `FROM` to the model that it joins, and on the keys of that
/// step; also where the model was joined on the way to another.
pub proof fn lemma_joins_end_paths(g: GraphView, s: SelectView)
    requires
        plan_select(g, s) is Ok,
        plan_select(g, s)->Ok_0 is Some,
    ensures
        ({
            let plan = plan_select(g, s)->Ok_0->Some_0;
            let base = from_refs(g, s.from).0[0].model;
            let steps = plan_steps(g, s);
            &&& plan.joins.len() == steps.len()
            &&& forall|k: int|
                0 <= k < steps.len() ==> {
                    let path = g.join_path(base, (#[trigger] steps[k]).to_model);
                    &&& path is Ok
                    &&& path->Ok_0.len() > 0
                    &&& path->Ok_0.last() == steps[k]
                    &&& plan.joins[k].from_key == path->Ok_0.last().from_key
                    &&& plan.joins[k].to_key == path->Ok_0.last().to_key
                }
        }),
{
    let refs = from_refs(g, s.from).0;
    let steps = plan_steps(g, s);
    lemma_auto_joins(g, s);
    crate::graph::plan::lemma_join_plan_ends(
        g,
        refs[0].model,
        ref_models(refs),
        join_targets(g, refs, s),
    );
    let plan = plan_select(g, s)->Ok_0->Some_0;
    assert forall|k: int| 0 <= k < steps.len() implies {
        let path = g.join_path(refs[0].model, (#[trigger] steps[k]).to_model);
        &&& path is Ok
        &&& path->Ok_0.len() > 0
        &&& path->Ok_0.last() == steps[k]
        &&& plan.joins[k].from_key == path->Ok_0.last().from_key
        &&& plan.joins[k].to_key == path->Ok_0.last().to_key
    } by {
        let j = plan.joins[k];
        assert(g.get_model(steps[k].to_model) is Some);
        assert(g.has_model(steps[k].to_model));
    }
}

/// Whether no table after `FROM` names a model of the graph.
pub open spec fn names_no_model(g: GraphView, from: Seq<FromView>) -> bool {
    forall|i: int| 0 <= i < from.len() ==> table_model(g, (#[trigger] from[i]).table) is None
}

/// Tables that name no model give no reference.
proof fn lemma_no_model_no_refs(
    g: GraphView,
    from: Seq<FromView>,
    i: int,
    refs: Seq<ModelRefView>,
    taken: Seq<Seq<char>>,
)
    requires
        0 <= i,
        names_no_model(g, from),
    ensures
        from_refs_from(g, from, i, refs, taken).0 == refs,
    decreases from.len() - i,
{
    if i < from.len() {
        assert(table_model(g, from[i].table) is None);
        lemma_no_model_no_refs(g, from, i + 1, refs, taken);
    }
}

/// A `SELECT` with no model after `FROM` has no plan.
pub proof fn lemma_no_plan(g: GraphView, s: SelectView)
    requires
        names_no_model(g, s.from),
    ensures
        plan_select(g, s) == Ok::<Option<PlanView>, ErrorView>(None),
{
    lemma_no_model_no_refs(
        g,
        s.from,
        0,
        Seq::empty(),
        visible_names_from(s.from, 0, Seq::empty()),
    );
}

/// A `SELECT` with no model after `FROM` is rewritten to itself.
pub proof fn lemma_passthrough(g: GraphView, parsed: Seq<ParsedMetricView>, s: SelectView)
    requires
        names_no_model(g, s.from),
    ensures
        rewrite_select(g, parsed, s) == Ok::<SelectView, ErrorView>(s),
{
    lemma_no_model_no_refs(
        g,
        s.from,
        0,
        Seq::empty(),
        visible_names_from(s.from, 0, Seq::empty()),
    );
}

/// What stands after `FROM` once a plan is applied names no model any more.
proof fn lemma_rewritten_from(
    g: GraphView,
    plan: PlanView,
    from: Seq<FromView>,
    i: int,
    k: int,
    out: Seq<FromView>,
)
    requires
        0 <= i <= from.len(),
        0 <= k,
        k + count_models(g, from, i) <= plan.refs.len(),
        names_no_model(g, out),
    ensures
        names_no_model(g, rewrite_from_from(g, plan, from, i, k, out)),
    decreases from.len() - i,
{
    if i < from.len() {
        match table_model(g, from[i].table) {
            Some(m) => {
                assert(g.get_model(m) is Some);
                let item = FromView {
                    table: TableRefView::Physical {
                        table: source_of(g.get_model(m)->Some_0),
                        alias: plan.refs[k].alias,
                        written_alias: from[i].table->Named_written_alias,
                    },
                    joins: if k == 0 {
                        from[i].joins + as_joins(plan.joins)
                    } else {
                        from[i].joins
                    },
                };
                let next = out.push(item);
                assert(names_no_model(g, next)) by {
                    assert forall|j: int| 0 <= j < next.len() implies table_model(
                        g,
                        (#[trigger] next[j]).table,
                    ) is None by {
                        if j < out.len() {
                            assert(next[j] == out[j]);
                        }
                    }
                }
                lemma_rewritten_from(g, plan, from, i + 1, k + 1, next);
            },
            None => {
                let next = out.push(from[i]);
                assert(names_no_model(g, next)) by {
                    assert forall|j: int| 0 <= j < next.len() implies table_model(
                        g,
                        (#[trigger] next[j]).table,
                    ) is None by {
                        if j < out.len() {
                            assert(next[j] == out[j]);
                        }
                    }
                }
                lemma_rewritten_from(g, plan, from, i + 1, k, next);
            },
        }
    }
}

/// Rewriting is idempotent: a `SELECT` that has been rewritten names no
/// model after `FROM` any more, so rewriting it again changes nothing.
pub proof fn lemma_rewrite_idempotent(g: GraphView, parsed: Seq<ParsedMetricView>, s: SelectView)
    requires
        rewrite_select(g, parsed, s) is Ok,
    ensures
        rewrite_select(g, parsed, rewrite_select(g, parsed, s)->Ok_0) == rewrite_select(
            g,
            parsed,
            s,
        ),
{
    let t = rewrite_select(g, parsed, s)->Ok_0;
    match plan_select(g, s)->Ok_0 {
        None => {},
        Some(plan) => {
            let (refs, taken) = from_refs(g, s.from);
            lemma_from_refs_count(
                g,
                s.from,
                0,
                Seq::empty(),
                visible_names_from(s.from, 0, Seq::empty()),
            );
            let steps = plan_steps(g, s);
            lemma_planned_joins(g, steps, 0, refs, taken, Seq::empty());
            lemma_rewritten_from(g, plan, s.from, 0, 0, Seq::empty());
            assert(t.from == rewrite_from_from(g, plan, s.from, 0, 0, Seq::empty()));
            lemma_passthrough(g, parsed, t);
        },
    }
}

/// How many tables after `FROM`, before `j`, name a model.
pub open spec fn models_before(g: GraphView, from: Seq<FromView>, j: int) -> nat
    decreases j,
{
    if j <= 0 || j > from.len() {
        0
    } else if table_model(g, from[j - 1].table) is Some {
        1 + models_before(g, from, j - 1)
    } else {
        models_before(g, from, j - 1)
    }
}

/// What stands at place `j` after `FROM` once a plan is applied: a table
/// that names no model stays; one that names a model becomes the source
/// of the model under the alias of its reference; and the joins of the
/// plan stand after the joins of the first table that names a model, and
/// nowhere else.
pub open spec fn rewritten_item(g: GraphView, plan: PlanView, from: Seq<FromView>, j: int) -> FromView {
    match table_model(g, from[j].table) {
        None => from[j],
        Some(m) => FromView {
            table: TableRefView::Physical {
                table: source_of(g.get_model(m)->Some_0),
                alias: plan.refs[models_before(g, from, j) as int].alias,
                written_alias: from[j].table->Named_written_alias,
            },
            joins: if models_before(g, from, j) == 0 {
                from[j].joins + as_joins(plan.joins)
            } else {
                from[j].joins
            },
        },
    }
}

/// What stands after `FROM` once a plan is applied, place by place.
proof fn lemma_from_items(
    g: GraphView,
    plan: PlanView,
    from: Seq<FromView>,
    i: int,
    k: int,
    out: Seq<FromView>,
)
    requires
        0 <= i <= from.len(),
        k == models_before(g, from, i),
        k + count_models(g, from, i) <= plan.refs.len(),
        out.len() == i,
        forall|j: int| 0 <= j < i ==> #[trigger] out[j] == rewritten_item(g, plan, from, j),
    ensures
        rewrite_from_from(g, plan, from, i, k, out).len() == from.len(),
        forall|j: int|
            0 <= j < from.len() ==> #[trigger] rewrite_from_from(g, plan, from, i, k, out)[j]
                == rewritten_item(g, plan, from, j),
    decreases from.len() - i,
{
    if i < from.len() {
        match table_model(g, from[i].table) {
            Some(m) => {
                assert(g.get_model(m) is Some);
                let next = out.push(rewritten_item(g, plan, from, i));
                assert forall|j: int| 0 <= j < i + 1 implies #[trigger] next[j] == rewritten_item(
                    g,
                    plan,
                    from,
                    j,
                ) by {
                    if j < i {
                        assert(next[j] == out[j]);
                    }
                }
                lemma_from_items(g, plan, from, i + 1, k + 1, next);
            },
            None => {
                let next = out.push(from[i]);
                assert forall|j: int| 0 <= j < i + 1 implies #[trigger] next[j] == rewritten_item(
                    g,
                    plan,
                    from,
                    j,
                ) by {
                    if j < i {
                        assert(next[j] == out[j]);
                    }
                }
                lemma_from_items(g, plan, from, i + 1, k, next);
            },
        }
    }
}

/// After `FROM`, a rewritten `SELECT` holds as many tables as before;
/// each table that names a model has become the source of that model, the
/// others are as they were, and the joins of the plan stand once, after
/// the first table that names a model.
pub proof fn lemma_rewritten_tables(g: GraphView, parsed: Seq<ParsedMetricView>, s: SelectView)
    requires
        plan_select(g, s) is Ok,
        plan_select(g, s)->Ok_0 is Some,
        rewrite_select(g, parsed, s) is Ok,
    ensures
        rewrite_select(g, parsed, s)->Ok_0.from.len() == s.from.len(),
        forall|j: int|
            0 <= j < s.from.len() ==> #[trigger] rewrite_select(g, parsed, s)->Ok_0.from[j]
                == rewritten_item(g, plan_select(g, s)->Ok_0->Some_0, s.from, j),
{
    let plan = plan_select(g, s)->Ok_0->Some_0;
    let (refs, taken) = from_refs(g, s.from);
    lemma_from_refs_count(g, s.from, 0, Seq::empty(), visible_names_from(s.from, 0, Seq::empty()));
    lemma_planned_joins(g, plan_steps(g, s), 0, refs, taken, Seq::empty());
    lemma_from_items(g, plan, s.from, 0, 0, Seq::empty());
}

/// How often `target` stands in an expression, under binary, unary and
/// parenthesized expressions.
pub open spec fn count_nodes(e: ExprView, target: ExprView) -> nat
    decreases e,
{
    if e == target {
        1
    } else {
        match e {
            ExprView::Binary { left, op, right } => count_nodes(*left, target) + count_nodes(
                *right,
                target,
            ),
            ExprView::Unary { operator, operand } => count_nodes(*operand, target),
            ExprView::Nested(inner) => count_nodes(*inner, target),
            _ => 0,
        }
    }
}

/// How many qualified columns of an expression, under binary, unary and
/// parenthesized expressions, are replaced by `target`.
pub open spec fn count_replaced(c: Context, e: ExprView, target: ExprView) -> nat
    decreases e,
{
    match e {
        ExprView::Column { qualifier, name, source } => if rewrite_column(c, qualifier, name, true)
            == Ok::<Option<ExprView>, ErrorView>(Some(target)) {
            1
        } else {
            0
        },
        ExprView::Binary { left, op, right } => count_replaced(c, *left, target) + count_replaced(
            c,
            *right,
            target,
        ),
        ExprView::Unary { operator, operand } => count_replaced(c, *operand, target),
        ExprView::Nested(inner) => count_replaced(c, *inner, target),
        _ => 0,
    }
}

/// How often the qualified column `q.n` stands in an expression, under
/// binary, unary and parenthesized expressions.
pub open spec fn count_columns(e: ExprView, q: Seq<char>, n: Seq<char>) -> nat
    decreases e,
{
    match e {
        ExprView::Column { qualifier, name, source } => if qualifier == q && name == n {
            1
        } else {
            0
        },
        ExprView::Binary { left, op, right } => count_columns(*left, q, n) + count_columns(
            *right,
            q,
            n,
        ),
        ExprView::Unary { operator, operand } => count_columns(*operand, q, n),
        ExprView::Nested(inner) => count_columns(*inner, q, n),
        _ => 0,
    }
}

/// A reference to a sum metric over a column becomes `SUM(alias.column)`.
pub proof fn lemma_sum_metric(c: Context, q: Seq<char>, n: Seq<char>, column: Seq<char>)
    requires
        resolve_from(c.refs, q, 0) is Some,
        c.graph.get_model(resolve_from(c.refs, q, 0)->Some_0.model) is Some,
        c.graph.get_model(resolve_from(c.refs, q, 0)->Some_0.model)->Some_0.get_metric(n) is Some,
        ({
            let m = c.graph.get_model(resolve_from(c.refs, q, 0)->Some_0.model)->Some_0.get_metric(
                n,
            )->Some_0;
            m.kind == MetricType::Simple && m.agg == Some(Aggregation::Sum) && m.sql == Some(column)
        }),
        column != "*"@,
    ensures
        rewrite_column(c, q, n, true) == Ok::<Option<ExprView>, ErrorView>(
            Some(
                ExprView::Aggregate {
                    function: "SUM"@,
                    distinct: false,
                    column: Some(
                        ColumnNameView {
                            qualifier: resolve_from(c.refs, q, 0)->Some_0.alias,
                            name: column,
                        },
                    ),
                },
            ),
        ),
{
}

/// An expression as written, once rewritten, holds an aggregate exactly
/// once for each of its qualified columns that is replaced by that
/// aggregate.
pub proof fn lemma_one_aggregate_per_reference(c: Context, e: ExprView, target: ExprView)
    requires
        e.written(),
        target is Aggregate,
        rewrite_expr(c, e, true) is Ok,
    ensures
        count_nodes(rewrite_expr(c, e, true)->Ok_0, target) == count_replaced(c, e, target),
    decreases e,
{
    match e {
        ExprView::Binary { left, op, right } => {
            lemma_one_aggregate_per_reference(c, *left, target);
            lemma_one_aggregate_per_reference(c, *right, target);
        },
        ExprView::Unary { operator, operand } => {
            lemma_one_aggregate_per_reference(c, *operand, target);
        },
        ExprView::Nested(inner) => {
            lemma_one_aggregate_per_reference(c, *inner, target);
        },
        _ => {},
    }
}

/// Every occurrence of a qualified column that is replaced by an
/// aggregate counts among the replaced ones: the rewritten expression
/// holds the aggregate at least once for each occurrence.
pub proof fn lemma_occurrences_replaced(
    c: Context,
    e: ExprView,
    q: Seq<char>,
    n: Seq<char>,
    target: ExprView,
)
    requires
        rewrite_column(c, q, n, true) == Ok::<Option<ExprView>, ErrorView>(Some(target)),
    ensures
        count_columns(e, q, n) <= count_replaced(c, e, target),
    decreases e,
{
    match e {
        ExprView::Binary { left, op, right } => {
            lemma_occurrences_replaced(c, *left, q, n, target);
            lemma_occurrences_replaced(c, *right, q, n, target);
        },
        ExprView::Unary { operator, operand } => {
            lemma_occurrences_replaced(c, *operand, q, n, target);
        },
        ExprView::Nested(inner) => {
            lemma_occurrences_replaced(c, *inner, q, n, target);
        },
        _ => {},
    }
}

/// Whether the alias of every reference is among the names that are taken.
pub open spec fn aliases_taken(refs: Seq<ModelRefView>, taken: Seq<Seq<char>>) -> bool {
    forall|i: int| 0 <= i < refs.len() ==> taken.contains((#[trigger] refs[i]).alias)
}

/// Whether every name of `a` is a name of `b`.
pub open spec fn within(a: Seq<Seq<char>>, b: Seq<Seq<char>>) -> bool {
    forall|x: Seq<char>| a.contains(x) ==> #[trigger] b.contains(x)
}

/// A list with one more name holds the names it held, and the new one.
proof fn lemma_within_push(a: Seq<Seq<char>>, x: Seq<char>)
    ensures
        within(a, a.push(x)),
        a.push(x).contains(x),
{
    assert forall|y: Seq<char>| a.contains(y) implies #[trigger] a.push(x).contains(y) by {
        let k = choose|k: int| 0 <= k < a.len() && a[k] == y;
        assert(a.push(x)[k] == y);
    }
    assert(a.push(x)[a.len() as int] == x);
}

/// The visible names hold the names collected so far and the visible
/// name of every table still to come.
proof fn lemma_visible_names(from: Seq<FromView>, i: int, acc: Seq<Seq<char>>)
    requires
        0 <= i,
    ensures
        within(acc, visible_names_from(from, i, acc)),
        forall|j: int|
            i <= j < from.len() && visible_name((#[trigger] from[j]).table) is Some
                ==> visible_names_from(from, i, acc).contains(visible_name(from[j].table)->Some_0),
    decreases from.len() - i,
{
    if i < from.len() {
        match visible_name(from[i].table) {
            Some(n) => {
                lemma_within_push(acc, n);
                lemma_visible_names(from, i + 1, acc.push(n));
                assert forall|x: Seq<char>| acc.contains(x) implies #[trigger] visible_names_from(
                    from,
                    i,
                    acc,
                ).contains(x) by {
                    assert(acc.push(n).contains(x));
                }
            },
            None => {
                lemma_visible_names(from, i + 1, acc);
            },
        }
    }
}

/// The alias of every reference after `FROM` is taken, and the names
/// that were taken stay taken.
proof fn lemma_from_refs_taken(
    g: GraphView,
    from: Seq<FromView>,
    i: int,
    refs: Seq<ModelRefView>,
    taken: Seq<Seq<char>>,
)
    requires
        0 <= i,
        aliases_taken(refs, taken),
        forall|j: int|
            i <= j < from.len() && visible_name((#[trigger] from[j]).table) is Some
                ==> taken.contains(visible_name(from[j].table)->Some_0),
    ensures
        aliases_taken(from_refs_from(g, from, i, refs, taken).0, from_refs_from(g, from, i, refs, taken).1),
        within(taken, from_refs_from(g, from, i, refs, taken).1),
    decreases from.len() - i,
{
    if i < from.len() {
        match table_model(g, from[i].table) {
            None => {
                lemma_from_refs_taken(g, from, i + 1, refs, taken);
            },
            Some(m) => match from[i].table->Named_alias_name {
                Some(a) => {
                    let next = refs.push(ModelRefView { model: m, alias: a });
                    assert(visible_name(from[i].table) == Some(a));
                    assert(aliases_taken(next, taken)) by {
                        assert forall|k: int| 0 <= k < next.len() implies taken.contains(
                            (#[trigger] next[k]).alias,
                        ) by {
                            if k < refs.len() {
                                assert(next[k] == refs[k]);
                            }
                        }
                    }
                    lemma_from_refs_taken(g, from, i + 1, next, taken);
                },
                None => {
                    let a = fresh_alias(taken, m);
                    let next = refs.push(ModelRefView { model: m, alias: a });
                    let more = taken.push(a);
                    lemma_within_push(taken, a);
                    assert(aliases_taken(next, more)) by {
                        assert forall|k: int| 0 <= k < next.len() implies more.contains(
                            (#[trigger] next[k]).alias,
                        ) by {
                            if k < refs.len() {
                                assert(next[k] == refs[k]);
                                assert(taken.contains(refs[k].alias));
                            }
                        }
                    }
                    lemma_from_refs_taken(g, from, i + 1, next, more);
                    assert forall|x: Seq<char>| taken.contains(x) implies #[trigger] from_refs_from(
                        g,
                        from,
                        i,
                        refs,
                        taken,
                    ).1.contains(x) by {
                        assert(more.contains(x));
                    }
                },
            },
        }
    }
}

/// The alias of each join of a plan was not taken when it was made, and
/// is the alias of no reference before it.
proof fn lemma_planned_aliases(
    g: GraphView,
    steps: Seq<JoinStepView>,
    i: int,
    refs: Seq<ModelRefView>,
    taken: Seq<Seq<char>>,
    joins: Seq<LeftJoinView>,
)
    requires
        0 <= i <= steps.len(),
        aliases_taken(refs, taken),
        planned_joins_from(g, steps, i, refs, taken, joins) is Ok,
    ensures
        ({
            let (all, out) = planned_joins_from(g, steps, i, refs, taken, joins)->Ok_0;
            forall|k: int|
                i <= k < steps.len() ==> {
                    let a = (#[trigger] out[joins.len() + (k - i)]).alias;
                    &&& !taken.contains(a)
                    &&& forall|m: int| 0 <= m < refs.len() + (k - i) ==> all[m].alias != a
                }
        }),
    decreases steps.len() - i,
{
    if i < steps.len() {
        let m = g.get_model(steps[i].to_model)->Some_0;
        let from_alias = alias_from(refs, steps[i].from_model, 0)->Some_0;
        let a = fresh_alias(taken, steps[i].to_model);
        let refs2 = refs.push(ModelRefView { model: steps[i].to_model, alias: a });
        let taken2 = taken.push(a);
        let join = LeftJoinView {
            table: source_of(m),
            alias: a,
            from_alias,
            from_key: steps[i].from_key,
            to_key: steps[i].to_key,
        };
        let joins2 = joins.push(join);
        crate::text::lemma_fresh_alias(taken, steps[i].to_model);
        lemma_within_push(taken, a);
        assert(aliases_taken(refs2, taken2)) by {
            assert forall|k: int| 0 <= k < refs2.len() implies taken2.contains(
                (#[trigger] refs2[k]).alias,
            ) by {
                if k < refs.len() {
                    assert(refs2[k] == refs[k]);
                    assert(taken.contains(refs[k].alias));
                }
            }
        }
        lemma_planned_aliases(g, steps, i + 1, refs2, taken2, joins2);
        lemma_planned_joins(g, steps, i + 1, refs2, taken2, joins2);
        let (all, out) = planned_joins_from(g, steps, i, refs, taken, joins)->Ok_0;
        assert forall|k: int| i <= k < steps.len() implies {
            let b = (#[trigger] out[joins.len() + (k - i)]).alias;
            &&& !taken.contains(b)
            &&& forall|m: int| 0 <= m < refs.len() + (k - i) ==> all[m].alias != b
        } by {
            let b = out[joins.len() + (k - i)].alias;
            if k == i {
                assert(out[joins.len() as int] == joins2[joins.len() as int]);
                assert(b == a);
                assert forall|m: int| 0 <= m < refs.len() implies all[m].alias != b by {
                    assert(all[m] == refs2[m]);
                    assert(refs2[m] == refs[m]);
                    assert(taken.contains(refs[m].alias));
                }
            } else {
                assert(out[joins2.len() + (k - (i + 1))] == out[joins.len() + (k - i)]);
                assert(!taken2.contains(b));
                if taken.contains(b) {
                    assert(taken2.contains(b));
                }
            }
        }
    }
}

/// The alias of each join that the rewriter adds is new: it is not the
/// name under which a table after `FROM` is visible, and not the alias of
/// any reference before it.
pub proof fn lemma_join_aliases_new(g: GraphView, s: SelectView)
    requires
        plan_select(g, s) is Ok,
        plan_select(g, s)->Ok_0 is Some,
    ensures
        ({
            let plan = plan_select(g, s)->Ok_0->Some_0;
            let refs = from_refs(g, s.from).0;
            forall|k: int|
                0 <= k < plan.joins.len() ==> {
                    let a = (#[trigger] plan.joins[k]).alias;
                    &&& !visible_names_from(s.from, 0, Seq::empty()).contains(a)
                    &&& forall|m: int| 0 <= m < refs.len() + k ==> plan.refs[m].alias != a
                }
        }),
{
    let names = visible_names_from(s.from, 0, Seq::empty());
    let (refs, taken) = from_refs(g, s.from);
    let steps = plan_steps(g, s);
    let plan = plan_select(g, s)->Ok_0->Some_0;
    lemma_visible_names(s.from, 0, Seq::empty());
    lemma_from_refs_taken(g, s.from, 0, Seq::empty(), names);
    lemma_planned_aliases(g, steps, 0, refs, taken, Seq::empty());
    lemma_planned_joins(g, steps, 0, refs, taken, Seq::empty());
    assert forall|k: int| 0 <= k < plan.joins.len() implies {
        let a = (#[trigger] plan.joins[k]).alias;
        &&& !names.contains(a)
        &&& forall|m: int| 0 <= m < refs.len() + k ==> plan.refs[m].alias != a
    } by {
        assert(plan.joins[0 + (k - 0)] == plan.joins[k]);
        let a = plan.joins[k].alias;
        if names.contains(a) {
            assert(taken.contains(a));
        }
    }
}

/// The text of SQL that speaks of no model, as it comes back.
pub open spec fn passed_text(sql: Seq<char>) -> Seq<char> {
    crate::text::join(printed(parsed_statements(sql)->Ok_0), ";\n"@)
}

/// SQL that speaks of no model comes back as the parser prints what it
/// read in it.
pub proof fn lemma_text_passthrough(g: GraphView, sql: Seq<char>)
    requires
        passes(g, sql),
    ensures
        rewritten(g, sql) == Ok::<Seq<char>, ErrorView>(passed_text(sql)),
{
}

/// Rewriting is idempotent on SQL that speaks of no model, wherever the
/// parser reads in the text that it printed the statements that it
/// printed: the text that came back then comes back again. That the
/// parser does so is asked here, not shown.
pub proof fn lemma_text_idempotent(g: GraphView, sql: Seq<char>)
    requires
        passes(g, sql),
        admitted(passed_text(sql)),
        parsed_statements(passed_text(sql)) == parsed_statements(sql),
    ensures
        rewritten(g, sql) == Ok::<Seq<char>, ErrorView>(passed_text(sql)),
        rewritten(g, passed_text(sql)) == rewritten(g, sql),
{
}

} // verus!
