//! What a rewritten `SELECT` is as a `SELECT` of the parser: the value
//! that is printed.

use vstd::prelude::*;
use vstd::string::*;
use sqlparser::ast::Join;
use sqlparser::ast::Select;
use sqlparser::ast::TableWithJoins;
use crate::error::lemma_try_map_concat;
use crate::error::lemma_try_map_each;
use crate::error::try_map_from;
use crate::error::ErrorView;
use crate::graph::GraphView;
use crate::model::Aggregation;
use crate::model::MetricType;
use crate::rewriter::apply_plan;
use crate::rewriter::as_joins;
use crate::rewriter::expr::group_by_for;
use crate::rewriter::expr::has_aggregate;
use crate::rewriter::expr::has_plain;
use crate::rewriter::expr::needed_sql_from;
use crate::rewriter::expr::resolve_from;
use crate::rewriter::expr::rewrite_column;
use crate::rewriter::expr::rewrite_item_fn;
use crate::rewriter::expr::Context;
use crate::rewriter::laws::lemma_group_by_positions;
use crate::rewriter::laws::lemma_rewritten_tables;
use crate::rewriter::laws::lemma_sum_metric;
use crate::rewriter::laws::models_before;
use crate::rewriter::laws::positions_upto;
use crate::rewriter::laws::rewritten_item;
use crate::rewriter::parsed_metrics_from;
use crate::rewriter::plan::plan_select;
use crate::rewriter::plan::table_model;
use crate::rewriter::plan::PlanView;
use crate::rewriter::rewrite_select;
use crate::rewriter::rewritten_select;
use crate::rewriter::expr::ParsedMetricView;
use crate::sql::alias_of_name;
use crate::sql::call_of;
use crate::sql::column_of;
use crate::sql::equals_of;
use crate::sql::from_item_of;
use crate::sql::left_join_of;
use crate::sql::positions_of;
use crate::sql::select_of;
use crate::sql::table_of;
use crate::tree::lifted_select;
use crate::tree::lowered_expr;
use crate::tree::lowered_from_fn;
use crate::tree::lowered_from_item;
use crate::tree::lowered_group_by;
use crate::tree::lowered_items;
use crate::tree::lowered_join;
use crate::tree::lowered_join_fn;
use crate::tree::lowered_source;
use crate::tree::JoinView;
use crate::tree::LeftJoinView;
use crate::tree::SelectView;

verus! {

/// The plan of a `SELECT` of the parser that names a model after `FROM`.
pub open spec fn plan_of(g: GraphView, s: Select) -> PlanView {
    plan_select(g, lifted_select(s))->Ok_0->Some_0
}

/// The SQL of the metrics that a `SELECT` of the parser refers to, as the
/// parser reads it.
pub open spec fn metrics_of(g: GraphView, s: Select) -> Seq<ParsedMetricView> {
    parsed_metrics_from(
        needed_sql_from(g, plan_of(g, s).refs, lifted_select(s).projection, 0, Seq::empty()),
        0,
        Seq::empty(),
    )
}

/// The tree of a `SELECT` of the parser that names a model, rewritten by
/// its plan.
pub open spec fn planned_tree(g: GraphView, s: Select) -> SelectView {
    apply_plan(g, plan_of(g, s), metrics_of(g, s), lifted_select(s))->Ok_0
}

/// What stands after `FROM` in a tree, as the parser holds it.
pub open spec fn written_tables(t: SelectView) -> Seq<TableWithJoins> {
    try_map_from(t.from, lowered_from_fn(), 0)->Ok_0
}

/// Whether a `SELECT` of the parser names a model and is rewritten.
pub open spec fn is_planned(g: GraphView, s: Select) -> bool {
    &&& plan_select(g, lifted_select(s)) is Ok
    &&& plan_select(g, lifted_select(s))->Ok_0 is Some
    &&& rewritten_select(g, s) is Ok
}

/// The `SELECT` that is printed for one that names a model: the `SELECT`
/// that was read, with the select list, the tables, the condition and the
/// grouping of its rewritten tree in the place of its own. It keeps one
/// item for each item of the select list and one table for each table
/// after `FROM`, each the one that the tree holds at its place.
pub proof fn lemma_printed_select(g: GraphView, s: Select)
    requires
        is_planned(g, s),
    ensures
        ({
            let t = planned_tree(g, s);
            let from = lifted_select(s).from;
            &&& rewritten_select(g, s)->Ok_0 == select_of(
                t.rest,
                lowered_items(t.projection),
                written_tables(t),
                match t.selection {
                    Some(e) => Some(lowered_expr(e)),
                    None => None,
                },
                lowered_group_by(t.group_by),
            )
            &&& lowered_items(t.projection).len() == lifted_select(s).projection.len()
            &&& written_tables(t).len() == from.len()
            &&& forall|j: int|
                0 <= j < from.len() ==> lowered_from_item(
                    rewritten_item(g, plan_of(g, s), from, j),
                ) == Ok::<TableWithJoins, ErrorView>(#[trigger] written_tables(t)[j])
        }),
{
    let plan = plan_of(g, s);
    let tree = lifted_select(s);
    let t = planned_tree(g, s);
    let c = Context { graph: g, refs: plan.refs, parsed: metrics_of(g, s) };
    assert(rewrite_select(g, metrics_of(g, s), tree) == Ok::<SelectView, ErrorView>(t));
    lemma_rewritten_tables(g, metrics_of(g, s), tree);
    lemma_try_map_each(tree.projection, rewrite_item_fn(c), 0);
    lemma_try_map_each(t.from, lowered_from_fn(), 0);
    assert forall|j: int| 0 <= j < tree.from.len() implies lowered_from_item(
        rewritten_item(g, plan, tree.from, j),
    ) == Ok::<TableWithJoins, ErrorView>(#[trigger] written_tables(t)[j]) by {
        assert(t.from[j] == rewritten_item(g, plan, tree.from, j));
        assert(lowered_from_fn()(t.from[j]) is Ok);
    }
}

/// Where the rewritten select list holds both an item that aggregates and
/// an expression that does not, the `SELECT` that is printed is grouped by
/// place: by one number for each expression that does not aggregate, in
/// the order of the list, and by nothing else.
pub proof fn lemma_printed_grouping(g: GraphView, s: Select)
    requires
        is_planned(g, s),
        planned_tree(g, s).projection.len() < usize::MAX,
        has_aggregate(planned_tree(g, s).projection),
        has_plain(planned_tree(g, s).projection),
    ensures
        ({
            let t = planned_tree(g, s);
            &&& t.group_by is Positions
            &&& positions_upto(t.projection, t.projection.len() as int, t.group_by->Positions_0)
            &&& rewritten_select(g, s)->Ok_0 == select_of(
                t.rest,
                lowered_items(t.projection),
                written_tables(t),
                match t.selection {
                    Some(e) => Some(lowered_expr(e)),
                    None => None,
                },
                positions_of(t.group_by->Positions_0),
            )
        }),
{
    let t = planned_tree(g, s);
    lemma_printed_select(g, s);
    lemma_group_by_positions(t.projection, lifted_select(s).group_by);
    assert(t.group_by == group_by_for(t.projection, lifted_select(s).group_by));
}

/// The join that is printed for an added join on a table: a `LEFT JOIN` of
/// that table under the alias of the join, on the equality of the key of
/// the side that it joins and its own key.
pub open spec fn printed_join(l: LeftJoinView) -> Join {
    left_join_of(
        table_of(l.table->Table_0, alias_of_name(l.alias)),
        equals_of(column_of(l.from_alias, l.from_key), column_of(l.alias, l.to_key)),
    )
}

/// In the `SELECT` that is printed, the first table that names a model
/// has its own joins and then the joins of the plan, one for each and in
/// their order, and each of them on a table is a `LEFT JOIN` of that table
/// on the equality of the two keys.
pub proof fn lemma_printed_joins(g: GraphView, s: Select, j: int)
    requires
        is_planned(g, s),
        0 <= j < lifted_select(s).from.len(),
        table_model(g, lifted_select(s).from[j].table) is Some,
        models_before(g, lifted_select(s).from, j) == 0,
    ensures
        ({
            let t = planned_tree(g, s);
            let plan = plan_of(g, s);
            let item = rewritten_item(g, plan, lifted_select(s).from, j);
            let own = try_map_from(lifted_select(s).from[j].joins, lowered_join_fn(), 0);
            let added = try_map_from(as_joins(plan.joins), lowered_join_fn(), 0);
            let relation = lowered_source(
                item.table->Physical_table,
                match item.table->Physical_written_alias {
                    Some(a) => a,
                    None => alias_of_name(item.table->Physical_alias),
                },
            );
            &&& own is Ok
            &&& added is Ok
            &&& relation is Ok
            &&& written_tables(t)[j] == from_item_of(relation->Ok_0, own->Ok_0 + added->Ok_0)
            &&& added->Ok_0.len() == plan.joins.len()
            &&& forall|k: int|
                0 <= k < plan.joins.len() && (#[trigger] plan.joins[k]).table is Table
                    ==> added->Ok_0[k] == printed_join(plan.joins[k])
        }),
{
    let t = planned_tree(g, s);
    let plan = plan_of(g, s);
    let from = lifted_select(s).from;
    let item = rewritten_item(g, plan, from, j);
    lemma_printed_select(g, s);
    assert(lowered_from_item(item) == Ok::<TableWithJoins, ErrorView>(written_tables(t)[j]));
    assert(item.joins == from[j].joins + as_joins(plan.joins));
    lemma_try_map_concat(from[j].joins, as_joins(plan.joins), lowered_join_fn());
    let added = try_map_from(as_joins(plan.joins), lowered_join_fn(), 0);
    lemma_try_map_each(as_joins(plan.joins), lowered_join_fn(), 0);
    assert forall|k: int|
        0 <= k < plan.joins.len() && (#[trigger] plan.joins[k]).table is Table implies added->Ok_0[k]
        == printed_join(plan.joins[k]) by {
        assert(as_joins(plan.joins)[k] == JoinView::Left(plan.joins[k]));
        assert(lowered_join_fn()(as_joins(plan.joins)[k]) == lowered_join(
            JoinView::Left(plan.joins[k]),
        ));
    }
}

/// A reference to a metric that sums a column is printed as the call of
/// `SUM` on that column of the table of its model, under the alias of the
/// model.
pub proof fn lemma_printed_sum(c: Context, q: Seq<char>, n: Seq<char>, column: Seq<char>)
    requires
        resolve_from(c.refs, q, 0) is Some,
        c.graph.get_model(resolve_from(c.refs, q, 0)->Some_0.model) is Some,
        c.graph.get_model(resolve_from(c.refs, q, 0)->Some_0.model)->Some_0.get_metric(n) is Some,
        ({
            let m = c.graph.get_model(resolve_from(c.refs, q, 0)->Some_0.model)->Some_0.get_metric(
                n,
            )->Some_0;
            m.kind == MetricType::Simple && m.agg == Some(Aggregation::Sum) && m.sql == Some(column)
        }),
        column != "*"@,
    ensures
        rewrite_column(c, q, n, true) is Ok,
        rewrite_column(c, q, n, true)->Ok_0 is Some,
        lowered_expr(rewrite_column(c, q, n, true)->Ok_0->Some_0) == call_of(
            "SUM"@,
            false,
            seq![column_of(resolve_from(c.refs, q, 0)->Some_0.alias, column)],
        ),
{
    lemma_sum_metric(c, q, n, column);
}

} // verus!
