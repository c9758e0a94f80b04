//! The query rewriter: a `SELECT` written against models becomes a
//! `SELECT` against their physical tables, with the metrics as aggregates,
//! the joins that the references need, and the grouping.

pub mod plan;
pub mod expr;
pub mod laws;
pub mod output;

use vstd::prelude::*;
use vstd::string::*;
use crate::sql::admitted;
use sqlparser::parser::ParserError;
use crate::rewriter::laws::names_no_model;
use crate::error::lemma_try_map_end;
use crate::error::lemma_try_map_start;
use crate::error::lemma_try_map_step;
use crate::error::prepend;
use crate::rewriter::expr::needed_sql_from;
use crate::sql::error_text;
use crate::sql::item_parts;
use crate::sql::nested_body_of;
use crate::sql::operation_of;
use crate::sql::parsed_statements;
use crate::sql::printable;
use crate::sql::printed_statement;
use crate::sql::projection_of;
use crate::sql::query_body;
use crate::sql::select_body_of;
use crate::sql::set_expr_parts;
use crate::sql::statement_of;
use crate::sql::statement_parts;
use crate::sql::with_body;
use crate::text::views;
use crate::tree::lifted_expr;
use crate::tree::lifted_select;
use crate::tree::lowered_select;
use crate::tree::opt_expr_view;
use crate::tree::LIFT_DEPTH;
use crate::error::try_map_from;
use crate::error::ErrorView;
use crate::error::SidemanticError;
use crate::graph::GraphView;
use crate::graph::JoinStepView;
use crate::graph::SemanticGraph;
use crate::text::fresh_alias;
use crate::tree::ExprView;
use crate::tree::FromItem;
use crate::tree::FromView;
use crate::tree::GroupBy;
use crate::tree::ItemView;
use crate::tree::JoinTree;
use crate::tree::JoinView;
use crate::tree::LeftJoinView;
use crate::tree::SelectTree;
use crate::tree::SelectView;
use crate::tree::SqlExpr;
use crate::tree::TableRef;
use crate::tree::TableRefView;
use crate::tree::from_view;
use crate::tree::joins_view;
use crate::sql::BodyParts;
use crate::sql::ItemParts;
use crate::sql::StatementParts;
use sqlparser::ast::Query;
use sqlparser::ast::Select;
use sqlparser::ast::SetExpr;
use sqlparser::ast::Statement;
use crate::rewriter::plan::ModelRefView;
use crate::rewriter::plan::ref_models;
use crate::rewriter::plan::table_model;
use crate::rewriter::plan::from_refs;
use crate::rewriter::plan::alias_from;
use crate::rewriter::plan::source_of;
use crate::rewriter::plan::planned_joins_from;
use crate::rewriter::plan::RewritePlan;
use crate::rewriter::plan::PlanView;
use crate::rewriter::plan::join_targets;
use crate::rewriter::plan::plan_select;
use crate::rewriter::plan::model_source;
use crate::rewriter::expr::ParsedMetric;
use crate::rewriter::expr::ParsedMetricView;
use crate::rewriter::expr::parsed_view;
use crate::rewriter::expr::Context;
use crate::rewriter::expr::rewrite_expr;
use crate::rewriter::expr::rewrite_item_fn;
use crate::rewriter::expr::group_by_for;
use crate::rewriter::expr::has_aggregations;
use crate::rewriter::expr::has_non_aggregated_columns;
use crate::rewriter::expr::build_group_by;

verus! {

/// The added joins as joins of the tree.
pub open spec fn as_joins(joins: Seq<LeftJoinView>) -> Seq<JoinView> {
    joins.map_values(|j: LeftJoinView| JoinView::Left(j))
}

/// What stands after `FROM`, from `i` on, added to `out`: each table
/// that names a model becomes the source of the model under the alias of
/// its reference, and the first of them gets the added joins after its
/// own. `k` counts the models so far.
pub open spec fn rewrite_from_from(
    g: GraphView,
    plan: PlanView,
    from: Seq<FromView>,
    i: int,
    k: int,
    out: Seq<FromView>,
) -> Seq<FromView>
    decreases from.len() - i,
{
    if i < 0 || i >= from.len() {
        out
    } else {
        match table_model(g, from[i].table) {
            Some(m) => if g.get_model(m) is Some && 0 <= k < plan.refs.len() {
                rewrite_from_from(
                    g,
                    plan,
                    from,
                    i + 1,
                    k + 1,
                    out.push(
                        FromView {
                            table: TableRefView::Physical {
                                table: source_of(g.get_model(m)->Some_0),
                                alias: plan.refs[k].alias,
                                written_alias: from[i].table->Named_written_alias,
                            },
                            joins: if k == 0 {
                                from[i].joins + as_joins(plan.joins)
                            } else {
                                from[i].joins
                            },
                        },
                    ),
                )
            } else {
                rewrite_from_from(g, plan, from, i + 1, k, out.push(from[i]))
            },
            None => rewrite_from_from(g, plan, from, i + 1, k, out.push(from[i])),
        }
    }
}

/// The `SELECT` rewritten by a plan.
pub open spec fn apply_plan(
    g: GraphView,
    plan: PlanView,
    parsed: Seq<ParsedMetricView>,
    s: SelectView,
) -> Result<SelectView, ErrorView> {
    let c = Context { graph: g, refs: plan.refs, parsed };
    match try_map_from(s.projection, rewrite_item_fn(c), 0) {
        Err(e) => Err(e),
        Ok(projection) => match s.selection {
            None => Ok(
                SelectView {
                    projection,
                    from: rewrite_from_from(g, plan, s.from, 0, 0, Seq::empty()),
                    selection: None,
                    group_by: group_by_for(projection, s.group_by),
                    rest: s.rest,
                },
            ),
            Some(w) => match rewrite_expr(c, w, false) {
                Err(e) => Err(e),
                Ok(condition) => Ok(
                    SelectView {
                        projection,
                        from: rewrite_from_from(g, plan, s.from, 0, 0, Seq::empty()),
                        selection: Some(condition),
                        group_by: group_by_for(projection, s.group_by),
                        rest: s.rest,
                    },
                ),
            },
        },
    }
}

/// The `SELECT` rewritten: as it is where no table after `FROM` names a
/// model, and else by its plan.
pub open spec fn rewrite_select(g: GraphView, parsed: Seq<ParsedMetricView>, s: SelectView) -> Result<
    SelectView,
    ErrorView,
> {
    match plan_select(g, s) {
        Err(e) => Err(e),
        Ok(None) => Ok(s),
        Ok(Some(plan)) => apply_plan(g, plan, parsed, s),
    }
}

/// The rewriter of queries over one graph.
pub struct QueryRewriter<'a> {
    graph: &'a SemanticGraph,
}

impl<'a> QueryRewriter<'a> {
    /// The graph that the rewriter reads.
    pub closed spec fn graph(&self) -> SemanticGraph {
        *self.graph
    }

    /// A rewriter over the given graph.
    pub fn new(graph: &'a SemanticGraph) -> (r: Self)
        ensures
            r.graph() == *graph,
    {
        QueryRewriter { graph }
    }
}

/// The result of rewriting a `SELECT`, as a view.
pub open spec fn select_result_view(r: Result<SelectTree, SidemanticError>) -> Result<
    SelectView,
    ErrorView,
> {
    match r {
        Ok(s) => Ok(s@),
        Err(e) => Err(e@),
    }
}

impl<'a> QueryRewriter<'a> {
    /// What stands after `FROM`, with the sources of the models in the
    /// place of their names and the added joins after the first of them.
    fn rewrite_from(&self, plan: &RewritePlan, from: Vec<FromItem>) -> (r: Vec<FromItem>)
        ensures
            from_view(r@) == rewrite_from_from(
                self.graph()@,
                plan@,
                from_view(from@),
                0,
                0,
                Seq::empty(),
            ),
    {
        let ghost g = self.graph()@;
        let ghost fv = from_view(from@);
        let n = from.len();
        let mut rest = from;
        let mut out: Vec<FromItem> = Vec::new();
        let mut i: usize = 0;
        let mut k: usize = 0;
        proof {
            assert(from_view(out@) =~= Seq::empty());
            assert(from_view(rest@) =~= fv.subrange(0, fv.len() as int));
        }
        while i < n
            invariant
                i <= n,
                k <= i,
                n == fv.len(),
                g == self.graph()@,
                fv == from_view(from@),
                from_view(rest@) == fv.subrange(i as int, fv.len() as int),
                rewrite_from_from(g, plan@, fv, 0, 0, Seq::empty()) == rewrite_from_from(
                    g,
                    plan@,
                    fv,
                    i as int,
                    k as int,
                    from_view(out@),
                ),
            decreases n - i,
        {
            let ghost before = from_view(rest@);
            let ghost old_rest = rest@;
            assert(before.len() == n - i);
            let item = rest.remove(0);
            assert(item@ == before[0]);
            assert(rest@ =~= old_rest.remove(0));
            assert forall|j: int| 0 <= j < rest@.len() implies (#[trigger] from_view(rest@)[j])
                == before[j + 1] by {
                assert(rest@[j] == old_rest[j + 1]);
            }
            assert(from_view(rest@) =~= before.subrange(1, before.len() as int));
            assert(before.subrange(1, before.len() as int) =~= fv.subrange(i + 1, fv.len() as int));
            let ghost prev = from_view(out@);
            let source = match self.model_of_table(&item.table) {
                Some(m) => Some(model_source(m)),
                None => None,
            };
            match source {
                Some(table) => {
                    if k < plan.refs.len() {
                        assert(plan@.refs[k as int] == plan.refs@[k as int]@);
                        let FromItem { table: written, joins } = item;
                        let written_alias = match written {
                            TableRef::Named { path, alias_name, written_alias, source } => written_alias,
                            _ => None,
                        };
                        let mut all = joins;
                        if k == 0 {
                            let ghost own = joins_view(all@);
                            let mut j: usize = 0;
                            while j < plan.joins.len()
                                invariant
                                    j <= plan.joins.len(),
                                    joins_view(all@) == own + as_joins(plan@.joins).subrange(
                                        0,
                                        j as int,
                                    ),
                                decreases plan.joins.len() - j,
                            {
                                let ghost so_far = joins_view(all@);
                                let added = JoinTree::Left(plan.joins[j].clone());
                                assert(added@ == as_joins(plan@.joins)[j as int]);
                                all.push(added);
                                assert(joins_view(all@) =~= so_far.push(added@));
                                j = j + 1;
                                assert(own + as_joins(plan@.joins).subrange(0, j as int) =~= (own
                                    + as_joins(plan@.joins).subrange(0, j - 1)).push(
                                    as_joins(plan@.joins)[j - 1],
                                ));
                            }
                            assert(as_joins(plan@.joins).subrange(0, j as int) =~= as_joins(
                                plan@.joins,
                            ));
                        }
                        let rewritten = FromItem {
                            table: TableRef::Physical {
                                table,
                                alias: plan.refs[k].alias.clone(),
                                written_alias,
                            },
                            joins: all,
                        };
                        out.push(rewritten);
                        assert(from_view(out@) =~= prev.push(rewritten@));
                        k = k + 1;
                    } else {
                        out.push(item);
                        assert(from_view(out@) =~= prev.push(item@));
                    }
                },
                None => {
                    out.push(item);
                    assert(from_view(out@) =~= prev.push(item@));
                },
            }
            i = i + 1;
        }
        out
    }

    /// The `SELECT` rewritten by a plan, with the SQL of its metrics as
    /// parsed.
    pub fn apply_plan(
        &self,
        plan: &RewritePlan,
        parsed: &Vec<ParsedMetric>,
        select: SelectTree,
    ) -> (r: Result<SelectTree, SidemanticError>)
        ensures
            select_result_view(r) == apply_plan(
                self.graph()@,
                plan@,
                parsed_view(parsed@),
                select@,
            ),
    {
        let SelectTree { projection, from, selection, group_by, rest } = select;
        let projection = match self.rewrite_projection(&plan.refs, parsed, projection) {
            Ok(p) => p,
            Err(e) => {
                return Err(e);
            },
        };
        let from = self.rewrite_from(plan, from);
        let selection = match selection {
            None => None,
            Some(w) => match self.rewrite_expr(&plan.refs, parsed, w, false) {
                Ok(c) => Some(c),
                Err(e) => {
                    return Err(e);
                },
            },
        };
        let group_by = if has_aggregations(&projection) && has_non_aggregated_columns(&projection) {
            GroupBy::Positions(build_group_by(&projection))
        } else {
            group_by
        };
        Ok(SelectTree { projection, from, selection, group_by, rest })
    }

    /// The `SELECT` rewritten, with the SQL of its metrics as parsed: as
    /// it is where no table after `FROM` names a model; else with the
    /// metrics and dimensions of its select list and the dimensions of
    /// its condition replaced, the sources of its models after `FROM`,
    /// a `LEFT JOIN` for each model that is referred to but not after
    /// `FROM`, and a grouping by the items that do not aggregate.
    pub fn rewrite_select(&self, select: SelectTree, parsed: &Vec<ParsedMetric>) -> (r: Result<
        SelectTree,
        SidemanticError,
    >)
        requires
            self.graph().wf(),
        ensures
            select_result_view(r) == rewrite_select(self.graph()@, parsed_view(parsed@), select@),
    {
        match self.plan_select(&select) {
            Err(e) => Err(e),
            Ok(None) => Ok(select),
            Ok(Some(plan)) => self.apply_plan(&plan, parsed, select),
        }
    }
}

/// Whether an error is one that planning the joins of a query can give:
/// an unknown model, or no join path.
pub open spec fn is_join_error(e: ErrorView) -> bool {
    e is ModelNotFound || e is NoJoinPath
}

/// A join plan fails only for an unknown model or for want of a join path.
pub proof fn lemma_join_plan_errors(
    g: GraphView,
    base: Seq<char>,
    present: Seq<Seq<char>>,
    targets: Seq<Seq<char>>,
    i: int,
    plan: Seq<JoinStepView>,
)
    ensures
        g.join_plan_from(base, present, targets, i, plan) is Err ==> is_join_error(
            g.join_plan_from(base, present, targets, i, plan)->Err_0,
        ),
    decreases targets.len() - i,
{
    if 0 <= i < targets.len() {
        match g.join_path(base, targets[i]) {
            Err(e) => {},
            Ok(p) => {
                lemma_join_plan_errors(
                    g,
                    base,
                    present,
                    targets,
                    i + 1,
                    crate::graph::plan::add_path(plan, present, p, 0),
                );
            },
        }
    }
}

/// The joins of a plan fail only for an unknown model.
pub proof fn lemma_planned_joins_errors(
    g: GraphView,
    steps: Seq<JoinStepView>,
    i: int,
    refs: Seq<ModelRefView>,
    taken: Seq<Seq<char>>,
    joins: Seq<LeftJoinView>,
)
    ensures
        planned_joins_from(g, steps, i, refs, taken, joins) is Err ==> is_join_error(
            planned_joins_from(g, steps, i, refs, taken, joins)->Err_0,
        ),
    decreases steps.len() - i,
{
    if 0 <= i < steps.len() {
        match g.get_model(steps[i].to_model) {
            None => {},
            Some(m) => match alias_from(refs, steps[i].from_model, 0) {
                None => {},
                Some(from_alias) => {
                    lemma_planned_joins_errors(
                        g,
                        steps,
                        i + 1,
                        refs.push(
                            ModelRefView {
                                model: steps[i].to_model,
                                alias: fresh_alias(taken, steps[i].to_model),
                            },
                        ),
                        taken.push(fresh_alias(taken, steps[i].to_model)),
                        joins.push(
                            LeftJoinView {
                                table: source_of(m),
                                alias: fresh_alias(taken, steps[i].to_model),
                                from_alias,
                                from_key: steps[i].from_key,
                                to_key: steps[i].to_key,
                            },
                        ),
                    );
                },
            },
        }
    }
}

/// Planning a `SELECT` fails only for an unknown model or for want of a
/// join path.
pub proof fn lemma_plan_errors(g: GraphView, s: SelectView)
    ensures
        plan_select(g, s) is Err ==> is_join_error(plan_select(g, s)->Err_0),
{
    let (refs, taken) = from_refs(g, s.from);
    if refs.len() > 0 {
        lemma_join_plan_errors(
            g,
            refs[0].model,
            ref_models(refs),
            join_targets(g, refs, s),
            0,
            Seq::empty(),
        );
        match g.join_plan(refs[0].model, ref_models(refs), join_targets(g, refs, s)) {
            Err(e) => {},
            Ok(steps) => {
                lemma_planned_joins_errors(g, steps, 0, refs, taken, Seq::empty());
            },
        }
    }
}

/// Rewriting an expression fails only where the SQL of a metric has not
/// been parsed.
pub proof fn lemma_expr_errors(c: Context, e: ExprView, metrics: bool)
    ensures
        rewrite_expr(c, e, metrics) is Err ==> rewrite_expr(c, e, metrics)->Err_0 is SqlParse,
        !metrics ==> rewrite_expr(c, e, metrics) is Ok,
    decreases e,
{
    match e {
        ExprView::Binary { left, op, right } => {
            lemma_expr_errors(c, *left, metrics);
            lemma_expr_errors(c, *right, metrics);
        },
        ExprView::Unary { operator, operand } => {
            lemma_expr_errors(c, *operand, metrics);
        },
        ExprView::Nested(inner) => {
            lemma_expr_errors(c, *inner, metrics);
        },
        _ => {},
    }
}

/// Rewriting a select list fails only where the SQL of a metric has not
/// been parsed.
pub proof fn lemma_items_errors(c: Context, items: Seq<ItemView>, i: int)
    ensures
        try_map_from(items, rewrite_item_fn(c), i) is Err ==> try_map_from(
            items,
            rewrite_item_fn(c),
            i,
        )->Err_0 is SqlParse,
    decreases items.len() - i,
{
    if 0 <= i < items.len() {
        match items[i] {
            ItemView::Unnamed(e) => {
                lemma_expr_errors(c, e, true);
            },
            ItemView::Aliased { expr, alias } => {
                lemma_expr_errors(c, expr, true);
            },
            ItemView::Named { expr, label } => {
                lemma_expr_errors(c, expr, true);
            },
            ItemView::Wildcard(w) => {},
        }
        lemma_items_errors(c, items, i + 1);
    }
}

/// Applying a plan fails only where the SQL of a metric has not been parsed.
pub proof fn lemma_apply_errors(
    g: GraphView,
    plan: PlanView,
    parsed: Seq<ParsedMetricView>,
    s: SelectView,
)
    ensures
        apply_plan(g, plan, parsed, s) is Err ==> apply_plan(g, plan, parsed, s)->Err_0 is SqlParse,
{
    let c = Context { graph: g, refs: plan.refs, parsed };
    lemma_items_errors(c, s.projection, 0);
    match s.selection {
        Some(w) => {
            lemma_expr_errors(c, w, false);
        },
        None => {},
    }
}

/// Whether an error is one that rewriting a query can give.
pub open spec fn is_rewrite_error(e: ErrorView) -> bool {
    e is SqlParse || e is ModelNotFound || e is NoJoinPath
}

/// What the parser makes of the SQL of a metric, read as the only item
/// of a select list: the tree of the first item of the first statement
/// of `SELECT` followed by the SQL, where that text can be handed to the
/// parser, the statement is a query whose body is a `SELECT` and the item
/// is an expression without an alias; nothing otherwise.
pub open spec fn metric_tree(sql: Seq<char>) -> Option<ExprView> {
    if !admitted("SELECT "@ + sql) {
        None
    } else {
        metric_tree_of(parsed_statements("SELECT "@ + sql))
    }
}

/// The tree of the first item of the first statement of what the parser
/// read, where that is an expression without an alias in the select list
/// of a query whose body is a `SELECT`.
pub open spec fn metric_tree_of(parsed: Result<Seq<Statement>, ParserError>) -> Option<ExprView> {
    match parsed {
        Err(e) => None,
        Ok(v) => if v.len() == 0 {
            None
        } else {
            match statement_parts(v[0]) {
                StatementParts::Other(o) => None,
                StatementParts::Query(q) => match set_expr_parts(query_body(q)) {
                    BodyParts::Select(s) => if projection_of(s).len() == 0 {
                        None
                    } else {
                        match item_parts(projection_of(s)[0]) {
                            ItemParts::Unnamed(e) => Some(lifted_expr(e, LIFT_DEPTH as nat)),
                            _ => None,
                        }
                    },
                    _ => None,
                },
            }
        },
    }
}

/// `acc` with the SQL from `i` on that parses, each with its tree.
pub open spec fn parsed_metrics_from(
    wanted: Seq<Seq<char>>,
    i: int,
    acc: Seq<ParsedMetricView>,
) -> Seq<ParsedMetricView>
    decreases wanted.len() - i,
{
    if i < 0 || i >= wanted.len() {
        acc
    } else {
        match metric_tree(wanted[i]) {
            Some(t) => parsed_metrics_from(
                wanted,
                i + 1,
                acc.push(ParsedMetricView { sql: wanted[i], tree: t }),
            ),
            None => parsed_metrics_from(wanted, i + 1, acc),
        }
    }
}

/// A `SELECT` of the parser rewritten: as it is where no table after
/// `FROM` names a model; else its tree, rewritten by its plan with the SQL
/// of its metrics as the parser reads it, as a `SELECT` of the parser.
pub open spec fn rewritten_select(g: GraphView, s: Select) -> Result<Select, ErrorView> {
    match plan_select(g, lifted_select(s)) {
        Err(e) => Err(e),
        Ok(None) => Ok(s),
        Ok(Some(plan)) => match apply_plan(
            g,
            plan,
            parsed_metrics_from(
                needed_sql_from(g, plan.refs, lifted_select(s).projection, 0, Seq::empty()),
                0,
                Seq::empty(),
            ),
            lifted_select(s),
        ) {
            Err(e) => Err(e),
            Ok(t) => lowered_select(t),
        },
    }
}

/// The body of a query rewritten, down to `depth` levels of nesting: a
/// `SELECT` by [`rewritten_select`], a query in parentheses by its body,
/// a set operation by its two sides, anything else as it is.
pub open spec fn rewritten_set_expr(g: GraphView, body: SetExpr, depth: nat) -> Result<
    SetExpr,
    ErrorView,
>
    decreases depth, 0nat,
{
    if depth == 0 {
        Ok(body)
    } else {
        match set_expr_parts(body) {
            BodyParts::Select(s) => match rewritten_select(g, s) {
                Ok(r) => Ok(select_body_of(r)),
                Err(e) => Err(e),
            },
            BodyParts::Query(q) => match rewritten_query(g, q, (depth - 1) as nat) {
                Ok(r) => Ok(nested_body_of(r)),
                Err(e) => Err(e),
            },
            BodyParts::Operation(left, right) => match rewritten_set_expr(
                g,
                left,
                (depth - 1) as nat,
            ) {
                Err(e) => Err(e),
                Ok(l) => match rewritten_set_expr(g, right, (depth - 1) as nat) {
                    Err(e) => Err(e),
                    Ok(r) => Ok(operation_of(body, l, r)),
                },
            },
            BodyParts::Other => Ok(body),
        }
    }
}

/// A query rewritten, down to `depth` levels of nesting: the query with
/// its body rewritten.
pub open spec fn rewritten_query(g: GraphView, q: Query, depth: nat) -> Result<Query, ErrorView>
    decreases depth, 1nat,
{
    match rewritten_set_expr(g, query_body(q), depth) {
        Ok(b) => Ok(with_body(q, b)),
        Err(e) => Err(e),
    }
}

/// A statement rewritten: a query by its `SELECT`s, anything else as it is.
pub open spec fn rewritten_statement(g: GraphView, s: Statement) -> Result<Statement, ErrorView> {
    match statement_parts(s) {
        StatementParts::Query(q) => match rewritten_query(g, q, LIFT_DEPTH as nat) {
            Ok(r) => Ok(statement_of(r)),
            Err(e) => Err(e),
        },
        StatementParts::Other(o) => Ok(o),
    }
}

/// The text of the complaint about a statement that cannot be printed.
pub open spec fn unprintable_complaint() -> Seq<char> {
    "Unsupported SQL: an external table needs a location"@
}

/// The SQL text of a statement once it is rewritten; the statement must
/// be one that the printer can print.
pub open spec fn rewritten_statement_text(g: GraphView, s: Statement) -> Result<
    Seq<char>,
    ErrorView,
> {
    match rewritten_statement(g, s) {
        Ok(r) => if printable(r) {
            Ok(printed_statement(r))
        } else {
            Err(ErrorView::SqlParse(unprintable_complaint()))
        },
        Err(e) => Err(e),
    }
}

/// [`rewritten_statement_text`] over the graph `g`.
pub open spec fn rewritten_statement_text_fn(g: GraphView) -> spec_fn(Statement) -> Result<
    Seq<char>,
    ErrorView,
> {
    |s: Statement| rewritten_statement_text(g, s)
}

/// The text of the complaint about SQL that cannot be handed to the parser.
pub open spec fn refusal_complaint() -> Seq<char> {
    "Unsupported SQL: GRANTED BY and FOR CHANNEL need a name after them"@
}

/// The text of the complaint about SQL without a statement.
pub open spec fn empty_complaint() -> Seq<char> {
    "Empty SQL"@
}

/// SQL rewritten: the statements that the parser reads in it, each
/// rewritten and written out again, with `;` and a line break between
/// them; where none of them names a model, that is each as the parser
/// prints it. SQL that cannot be handed to the parser, the error of the
/// parser, SQL without a statement, and the first statement that cannot
/// be rewritten give their error.
pub open spec fn rewritten(g: GraphView, sql: Seq<char>) -> Result<Seq<char>, ErrorView> {
    if !admitted(sql) {
        Err(ErrorView::SqlParse(refusal_complaint()))
    } else {
        match parsed_statements(sql) {
            Err(e) => Err(ErrorView::SqlParse(error_text(e))),
            Ok(v) => if v.len() == 0 {
                Err(ErrorView::SqlParse(empty_complaint()))
            } else if all_pass(g, v) {
                Ok(crate::text::join(printed(v), ";\n"@))
            } else {
                match try_map_from(v, rewritten_statement_text_fn(g), 0) {
                    Err(e) => Err(e),
                    Ok(texts) => Ok(crate::text::join(texts, ";\n"@)),
                }
            },
        }
    }
}

/// Whether a `SELECT` of the parser names no model after `FROM`.
pub open spec fn select_passes(g: GraphView, s: Select) -> bool {
    names_no_model(g, lifted_select(s).from)
}

/// Whether no `SELECT` in the body of a query, down to `depth` levels of
/// nesting, names a model after `FROM`.
pub open spec fn body_passes(g: GraphView, body: SetExpr, depth: nat) -> bool
    decreases depth,
{
    if depth == 0 {
        true
    } else {
        match set_expr_parts(body) {
            BodyParts::Select(s) => select_passes(g, s),
            BodyParts::Query(q) => body_passes(g, query_body(q), (depth - 1) as nat),
            BodyParts::Operation(left, right) => body_passes(g, left, (depth - 1) as nat)
                && body_passes(g, right, (depth - 1) as nat),
            BodyParts::Other => true,
        }
    }
}

/// Whether no `SELECT` of a statement names a model after `FROM`.
pub open spec fn statement_passes(g: GraphView, s: Statement) -> bool {
    match statement_parts(s) {
        StatementParts::Query(q) => body_passes(g, query_body(q), LIFT_DEPTH as nat),
        StatementParts::Other(o) => true,
    }
}

/// Whether none of the statements names a model after `FROM`, and the
/// printer can print each.
pub open spec fn all_pass(g: GraphView, v: Seq<Statement>) -> bool {
    forall|i: int| 0 <= i < v.len() ==> statement_passes(g, #[trigger] v[i]) && printable(v[i])
}

/// The SQL texts of the given statements.
pub open spec fn printed(v: Seq<Statement>) -> Seq<Seq<char>> {
    v.map_values(|s: Statement| printed_statement(s))
}

/// Whether SQL speaks of no model: it can be handed to the parser and
/// parses, to at least one statement, the printer can print each of its
/// statements, and no `SELECT` of any of them names a model after `FROM`.
pub open spec fn passes(g: GraphView, sql: Seq<char>) -> bool {
    &&& admitted(sql)
    &&& parsed_statements(sql) is Ok
    &&& parsed_statements(sql)->Ok_0.len() > 0
    &&& all_pass(g, parsed_statements(sql)->Ok_0)
}

impl<'a> QueryRewriter<'a> {
    /// What the parser makes of the SQL of a metric, read as the only
    /// item of a select list; nothing where it does not parse as that.
    fn parse_metric(&self, sql: &str) -> (r: Option<SqlExpr>)
        ensures
            opt_expr_view(r) == metric_tree(sql@),
    {
        let wrapped = crate::text::concat2("SELECT ", sql);
        if !crate::sql::admits(wrapped.as_str()) {
            return None;
        }
        let mut statements = match crate::sql::parse_statements(wrapped.as_str()) {
            Ok(s) => s,
            Err(_) => {
                return None;
            },
        };
        if statements.len() == 0 {
            return None;
        }
        let query = match crate::sql::split_statement(statements.remove(0)) {
            StatementParts::Query(q) => q,
            StatementParts::Other(_) => {
                return None;
            },
        };
        let body = crate::sql::body_of(&query);
        let select = match crate::sql::split_set_expr(&body) {
            BodyParts::Select(s) => s,
            _ => {
                return None;
            },
        };
        let mut items = crate::sql::select_projection(&select);
        if items.len() == 0 {
            return None;
        }
        match crate::sql::split_item(items.remove(0)) {
            ItemParts::Unnamed(e) => Some(crate::tree::lift_expr(e, crate::tree::LIFT_DEPTH)),
            _ => None,
        }
    }

    /// A `SELECT` of the parser rewritten: as it is where no table after
    /// `FROM` names a model.
    fn rewrite_parsed_select(&self, select: Select) -> (r: Result<Select, SidemanticError>)
        requires
            self.graph().wf(),
        ensures
            match r {
                Ok(s) => rewritten_select(self.graph()@, select) == Ok::<Select, ErrorView>(s),
                Err(e) => rewritten_select(self.graph()@, select) == Err::<Select, ErrorView>(e@),
            },
            r is Err ==> is_rewrite_error(r->Err_0@),
            select_passes(self.graph()@, select) ==> r is Ok && r->Ok_0 == select,
    {
        let tree = crate::tree::lift_select(select);
        proof {
            lemma_plan_errors(self.graph()@, tree@);
            if select_passes(self.graph()@, select) {
                crate::rewriter::laws::lemma_no_plan(self.graph()@, tree@);
            }
        }
        let plan = match self.plan_select(&tree) {
            Err(e) => {
                return Err(e);
            },
            Ok(None) => {
                return Ok(tree.rest);
            },
            Ok(Some(p)) => p,
        };
        let wanted = self.metric_sql(&plan, &tree);
        let ghost wv = views(wanted@);
        let mut parsed: Vec<ParsedMetric> = Vec::new();
        assert(parsed_view(parsed@) =~= Seq::empty());
        let mut i: usize = 0;
        while i < wanted.len()
            invariant
                i <= wanted.len(),
                wv == views(wanted@),
                parsed_metrics_from(wv, 0, Seq::empty()) == parsed_metrics_from(
                    wv,
                    i as int,
                    parsed_view(parsed@),
                ),
            decreases wanted.len() - i,
        {
            assert(wv[i as int] == wanted@[i as int]@);
            match self.parse_metric(wanted[i].as_str()) {
                Some(t) => {
                    let ghost prev = parsed_view(parsed@);
                    let item = ParsedMetric { sql: wanted[i].clone(), tree: t };
                    parsed.push(item);
                    assert(parsed_view(parsed@) =~= prev.push(item@));
                },
                None => {},
            }
            i = i + 1;
        }
        proof {
            lemma_apply_errors(self.graph()@, plan@, parsed_view(parsed@), tree@);
        }
        let rewritten = match self.apply_plan(&plan, &parsed, tree) {
            Ok(t) => t,
            Err(e) => {
                return Err(e);
            },
        };
        crate::tree::lower_select(rewritten)
    }

    /// The body of a query rewritten, down to `depth` levels of nesting:
    /// each `SELECT` in it, through parentheses and set operations.
    fn rewrite_set_expr(&self, body: SetExpr, depth: usize) -> (r: Result<SetExpr, SidemanticError>)
        requires
            self.graph().wf(),
        ensures
            match r {
                Ok(b) => rewritten_set_expr(self.graph()@, body, depth as nat) == Ok::<
                    SetExpr,
                    ErrorView,
                >(b),
                Err(e) => rewritten_set_expr(self.graph()@, body, depth as nat) == Err::<
                    SetExpr,
                    ErrorView,
                >(e@),
            },
            r is Err ==> is_rewrite_error(r->Err_0@),
            body_passes(self.graph()@, body, depth as nat) ==> r is Ok && r->Ok_0 == body,
        decreases depth, 0nat,
    {
        if depth == 0 {
            return Ok(body);
        }
        match crate::sql::split_set_expr(&body) {
            BodyParts::Select(s) => match self.rewrite_parsed_select(s) {
                Ok(r) => Ok(crate::sql::select_body(r)),
                Err(e) => Err(e),
            },
            BodyParts::Query(q) => match self.rewrite_query_at(q, depth - 1) {
                Ok(r) => Ok(crate::sql::nested_body(r)),
                Err(e) => Err(e),
            },
            BodyParts::Operation(left, right) => {
                let l = match self.rewrite_set_expr(left, depth - 1) {
                    Ok(x) => x,
                    Err(e) => {
                        return Err(e);
                    },
                };
                let r = match self.rewrite_set_expr(right, depth - 1) {
                    Ok(x) => x,
                    Err(e) => {
                        return Err(e);
                    },
                };
                Ok(crate::sql::operation_with(body, l, r))
            },
            BodyParts::Other => Ok(body),
        }
    }

    /// A query rewritten, down to `depth` levels of nesting.
    fn rewrite_query_at(&self, query: Query, depth: usize) -> (r: Result<Query, SidemanticError>)
        requires
            self.graph().wf(),
        ensures
            match r {
                Ok(q) => rewritten_query(self.graph()@, query, depth as nat) == Ok::<
                    Query,
                    ErrorView,
                >(q),
                Err(e) => rewritten_query(self.graph()@, query, depth as nat) == Err::<
                    Query,
                    ErrorView,
                >(e@),
            },
            r is Err ==> is_rewrite_error(r->Err_0@),
            body_passes(self.graph()@, query_body(query), depth as nat) ==> r is Ok && r->Ok_0
                == query,
        decreases depth, 1nat,
    {
        let body = crate::sql::body_of(&query);
        match self.rewrite_set_expr(body, depth) {
            Ok(b) => Ok(crate::sql::query_with_body(query, b)),
            Err(e) => Err(e),
        }
    }

    /// A query rewritten: each `SELECT` in its body.
    fn rewrite_query(&self, query: Query) -> (r: Result<Query, SidemanticError>)
        requires
            self.graph().wf(),
        ensures
            match r {
                Ok(q) => rewritten_query(self.graph()@, query, LIFT_DEPTH as nat) == Ok::<
                    Query,
                    ErrorView,
                >(q),
                Err(e) => rewritten_query(self.graph()@, query, LIFT_DEPTH as nat) == Err::<
                    Query,
                    ErrorView,
                >(e@),
            },
            r is Err ==> is_rewrite_error(r->Err_0@),
            body_passes(self.graph()@, query_body(query), LIFT_DEPTH as nat) ==> r is Ok
                && r->Ok_0 == query,
    {
        self.rewrite_query_at(query, crate::tree::LIFT_DEPTH)
    }

    /// A statement rewritten: a query by its `SELECT`s, anything else as
    /// it is.
    fn rewrite_statement(&self, statement: Statement) -> (r: Result<Statement, SidemanticError>)
        requires
            self.graph().wf(),
        ensures
            match r {
                Ok(s) => rewritten_statement(self.graph()@, statement) == Ok::<
                    Statement,
                    ErrorView,
                >(s),
                Err(e) => rewritten_statement(self.graph()@, statement) == Err::<
                    Statement,
                    ErrorView,
                >(e@),
            },
            r is Err ==> is_rewrite_error(r->Err_0@),
            statement_passes(self.graph()@, statement) ==> r is Ok && r->Ok_0 == statement,
    {
        match crate::sql::split_statement(statement) {
            StatementParts::Query(q) => match self.rewrite_query(q) {
                Ok(r) => Ok(crate::sql::query_statement(r)),
                Err(e) => Err(e),
            },
            StatementParts::Other(s) => Ok(s),
        }
    }

    /// Rewrites SQL written against the models of the graph into SQL
    /// against their physical tables. Each statement is parsed, each
    /// `SELECT` of each query is rewritten, and the statements are
    /// written out again, with `;` and a line break between them. It
    /// fails where the SQL cannot be handed to the parser (it holds the
    /// word `BY` after `GRANTED`, or `CHANNEL` after `FOR`), does not
    /// parse or holds no statement, where a statement cannot be printed
    /// (an external table is created without a location), where the SQL
    /// of a metric or of a model does not parse, and where a model that
    /// is referred to cannot be joined. SQL that speaks of no model comes
    /// back as the parser prints it.
    pub fn rewrite(&self, sql: &str) -> (r: Result<String, SidemanticError>)
        requires
            self.graph().wf(),
        ensures
            match r {
                Ok(text) => rewritten(self.graph()@, sql@) == Ok::<Seq<char>, ErrorView>(text@),
                Err(e) => rewritten(self.graph()@, sql@) == Err::<Seq<char>, ErrorView>(e@),
            },
            r is Err ==> is_rewrite_error(r->Err_0@),
            passes(self.graph()@, sql@) ==> r is Ok && r->Ok_0@ == crate::text::join(
                printed(parsed_statements(sql@)->Ok_0),
                ";\n"@,
            ),
    {
        if !crate::sql::admits(sql) {
            return Err(
                SidemanticError::SqlParse(
                    "Unsupported SQL: GRANTED BY and FOR CHANNEL need a name after them".to_owned(),
                ),
            );
        }
        let statements = match crate::sql::parse_statements(sql) {
            Ok(s) => s,
            Err(e) => {
                return Err(SidemanticError::SqlParse(crate::sql::parser_error_text(&e)));
            },
        };
        if statements.len() == 0 {
            return Err(SidemanticError::SqlParse("Empty SQL".to_owned()));
        }
        let ghost all = statements@;
        let ghost f = rewritten_statement_text_fn(self.graph()@);
        let n = statements.len();
        let mut rest = statements;
        let mut texts: Vec<String> = Vec::new();
        let mut i: usize = 0;
        proof {
            lemma_try_map_start(all, f);
            assert(views(texts@) =~= Seq::empty());
            assert(rest@ =~= all.subrange(0, all.len() as int));
            assert(printed(all.subrange(0, 0)) =~= Seq::empty());
        }
        while i < n
            invariant
                i <= n,
                n == all.len(),
                n > 0,
                admitted(sql@),
                parsed_statements(sql@) == Ok::<Seq<Statement>, sqlparser::parser::ParserError>(all),
                self.graph().wf(),
                f == rewritten_statement_text_fn(self.graph()@),
                rest@ == all.subrange(i as int, all.len() as int),
                try_map_from(all, f, 0) == prepend(views(texts@), try_map_from(all, f, i as int)),
                passes(self.graph()@, sql@) ==> views(texts@) == printed(all.subrange(0, i as int)),
            decreases n - i,
        {
            proof {
                lemma_try_map_step(all, f, i as int, views(texts@));
            }
            let statement = rest.remove(0);
            assert(statement == all[i as int]);
            assert(rest@ =~= all.subrange(i + 1, all.len() as int));
            match self.rewrite_statement(statement) {
                Ok(r) => {
                    if !crate::sql::prints(&r) {
                        return Err(
                            SidemanticError::SqlParse(
                                "Unsupported SQL: an external table needs a location".to_owned(),
                            ),
                        );
                    }
                    let text = crate::sql::statement_text(&r);
                    assert(f(all[i as int]) == Ok::<Seq<char>, ErrorView>(text@));
                    let ghost prev = views(texts@);
                    texts.push(text);
                    assert(views(texts@) =~= prev.push(text@));
                    assert(printed(all.subrange(0, i + 1)) =~= printed(
                        all.subrange(0, i as int),
                    ).push(printed_statement(all[i as int])));
                },
                Err(e) => {
                    assert(!statement_passes(self.graph()@, all[i as int]));
                    return Err(e);
                },
            }
            i = i + 1;
        }
        proof {
            lemma_try_map_end(all, f, i as int, views(texts@));
            assert(all.subrange(0, n as int) =~= all);
        }
        Ok(crate::text::join_strings(&texts, ";\n"))
    }
}

} // verus!
