//! Rewriting the expressions of a `SELECT`: what stands in the place of a
//! reference to a metric or to a dimension, and which items of a select
//! list aggregate.

use vstd::prelude::*;
use vstd::string::*;
use crate::error::lemma_try_map_end;
use crate::error::lemma_try_map_start;
use crate::error::lemma_try_map_step;
use crate::error::prepend;
use crate::error::try_map_from;
use crate::error::ErrorView;
use crate::error::SidemanticError;
use crate::graph::GraphView;
use crate::model::Aggregation;
use crate::model::DimensionView;
use crate::model::Metric;
use crate::model::MetricType;
use crate::model::MetricView;
use crate::model::ModelView;
use crate::text::find_from;
use crate::text::str_eq;
use crate::text::upper;
use crate::text::views;
use crate::tree::ColumnName;
use crate::tree::ColumnNameView;
use crate::tree::ExprView;
use crate::tree::GroupByView;
use crate::tree::ItemView;
use crate::tree::ProjectionItem;
use crate::tree::SelectTree;
use crate::tree::SqlExpr;
use crate::tree::items_view;
use crate::rewriter::plan::ModelRef;
use crate::rewriter::plan::ModelRefView;
use crate::rewriter::plan::refs_view;
use crate::rewriter::plan::RewritePlan;
use crate::rewriter::QueryRewriter;

verus! {

/// The SQL of a metric with what the parser made of it.
#[derive(Debug)]
pub struct ParsedMetric {
    pub sql: String,
    pub tree: SqlExpr,
}

/// The mathematical content of a [`ParsedMetric`].
pub struct ParsedMetricView {
    pub sql: Seq<char>,
    pub tree: ExprView,
}

impl View for ParsedMetric {
    type V = ParsedMetricView;

    open spec fn view(&self) -> ParsedMetricView {
        ParsedMetricView { sql: self.sql@, tree: self.tree@ }
    }
}

/// The views of a list of parsed metrics.
pub open spec fn parsed_view(v: Seq<ParsedMetric>) -> Seq<ParsedMetricView> {
    v.map_values(|p: ParsedMetric| p@)
}

/// What the rewriter reads while it rewrites the expressions of one
/// `SELECT`: the graph, the models that references resolve to, and the
/// SQL of metrics as parsed.
pub struct Context {
    pub graph: GraphView,
    pub refs: Seq<ModelRefView>,
    pub parsed: Seq<ParsedMetricView>,
}

/// What the parser made of the SQL: the tree of the first entry for it.
pub open spec fn parsed_from(parsed: Seq<ParsedMetricView>, sql: Seq<char>, i: int) -> Option<
    ExprView,
>
    decreases parsed.len() - i,
{
    if i < 0 || i >= parsed.len() {
        None
    } else if parsed[i].sql == sql {
        Some(parsed[i].tree)
    } else {
        parsed_from(parsed, sql, i + 1)
    }
}

/// The model that a qualifier stands for: the first reference whose model
/// or alias it is.
pub open spec fn resolve_from(refs: Seq<ModelRefView>, q: Seq<char>, i: int) -> Option<
    ModelRefView,
>
    decreases refs.len() - i,
{
    if i < 0 || i >= refs.len() {
        None
    } else if refs[i].model == q || refs[i].alias == q {
        Some(refs[i])
    } else {
        resolve_from(refs, q, i + 1)
    }
}

/// Whether a metric is an aggregate over one column or over the rows: a
/// simple metric whose SQL is no expression of its own.
pub open spec fn is_plain_aggregate(m: MetricView) -> bool {
    m.kind == MetricType::Simple && m.aggregation() != Aggregation::Expression
}

/// The aggregate that a plain aggregate metric stands for: `COUNT(*)`
/// style where it aggregates rows, `COUNT(DISTINCT alias.column)` for a
/// distinct count, and else the function over `alias.column`.
pub open spec fn aggregate_of(m: MetricView, alias: Seq<char>) -> ExprView {
    ExprView::Aggregate {
        function: if m.aggregation() == Aggregation::CountDistinct {
            "COUNT"@
        } else {
            m.aggregation().sql_name()
        },
        distinct: m.aggregation() == Aggregation::CountDistinct,
        column: if m.aggregand() == "*"@ {
            None
        } else {
            Some(ColumnNameView { qualifier: alias, name: m.aggregand() })
        },
    }
}

/// The text of the complaint about the SQL of a metric that does not parse.
pub open spec fn metric_complaint(sql: Seq<char>) -> Seq<char> {
    "Cannot parse metric expression: "@ + sql
}

/// The expression that a metric stands for: its aggregate where it is a
/// plain one, and else its SQL as parsed.
pub open spec fn metric_expr(c: Context, m: MetricView, alias: Seq<char>) -> Result<
    ExprView,
    ErrorView,
> {
    if is_plain_aggregate(m) {
        Ok(aggregate_of(m, alias))
    } else {
        match parsed_from(c.parsed, m.to_sql(Some(alias)), 0) {
            Some(t) => Ok(ExprView::MetricSql { sql: m.to_sql(Some(alias)), tree: Box::new(t) }),
            None => Err(ErrorView::SqlParse(metric_complaint(m.to_sql(Some(alias))))),
        }
    }
}

/// The expression that a dimension stands for behind an alias: the
/// column, truncated to the granularity that applies where one does.
pub open spec fn dimension_expr(d: DimensionView, alias: Seq<char>, asked: Option<Seq<char>>) -> ExprView {
    match d.effective_granularity(asked) {
        Some(g) => ExprView::Truncated { granularity: g, qualifier: alias, name: d.sql_expr() },
        None => ExprView::Field { qualifier: alias, name: d.sql_expr() },
    }
}

/// The dimension that a field names, with the granularity asked for: the
/// dimension of that name, or else, where the field holds `__`, the
/// dimension named before the first `__` with what follows it as the
/// granularity.
pub open spec fn dimension_for(m: ModelView, field: Seq<char>) -> Option<
    (DimensionView, Option<Seq<char>>),
> {
    match m.get_dimension(field) {
        Some(d) => Some((d, None)),
        None => match find_from(field, seq!['_', '_'], 0) {
            Some(p) => if 0 <= p && p + 2 <= field.len() {
                match m.get_dimension(field.subrange(0, p)) {
                    Some(d) => Some((d, Some(field.subrange(p + 2, field.len() as int)))),
                    None => None,
                }
            } else {
                None
            },
            None => None,
        },
    }
}

/// What stands in the place of the qualified column `q.n`: nothing where
/// the qualifier stands for no model or the field is neither a metric nor
/// a dimension of it. Metrics are looked for only where `metrics` says so.
pub open spec fn rewrite_column(c: Context, q: Seq<char>, n: Seq<char>, metrics: bool) -> Result<
    Option<ExprView>,
    ErrorView,
> {
    match resolve_from(c.refs, q, 0) {
        None => Ok(None),
        Some(r) => match c.graph.get_model(r.model) {
            None => Ok(None),
            Some(m) => if metrics && m.get_metric(n) is Some {
                match metric_expr(c, m.get_metric(n)->Some_0, r.alias) {
                    Ok(e) => Ok(Some(e)),
                    Err(e) => Err(e),
                }
            } else {
                match dimension_for(m, n) {
                    Some((d, asked)) => Ok(Some(dimension_expr(d, r.alias, asked))),
                    None => Ok(None),
                }
            },
        },
    }
}

/// The expression with its references replaced, through binary, unary
/// and parenthesized expressions.
pub open spec fn rewrite_expr(c: Context, e: ExprView, metrics: bool) -> Result<ExprView, ErrorView>
    decreases e,
{
    match e {
        ExprView::Column { qualifier, name, source } => match rewrite_column(
            c,
            qualifier,
            name,
            metrics,
        ) {
            Err(x) => Err(x),
            Ok(None) => Ok(e),
            Ok(Some(r)) => Ok(r),
        },
        ExprView::Binary { left, op, right } => match rewrite_expr(c, *left, metrics) {
            Err(x) => Err(x),
            Ok(l) => match rewrite_expr(c, *right, metrics) {
                Err(x) => Err(x),
                Ok(r) => Ok(ExprView::Binary { left: Box::new(l), op, right: Box::new(r) }),
            },
        },
        ExprView::Unary { operator, operand } => match rewrite_expr(c, *operand, metrics) {
            Err(x) => Err(x),
            Ok(r) => Ok(ExprView::Unary { operator, operand: Box::new(r) }),
        },
        ExprView::Nested(inner) => match rewrite_expr(c, *inner, metrics) {
            Err(x) => Err(x),
            Ok(r) => Ok(ExprView::Nested(Box::new(r))),
        },
        _ => Ok(e),
    }
}

/// The item of a select list with its references replaced. A bare
/// qualified column that is replaced keeps its field as the name of the
/// output column.
pub open spec fn rewrite_item(c: Context, item: ItemView) -> Result<ItemView, ErrorView> {
    match item {
        ItemView::Unnamed(e) => match e {
            ExprView::Column { qualifier, name, source } => match rewrite_column(
                c,
                qualifier,
                name,
                true,
            ) {
                Err(x) => Err(x),
                Ok(None) => Ok(item),
                Ok(Some(r)) => Ok(ItemView::Named { expr: r, label: name }),
            },
            _ => match rewrite_expr(c, e, true) {
                Err(x) => Err(x),
                Ok(r) => Ok(ItemView::Unnamed(r)),
            },
        },
        ItemView::Aliased { expr, alias } => match rewrite_expr(c, expr, true) {
            Err(x) => Err(x),
            Ok(r) => Ok(ItemView::Aliased { expr: r, alias }),
        },
        ItemView::Named { expr, label } => match rewrite_expr(c, expr, true) {
            Err(x) => Err(x),
            Ok(r) => Ok(ItemView::Named { expr: r, label }),
        },
        ItemView::Wildcard(i) => Ok(item),
    }
}

/// [`rewrite_item`] in the context `c`.
pub open spec fn rewrite_item_fn(c: Context) -> spec_fn(ItemView) -> Result<ItemView, ErrorView> {
    |item: ItemView| rewrite_item(c, item)
}

/// Whether a function of that name is an aggregate, whatever the case of
/// its letters.
pub open spec fn aggregate_name(n: Seq<char>) -> bool {
    let u = upper(n);
    u == "SUM"@ || u == "COUNT"@ || u == "AVG"@ || u == "MIN"@ || u == "MAX"@ || u == "MEDIAN"@
        || u == "STDDEV"@ || u == "STDDEV_POP"@ || u == "STDDEV_SAMP"@ || u == "VARIANCE"@ || u
        == "VAR_POP"@ || u == "VAR_SAMP"@ || u == "CORR"@ || u == "COVAR_POP"@ || u
        == "COVAR_SAMP"@ || u == "PERCENTILE_CONT"@ || u == "PERCENTILE_DISC"@ || u == "BOOL_AND"@
        || u == "BOOL_OR"@ || u == "BIT_AND"@ || u == "BIT_OR"@ || u == "BIT_XOR"@ || u
        == "ARRAY_AGG"@ || u == "STRING_AGG"@ || u == "GROUP_CONCAT"@ || u == "LISTAGG"@ || u
        == "APPROX_COUNT_DISTINCT"@ || u == "APPROX_PERCENTILE"@ || u == "APPROX_QUANTILE"@ || u
        == "FIRST_VALUE"@ || u == "LAST_VALUE"@
}

/// Whether an expression aggregates: it is a call of an aggregate, or an
/// aggregate that the rewriter put in, or holds one under binary, unary
/// or parenthesized expressions or in the SQL of a metric.
pub open spec fn contains_aggregate(e: ExprView) -> bool
    decreases e,
{
    match e {
        ExprView::Binary { left, op, right } => contains_aggregate(*left) || contains_aggregate(
            *right,
        ),
        ExprView::Unary { operator, operand } => contains_aggregate(*operand),
        ExprView::Nested(inner) => contains_aggregate(*inner),
        ExprView::Call { path, columns, source } => path.len() > 0 && aggregate_name(path[0]),
        ExprView::Aggregate { function, distinct, column } => true,
        ExprView::MetricSql { sql, tree } => contains_aggregate(*tree),
        _ => false,
    }
}

/// Whether an item of a select list is an expression that aggregates.
pub open spec fn is_aggregate_item(item: ItemView) -> bool {
    match item.expr() {
        Some(e) => contains_aggregate(e),
        None => false,
    }
}

/// Whether an item of a select list is an expression that does not aggregate.
pub open spec fn is_plain_item(item: ItemView) -> bool {
    match item.expr() {
        Some(e) => !contains_aggregate(e),
        None => false,
    }
}

/// Whether some item of the select list aggregates.
pub open spec fn has_aggregate(items: Seq<ItemView>) -> bool {
    exists|i: int| 0 <= i < items.len() && is_aggregate_item(#[trigger] items[i])
}

/// Whether some item of the select list is an expression that does not
/// aggregate.
pub open spec fn has_plain(items: Seq<ItemView>) -> bool {
    exists|i: int| 0 <= i < items.len() && is_plain_item(#[trigger] items[i])
}

/// `acc` with the places, counted from 1, of the items from `i` on that
/// are expressions that do not aggregate.
pub open spec fn plain_positions_from(items: Seq<ItemView>, i: int, acc: Seq<usize>) -> Seq<usize>
    decreases items.len() - i,
{
    if i < 0 || i >= items.len() {
        acc
    } else if is_plain_item(items[i]) {
        plain_positions_from(items, i + 1, acc.push((i + 1) as usize))
    } else {
        plain_positions_from(items, i + 1, acc)
    }
}

/// The grouping for a select list: by the places of the items that do
/// not aggregate where there are both such items and items that do, and
/// else as written.
pub open spec fn group_by_for(items: Seq<ItemView>, written: GroupByView) -> GroupByView {
    if has_aggregate(items) && has_plain(items) {
        GroupByView::Positions(plain_positions_from(items, 0, Seq::empty()))
    } else {
        written
    }
}

/// The SQL of the metrics in an expression that has to be parsed before
/// the expression can be rewritten, in the order of the references.
pub open spec fn needed_sql(g: GraphView, refs: Seq<ModelRefView>, e: ExprView) -> Seq<Seq<char>>
    decreases e,
{
    match e {
        ExprView::Column { qualifier, name, source } => match resolve_from(refs, qualifier, 0) {
            None => Seq::empty(),
            Some(r) => match g.get_model(r.model) {
                None => Seq::empty(),
                Some(m) => match m.get_metric(name) {
                    None => Seq::empty(),
                    Some(metric) => if is_plain_aggregate(metric) {
                        Seq::empty()
                    } else {
                        seq![metric.to_sql(Some(r.alias))]
                    },
                },
            },
        },
        ExprView::Binary { left, op, right } => needed_sql(g, refs, *left) + needed_sql(
            g,
            refs,
            *right,
        ),
        ExprView::Unary { operator, operand } => needed_sql(g, refs, *operand),
        ExprView::Nested(inner) => needed_sql(g, refs, *inner),
        _ => Seq::empty(),
    }
}

/// `acc` with the SQL to parse for the items of the select list from `i` on.
pub open spec fn needed_sql_from(
    g: GraphView,
    refs: Seq<ModelRefView>,
    items: Seq<ItemView>,
    i: int,
    acc: Seq<Seq<char>>,
) -> Seq<Seq<char>>
    decreases items.len() - i,
{
    if i < 0 || i >= items.len() {
        acc
    } else {
        match items[i].expr() {
            Some(e) => needed_sql_from(g, refs, items, i + 1, acc + needed_sql(g, refs, e)),
            None => needed_sql_from(g, refs, items, i + 1, acc),
        }
    }
}

/// The result of rewriting an expression, as a view.
pub open spec fn expr_result_view(r: Result<SqlExpr, SidemanticError>) -> Result<ExprView, ErrorView> {
    match r {
        Ok(e) => Ok(e@),
        Err(e) => Err(e@),
    }
}

/// The result of rewriting a qualified column, as a view.
pub open spec fn column_result_view(r: Result<Option<SqlExpr>, SidemanticError>) -> Result<
    Option<ExprView>,
    ErrorView,
> {
    match r {
        Ok(Some(e)) => Ok(Some(e@)),
        Ok(None) => Ok(None),
        Err(e) => Err(e@),
    }
}

/// The result of rewriting an item of a select list, as a view.
pub open spec fn item_result_view(r: Result<ProjectionItem, SidemanticError>) -> Result<
    ItemView,
    ErrorView,
> {
    match r {
        Ok(i) => Ok(i@),
        Err(e) => Err(e@),
    }
}

/// The model that a qualifier stands for.
pub fn resolve_qualifier<'b>(refs: &'b Vec<ModelRef>, q: &str) -> (r: Option<&'b ModelRef>)
    ensures
        match r {
            Some(x) => resolve_from(refs_view(refs@), q@, 0) == Some(x@),
            None => resolve_from(refs_view(refs@), q@, 0) is None,
        },
{
    let mut i: usize = 0;
    while i < refs.len()
        invariant
            i <= refs.len(),
            resolve_from(refs_view(refs@), q@, 0) == resolve_from(refs_view(refs@), q@, i as int),
        decreases refs.len() - i,
    {
        assert(refs_view(refs@)[i as int] == refs@[i as int]@);
        if str_eq(refs[i].model.as_str(), q) || str_eq(refs[i].alias.as_str(), q) {
            return Some(&refs[i]);
        }
        i = i + 1;
    }
    None
}

/// What the parser made of the SQL.
pub fn parsed_tree<'b>(parsed: &'b Vec<ParsedMetric>, sql: &str) -> (r: Option<&'b SqlExpr>)
    ensures
        match r {
            Some(t) => parsed_from(parsed_view(parsed@), sql@, 0) == Some(t@),
            None => parsed_from(parsed_view(parsed@), sql@, 0) is None,
        },
{
    let mut i: usize = 0;
    while i < parsed.len()
        invariant
            i <= parsed.len(),
            parsed_from(parsed_view(parsed@), sql@, 0) == parsed_from(
                parsed_view(parsed@),
                sql@,
                i as int,
            ),
        decreases parsed.len() - i,
    {
        assert(parsed_view(parsed@)[i as int] == parsed@[i as int]@);
        if str_eq(parsed[i].sql.as_str(), sql) {
            return Some(&parsed[i].tree);
        }
        i = i + 1;
    }
    None
}

/// Whether a metric is an aggregate over one column or over the rows.
pub fn plain_aggregate(m: &Metric) -> (r: bool)
    ensures
        r == is_plain_aggregate(m@),
{
    let simple = match m.kind {
        MetricType::Simple => true,
        _ => false,
    };
    let expression = match m.aggregation() {
        Aggregation::Expression => true,
        _ => false,
    };
    simple && !expression
}

/// Whether a function of that name is an aggregate.
pub fn is_aggregate_name(name: &str) -> (r: bool)
    ensures
        r == aggregate_name(name@),
{
    let chars = crate::text::to_chars(name);
    let up = crate::text::from_chars(&crate::text::upper_chars(&chars));
    let u = up.as_str();
    str_eq(u, "SUM") || str_eq(u, "COUNT") || str_eq(u, "AVG") || str_eq(u, "MIN") || str_eq(
        u,
        "MAX",
    ) || str_eq(u, "MEDIAN") || str_eq(u, "STDDEV") || str_eq(u, "STDDEV_POP") || str_eq(
        u,
        "STDDEV_SAMP",
    ) || str_eq(u, "VARIANCE") || str_eq(u, "VAR_POP") || str_eq(u, "VAR_SAMP") || str_eq(
        u,
        "CORR",
    ) || str_eq(u, "COVAR_POP") || str_eq(u, "COVAR_SAMP") || str_eq(u, "PERCENTILE_CONT")
        || str_eq(u, "PERCENTILE_DISC") || str_eq(u, "BOOL_AND") || str_eq(u, "BOOL_OR") || str_eq(
        u,
        "BIT_AND",
    ) || str_eq(u, "BIT_OR") || str_eq(u, "BIT_XOR") || str_eq(u, "ARRAY_AGG") || str_eq(
        u,
        "STRING_AGG",
    ) || str_eq(u, "GROUP_CONCAT") || str_eq(u, "LISTAGG") || str_eq(u, "APPROX_COUNT_DISTINCT")
        || str_eq(u, "APPROX_PERCENTILE") || str_eq(u, "APPROX_QUANTILE") || str_eq(
        u,
        "FIRST_VALUE",
    ) || str_eq(u, "LAST_VALUE")
}

/// Whether an expression aggregates.
pub fn is_aggregation(e: &SqlExpr) -> (r: bool)
    ensures
        r == contains_aggregate(e@),
    decreases e,
{
    match e {
        SqlExpr::Binary { left, op, right } => is_aggregation(left) || is_aggregation(right),
        SqlExpr::Unary { operator, operand } => is_aggregation(operand),
        SqlExpr::Nested(inner) => is_aggregation(inner),
        SqlExpr::Call { path, columns, source } => {
            if path.len() > 0 {
                assert(views(path@)[0] == path@[0]@);
                is_aggregate_name(path[0].as_str())
            } else {
                false
            }
        },
        SqlExpr::Aggregate { function, distinct, column } => true,
        SqlExpr::MetricSql { sql, tree } => is_aggregation(tree),
        _ => false,
    }
}

/// Whether an item of a select list is an expression, and whether that
/// aggregates.
fn item_aggregates(item: &ProjectionItem) -> (r: Option<bool>)
    ensures
        match r {
            Some(b) => item@.expr() is Some && b == contains_aggregate(item@.expr()->Some_0),
            None => item@.expr() is None,
        },
{
    match item {
        ProjectionItem::Unnamed(e) => Some(is_aggregation(e)),
        ProjectionItem::Aliased { expr, alias } => Some(is_aggregation(expr)),
        ProjectionItem::Named { expr, label } => Some(is_aggregation(expr)),
        ProjectionItem::Wildcard(w) => None,
    }
}

/// Whether some item of the select list aggregates.
pub fn has_aggregations(projection: &Vec<ProjectionItem>) -> (r: bool)
    ensures
        r == has_aggregate(items_view(projection@)),
{
    let mut i: usize = 0;
    while i < projection.len()
        invariant
            i <= projection.len(),
            forall|j: int| 0 <= j < i ==> !is_aggregate_item(#[trigger] items_view(projection@)[j]),
        decreases projection.len() - i,
    {
        assert(items_view(projection@)[i as int] == projection@[i as int]@);
        match item_aggregates(&projection[i]) {
            Some(true) => {
                return true;
            },
            _ => {},
        }
        i = i + 1;
    }
    false
}

/// Whether some item of the select list is an expression that does not
/// aggregate.
pub fn has_non_aggregated_columns(projection: &Vec<ProjectionItem>) -> (r: bool)
    ensures
        r == has_plain(items_view(projection@)),
{
    let mut i: usize = 0;
    while i < projection.len()
        invariant
            i <= projection.len(),
            forall|j: int| 0 <= j < i ==> !is_plain_item(#[trigger] items_view(projection@)[j]),
        decreases projection.len() - i,
    {
        assert(items_view(projection@)[i as int] == projection@[i as int]@);
        match item_aggregates(&projection[i]) {
            Some(false) => {
                return true;
            },
            _ => {},
        }
        i = i + 1;
    }
    false
}

/// The places, counted from 1, of the items of the select list that are
/// expressions that do not aggregate.
pub fn build_group_by(projection: &Vec<ProjectionItem>) -> (r: Vec<usize>)
    ensures
        r@ == plain_positions_from(items_view(projection@), 0, Seq::empty()),
{
    let ghost items = items_view(projection@);
    let mut out: Vec<usize> = Vec::new();
    let mut i: usize = 0;
    while i < projection.len()
        invariant
            i <= projection.len(),
            items == items_view(projection@),
            plain_positions_from(items, 0, Seq::empty()) == plain_positions_from(
                items,
                i as int,
                out@,
            ),
        decreases projection.len() - i,
    {
        assert(items[i as int] == projection@[i as int]@);
        match item_aggregates(&projection[i]) {
            Some(false) => {
                out.push(i + 1);
            },
            _ => {},
        }
        i = i + 1;
    }
    out
}

impl<'a> QueryRewriter<'a> {
    /// The expression that a metric stands for.
    fn metric_to_expr(&self, metric: &Metric, alias: &str, parsed: &Vec<ParsedMetric>) -> (r: Result<
        SqlExpr,
        SidemanticError,
    >)
        ensures
            forall|refs: Seq<ModelRefView>|
                expr_result_view(r) == #[trigger] metric_expr(
                    Context { graph: self.graph()@, refs, parsed: parsed_view(parsed@) },
                    metric@,
                    alias@,
                ),
    {
        if plain_aggregate(metric) {
            let agg = metric.aggregation();
            let distinct = match agg {
                Aggregation::CountDistinct => true,
                _ => false,
            };
            let function = if distinct {
                "COUNT".to_owned()
            } else {
                agg.as_sql().to_owned()
            };
            let column = if metric.counts_rows() {
                None
            } else {
                Some(ColumnName { qualifier: alias.to_owned(), name: metric.sql_expr().to_owned() })
            };
            Ok(SqlExpr::Aggregate { function, distinct, column })
        } else {
            let sql = metric.to_sql(Some(alias));
            match parsed_tree(parsed, sql.as_str()) {
                Some(t) => Ok(
                    SqlExpr::MetricSql { sql, tree: Box::new(crate::tree::clone_expr(t)) },
                ),
                None => Err(
                    SidemanticError::SqlParse(
                        crate::text::concat2("Cannot parse metric expression: ", sql.as_str()),
                    ),
                ),
            }
        }
    }

    /// What stands in the place of the qualified column `q.n`.
    fn rewrite_column(
        &self,
        refs: &Vec<ModelRef>,
        parsed: &Vec<ParsedMetric>,
        q: &str,
        n: &str,
        metrics: bool,
    ) -> (r: Result<Option<SqlExpr>, SidemanticError>)
        ensures
            column_result_view(r) == rewrite_column(
                Context {
                    graph: self.graph()@,
                    refs: refs_view(refs@),
                    parsed: parsed_view(parsed@),
                },
                q@,
                n@,
                metrics,
            ),
    {
        let found = match resolve_qualifier(refs, q) {
            Some(r) => r,
            None => {
                return Ok(None);
            },
        };
        let model = match self.graph.get_model(found.model.as_str()) {
            Some(m) => m,
            None => {
                return Ok(None);
            },
        };
        if metrics {
            match model.get_metric(n) {
                Some(metric) => {
                    return match self.metric_to_expr(metric, found.alias.as_str(), parsed) {
                        Ok(e) => Ok(Some(e)),
                        Err(e) => Err(e),
                    };
                },
                None => {},
            }
        }
        let (dimension, asked) = match model.get_dimension(n) {
            Some(d) => (d, None),
            None => {
                let chars = crate::text::to_chars(n);
                let under: Vec<char> = vec!['_', '_'];
                assert(under@ =~= seq!['_', '_']);
                match crate::text::find_sub(&chars, &under, 0) {
                    None => {
                        return Ok(None);
                    },
                    Some(p) => {
                        proof {
                            crate::text::lemma_find_from(chars@, under@, 0);
                        }
                        assert(crate::text::matches_at(chars@, under@, p as int));
                        assert(p + 2 <= chars.len());
                        let base = crate::text::from_chars(&crate::text::slice_chars(&chars, 0, p));
                        match model.get_dimension(base.as_str()) {
                            None => {
                                return Ok(None);
                            },
                            Some(d) => {
                                let gran = crate::text::from_chars(
                                    &crate::text::slice_chars(&chars, p + 2, chars.len()),
                                );
                                (d, Some(gran))
                            },
                        }
                    },
                }
            },
        };
        let granularity = match asked {
            Some(g) => Some(g),
            None => crate::segment::clone_opt(&dimension.granularity),
        };
        let name = dimension.sql_expr().to_owned();
        let qualifier = found.alias.clone();
        match granularity {
            Some(g) => Ok(Some(SqlExpr::Truncated { granularity: g, qualifier, name })),
            None => Ok(Some(SqlExpr::Field { qualifier, name })),
        }
    }

    /// The expression with its references replaced.
    pub(crate) fn rewrite_expr(
        &self,
        refs: &Vec<ModelRef>,
        parsed: &Vec<ParsedMetric>,
        e: SqlExpr,
        metrics: bool,
    ) -> (r: Result<SqlExpr, SidemanticError>)
        ensures
            expr_result_view(r) == rewrite_expr(
                Context {
                    graph: self.graph()@,
                    refs: refs_view(refs@),
                    parsed: parsed_view(parsed@),
                },
                e@,
                metrics,
            ),
        decreases e,
    {
        match e {
            SqlExpr::Column { qualifier, name, source } => {
                match self.rewrite_column(refs, parsed, qualifier.as_str(), name.as_str(), metrics) {
                    Err(x) => Err(x),
                    Ok(Some(r)) => Ok(r),
                    Ok(None) => Ok(SqlExpr::Column { qualifier, name, source }),
                }
            },
            SqlExpr::Binary { left, op, right } => {
                let l = match self.rewrite_expr(refs, parsed, *left, metrics) {
                    Ok(x) => x,
                    Err(x) => {
                        return Err(x);
                    },
                };
                let r = match self.rewrite_expr(refs, parsed, *right, metrics) {
                    Ok(x) => x,
                    Err(x) => {
                        return Err(x);
                    },
                };
                Ok(SqlExpr::Binary { left: Box::new(l), op, right: Box::new(r) })
            },
            SqlExpr::Unary { operator, operand } => {
                match self.rewrite_expr(refs, parsed, *operand, metrics) {
                    Ok(x) => Ok(SqlExpr::Unary { operator, operand: Box::new(x) }),
                    Err(x) => Err(x),
                }
            },
            SqlExpr::Nested(inner) => {
                match self.rewrite_expr(refs, parsed, *inner, metrics) {
                    Ok(x) => Ok(SqlExpr::Nested(Box::new(x))),
                    Err(x) => Err(x),
                }
            },
            other => Ok(other),
        }
    }

    /// The item of a select list with its references replaced.
    fn rewrite_select_expr(
        &self,
        refs: &Vec<ModelRef>,
        parsed: &Vec<ParsedMetric>,
        item: ProjectionItem,
    ) -> (r: Result<ProjectionItem, SidemanticError>)
        ensures
            item_result_view(r) == rewrite_item(
                Context {
                    graph: self.graph()@,
                    refs: refs_view(refs@),
                    parsed: parsed_view(parsed@),
                },
                item@,
            ),
    {
        match item {
            ProjectionItem::Unnamed(e) => match e {
                SqlExpr::Column { qualifier, name, source } => {
                    match self.rewrite_column(refs, parsed, qualifier.as_str(), name.as_str(), true) {
                        Err(x) => Err(x),
                        Ok(Some(r)) => Ok(ProjectionItem::Named { expr: r, label: name }),
                        Ok(None) => Ok(
                            ProjectionItem::Unnamed(SqlExpr::Column { qualifier, name, source }),
                        ),
                    }
                },
                other => match self.rewrite_expr(refs, parsed, other, true) {
                    Ok(r) => Ok(ProjectionItem::Unnamed(r)),
                    Err(x) => Err(x),
                },
            },
            ProjectionItem::Aliased { expr, alias } => match self.rewrite_expr(
                refs,
                parsed,
                expr,
                true,
            ) {
                Ok(r) => Ok(ProjectionItem::Aliased { expr: r, alias }),
                Err(x) => Err(x),
            },
            ProjectionItem::Named { expr, label } => match self.rewrite_expr(
                refs,
                parsed,
                expr,
                true,
            ) {
                Ok(r) => Ok(ProjectionItem::Named { expr: r, label }),
                Err(x) => Err(x),
            },
            ProjectionItem::Wildcard(w) => Ok(ProjectionItem::Wildcard(w)),
        }
    }

    /// The select list with its references replaced.
    pub(crate) fn rewrite_projection(
        &self,
        refs: &Vec<ModelRef>,
        parsed: &Vec<ParsedMetric>,
        projection: Vec<ProjectionItem>,
    ) -> (r: Result<Vec<ProjectionItem>, SidemanticError>)
        ensures
            match r {
                Ok(v) => try_map_from(
                    items_view(projection@),
                    rewrite_item_fn(
                        Context {
                            graph: self.graph()@,
                            refs: refs_view(refs@),
                            parsed: parsed_view(parsed@),
                        },
                    ),
                    0,
                ) == Ok::<Seq<ItemView>, ErrorView>(items_view(v@)),
                Err(e) => try_map_from(
                    items_view(projection@),
                    rewrite_item_fn(
                        Context {
                            graph: self.graph()@,
                            refs: refs_view(refs@),
                            parsed: parsed_view(parsed@),
                        },
                    ),
                    0,
                ) == Err::<Seq<ItemView>, ErrorView>(e@),
            },
    {
        let ghost s = items_view(projection@);
        let ghost c = Context {
            graph: self.graph()@,
            refs: refs_view(refs@),
            parsed: parsed_view(parsed@),
        };
        let ghost f = rewrite_item_fn(c);
        let n = projection.len();
        let mut rest = projection;
        let mut out: Vec<ProjectionItem> = Vec::new();
        proof {
            lemma_try_map_start(s, f);
            assert(items_view(out@) =~= Seq::empty());
            assert(items_view(rest@) =~= s.subrange(0, s.len() as int));
        }
        let mut i: usize = 0;
        while i < n
            invariant
                i <= n,
                n == s.len(),
                s == items_view(projection@),
                f == rewrite_item_fn(c),
                c == (Context {
                    graph: self.graph()@,
                    refs: refs_view(refs@),
                    parsed: parsed_view(parsed@),
                }),
                items_view(rest@) == s.subrange(i as int, s.len() as int),
                try_map_from(s, f, 0) == prepend(items_view(out@), try_map_from(s, f, i as int)),
            decreases n - i,
        {
            proof {
                lemma_try_map_step(s, f, i as int, items_view(out@));
                assert(items_view(rest@).len() == n - i);
            }
            let ghost before = items_view(rest@);
            let ghost old_rest = rest@;
            let item = rest.remove(0);
            assert(item@ == before[0]);
            assert(rest@ =~= old_rest.remove(0));
            assert forall|j: int| 0 <= j < rest@.len() implies (#[trigger] items_view(rest@)[j])
                == before[j + 1] by {
                assert(rest@[j] == old_rest[j + 1]);
            }
            assert(items_view(rest@) =~= before.subrange(1, before.len() as int));
            assert(before.subrange(1, before.len() as int) =~= s.subrange(i + 1, s.len() as int));
            match self.rewrite_select_expr(refs, parsed, item) {
                Err(e) => {
                    return Err(e);
                },
                Ok(r) => {
                    let ghost prev = items_view(out@);
                    out.push(r);
                    assert(items_view(out@) =~= prev.push(r@));
                },
            }
            i = i + 1;
        }
        proof {
            lemma_try_map_end(s, f, i as int, items_view(out@));
        }
        Ok(out)
    }

    /// Adds the SQL of the metrics in an expression that has to be parsed.
    fn collect_metric_sql(&self, refs: &Vec<ModelRef>, e: &SqlExpr, out: &mut Vec<String>)
        ensures
            views(final(out)@) == views(old(out)@) + needed_sql(
                self.graph()@,
                refs_view(refs@),
                e@,
            ),
        decreases e,
    {
        let ghost before = views(out@);
        match e {
            SqlExpr::Column { qualifier, name, source } => {
                let mut found: Option<String> = None;
                match resolve_qualifier(refs, qualifier.as_str()) {
                    None => {},
                    Some(r) => match self.graph.get_model(r.model.as_str()) {
                        None => {},
                        Some(m) => match m.get_metric(name.as_str()) {
                            None => {},
                            Some(metric) => {
                                if !plain_aggregate(metric) {
                                    found = Some(metric.to_sql(Some(r.alias.as_str())));
                                }
                            },
                        },
                    },
                }
                match found {
                    Some(sql) => {
                        out.push(sql);
                        assert(views(out@) =~= before + seq![sql@]);
                    },
                    None => {
                        assert(views(out@) =~= before + Seq::<Seq<char>>::empty());
                    },
                }
            },
            SqlExpr::Binary { left, op, right } => {
                self.collect_metric_sql(refs, left, out);
                self.collect_metric_sql(refs, right, out);
                assert(views(out@) =~= before + (needed_sql(
                    self.graph()@,
                    refs_view(refs@),
                    left@,
                ) + needed_sql(self.graph()@, refs_view(refs@), right@)));
            },
            SqlExpr::Unary { operator, operand } => {
                self.collect_metric_sql(refs, operand, out);
            },
            SqlExpr::Nested(inner) => {
                self.collect_metric_sql(refs, inner, out);
            },
            _ => {
                assert(views(out@) =~= before + Seq::<Seq<char>>::empty());
            },
        }
    }

    /// The SQL of the metrics of the select list that has to be parsed
    /// before the plan can be applied, in the order of the references.
    pub fn metric_sql(&self, plan: &RewritePlan, select: &SelectTree) -> (r: Vec<String>)
        ensures
            views(r@) == needed_sql_from(
                self.graph()@,
                plan@.refs,
                select@.projection,
                0,
                Seq::empty(),
            ),
    {
        let ghost items = select@.projection;
        let mut out: Vec<String> = Vec::new();
        assert(views(out@) =~= Seq::empty());
        let mut i: usize = 0;
        while i < select.projection.len()
            invariant
                i <= select.projection.len(),
                items == items_view(select.projection@),
                needed_sql_from(self.graph()@, plan@.refs, items, 0, Seq::empty())
                    == needed_sql_from(self.graph()@, plan@.refs, items, i as int, views(out@)),
            decreases select.projection.len() - i,
        {
            assert(items[i as int] == select.projection@[i as int]@);
            match &select.projection[i] {
                ProjectionItem::Unnamed(e) => self.collect_metric_sql(&plan.refs, e, &mut out),
                ProjectionItem::Aliased { expr, alias } => self.collect_metric_sql(
                    &plan.refs,
                    expr,
                    &mut out,
                ),
                ProjectionItem::Named { expr, label } => self.collect_metric_sql(
                    &plan.refs,
                    expr,
                    &mut out,
                ),
                ProjectionItem::Wildcard(w) => {},
            }
            i = i + 1;
        }
        out
    }
}

} // verus!
