//! The SQL generator: from a list of metric and dimension references to
//! one `SELECT` over the physical tables.

use vstd::prelude::*;
use vstd::string::*;
use crate::error::lemma_try_map_end;
use crate::error::lemma_try_map_start;
use crate::error::lemma_try_map_step;
use crate::error::prepend;
use crate::error::try_map_from;
use crate::error::ErrorView;
use crate::error::SidemanticError;
use crate::graph::GraphView;
use crate::graph::JoinStep;
use crate::graph::JoinStepView;
use crate::graph::SemanticGraph;
use crate::graph::steps_view;
use crate::model::clone_strings;
use crate::model::DimensionView;
use crate::model::MetricType;
use crate::model::MetricView;
use crate::model::Model;
use crate::model::ModelView;
use crate::model::or_text;
use crate::segment::clone_opt;
use crate::segment::opt_view;
use crate::text::concat2;
use crate::text::concat3;
use crate::text::concat4;
use crate::text::contains_sub;
use crate::text::decimal;
use crate::text::decimal_string;
use crate::text::initial;
use crate::text::initial_of;
use crate::text::join;
use crate::text::join_strings;
use crate::text::positions;
use crate::text::replace_all;
use crate::text::replace_str;
use crate::text::str_contains;
use crate::text::contains_name;
use crate::text::trim_end;
use crate::text::trim_end_str;
use crate::text::views;

verus! {

/// A query in terms of the semantic layer.
#[derive(Debug)]
pub struct SemanticQuery {
    pub metrics: Vec<String>,
    pub dimensions: Vec<String>,
    pub filters: Vec<String>,
    /// Segment references, `model.segment`.
    pub segments: Vec<String>,
    pub order_by: Vec<String>,
    pub limit: Option<usize>,
}

/// The mathematical content of a [`SemanticQuery`].
pub struct QueryView {
    pub metrics: Seq<Seq<char>>,
    pub dimensions: Seq<Seq<char>>,
    pub filters: Seq<Seq<char>>,
    pub segments: Seq<Seq<char>>,
    pub order_by: Seq<Seq<char>>,
    pub limit: Option<usize>,
}

impl View for SemanticQuery {
    type V = QueryView;

    open spec fn view(&self) -> QueryView {
        QueryView {
            metrics: views(self.metrics@),
            dimensions: views(self.dimensions@),
            filters: views(self.filters@),
            segments: views(self.segments@),
            order_by: views(self.order_by@),
            limit: self.limit,
        }
    }
}

impl QueryView {
    /// The query that asks for nothing.
    pub open spec fn empty() -> QueryView {
        QueryView {
            metrics: Seq::empty(),
            dimensions: Seq::empty(),
            filters: Seq::empty(),
            segments: Seq::empty(),
            order_by: Seq::empty(),
            limit: None,
        }
    }
}

impl Clone for SemanticQuery {
    fn clone(&self) -> (r: Self)
        ensures
            r@ == self@,
    {
        SemanticQuery {
            metrics: clone_strings(&self.metrics),
            dimensions: clone_strings(&self.dimensions),
            filters: clone_strings(&self.filters),
            segments: clone_strings(&self.segments),
            order_by: clone_strings(&self.order_by),
            limit: self.limit,
        }
    }
}

impl SemanticQuery {
    /// The query that asks for nothing.
    pub fn new() -> (r: Self)
        ensures
            r@ == QueryView::empty(),
    {
        let q = SemanticQuery {
            metrics: Vec::new(),
            dimensions: Vec::new(),
            filters: Vec::new(),
            segments: Vec::new(),
            order_by: Vec::new(),
            limit: None,
        };
        assert(q@.metrics =~= Seq::empty());
        assert(q@.dimensions =~= Seq::empty());
        assert(q@.filters =~= Seq::empty());
        assert(q@.segments =~= Seq::empty());
        assert(q@.order_by =~= Seq::empty());
        q
    }

    /// The query with its metrics set.
    pub fn with_metrics(self, metrics: Vec<String>) -> (r: Self)
        ensures
            r@ == (QueryView { metrics: views(metrics@), ..self@ }),
    {
        let mut q = self;
        q.metrics = metrics;
        q
    }

    /// The query with its dimensions set.
    pub fn with_dimensions(self, dimensions: Vec<String>) -> (r: Self)
        ensures
            r@ == (QueryView { dimensions: views(dimensions@), ..self@ }),
    {
        let mut q = self;
        q.dimensions = dimensions;
        q
    }

    /// The query with its filters set.
    pub fn with_filters(self, filters: Vec<String>) -> (r: Self)
        ensures
            r@ == (QueryView { filters: views(filters@), ..self@ }),
    {
        let mut q = self;
        q.filters = filters;
        q
    }

    /// The query with its segments set.
    pub fn with_segments(self, segments: Vec<String>) -> (r: Self)
        ensures
            r@ == (QueryView { segments: views(segments@), ..self@ }),
    {
        let mut q = self;
        q.segments = segments;
        q
    }

    /// The query with its ordering set.
    pub fn with_order_by(self, order_by: Vec<String>) -> (r: Self)
        ensures
            r@ == (QueryView { order_by: views(order_by@), ..self@ }),
    {
        let mut q = self;
        q.order_by = order_by;
        q
    }

    /// The query with its limit set.
    pub fn with_limit(self, limit: usize) -> (r: Self)
        ensures
            r@ == (QueryView { limit: Some(limit), ..self@ }),
    {
        let mut q = self;
        q.limit = Some(limit);
        q
    }
}

impl Default for SemanticQuery {
    fn default() -> (r: Self)
        ensures
            r@ == QueryView::empty(),
    {
        SemanticQuery::new()
    }
}

/// A dimension reference, taken apart.
#[derive(Debug)]
pub struct DimensionRef {
    pub model: String,
    pub name: String,
    pub granularity: Option<String>,
    /// The name of the output column.
    pub alias: String,
}

/// The mathematical content of a [`DimensionRef`].
pub struct DimensionRefView {
    pub model: Seq<char>,
    pub name: Seq<char>,
    pub granularity: Option<Seq<char>>,
    pub alias: Seq<char>,
}

impl View for DimensionRef {
    type V = DimensionRefView;

    open spec fn view(&self) -> DimensionRefView {
        DimensionRefView {
            model: self.model@,
            name: self.name@,
            granularity: opt_view(self.granularity),
            alias: self.alias@,
        }
    }
}

/// A metric reference, taken apart.
#[derive(Debug)]
pub struct MetricRef {
    pub model: String,
    pub name: String,
    /// The name of the output column.
    pub alias: String,
}

/// The mathematical content of a [`MetricRef`].
pub struct MetricRefView {
    pub model: Seq<char>,
    pub name: Seq<char>,
    pub alias: Seq<char>,
}

impl View for MetricRef {
    type V = MetricRefView;

    open spec fn view(&self) -> MetricRefView {
        MetricRefView { model: self.model@, name: self.name@, alias: self.alias@ }
    }
}

/// The views of a list of dimension references.
pub open spec fn dimension_refs_view(v: Seq<DimensionRef>) -> Seq<DimensionRefView> {
    v.map_values(|d: DimensionRef| d@)
}

/// The views of a list of metric references.
pub open spec fn metric_refs_view(v: Seq<MetricRef>) -> Seq<MetricRefView> {
    v.map_values(|m: MetricRef| m@)
}

/// A dimension reference taken apart; its output column is the field,
/// with `__` and the granularity where there is one.
pub open spec fn dimension_ref(g: GraphView, s: Seq<char>) -> Result<DimensionRefView, ErrorView> {
    match g.parse_reference(s) {
        Err(e) => Err(e),
        Ok((model, name, granularity)) => Ok(
            DimensionRefView {
                model,
                name,
                granularity,
                alias: match granularity {
                    Some(x) => name + "__"@ + x,
                    None => name,
                },
            },
        ),
    }
}

/// [`dimension_ref`] over the graph `g`.
pub open spec fn dimension_ref_fn(g: GraphView) -> spec_fn(Seq<char>) -> Result<
    DimensionRefView,
    ErrorView,
> {
    |s: Seq<char>| dimension_ref(g, s)
}

/// A metric reference taken apart; its output column is the field.
pub open spec fn metric_ref(g: GraphView, s: Seq<char>) -> Result<MetricRefView, ErrorView> {
    match g.parse_reference(s) {
        Err(e) => Err(e),
        Ok((model, name, granularity)) => Ok(MetricRefView { model, name, alias: name }),
    }
}

/// [`metric_ref`] over the graph `g`.
pub open spec fn metric_ref_fn(g: GraphView) -> spec_fn(Seq<char>) -> Result<
    MetricRefView,
    ErrorView,
> {
    |s: Seq<char>| metric_ref(g, s)
}

/// The names of `names`, each once, in the order of their first occurrence.
pub open spec fn distinct(names: Seq<Seq<char>>) -> Seq<Seq<char>>
    decreases names.len(),
{
    if names.len() == 0 {
        Seq::empty()
    } else if distinct(names.drop_last()).contains(names.last()) {
        distinct(names.drop_last())
    } else {
        distinct(names.drop_last()).push(names.last())
    }
}

/// The models that a query needs: those of its dimensions, then those of
/// its metrics, each once.
pub open spec fn required_models(dims: Seq<DimensionRefView>, mets: Seq<MetricRefView>) -> Seq<
    Seq<char>,
> {
    distinct(
        dims.map_values(|d: DimensionRefView| d.model) + mets.map_values(
            |m: MetricRefView| m.model,
        ),
    )
}

/// A dimension's expression behind the alias of its model, truncated to
/// the granularity that applies where one does.
pub open spec fn dimension_sql(d: DimensionView, alias: Seq<char>, asked: Option<Seq<char>>) -> Seq<
    char,
> {
    match d.effective_granularity(asked) {
        Some(g) => "DATE_TRUNC('"@ + g + "', "@ + alias + "."@ + d.sql_expr() + ")"@,
        None => alias + "."@ + d.sql_expr(),
    }
}

/// The output column of a dimension reference.
pub open spec fn dimension_part(g: GraphView, d: DimensionRefView) -> Result<Seq<char>, ErrorView> {
    match g.get_model(d.model) {
        None => Err(ErrorView::ModelNotFound(d.model)),
        Some(m) => match m.get_dimension(d.name) {
            None => Err(ErrorView::DimensionNotFound { model: d.model, dimension: d.name }),
            Some(dim) => Ok(
                "  "@ + dimension_sql(dim, initial(d.model), d.granularity) + " AS "@ + d.alias,
            ),
        },
    }
}

/// [`dimension_part`] over the graph `g`.
pub open spec fn dimension_part_fn(g: GraphView) -> spec_fn(DimensionRefView) -> Result<
    Seq<char>,
    ErrorView,
> {
    |d: DimensionRefView| dimension_part(g, d)
}

/// `text` with the name of each simple metric from `i` on that occurs in
/// it replaced by that metric's SQL, one metric after the other.
pub open spec fn expand_from(metrics: Seq<MetricView>, alias: Seq<char>, text: Seq<char>, i: int) -> Seq<
    char,
>
    decreases metrics.len() - i,
{
    if i < 0 || i >= metrics.len() {
        text
    } else if contains_sub(text, metrics[i].name) && metrics[i].kind == MetricType::Simple {
        expand_from(
            metrics,
            alias,
            replace_all(text, metrics[i].name, metrics[i].to_sql(Some(alias))),
            i + 1,
        )
    } else {
        expand_from(metrics, alias, text, i + 1)
    }
}

/// The SQL of a metric of model `m`, the names of simple metrics in the
/// formulas of derived and ratio metrics replaced by their SQL.
pub open spec fn metric_sql(m: ModelView, metric: MetricView, alias: Seq<char>) -> Seq<char> {
    match metric.kind {
        MetricType::Derived => expand_from(m.metrics, alias, metric.sql_expr(), 0),
        MetricType::Ratio => "("@ + expand_from(
            m.metrics,
            alias,
            or_text(metric.numerator, "1"@),
            0,
        ) + ") / NULLIF("@ + expand_from(m.metrics, alias, or_text(metric.denominator, "1"@), 0)
            + ", 0)"@,
        _ => metric.to_sql(Some(alias)),
    }
}

/// The output column of a metric reference.
pub open spec fn metric_part(g: GraphView, r: MetricRefView) -> Result<Seq<char>, ErrorView> {
    match g.get_model(r.model) {
        None => Err(ErrorView::ModelNotFound(r.model)),
        Some(m) => match m.get_metric(r.name) {
            None => Err(ErrorView::MetricNotFound { model: r.model, metric: r.name }),
            Some(metric) => Ok("  "@ + metric_sql(m, metric, initial(r.model)) + " AS "@ + r.alias),
        },
    }
}

/// [`metric_part`] over the graph `g`.
pub open spec fn metric_part_fn(g: GraphView) -> spec_fn(MetricRefView) -> Result<
    Seq<char>,
    ErrorView,
> {
    |r: MetricRefView| metric_part(g, r)
}

/// The `LEFT JOIN` line of one step of the join plan.
pub open spec fn join_line(g: GraphView, s: JoinStepView) -> Result<Seq<char>, ErrorView> {
    match g.get_model(s.to_model) {
        None => Err(ErrorView::ModelNotFound(s.to_model)),
        Some(t) => Ok(
            "LEFT JOIN "@ + t.table_source() + " AS "@ + initial(s.to_model) + " ON "@ + initial(
                s.from_model,
            ) + "."@ + s.from_key + " = "@ + initial(s.to_model) + "."@ + s.to_key + "\n"@,
        ),
    }
}

/// [`join_line`] over the graph `g`.
pub open spec fn join_line_fn(g: GraphView) -> spec_fn(JoinStepView) -> Result<
    Seq<char>,
    ErrorView,
> {
    |s: JoinStepView| join_line(g, s)
}

/// The text of the complaint about an unknown segment.
pub open spec fn segment_complaint(model: Seq<char>, segment: Seq<char>) -> Seq<char> {
    "Segment not found: "@ + model + "."@ + segment
}

/// The filter that a segment reference stands for.
pub open spec fn segment_filter(g: GraphView, s: Seq<char>) -> Result<Seq<char>, ErrorView> {
    match g.parse_reference(s) {
        Err(e) => Err(e),
        Ok((model, name, granularity)) => match g.get_model(model) {
            None => Err(ErrorView::ModelNotFound(model)),
            Some(m) => match m.get_segment(name) {
                None => Err(ErrorView::Validation(segment_complaint(model, name))),
                Some(seg) => Ok(seg.get_sql(initial(model))),
            },
        },
    }
}

/// [`segment_filter`] over the graph `g`.
pub open spec fn segment_filter_fn(g: GraphView) -> spec_fn(Seq<char>) -> Result<
    Seq<char>,
    ErrorView,
> {
    |s: Seq<char>| segment_filter(g, s)
}

/// `text` with `model.dimension` replaced by `alias.expression` for each
/// dimension of `m` from `j` on, one after the other.
pub open spec fn expand_dimensions_from(m: ModelView, text: Seq<char>, j: int) -> Seq<char>
    decreases m.dimensions.len() - j,
{
    if j < 0 || j >= m.dimensions.len() {
        text
    } else {
        expand_dimensions_from(
            m,
            replace_all(
                text,
                m.name + "."@ + m.dimensions[j].name,
                initial(m.name) + "."@ + m.dimensions[j].sql_expr(),
            ),
            j + 1,
        )
    }
}

/// `text` with the dimension references of each model from `i` on
/// replaced, one model after the other.
pub open spec fn expand_models_from(models: Seq<ModelView>, text: Seq<char>, i: int) -> Seq<char>
    decreases models.len() - i,
{
    if i < 0 || i >= models.len() {
        text
    } else {
        expand_models_from(models, expand_dimensions_from(models[i], text, 0), i + 1)
    }
}

/// A filter with its dimension references replaced.
pub open spec fn expand_filter(g: GraphView, text: Seq<char>) -> Seq<char> {
    expand_models_from(g.models, text, 0)
}

/// The text of the complaint about a query that asks for nothing.
pub open spec fn empty_query_complaint() -> Seq<char> {
    "Query must have at least one metric or dimension"@
}

/// The `WHERE` line: nothing where there is no filter.
pub open spec fn where_line(g: GraphView, filters: Seq<Seq<char>>) -> Seq<char> {
    if filters.len() == 0 {
        Seq::empty()
    } else {
        "WHERE "@ + join(filters.map_values(|f: Seq<char>| expand_filter(g, f)), " AND "@) + "\n"@
    }
}

/// The `GROUP BY` line: the places of the dimensions, where the query has
/// both dimensions and metrics.
pub open spec fn group_line(dims: nat, mets: nat) -> Seq<char> {
    if dims > 0 && mets > 0 {
        "GROUP BY "@ + join(positions(dims), ", "@) + "\n"@
    } else {
        Seq::empty()
    }
}

/// The `ORDER BY` line: nothing where no order is asked for.
pub open spec fn order_line(order_by: Seq<Seq<char>>) -> Seq<char> {
    if order_by.len() == 0 {
        Seq::empty()
    } else {
        "ORDER BY "@ + join(order_by, ", "@) + "\n"@
    }
}

/// The `LIMIT` line: nothing where no limit is set.
pub open spec fn limit_line(limit: Option<usize>) -> Seq<char> {
    match limit {
        Some(n) => "LIMIT "@ + decimal(n as nat) + "\n"@,
        None => Seq::empty(),
    }
}

/// The `FROM` line of the base model.
pub open spec fn from_line(base: ModelView) -> Seq<char> {
    "FROM "@ + base.table_source() + " AS "@ + initial(base.name) + "\n"@
}

/// The SQL of a semantic query, or the first error on the way to it: a
/// reference that cannot be parsed, a query that asks for nothing, a
/// model that cannot be joined, an unknown dimension, metric or segment.
pub open spec fn generate(g: GraphView, q: QueryView) -> Result<Seq<char>, ErrorView> {
    match try_map_from(q.dimensions, dimension_ref_fn(g), 0) {
        Err(e) => Err(e),
        Ok(dims) => match try_map_from(q.metrics, metric_ref_fn(g), 0) {
            Err(e) => Err(e),
            Ok(mets) => if dims.len() == 0 && mets.len() == 0 {
                Err(ErrorView::Validation(empty_query_complaint()))
            } else {
                let base = if mets.len() > 0 {
                    mets[0].model
                } else {
                    dims[0].model
                };
                match g.join_plan(base, seq![base], required_models(dims, mets)) {
                    Err(e) => Err(e),
                    Ok(plan) => match try_map_from(dims, dimension_part_fn(g), 0) {
                        Err(e) => Err(e),
                        Ok(dparts) => match try_map_from(mets, metric_part_fn(g), 0) {
                            Err(e) => Err(e),
                            Ok(mparts) => match g.get_model(base) {
                                None => Err(ErrorView::ModelNotFound(base)),
                                Some(b) => match try_map_from(plan, join_line_fn(g), 0) {
                                    Err(e) => Err(e),
                                    Ok(joins) => match try_map_from(
                                        q.segments,
                                        segment_filter_fn(g),
                                        0,
                                    ) {
                                        Err(e) => Err(e),
                                        Ok(segs) => Ok(
                                            trim_end(
                                                "SELECT\n"@ + join(dparts + mparts, ",\n"@) + "\n"@
                                                    + from_line(b) + join(joins, ""@) + where_line(
                                                    g,
                                                    q.filters + segs,
                                                ) + group_line(dims.len(), mets.len()) + order_line(
                                                    q.order_by,
                                                ) + limit_line(q.limit),
                                            ),
                                        ),
                                    },
                                },
                            },
                        },
                    },
                }
            },
        },
    }
}


/// The generator of SQL for semantic queries over one graph.
pub struct SqlGenerator<'a> {
    graph: &'a SemanticGraph,
}

impl<'a> SqlGenerator<'a> {
    /// The graph that the generator reads.
    pub closed spec fn graph(&self) -> SemanticGraph {
        *self.graph
    }

    /// A generator over the given graph.
    pub fn new(graph: &'a SemanticGraph) -> (r: Self)
        ensures
            r.graph() == *graph,
    {
        SqlGenerator { graph }
    }

    /// The SQL of a semantic query: the dimensions and the metrics as
    /// output columns, the first metric's model (or else the first
    /// dimension's) after `FROM`, a `LEFT JOIN` for every other model that
    /// is needed, the filters and segments after `WHERE`, and the grouping,
    /// the order and the limit.
    pub fn generate(&self, query: &SemanticQuery) -> (r: Result<String, SidemanticError>)
        requires
            self.graph().wf(),
        ensures
            match r {
                Ok(s) => generate(self.graph()@, query@) == Ok::<Seq<char>, ErrorView>(s@),
                Err(e) => generate(self.graph()@, query@) == Err::<Seq<char>, ErrorView>(e@),
            },
    {
        let dimension_refs = match self.parse_dimension_refs(&query.dimensions) {
            Ok(v) => v,
            Err(e) => {
                return Err(e);
            },
        };
        let metric_refs = match self.parse_metric_refs(&query.metrics) {
            Ok(v) => v,
            Err(e) => {
                return Err(e);
            },
        };
        if dimension_refs.len() == 0 && metric_refs.len() == 0 {
            return Err(
                SidemanticError::Validation(
                    "Query must have at least one metric or dimension".to_owned(),
                ),
            );
        }
        let required = self.find_required_models(&dimension_refs, &metric_refs);
        let base_model = if metric_refs.len() > 0 {
            metric_refs[0].model.clone()
        } else {
            dimension_refs[0].model.clone()
        };
        let plan = match self.build_join_paths(base_model.as_str(), &required) {
            Ok(p) => p,
            Err(e) => {
                return Err(e);
            },
        };
        let mut parts = match self.dimension_parts(&dimension_refs) {
            Ok(p) => p,
            Err(e) => {
                return Err(e);
            },
        };
        let mut metric_parts = match self.metric_parts(&metric_refs) {
            Ok(p) => p,
            Err(e) => {
                return Err(e);
            },
        };
        let ghost dparts = views(parts@);
        let ghost mparts = views(metric_parts@);
        parts.append(&mut metric_parts);
        assert(views(parts@) =~= dparts + mparts);
        let base = match self.graph.get_model(base_model.as_str()) {
            Some(m) => m,
            None => {
                return Err(SidemanticError::ModelNotFound(base_model));
            },
        };
        let joins = match self.join_lines(&plan) {
            Ok(j) => j,
            Err(e) => {
                return Err(e);
            },
        };
        let mut segment_filters = match self.resolve_segments(&query.segments) {
            Ok(s) => s,
            Err(e) => {
                return Err(e);
            },
        };
        let ghost segs = views(segment_filters@);
        let mut all_filters = clone_strings(&query.filters);
        assert(views(all_filters@) == views(query.filters@));
        all_filters.append(&mut segment_filters);
        assert(views(all_filters@) =~= query@.filters + segs);

        let mut sql = "SELECT\n".to_owned();
        sql.append(join_strings(&parts, ",\n").as_str());
        sql.append("\n");
        let mut from = concat4("FROM ", base.table_source().as_str(), " AS ", self.model_alias(
            base.name.as_str(),
        ).as_str());
        from.append("\n");
        sql.append(from.as_str());
        sql.append(join_strings(&joins, "").as_str());
        sql.append(self.where_clause(&all_filters).as_str());
        sql.append(group_clause(dimension_refs.len(), metric_refs.len()).as_str());
        if query.order_by.len() > 0 {
            let mut order = concat2("ORDER BY ", join_strings(&query.order_by, ", ").as_str());
            order.append("\n");
            sql.append(order.as_str());
        }
        match query.limit {
            Some(n) => {
                let mut limit = concat2("LIMIT ", decimal_string(n).as_str());
                limit.append("\n");
                sql.append(limit.as_str());
            },
            None => {},
        }
        proof {
            let g = self.graph()@;
            assert(sql@ =~= "SELECT\n"@ + join(dparts + mparts, ",\n"@) + "\n"@ + from_line(base@)
                + join(views(joins@), ""@) + where_line(g, query@.filters + segs) + group_line(
                dimension_refs@.len(),
                metric_refs@.len(),
            ) + order_line(query@.order_by) + limit_line(query@.limit));
        }
        Ok(trim_end_str(sql.as_str()))
    }

    /// The dimension references of a query, taken apart.
    fn parse_dimension_refs(&self, dimensions: &Vec<String>) -> (r: Result<
        Vec<DimensionRef>,
        SidemanticError,
    >)
        ensures
            match r {
                Ok(v) => try_map_from(views(dimensions@), dimension_ref_fn(self.graph()@), 0)
                    == Ok::<Seq<DimensionRefView>, ErrorView>(dimension_refs_view(v@)),
                Err(e) => try_map_from(views(dimensions@), dimension_ref_fn(self.graph()@), 0)
                    == Err::<Seq<DimensionRefView>, ErrorView>(e@),
            },
    {
        let ghost s = views(dimensions@);
        let ghost f = dimension_ref_fn(self.graph()@);
        let mut refs: Vec<DimensionRef> = Vec::new();
        proof {
            lemma_try_map_start(s, f);
            assert(dimension_refs_view(refs@) =~= Seq::empty());
        }
        let mut i: usize = 0;
        while i < dimensions.len()
            invariant
                i <= dimensions.len(),
                s == views(dimensions@),
                f == dimension_ref_fn(self.graph()@),
                try_map_from(s, f, 0) == prepend(
                    dimension_refs_view(refs@),
                    try_map_from(s, f, i as int),
                ),
            decreases dimensions.len() - i,
        {
            proof {
                lemma_try_map_step(s, f, i as int, dimension_refs_view(refs@));
                assert(s[i as int] == dimensions@[i as int]@);
            }
            match self.graph.parse_reference(dimensions[i].as_str()) {
                Err(e) => {
                    return Err(e);
                },
                Ok((model, name, granularity)) => {
                    let alias = match &granularity {
                        Some(g) => concat3(name.as_str(), "__", g.as_str()),
                        None => name.clone(),
                    };
                    let ghost prev = dimension_refs_view(refs@);
                    let item = DimensionRef { model, name, granularity, alias };
                    assert(f(s[i as int]) == Ok::<DimensionRefView, ErrorView>(item@));
                    refs.push(item);
                    assert(dimension_refs_view(refs@) =~= prev.push(item@));
                },
            }
            i = i + 1;
        }
        proof {
            lemma_try_map_end(s, f, i as int, dimension_refs_view(refs@));
        }
        Ok(refs)
    }

    /// The metric references of a query, taken apart.
    fn parse_metric_refs(&self, metrics: &Vec<String>) -> (r: Result<
        Vec<MetricRef>,
        SidemanticError,
    >)
        ensures
            match r {
                Ok(v) => try_map_from(views(metrics@), metric_ref_fn(self.graph()@), 0) == Ok::<
                    Seq<MetricRefView>,
                    ErrorView,
                >(metric_refs_view(v@)),
                Err(e) => try_map_from(views(metrics@), metric_ref_fn(self.graph()@), 0) == Err::<
                    Seq<MetricRefView>,
                    ErrorView,
                >(e@),
            },
    {
        let ghost s = views(metrics@);
        let ghost f = metric_ref_fn(self.graph()@);
        let mut refs: Vec<MetricRef> = Vec::new();
        proof {
            lemma_try_map_start(s, f);
            assert(metric_refs_view(refs@) =~= Seq::empty());
        }
        let mut i: usize = 0;
        while i < metrics.len()
            invariant
                i <= metrics.len(),
                s == views(metrics@),
                f == metric_ref_fn(self.graph()@),
                try_map_from(s, f, 0) == prepend(
                    metric_refs_view(refs@),
                    try_map_from(s, f, i as int),
                ),
            decreases metrics.len() - i,
        {
            proof {
                lemma_try_map_step(s, f, i as int, metric_refs_view(refs@));
                assert(s[i as int] == metrics@[i as int]@);
            }
            match self.graph.parse_reference(metrics[i].as_str()) {
                Err(e) => {
                    return Err(e);
                },
                Ok((model, name, granularity)) => {
                    let alias = name.clone();
                    let ghost prev = metric_refs_view(refs@);
                    let item = MetricRef { model, name, alias };
                    assert(f(s[i as int]) == Ok::<MetricRefView, ErrorView>(item@));
                    refs.push(item);
                    assert(metric_refs_view(refs@) =~= prev.push(item@));
                },
            }
            i = i + 1;
        }
        proof {
            lemma_try_map_end(s, f, i as int, metric_refs_view(refs@));
        }
        Ok(refs)
    }

    /// The models that the references need, each once.
    fn find_required_models(
        &self,
        dimension_refs: &Vec<DimensionRef>,
        metric_refs: &Vec<MetricRef>,
    ) -> (r: Vec<String>)
        ensures
            views(r@) == required_models(
                dimension_refs_view(dimension_refs@),
                metric_refs_view(metric_refs@),
            ),
    {
        let ghost dm = dimension_refs_view(dimension_refs@).map_values(
            |d: DimensionRefView| d.model,
        );
        let ghost mm = metric_refs_view(metric_refs@).map_values(|m: MetricRefView| m.model);
        let ghost all = dm + mm;
        let mut out: Vec<String> = Vec::new();
        assert(views(out@) =~= distinct(all.subrange(0, 0)));
        let mut i: usize = 0;
        while i < dimension_refs.len()
            invariant
                i <= dimension_refs.len(),
                dm == dimension_refs_view(dimension_refs@).map_values(
                    |d: DimensionRefView| d.model,
                ),
                all == dm + mm,
                views(out@) == distinct(all.subrange(0, i as int)),
            decreases dimension_refs.len() - i,
        {
            proof {
                let next = all.subrange(0, i + 1);
                assert(next.drop_last() =~= all.subrange(0, i as int));
                assert(next.last() == dimension_refs@[i as int]@.model);
            }
            if !contains_name(&out, dimension_refs[i].model.as_str()) {
                let ghost prev = views(out@);
                out.push(dimension_refs[i].model.clone());
                assert(views(out@) =~= prev.push(dimension_refs@[i as int]@.model));
            }
            i = i + 1;
        }
        let mut j: usize = 0;
        while j < metric_refs.len()
            invariant
                j <= metric_refs.len(),
                dm.len() == dimension_refs.len(),
                mm == metric_refs_view(metric_refs@).map_values(|m: MetricRefView| m.model),
                all == dm + mm,
                views(out@) == distinct(all.subrange(0, dm.len() + j)),
            decreases metric_refs.len() - j,
        {
            proof {
                let next = all.subrange(0, dm.len() + j + 1);
                assert(next.drop_last() =~= all.subrange(0, dm.len() + j));
                assert(next.last() == metric_refs@[j as int]@.model);
            }
            if !contains_name(&out, metric_refs[j].model.as_str()) {
                let ghost prev = views(out@);
                out.push(metric_refs[j].model.clone());
                assert(views(out@) =~= prev.push(metric_refs@[j as int]@.model));
            }
            j = j + 1;
        }
        assert(all.subrange(0, dm.len() + j) =~= all);
        out
    }

    /// The joins from the base model to every other model that is needed.
    fn build_join_paths(&self, base_model: &str, required_models: &Vec<String>) -> (r: Result<
        Vec<JoinStep>,
        SidemanticError,
    >)
        requires
            self.graph().wf(),
        ensures
            match r {
                Ok(p) => self.graph()@.join_plan(
                    base_model@,
                    seq![base_model@],
                    views(required_models@),
                ) == Ok::<Seq<JoinStepView>, ErrorView>(steps_view(p@)),
                Err(e) => self.graph()@.join_plan(
                    base_model@,
                    seq![base_model@],
                    views(required_models@),
                ) == Err::<Seq<JoinStepView>, ErrorView>(e@),
            },
    {
        let mut present: Vec<String> = Vec::new();
        present.push(base_model.to_owned());
        assert(views(present@) =~= seq![base_model@]);
        self.graph.join_plan(base_model, &present, required_models)
    }

    /// The alias of a model: its first character.
    fn model_alias(&self, model_name: &str) -> (r: String)
        ensures
            r@ == initial(model_name@),
    {
        initial_of(model_name)
    }

    /// `expr` with the names of the simple metrics of `model` replaced by
    /// their SQL.
    fn expand_derived_metric(&self, expr: &str, model: &Model) -> (r: String)
        ensures
            r@ == expand_from(model@.metrics, initial(model@.name), expr@, 0),
    {
        let alias = self.model_alias(model.name.as_str());
        let mut result = expr.to_owned();
        let mut i: usize = 0;
        while i < model.metrics.len()
            invariant
                i <= model.metrics.len(),
                alias@ == initial(model@.name),
                expand_from(model@.metrics, alias@, expr@, 0) == expand_from(
                    model@.metrics,
                    alias@,
                    result@,
                    i as int,
                ),
            decreases model.metrics.len() - i,
        {
            let metric = &model.metrics[i];
            assert(model@.metrics[i as int] == metric@);
            let is_simple = match metric.kind {
                MetricType::Simple => true,
                _ => false,
            };
            if str_contains(result.as_str(), metric.name.as_str()) && is_simple {
                let metric_sql = metric.to_sql(Some(alias.as_str()));
                result = replace_str(result.as_str(), metric.name.as_str(), metric_sql.as_str());
            }
            i = i + 1;
        }
        result
    }

    /// The output columns of the dimensions.
    fn dimension_parts(&self, refs: &Vec<DimensionRef>) -> (r: Result<Vec<String>, SidemanticError>)
        ensures
            match r {
                Ok(v) => try_map_from(
                    dimension_refs_view(refs@),
                    dimension_part_fn(self.graph()@),
                    0,
                ) == Ok::<Seq<Seq<char>>, ErrorView>(views(v@)),
                Err(e) => try_map_from(
                    dimension_refs_view(refs@),
                    dimension_part_fn(self.graph()@),
                    0,
                ) == Err::<Seq<Seq<char>>, ErrorView>(e@),
            },
    {
        let ghost s = dimension_refs_view(refs@);
        let ghost f = dimension_part_fn(self.graph()@);
        let mut parts: Vec<String> = Vec::new();
        proof {
            lemma_try_map_start(s, f);
            assert(views(parts@) =~= Seq::empty());
        }
        let mut i: usize = 0;
        while i < refs.len()
            invariant
                i <= refs.len(),
                s == dimension_refs_view(refs@),
                f == dimension_part_fn(self.graph()@),
                try_map_from(s, f, 0) == prepend(views(parts@), try_map_from(s, f, i as int)),
            decreases refs.len() - i,
        {
            proof {
                lemma_try_map_step(s, f, i as int, views(parts@));
                assert(s[i as int] == refs@[i as int]@);
            }
            let r = &refs[i];
            let model = match self.graph.get_model(r.model.as_str()) {
                Some(m) => m,
                None => {
                    return Err(SidemanticError::ModelNotFound(r.model.clone()));
                },
            };
            let dimension = match model.get_dimension(r.name.as_str()) {
                Some(d) => d,
                None => {
                    return Err(
                        SidemanticError::DimensionNotFound {
                            model: r.model.clone(),
                            dimension: r.name.clone(),
                        },
                    );
                },
            };
            let alias = self.model_alias(r.model.as_str());
            let column = concat3(alias.as_str(), ".", dimension.sql_expr());
            let granularity = match &r.granularity {
                Some(g) => Some(g.clone()),
                None => clone_opt(&dimension.granularity),
            };
            let expr = match granularity {
                Some(g) => {
                    let mut out = concat4("DATE_TRUNC('", g.as_str(), "', ", column.as_str());
                    out.append(")");
                    out
                },
                None => column,
            };
            let part = concat4("  ", expr.as_str(), " AS ", r.alias.as_str());
            proof {
                let dv = dimension@;
                assert(expr@ =~= dimension_sql(dv, initial(r@.model), r@.granularity));
                assert(f(s[i as int]) == Ok::<Seq<char>, ErrorView>(part@));
            }
            let ghost prev = views(parts@);
            parts.push(part);
            assert(views(parts@) =~= prev.push(part@));
            i = i + 1;
        }
        proof {
            lemma_try_map_end(s, f, i as int, views(parts@));
        }
        Ok(parts)
    }

    /// The output columns of the metrics.
    fn metric_parts(&self, refs: &Vec<MetricRef>) -> (r: Result<Vec<String>, SidemanticError>)
        ensures
            match r {
                Ok(v) => try_map_from(metric_refs_view(refs@), metric_part_fn(self.graph()@), 0)
                    == Ok::<Seq<Seq<char>>, ErrorView>(views(v@)),
                Err(e) => try_map_from(metric_refs_view(refs@), metric_part_fn(self.graph()@), 0)
                    == Err::<Seq<Seq<char>>, ErrorView>(e@),
            },
    {
        let ghost s = metric_refs_view(refs@);
        let ghost f = metric_part_fn(self.graph()@);
        let mut parts: Vec<String> = Vec::new();
        proof {
            lemma_try_map_start(s, f);
            assert(views(parts@) =~= Seq::empty());
        }
        let mut i: usize = 0;
        while i < refs.len()
            invariant
                i <= refs.len(),
                s == metric_refs_view(refs@),
                f == metric_part_fn(self.graph()@),
                try_map_from(s, f, 0) == prepend(views(parts@), try_map_from(s, f, i as int)),
            decreases refs.len() - i,
        {
            proof {
                lemma_try_map_step(s, f, i as int, views(parts@));
                assert(s[i as int] == refs@[i as int]@);
            }
            let r = &refs[i];
            let model = match self.graph.get_model(r.model.as_str()) {
                Some(m) => m,
                None => {
                    return Err(SidemanticError::ModelNotFound(r.model.clone()));
                },
            };
            let metric = match model.get_metric(r.name.as_str()) {
                Some(m) => m,
                None => {
                    return Err(
                        SidemanticError::MetricNotFound {
                            model: r.model.clone(),
                            metric: r.name.clone(),
                        },
                    );
                },
            };
            assert(model@.name == r@.model) by {
                crate::text::lemma_first_named(self.graph()@.names(), r@.model, 0);
            }
            let alias = self.model_alias(r.model.as_str());
            let expr = match metric.kind {
                MetricType::Derived => self.expand_derived_metric(metric.sql_expr(), model),
                MetricType::Ratio => {
                    let num = match &metric.numerator {
                        Some(n) => n.as_str(),
                        None => "1",
                    };
                    let den = match &metric.denominator {
                        Some(d) => d.as_str(),
                        None => "1",
                    };
                    let num_sql = self.expand_derived_metric(num, model);
                    let den_sql = self.expand_derived_metric(den, model);
                    let mut out = concat3("(", num_sql.as_str(), ") / NULLIF(");
                    out.append(den_sql.as_str());
                    out.append(", 0)");
                    out
                },
                _ => metric.to_sql(Some(alias.as_str())),
            };
            let part = concat4("  ", expr.as_str(), " AS ", r.alias.as_str());
            proof {
                assert(expr@ =~= metric_sql(model@, metric@, initial(r@.model)));
                assert(f(s[i as int]) == Ok::<Seq<char>, ErrorView>(part@));
            }
            let ghost prev = views(parts@);
            parts.push(part);
            assert(views(parts@) =~= prev.push(part@));
            i = i + 1;
        }
        proof {
            lemma_try_map_end(s, f, i as int, views(parts@));
        }
        Ok(parts)
    }

    /// The `LEFT JOIN` lines of a join plan.
    fn join_lines(&self, plan: &Vec<JoinStep>) -> (r: Result<Vec<String>, SidemanticError>)
        ensures
            match r {
                Ok(v) => try_map_from(steps_view(plan@), join_line_fn(self.graph()@), 0) == Ok::<
                    Seq<Seq<char>>,
                    ErrorView,
                >(views(v@)),
                Err(e) => try_map_from(steps_view(plan@), join_line_fn(self.graph()@), 0) == Err::<
                    Seq<Seq<char>>,
                    ErrorView,
                >(e@),
            },
    {
        let ghost s = steps_view(plan@);
        let ghost f = join_line_fn(self.graph()@);
        let mut lines: Vec<String> = Vec::new();
        proof {
            lemma_try_map_start(s, f);
            assert(views(lines@) =~= Seq::empty());
        }
        let mut i: usize = 0;
        while i < plan.len()
            invariant
                i <= plan.len(),
                s == steps_view(plan@),
                f == join_line_fn(self.graph()@),
                try_map_from(s, f, 0) == prepend(views(lines@), try_map_from(s, f, i as int)),
            decreases plan.len() - i,
        {
            proof {
                lemma_try_map_step(s, f, i as int, views(lines@));
                assert(s[i as int] == plan@[i as int]@);
            }
            let step = &plan[i];
            let target = match self.graph.get_model(step.to_model.as_str()) {
                Some(m) => m,
                None => {
                    return Err(SidemanticError::ModelNotFound(step.to_model.clone()));
                },
            };
            let from_alias = self.model_alias(step.from_model.as_str());
            let to_alias = self.model_alias(step.to_model.as_str());
            let mut line = concat4(
                "LEFT JOIN ",
                target.table_source().as_str(),
                " AS ",
                to_alias.as_str(),
            );
            line.append(" ON ");
            line.append(from_alias.as_str());
            line.append(".");
            line.append(step.from_key.as_str());
            line.append(" = ");
            line.append(to_alias.as_str());
            line.append(".");
            line.append(step.to_key.as_str());
            line.append("\n");
            proof {
                assert(f(s[i as int]) == Ok::<Seq<char>, ErrorView>(line@));
            }
            let ghost prev = views(lines@);
            lines.push(line);
            assert(views(lines@) =~= prev.push(line@));
            i = i + 1;
        }
        proof {
            lemma_try_map_end(s, f, i as int, views(lines@));
        }
        Ok(lines)
    }

    /// A filter with its dimension references replaced.
    fn expand_filter(&self, filter: &str) -> (r: String)
        ensures
            r@ == expand_filter(self.graph()@, filter@),
    {
        let models = self.graph.models();
        let ghost mv = self.graph()@.models;
        let mut text = filter.to_owned();
        let mut i: usize = 0;
        while i < models.len()
            invariant
                i <= models.len(),
                mv == crate::graph::models_view(models@),
                expand_models_from(mv, filter@, 0) == expand_models_from(mv, text@, i as int),
            decreases models.len() - i,
        {
            let model = &models[i];
            assert(mv[i as int] == model@);
            let alias = self.model_alias(model.name.as_str());
            let ghost start = text@;
            let mut j: usize = 0;
            while j < model.dimensions.len()
                invariant
                    j <= model.dimensions.len(),
                    alias@ == initial(model@.name),
                    expand_dimensions_from(model@, start, 0) == expand_dimensions_from(
                        model@,
                        text@,
                        j as int,
                    ),
                decreases model.dimensions.len() - j,
            {
                let dim = &model.dimensions[j];
                assert(model@.dimensions[j as int] == dim@);
                let pattern = concat3(model.name.as_str(), ".", dim.name.as_str());
                let replacement = concat3(alias.as_str(), ".", dim.sql_expr());
                text = replace_str(text.as_str(), pattern.as_str(), replacement.as_str());
                j = j + 1;
            }
            i = i + 1;
        }
        text
    }

    /// The filters with their dimension references replaced.
    fn expand_filters(&self, filters: &Vec<String>) -> (r: Vec<String>)
        ensures
            views(r@) == views(filters@).map_values(
                |f: Seq<char>| expand_filter(self.graph()@, f),
            ),
    {
        let mut out: Vec<String> = Vec::new();
        let mut i: usize = 0;
        while i < filters.len()
            invariant
                i <= filters.len(),
                out@.len() == i,
                forall|j: int|
                    0 <= j < i ==> out@[j]@ == expand_filter(self.graph()@, filters@[j]@),
            decreases filters.len() - i,
        {
            out.push(self.expand_filter(filters[i].as_str()));
            i = i + 1;
        }
        assert(views(out@) =~= views(filters@).map_values(
            |f: Seq<char>| expand_filter(self.graph()@, f),
        ));
        out
    }

    /// The `WHERE` line for the given filters.
    fn where_clause(&self, filters: &Vec<String>) -> (r: String)
        ensures
            r@ == where_line(self.graph()@, views(filters@)),
    {
        if filters.len() == 0 {
            String::new()
        } else {
            let expanded = self.expand_filters(filters);
            concat3("WHERE ", join_strings(&expanded, " AND ").as_str(), "\n")
        }
    }

    /// The filters that the segment references stand for.
    fn resolve_segments(&self, segments: &Vec<String>) -> (r: Result<Vec<String>, SidemanticError>)
        ensures
            match r {
                Ok(v) => try_map_from(views(segments@), segment_filter_fn(self.graph()@), 0)
                    == Ok::<Seq<Seq<char>>, ErrorView>(views(v@)),
                Err(e) => try_map_from(views(segments@), segment_filter_fn(self.graph()@), 0)
                    == Err::<Seq<Seq<char>>, ErrorView>(e@),
            },
    {
        let ghost s = views(segments@);
        let ghost f = segment_filter_fn(self.graph()@);
        let mut filters: Vec<String> = Vec::new();
        proof {
            lemma_try_map_start(s, f);
            assert(views(filters@) =~= Seq::empty());
        }
        let mut i: usize = 0;
        while i < segments.len()
            invariant
                i <= segments.len(),
                s == views(segments@),
                f == segment_filter_fn(self.graph()@),
                try_map_from(s, f, 0) == prepend(views(filters@), try_map_from(s, f, i as int)),
            decreases segments.len() - i,
        {
            proof {
                lemma_try_map_step(s, f, i as int, views(filters@));
                assert(s[i as int] == segments@[i as int]@);
            }
            let (model_name, segment_name, _granularity) = match self.graph.parse_reference(
                segments[i].as_str(),
            ) {
                Ok(t) => t,
                Err(e) => {
                    return Err(e);
                },
            };
            let model = match self.graph.get_model(model_name.as_str()) {
                Some(m) => m,
                None => {
                    return Err(SidemanticError::ModelNotFound(model_name));
                },
            };
            let segment = match model.get_segment(segment_name.as_str()) {
                Some(sg) => sg,
                None => {
                    return Err(
                        SidemanticError::Validation(
                            concat4(
                                "Segment not found: ",
                                model_name.as_str(),
                                ".",
                                segment_name.as_str(),
                            ),
                        ),
                    );
                },
            };
            let alias = self.model_alias(model_name.as_str());
            let filter = segment.get_sql(alias.as_str());
            proof {
                assert(f(s[i as int]) == Ok::<Seq<char>, ErrorView>(filter@));
            }
            let ghost prev = views(filters@);
            filters.push(filter);
            assert(views(filters@) =~= prev.push(filter@));
            i = i + 1;
        }
        proof {
            lemma_try_map_end(s, f, i as int, views(filters@));
        }
        Ok(filters)
    }
}

/// The `GROUP BY` line for so many dimensions and metrics.
fn group_clause(dims: usize, mets: usize) -> (r: String)
    ensures
        r@ == group_line(dims as nat, mets as nat),
{
    if dims > 0 && mets > 0 {
        let mut places: Vec<String> = Vec::new();
        let mut i: usize = 0;
        while i < dims
            invariant
                i <= dims,
                places@.len() == i,
                forall|j: int| 0 <= j < i ==> places@[j]@ == decimal((j + 1) as nat),
            decreases dims - i,
        {
            places.push(decimal_string(i + 1));
            i = i + 1;
        }
        assert(views(places@) =~= positions(dims as nat));
        concat3("GROUP BY ", join_strings(&places, ", ").as_str(), "\n")
    } else {
        String::new()
    }
}

} // verus!
