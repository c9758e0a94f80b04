//! The building blocks of the semantic layer: dimensions, metrics,
//! relationships and the models that own them.

use vstd::prelude::*;
use vstd::string::*;
use crate::segment::Segment;
use crate::segment::SegmentView;
use crate::segment::opt_view;
use crate::segment::clone_opt;
use crate::text::concat2;
use crate::text::concat3;
use crate::text::str_eq;
use crate::text::first_named;

verus! {

/// What kind of attribute a dimension is.
#[derive(Debug, Clone, Copy, PartialEq, Eq, Structural)]
pub enum DimensionType {
    Categorical,
    Time,
    Boolean,
    Numeric,
}

impl Default for DimensionType {
    fn default() -> (r: Self)
        ensures
            r == DimensionType::Categorical,
    {
        DimensionType::Categorical
    }
}

/// A grouping attribute of a model.
#[derive(Debug)]
pub struct Dimension {
    pub name: String,
    pub kind: DimensionType,
    /// SQL expression; the name stands in where there is none.
    pub sql: Option<String>,
    /// Time granularity, for time dimensions.
    pub granularity: Option<String>,
    pub label: Option<String>,
    pub description: Option<String>,
}

/// The mathematical content of a [`Dimension`].
pub struct DimensionView {
    pub name: Seq<char>,
    pub kind: DimensionType,
    pub sql: Option<Seq<char>>,
    pub granularity: Option<Seq<char>>,
    pub label: Option<Seq<char>>,
    pub description: Option<Seq<char>>,
}

impl View for Dimension {
    type V = DimensionView;

    open spec fn view(&self) -> DimensionView {
        DimensionView {
            name: self.name@,
            kind: self.kind,
            sql: opt_view(self.sql),
            granularity: opt_view(self.granularity),
            label: opt_view(self.label),
            description: opt_view(self.description),
        }
    }
}

impl DimensionView {
    /// The SQL expression of the dimension: its `sql`, or else its name.
    pub open spec fn sql_expr(self) -> Seq<char> {
        match self.sql {
            Some(s) => s,
            None => self.name,
        }
    }

    /// The granularity that applies: the one asked for, or else the
    /// dimension's own.
    pub open spec fn effective_granularity(self, asked: Option<Seq<char>>) -> Option<Seq<char>> {
        match asked {
            Some(g) => Some(g),
            None => self.granularity,
        }
    }

    /// The SQL expression truncated to the granularity that applies, or the
    /// bare expression where none does.
    pub open spec fn sql_with_granularity(self, asked: Option<Seq<char>>) -> Seq<char> {
        match self.effective_granularity(asked) {
            Some(g) => "DATE_TRUNC('"@ + g + "', "@ + self.sql_expr() + ")"@,
            None => self.sql_expr(),
        }
    }
}

impl Clone for Dimension {
    fn clone(&self) -> (r: Self)
        ensures
            r@ == self@,
    {
        Dimension {
            name: self.name.clone(),
            kind: self.kind,
            sql: clone_opt(&self.sql),
            granularity: clone_opt(&self.granularity),
            label: clone_opt(&self.label),
            description: clone_opt(&self.description),
        }
    }
}

impl Dimension {
    /// A categorical dimension with the given name and nothing else set.
    pub fn new(name: &str) -> (r: Self)
        ensures
            r@ == (DimensionView {
                name: name@,
                kind: DimensionType::Categorical,
                sql: None,
                granularity: None,
                label: None,
                description: None,
            }),
    {
        Dimension {
            name: name.to_owned(),
            kind: DimensionType::Categorical,
            sql: None,
            granularity: None,
            label: None,
            description: None,
        }
    }

    /// The same as [`Dimension::new`].
    pub fn categorical(name: &str) -> (r: Self)
        ensures
            r@ == (DimensionView {
                name: name@,
                kind: DimensionType::Categorical,
                sql: None,
                granularity: None,
                label: None,
                description: None,
            }),
    {
        Dimension::new(name)
    }

    /// A time dimension with the given name and nothing else set.
    pub fn time(name: &str) -> (r: Self)
        ensures
            r@ == (DimensionView {
                name: name@,
                kind: DimensionType::Time,
                sql: None,
                granularity: None,
                label: None,
                description: None,
            }),
    {
        let mut d = Dimension::new(name);
        d.kind = DimensionType::Time;
        d
    }

    /// The dimension with its SQL expression set.
    pub fn with_sql(self, sql: &str) -> (r: Self)
        ensures
            r@ == (DimensionView { sql: Some(sql@), ..self@ }),
    {
        let mut d = self;
        d.sql = Some(sql.to_owned());
        d
    }

    /// The dimension with its granularity set.
    pub fn with_granularity(self, granularity: &str) -> (r: Self)
        ensures
            r@ == (DimensionView { granularity: Some(granularity@), ..self@ }),
    {
        let mut d = self;
        d.granularity = Some(granularity.to_owned());
        d
    }

    /// The SQL expression of the dimension: its `sql`, or else its name.
    pub fn sql_expr(&self) -> (r: &str)
        ensures
            r@ == self@.sql_expr(),
    {
        match &self.sql {
            Some(s) => s.as_str(),
            None => self.name.as_str(),
        }
    }

    /// The SQL expression wrapped in `DATE_TRUNC` for the granularity asked
    /// for, or else for the dimension's own; the bare expression if there is
    /// neither.
    pub fn sql_with_granularity(&self, granularity: Option<&str>) -> (r: String)
        ensures
            r@ == self@.sql_with_granularity(
                match granularity {
                    Some(g) => Some(g@),
                    None => None,
                },
            ),
    {
        let base = self.sql_expr();
        match granularity {
            Some(g) => {
                let mut out = concat3("DATE_TRUNC('", g, "', ");
                out.append(base);
                out.append(")");
                out
            },
            None => match &self.granularity {
                Some(g) => {
                    let mut out = concat3("DATE_TRUNC('", g.as_str(), "', ");
                    out.append(base);
                    out.append(")");
                    out
                },
                None => base.to_owned(),
            },
        }
    }
}

/// The aggregation function of a simple metric.
#[derive(Debug, Clone, Copy, PartialEq, Eq, Structural)]
pub enum Aggregation {
    Sum,
    Count,
    CountDistinct,
    Avg,
    Min,
    Max,
    Median,
    /// The metric's SQL is a complete expression of its own.
    Expression,
}

impl Default for Aggregation {
    fn default() -> (r: Self)
        ensures
            r == Aggregation::Sum,
    {
        Aggregation::Sum
    }
}

impl Aggregation {
    /// The SQL name of the aggregation.
    pub open spec fn sql_name(self) -> Seq<char> {
        match self {
            Aggregation::Sum => "SUM"@,
            Aggregation::Count => "COUNT"@,
            Aggregation::CountDistinct => "COUNT(DISTINCT"@,
            Aggregation::Avg => "AVG"@,
            Aggregation::Min => "MIN"@,
            Aggregation::Max => "MAX"@,
            Aggregation::Median => "MEDIAN"@,
            Aggregation::Expression => ""@,
        }
    }

    /// The SQL name of the aggregation; empty for `Expression`, which has none.
    pub fn as_sql(&self) -> (r: &'static str)
        ensures
            r@ == self.sql_name(),
    {
        match self {
            Aggregation::Sum => "SUM",
            Aggregation::Count => "COUNT",
            Aggregation::CountDistinct => "COUNT(DISTINCT",
            Aggregation::Avg => "AVG",
            Aggregation::Min => "MIN",
            Aggregation::Max => "MAX",
            Aggregation::Median => "MEDIAN",
            Aggregation::Expression => "",
        }
    }
}

/// How a metric is computed.
#[derive(Debug, Clone, Copy, PartialEq, Eq, Structural)]
pub enum MetricType {
    Simple,
    Derived,
    Ratio,
    Cumulative,
    TimeComparison,
}

impl Default for MetricType {
    fn default() -> (r: Self)
        ensures
            r == MetricType::Simple,
    {
        MetricType::Simple
    }
}

/// A measure of a model.
#[derive(Debug)]
pub struct Metric {
    pub name: String,
    pub kind: MetricType,
    /// Aggregation function, for simple metrics.
    pub agg: Option<Aggregation>,
    /// SQL expression: the aggregand of a simple metric, the formula of a
    /// derived one, the backing metric of a cumulative one.
    pub sql: Option<String>,
    /// Numerator, for ratio metrics.
    pub numerator: Option<String>,
    /// Denominator, for ratio metrics.
    pub denominator: Option<String>,
    /// Backing metric, for time comparisons.
    pub base_metric: Option<String>,
    pub filters: Vec<String>,
    pub label: Option<String>,
    pub description: Option<String>,
}

/// The mathematical content of a [`Metric`].
pub struct MetricView {
    pub name: Seq<char>,
    pub kind: MetricType,
    pub agg: Option<Aggregation>,
    pub sql: Option<Seq<char>>,
    pub numerator: Option<Seq<char>>,
    pub denominator: Option<Seq<char>>,
    pub base_metric: Option<Seq<char>>,
    pub filters: Seq<Seq<char>>,
    pub label: Option<Seq<char>>,
    pub description: Option<Seq<char>>,
}

impl View for Metric {
    type V = MetricView;

    open spec fn view(&self) -> MetricView {
        MetricView {
            name: self.name@,
            kind: self.kind,
            agg: self.agg,
            sql: opt_view(self.sql),
            numerator: opt_view(self.numerator),
            denominator: opt_view(self.denominator),
            base_metric: opt_view(self.base_metric),
            filters: self.filters@.map_values(|s: String| s@),
            label: opt_view(self.label),
            description: opt_view(self.description),
        }
    }
}

/// A text, or `fallback` where there is none.
pub open spec fn or_text(o: Option<Seq<char>>, fallback: Seq<char>) -> Seq<char> {
    match o {
        Some(s) => s,
        None => fallback,
    }
}

impl MetricView {
    /// A simple metric named `name` with aggregation `agg` over `sql`.
    pub open spec fn simple(name: Seq<char>, agg: Aggregation, sql: Option<Seq<char>>) -> MetricView {
        MetricView {
            name,
            kind: MetricType::Simple,
            agg: Some(agg),
            sql,
            numerator: None,
            denominator: None,
            base_metric: None,
            filters: Seq::empty(),
            label: None,
            description: None,
        }
    }

    /// The SQL expression of the metric: its `sql`, or else its name.
    pub open spec fn sql_expr(self) -> Seq<char> {
        or_text(self.sql, self.name)
    }

    /// The aggregation of a simple metric; `Sum` where none is set.
    pub open spec fn aggregation(self) -> Aggregation {
        match self.agg {
            Some(a) => a,
            None => Aggregation::Sum,
        }
    }

    /// What a simple metric aggregates: its SQL expression, except that a
    /// count without one counts rows (`*`).
    pub open spec fn aggregand(self) -> Seq<char> {
        if self.aggregation() == Aggregation::Count && self.sql is None {
            "*"@
        } else {
            self.sql_expr()
        }
    }

    /// The aggregand behind the alias: `*` stays bare, anything else gets
    /// `alias.` in front where an alias is given.
    pub open spec fn qualified_aggregand(self, alias: Option<Seq<char>>) -> Seq<char> {
        if self.aggregand() == "*"@ {
            "*"@
        } else {
            match alias {
                Some(a) => a + "."@ + self.aggregand(),
                None => self.aggregand(),
            }
        }
    }

    /// The metric as a SQL expression.
    pub open spec fn to_sql(self, alias: Option<Seq<char>>) -> Seq<char> {
        match self.kind {
            MetricType::Simple => match self.aggregation() {
                Aggregation::Expression => self.sql_expr(),
                Aggregation::CountDistinct => "COUNT(DISTINCT "@ + self.qualified_aggregand(alias)
                    + ")"@,
                a => a.sql_name() + "("@ + self.qualified_aggregand(alias) + ")"@,
            },
            MetricType::Derived => self.sql_expr(),
            MetricType::Ratio => "("@ + or_text(self.numerator, "1"@) + ") / NULLIF("@ + or_text(
                self.denominator,
                "1"@,
            ) + ", 0)"@,
            MetricType::Cumulative => self.sql_expr(),
            MetricType::TimeComparison => or_text(self.base_metric, self.sql_expr()),
        }
    }
}

/// Copies of the given texts.
pub fn clone_strings(v: &Vec<String>) -> (r: Vec<String>)
    ensures
        r@.map_values(|s: String| s@) == v@.map_values(|s: String| s@),
        r@.len() == v@.len(),
{
    let mut out: Vec<String> = Vec::new();
    let mut i: usize = 0;
    while i < v.len()
        invariant
            i <= v.len(),
            out@.len() == i,
            forall|j: int| 0 <= j < i ==> out@[j]@ == v@[j]@,
        decreases v.len() - i,
    {
        out.push(v[i].clone());
        i = i + 1;
    }
    assert(out@.map_values(|s: String| s@) =~= v@.map_values(|s: String| s@));
    out
}

impl Clone for Metric {
    fn clone(&self) -> (r: Self)
        ensures
            r@ == self@,
    {
        Metric {
            name: self.name.clone(),
            kind: self.kind,
            agg: self.agg,
            sql: clone_opt(&self.sql),
            numerator: clone_opt(&self.numerator),
            denominator: clone_opt(&self.denominator),
            base_metric: clone_opt(&self.base_metric),
            filters: clone_strings(&self.filters),
            label: clone_opt(&self.label),
            description: clone_opt(&self.description),
        }
    }
}

impl Metric {
    /// A simple sum metric with the given name and no SQL of its own.
    pub fn new(name: &str) -> (r: Self)
        ensures
            r@ == MetricView::simple(name@, Aggregation::Sum, None),
    {
        let m = Metric {
            name: name.to_owned(),
            kind: MetricType::Simple,
            agg: Some(Aggregation::Sum),
            sql: None,
            numerator: None,
            denominator: None,
            base_metric: None,
            filters: Vec::new(),
            label: None,
            description: None,
        };
        assert(m@.filters =~= Seq::empty());
        m
    }

    /// `SUM(sql)`.
    pub fn sum(name: &str, sql: &str) -> (r: Self)
        ensures
            r@ == MetricView::simple(name@, Aggregation::Sum, Some(sql@)),
    {
        let mut m = Metric::new(name);
        m.sql = Some(sql.to_owned());
        m
    }

    /// `COUNT(*)`.
    pub fn count(name: &str) -> (r: Self)
        ensures
            r@ == MetricView::simple(name@, Aggregation::Count, Some("*"@)),
    {
        let mut m = Metric::new(name);
        m.agg = Some(Aggregation::Count);
        m.sql = Some("*".to_owned());
        m
    }

    /// `COUNT(DISTINCT sql)`.
    pub fn count_distinct(name: &str, sql: &str) -> (r: Self)
        ensures
            r@ == MetricView::simple(name@, Aggregation::CountDistinct, Some(sql@)),
    {
        let mut m = Metric::new(name);
        m.agg = Some(Aggregation::CountDistinct);
        m.sql = Some(sql.to_owned());
        m
    }

    /// `AVG(sql)`.
    pub fn avg(name: &str, sql: &str) -> (r: Self)
        ensures
            r@ == MetricView::simple(name@, Aggregation::Avg, Some(sql@)),
    {
        let mut m = Metric::new(name);
        m.agg = Some(Aggregation::Avg);
        m.sql = Some(sql.to_owned());
        m
    }

    /// A metric derived from others by the formula `sql`.
    pub fn derived(name: &str, sql: &str) -> (r: Self)
        ensures
            r@ == (MetricView {
                kind: MetricType::Derived,
                agg: None,
                sql: Some(sql@),
                ..MetricView::simple(name@, Aggregation::Sum, None)
            }),
    {
        let mut m = Metric::new(name);
        m.kind = MetricType::Derived;
        m.agg = None;
        m.sql = Some(sql.to_owned());
        m
    }

    /// The ratio of two metrics.
    pub fn ratio(name: &str, numerator: &str, denominator: &str) -> (r: Self)
        ensures
            r@ == (MetricView {
                kind: MetricType::Ratio,
                agg: None,
                numerator: Some(numerator@),
                denominator: Some(denominator@),
                ..MetricView::simple(name@, Aggregation::Sum, None)
            }),
    {
        let mut m = Metric::new(name);
        m.kind = MetricType::Ratio;
        m.agg = None;
        m.numerator = Some(numerator.to_owned());
        m.denominator = Some(denominator.to_owned());
        m
    }

    /// The metric with one more filter at the end of its filters.
    pub fn with_filter(self, filter: &str) -> (r: Self)
        ensures
            r@ == (MetricView { filters: self@.filters.push(filter@), ..self@ }),
    {
        let mut m = self;
        m.filters.push(filter.to_owned());
        assert(m@.filters =~= self@.filters.push(filter@));
        m
    }

    /// The SQL expression of the metric: its `sql`, or else its name.
    pub fn sql_expr(&self) -> (r: &str)
        ensures
            r@ == self@.sql_expr(),
    {
        match &self.sql {
            Some(s) => s.as_str(),
            None => self.name.as_str(),
        }
    }

    /// The aggregation of a simple metric; `Sum` where none is set.
    pub fn aggregation(&self) -> (r: Aggregation)
        ensures
            r == self@.aggregation(),
    {
        match self.agg {
            Some(a) => a,
            None => Aggregation::Sum,
        }
    }

    /// Whether a simple metric aggregates rows (`*`) rather than a column.
    pub fn counts_rows(&self) -> (r: bool)
        ensures
            r == (self@.aggregand() == "*"@),
    {
        let is_count = match self.aggregation() {
            Aggregation::Count => true,
            _ => false,
        };
        if is_count && self.sql.is_none() {
            true
        } else {
            str_eq(self.sql_expr(), "*")
        }
    }

    /// The metric as a SQL expression, its column behind `alias.` where an
    /// alias is given.
    pub fn to_sql(&self, alias: Option<&str>) -> (r: String)
        ensures
            r@ == self@.to_sql(
                match alias {
                    Some(a) => Some(a@),
                    None => None,
                },
            ),
    {
        match self.kind {
            MetricType::Simple => {
                let agg = self.aggregation();
                let full = if self.counts_rows() {
                    "*".to_owned()
                } else {
                    match alias {
                        Some(a) => concat3(a, ".", self.sql_expr()),
                        None => self.sql_expr().to_owned(),
                    }
                };
                match agg {
                    Aggregation::Expression => self.sql_expr().to_owned(),
                    Aggregation::CountDistinct => concat3("COUNT(DISTINCT ", full.as_str(), ")"),
                    _ => {
                        let mut out = concat2(agg.as_sql(), "(");
                        out.append(full.as_str());
                        out.append(")");
                        out
                    },
                }
            },
            MetricType::Derived => self.sql_expr().to_owned(),
            MetricType::Ratio => {
                let num = match &self.numerator {
                    Some(n) => n.as_str(),
                    None => "1",
                };
                let den = match &self.denominator {
                    Some(d) => d.as_str(),
                    None => "1",
                };
                let mut out = concat3("(", num, ") / NULLIF(");
                out.append(den);
                out.append(", 0)");
                out
            },
            MetricType::Cumulative => self.sql_expr().to_owned(),
            MetricType::TimeComparison => match &self.base_metric {
                Some(b) => b.clone(),
                None => self.sql_expr().to_owned(),
            },
        }
    }
}

/// How the rows of two models correspond.
#[derive(Debug, Clone, Copy, PartialEq, Eq, Structural)]
pub enum RelationshipType {
    ManyToOne,
    OneToOne,
    OneToMany,
    ManyToMany,
}

impl Default for RelationshipType {
    fn default() -> (r: Self)
        ensures
            r == RelationshipType::ManyToOne,
    {
        RelationshipType::ManyToOne
    }
}

impl RelationshipType {
    /// The same relationship seen from the other side.
    pub open spec fn inverse(self) -> RelationshipType {
        match self {
            RelationshipType::ManyToOne => RelationshipType::OneToMany,
            RelationshipType::OneToMany => RelationshipType::ManyToOne,
            RelationshipType::OneToOne => RelationshipType::OneToOne,
            RelationshipType::ManyToMany => RelationshipType::ManyToMany,
        }
    }

    /// The same relationship seen from the other side.
    pub fn inverted(&self) -> (r: RelationshipType)
        ensures
            r == self.inverse(),
    {
        match self {
            RelationshipType::ManyToOne => RelationshipType::OneToMany,
            RelationshipType::OneToMany => RelationshipType::ManyToOne,
            RelationshipType::OneToOne => RelationshipType::OneToOne,
            RelationshipType::ManyToMany => RelationshipType::ManyToMany,
        }
    }
}

/// A directed edge from the model that owns it to another model.
#[derive(Debug)]
pub struct Relationship {
    /// Name of the target model.
    pub name: String,
    pub kind: RelationshipType,
    /// Foreign key column on the owning model.
    pub foreign_key: Option<String>,
    /// Primary key column on the target model.
    pub primary_key: Option<String>,
}

/// The mathematical content of a [`Relationship`].
pub struct RelationshipView {
    pub name: Seq<char>,
    pub kind: RelationshipType,
    pub foreign_key: Option<Seq<char>>,
    pub primary_key: Option<Seq<char>>,
}

impl View for Relationship {
    type V = RelationshipView;

    open spec fn view(&self) -> RelationshipView {
        RelationshipView {
            name: self.name@,
            kind: self.kind,
            foreign_key: opt_view(self.foreign_key),
            primary_key: opt_view(self.primary_key),
        }
    }
}

impl RelationshipView {
    /// The foreign key column: the one set, or else the target's name with `_id`.
    pub open spec fn fk(self) -> Seq<char> {
        or_text(self.foreign_key, self.name + "_id"@)
    }

    /// The primary key column of the target: the one set, or else `id`.
    pub open spec fn pk(self) -> Seq<char> {
        or_text(self.primary_key, "id"@)
    }
}

impl Clone for Relationship {
    fn clone(&self) -> (r: Self)
        ensures
            r@ == self@,
    {
        Relationship {
            name: self.name.clone(),
            kind: self.kind,
            foreign_key: clone_opt(&self.foreign_key),
            primary_key: clone_opt(&self.primary_key),
        }
    }
}

impl Relationship {
    /// A many-to-one relationship to `target` with default keys.
    pub fn new(target: &str) -> (r: Self)
        ensures
            r@ == (RelationshipView {
                name: target@,
                kind: RelationshipType::ManyToOne,
                foreign_key: None,
                primary_key: None,
            }),
    {
        Relationship {
            name: target.to_owned(),
            kind: RelationshipType::ManyToOne,
            foreign_key: None,
            primary_key: None,
        }
    }

    /// The same as [`Relationship::new`].
    pub fn many_to_one(target: &str) -> (r: Self)
        ensures
            r@ == (RelationshipView {
                name: target@,
                kind: RelationshipType::ManyToOne,
                foreign_key: None,
                primary_key: None,
            }),
    {
        Relationship::new(target)
    }

    /// A one-to-many relationship to `target` with default keys.
    pub fn one_to_many(target: &str) -> (r: Self)
        ensures
            r@ == (RelationshipView {
                name: target@,
                kind: RelationshipType::OneToMany,
                foreign_key: None,
                primary_key: None,
            }),
    {
        let mut r = Relationship::new(target);
        r.kind = RelationshipType::OneToMany;
        r
    }

    /// The relationship with both keys set.
    pub fn with_keys(self, foreign_key: &str, primary_key: &str) -> (r: Self)
        ensures
            r@ == (RelationshipView {
                foreign_key: Some(foreign_key@),
                primary_key: Some(primary_key@),
                ..self@
            }),
    {
        let mut r = self;
        r.foreign_key = Some(foreign_key.to_owned());
        r.primary_key = Some(primary_key.to_owned());
        r
    }

    /// The foreign key column: the one set, or else the target's name with `_id`.
    pub fn fk(&self) -> (r: String)
        ensures
            r@ == self@.fk(),
    {
        match &self.foreign_key {
            Some(k) => k.clone(),
            None => concat2(self.name.as_str(), "_id"),
        }
    }

    /// The primary key column of the target: the one set, or else `id`.
    pub fn pk(&self) -> (r: String)
        ensures
            r@ == self@.pk(),
    {
        match &self.primary_key {
            Some(k) => k.clone(),
            None => "id".to_owned(),
        }
    }
}


/// A named logical entity bound to a physical table or to a subquery.
#[derive(Debug)]
pub struct Model {
    pub name: String,
    /// Physical table name.
    pub table: Option<String>,
    /// SQL of a subquery that stands for the table.
    pub sql: Option<String>,
    /// Primary key column.
    pub primary_key: String,
    pub dimensions: Vec<Dimension>,
    pub metrics: Vec<Metric>,
    pub relationships: Vec<Relationship>,
    pub segments: Vec<Segment>,
    pub label: Option<String>,
    pub description: Option<String>,
}

/// The mathematical content of a [`Model`].
pub struct ModelView {
    pub name: Seq<char>,
    pub table: Option<Seq<char>>,
    pub sql: Option<Seq<char>>,
    pub primary_key: Seq<char>,
    pub dimensions: Seq<DimensionView>,
    pub metrics: Seq<MetricView>,
    pub relationships: Seq<RelationshipView>,
    pub segments: Seq<SegmentView>,
    pub label: Option<Seq<char>>,
    pub description: Option<Seq<char>>,
}

impl View for Model {
    type V = ModelView;

    open spec fn view(&self) -> ModelView {
        ModelView {
            name: self.name@,
            table: opt_view(self.table),
            sql: opt_view(self.sql),
            primary_key: self.primary_key@,
            dimensions: self.dimensions@.map_values(|d: Dimension| d@),
            metrics: self.metrics@.map_values(|m: Metric| m@),
            relationships: self.relationships@.map_values(|r: Relationship| r@),
            segments: self.segments@.map_values(|s: Segment| s@),
            label: opt_view(self.label),
            description: opt_view(self.description),
        }
    }
}

impl ModelView {
    /// A model with the given name and primary key and nothing else.
    pub open spec fn empty(name: Seq<char>, primary_key: Seq<char>) -> ModelView {
        ModelView {
            name,
            table: None,
            sql: None,
            primary_key,
            dimensions: Seq::empty(),
            metrics: Seq::empty(),
            relationships: Seq::empty(),
            segments: Seq::empty(),
            label: None,
            description: None,
        }
    }

    /// The physical table name, or else the model's name.
    pub open spec fn table_name(self) -> Seq<char> {
        or_text(self.table, self.name)
    }

    /// What stands after `FROM`: the subquery in parentheses where the model
    /// has one, or else the table name.
    pub open spec fn table_source(self) -> Seq<char> {
        match self.sql {
            Some(q) => "("@ + q + ")"@,
            None => self.table_name(),
        }
    }

    /// The first dimension with the given name.
    pub open spec fn get_dimension(self, name: Seq<char>) -> Option<DimensionView> {
        match first_named(self.dimensions.map_values(|d: DimensionView| d.name), name, 0) {
            Some(i) => Some(self.dimensions[i]),
            None => None,
        }
    }

    /// The first metric with the given name.
    pub open spec fn get_metric(self, name: Seq<char>) -> Option<MetricView> {
        match first_named(self.metrics.map_values(|m: MetricView| m.name), name, 0) {
            Some(i) => Some(self.metrics[i]),
            None => None,
        }
    }

    /// The first relationship with the given target.
    pub open spec fn get_relationship(self, target: Seq<char>) -> Option<RelationshipView> {
        match first_named(self.relationships.map_values(|r: RelationshipView| r.name), target, 0) {
            Some(i) => Some(self.relationships[i]),
            None => None,
        }
    }

    /// The first segment with the given name.
    pub open spec fn get_segment(self, name: Seq<char>) -> Option<SegmentView> {
        match first_named(self.segments.map_values(|s: SegmentView| s.name), name, 0) {
            Some(i) => Some(self.segments[i]),
            None => None,
        }
    }
}

/// Copies of the given dimensions.
fn clone_dimensions(v: &Vec<Dimension>) -> (r: Vec<Dimension>)
    ensures
        r@.map_values(|d: Dimension| d@) == v@.map_values(|d: Dimension| d@),
{
    let mut out: Vec<Dimension> = Vec::new();
    let mut i: usize = 0;
    while i < v.len()
        invariant
            i <= v.len(),
            out@.len() == i,
            forall|j: int| 0 <= j < i ==> out@[j]@ == v@[j]@,
        decreases v.len() - i,
    {
        out.push(v[i].clone());
        i = i + 1;
    }
    assert(out@.map_values(|d: Dimension| d@) =~= v@.map_values(|d: Dimension| d@));
    out
}

/// Copies of the given metrics.
fn clone_metrics(v: &Vec<Metric>) -> (r: Vec<Metric>)
    ensures
        r@.map_values(|m: Metric| m@) == v@.map_values(|m: Metric| m@),
{
    let mut out: Vec<Metric> = Vec::new();
    let mut i: usize = 0;
    while i < v.len()
        invariant
            i <= v.len(),
            out@.len() == i,
            forall|j: int| 0 <= j < i ==> out@[j]@ == v@[j]@,
        decreases v.len() - i,
    {
        out.push(v[i].clone());
        i = i + 1;
    }
    assert(out@.map_values(|m: Metric| m@) =~= v@.map_values(|m: Metric| m@));
    out
}

/// Copies of the given relationships.
fn clone_relationships(v: &Vec<Relationship>) -> (r: Vec<Relationship>)
    ensures
        r@.map_values(|x: Relationship| x@) == v@.map_values(|x: Relationship| x@),
{
    let mut out: Vec<Relationship> = Vec::new();
    let mut i: usize = 0;
    while i < v.len()
        invariant
            i <= v.len(),
            out@.len() == i,
            forall|j: int| 0 <= j < i ==> out@[j]@ == v@[j]@,
        decreases v.len() - i,
    {
        out.push(v[i].clone());
        i = i + 1;
    }
    assert(out@.map_values(|x: Relationship| x@) =~= v@.map_values(|x: Relationship| x@));
    out
}

/// Copies of the given segments.
fn clone_segments(v: &Vec<Segment>) -> (r: Vec<Segment>)
    ensures
        r@.map_values(|s: Segment| s@) == v@.map_values(|s: Segment| s@),
{
    let mut out: Vec<Segment> = Vec::new();
    let mut i: usize = 0;
    while i < v.len()
        invariant
            i <= v.len(),
            out@.len() == i,
            forall|j: int| 0 <= j < i ==> out@[j]@ == v@[j]@,
        decreases v.len() - i,
    {
        out.push(v[i].clone());
        i = i + 1;
    }
    assert(out@.map_values(|s: Segment| s@) =~= v@.map_values(|s: Segment| s@));
    out
}

impl Clone for Model {
    fn clone(&self) -> (r: Self)
        ensures
            r@ == self@,
    {
        Model {
            name: self.name.clone(),
            table: clone_opt(&self.table),
            sql: clone_opt(&self.sql),
            primary_key: self.primary_key.clone(),
            dimensions: clone_dimensions(&self.dimensions),
            metrics: clone_metrics(&self.metrics),
            relationships: clone_relationships(&self.relationships),
            segments: clone_segments(&self.segments),
            label: clone_opt(&self.label),
            description: clone_opt(&self.description),
        }
    }
}

impl Model {
    /// A model with the given name and primary key and nothing else.
    pub fn new(name: &str, primary_key: &str) -> (r: Self)
        ensures
            r@ == ModelView::empty(name@, primary_key@),
    {
        let m = Model {
            name: name.to_owned(),
            table: None,
            sql: None,
            primary_key: primary_key.to_owned(),
            dimensions: Vec::new(),
            metrics: Vec::new(),
            relationships: Vec::new(),
            segments: Vec::new(),
            label: None,
            description: None,
        };
        assert(m@.dimensions =~= Seq::empty());
        assert(m@.metrics =~= Seq::empty());
        assert(m@.relationships =~= Seq::empty());
        assert(m@.segments =~= Seq::empty());
        m
    }

    /// The model bound to a physical table.
    pub fn with_table(self, table: &str) -> (r: Self)
        ensures
            r@ == (ModelView { table: Some(table@), ..self@ }),
    {
        let mut m = self;
        m.table = Some(table.to_owned());
        m
    }

    /// The model bound to a subquery.
    pub fn with_sql(self, sql: &str) -> (r: Self)
        ensures
            r@ == (ModelView { sql: Some(sql@), ..self@ }),
    {
        let mut m = self;
        m.sql = Some(sql.to_owned());
        m
    }

    /// The model with one more dimension at the end of its dimensions.
    pub fn with_dimension(self, dimension: Dimension) -> (r: Self)
        ensures
            r@ == (ModelView { dimensions: self@.dimensions.push(dimension@), ..self@ }),
    {
        let mut m = self;
        m.dimensions.push(dimension);
        assert(m@.dimensions =~= self@.dimensions.push(dimension@));
        m
    }

    /// The model with one more metric at the end of its metrics.
    pub fn with_metric(self, metric: Metric) -> (r: Self)
        ensures
            r@ == (ModelView { metrics: self@.metrics.push(metric@), ..self@ }),
    {
        let mut m = self;
        m.metrics.push(metric);
        assert(m@.metrics =~= self@.metrics.push(metric@));
        m
    }

    /// The model with one more relationship at the end of its relationships.
    pub fn with_relationship(self, relationship: Relationship) -> (r: Self)
        ensures
            r@ == (ModelView {
                relationships: self@.relationships.push(relationship@),
                ..self@
            }),
    {
        let mut m = self;
        m.relationships.push(relationship);
        assert(m@.relationships =~= self@.relationships.push(relationship@));
        m
    }

    /// The model with one more segment at the end of its segments.
    pub fn with_segment(self, segment: Segment) -> (r: Self)
        ensures
            r@ == (ModelView { segments: self@.segments.push(segment@), ..self@ }),
    {
        let mut m = self;
        m.segments.push(segment);
        assert(m@.segments =~= self@.segments.push(segment@));
        m
    }

    /// The physical table name, or else the model's name.
    pub fn table_name(&self) -> (r: &str)
        ensures
            r@ == self@.table_name(),
    {
        match &self.table {
            Some(t) => t.as_str(),
            None => self.name.as_str(),
        }
    }

    /// What stands after `FROM`: the subquery in parentheses where the model
    /// has one, or else the table name.
    pub fn table_source(&self) -> (r: String)
        ensures
            r@ == self@.table_source(),
    {
        match &self.sql {
            Some(q) => concat3("(", q.as_str(), ")"),
            None => self.table_name().to_owned(),
        }
    }

    /// The first dimension with the given name.
    pub fn get_dimension(&self, name: &str) -> (r: Option<&Dimension>)
        ensures
            match r {
                Some(d) => self@.get_dimension(name@) == Some(d@),
                None => self@.get_dimension(name@) is None,
            },
    {
        let ghost names = self@.dimensions.map_values(|d: DimensionView| d.name);
        let mut i: usize = 0;
        while i < self.dimensions.len()
            invariant
                i <= self.dimensions.len(),
                names == self@.dimensions.map_values(|d: DimensionView| d.name),
                first_named(names, name@, 0) == first_named(names, name@, i as int),
            decreases self.dimensions.len() - i,
        {
            if str_eq(self.dimensions[i].name.as_str(), name) {
                return Some(&self.dimensions[i]);
            }
            i = i + 1;
        }
        None
    }

    /// The first metric with the given name.
    pub fn get_metric(&self, name: &str) -> (r: Option<&Metric>)
        ensures
            match r {
                Some(m) => self@.get_metric(name@) == Some(m@),
                None => self@.get_metric(name@) is None,
            },
    {
        let ghost names = self@.metrics.map_values(|m: MetricView| m.name);
        let mut i: usize = 0;
        while i < self.metrics.len()
            invariant
                i <= self.metrics.len(),
                names == self@.metrics.map_values(|m: MetricView| m.name),
                first_named(names, name@, 0) == first_named(names, name@, i as int),
            decreases self.metrics.len() - i,
        {
            if str_eq(self.metrics[i].name.as_str(), name) {
                return Some(&self.metrics[i]);
            }
            i = i + 1;
        }
        None
    }

    /// The first relationship with the given target.
    pub fn get_relationship(&self, target: &str) -> (r: Option<&Relationship>)
        ensures
            match r {
                Some(x) => self@.get_relationship(target@) == Some(x@),
                None => self@.get_relationship(target@) is None,
            },
    {
        let ghost names = self@.relationships.map_values(|r: RelationshipView| r.name);
        let mut i: usize = 0;
        while i < self.relationships.len()
            invariant
                i <= self.relationships.len(),
                names == self@.relationships.map_values(|r: RelationshipView| r.name),
                first_named(names, target@, 0) == first_named(names, target@, i as int),
            decreases self.relationships.len() - i,
        {
            if str_eq(self.relationships[i].name.as_str(), target) {
                return Some(&self.relationships[i]);
            }
            i = i + 1;
        }
        None
    }

    /// The first segment with the given name.
    pub fn get_segment(&self, name: &str) -> (r: Option<&Segment>)
        ensures
            match r {
                Some(s) => self@.get_segment(name@) == Some(s@),
                None => self@.get_segment(name@) is None,
            },
    {
        let ghost names = self@.segments.map_values(|s: SegmentView| s.name);
        let mut i: usize = 0;
        while i < self.segments.len()
            invariant
                i <= self.segments.len(),
                names == self@.segments.map_values(|s: SegmentView| s.name),
                first_named(names, name@, 0) == first_named(names, name@, i as int),
            decreases self.segments.len() - i,
        {
            if str_eq(self.segments[i].name.as_str(), name) {
                return Some(&self.segments[i]);
            }
            i = i + 1;
        }
        None
    }
}

} // verus!
