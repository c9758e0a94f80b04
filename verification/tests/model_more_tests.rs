use sidemantic::{
    Aggregation, Dimension, DimensionType, Metric, MetricType, Model, Relationship,
    RelationshipType, Segment, SidemanticError,
};

#[test]
fn dimensions() {
    let plain = Dimension::categorical("status");
    assert_eq!(plain.kind, DimensionType::Categorical);
    assert_eq!(plain.sql_with_granularity(None), "status");
    assert_eq!(plain.sql_with_granularity(Some("day")), "DATE_TRUNC('day', status)");

    let time = Dimension::time("order_date").with_sql("created_at").with_granularity("month");
    assert_eq!(time.kind, DimensionType::Time);
    assert_eq!(time.sql_expr(), "created_at");
    assert_eq!(time.sql_with_granularity(None), "DATE_TRUNC('month', created_at)");
    assert_eq!(time.sql_with_granularity(Some("year")), "DATE_TRUNC('year', created_at)");
}

#[test]
fn metrics_of_every_kind() {
    assert_eq!(Aggregation::Median.as_sql(), "MEDIAN");
    assert_eq!(Aggregation::CountDistinct.as_sql(), "COUNT(DISTINCT");
    assert_eq!(Aggregation::Expression.as_sql(), "");

    assert_eq!(Metric::new("revenue").to_sql(Some("o")), "SUM(o.revenue)");
    assert_eq!(Metric::avg("price", "amount").to_sql(Some("o")), "AVG(o.amount)");
    assert_eq!(Metric::count("n").to_sql(Some("o")), "COUNT(*)");

    let mut bare_count = Metric::new("count");
    bare_count.agg = Some(Aggregation::Count);
    assert_eq!(bare_count.to_sql(Some("o")), "COUNT(*)");
    bare_count.sql = Some("id".to_string());
    assert_eq!(bare_count.to_sql(Some("o")), "COUNT(o.id)");

    let mut no_agg = Metric::new("total");
    no_agg.agg = None;
    no_agg.sql = Some("amount".to_string());
    assert_eq!(no_agg.to_sql(None), "SUM(amount)");

    let mut expression = Metric::new("net");
    expression.agg = Some(Aggregation::Expression);
    expression.sql = Some("SUM(a) - SUM(b)".to_string());
    assert_eq!(expression.to_sql(Some("o")), "SUM(a) - SUM(b)");

    let derived = Metric::derived("aov", "revenue / order_count");
    assert_eq!(derived.kind, MetricType::Derived);
    assert_eq!(derived.to_sql(Some("o")), "revenue / order_count");

    let ratio = Metric::ratio("margin", "profit", "revenue");
    assert_eq!(ratio.to_sql(None), "(profit) / NULLIF(revenue, 0)");
    let mut half = Metric::ratio("margin", "profit", "revenue");
    half.denominator = None;
    assert_eq!(half.to_sql(None), "(profit) / NULLIF(1, 0)");

    let mut cumulative = Metric::new("running");
    cumulative.kind = MetricType::Cumulative;
    cumulative.sql = Some("revenue".to_string());
    assert_eq!(cumulative.to_sql(Some("o")), "revenue");

    let mut comparison = Metric::new("yoy");
    comparison.kind = MetricType::TimeComparison;
    comparison.base_metric = Some("revenue".to_string());
    assert_eq!(comparison.to_sql(Some("o")), "revenue");

    let filtered = Metric::sum("revenue", "amount").with_filter("a = 1").with_filter("b = 2");
    assert_eq!(filtered.filters, vec!["a = 1".to_string(), "b = 2".to_string()]);
}

#[test]
fn relationships() {
    let plain = Relationship::many_to_one("customers");
    assert_eq!(plain.kind, RelationshipType::ManyToOne);
    assert_eq!(plain.fk(), "customers_id");
    assert_eq!(plain.pk(), "id");

    let keyed = Relationship::one_to_many("items").with_keys("order_id", "item_id");
    assert_eq!(keyed.kind, RelationshipType::OneToMany);
    assert_eq!(keyed.fk(), "order_id");
    assert_eq!(keyed.pk(), "item_id");

    assert_eq!(RelationshipType::ManyToOne.inverted(), RelationshipType::OneToMany);
    assert_eq!(RelationshipType::OneToMany.inverted(), RelationshipType::ManyToOne);
    assert_eq!(RelationshipType::OneToOne.inverted(), RelationshipType::OneToOne);
    assert_eq!(RelationshipType::ManyToMany.inverted(), RelationshipType::ManyToMany);
}

#[test]
fn models_and_segments() {
    let model = Model::new("orders", "id");
    assert_eq!(model.table_name(), "orders");
    assert_eq!(model.table_source(), "orders");
    assert_eq!(model.clone().with_table("public.orders").table_source(), "public.orders");
    assert_eq!(
        model.clone().with_table("t").with_sql("SELECT 1").table_source(),
        "(SELECT 1)"
    );

    let model = model
        .with_dimension(Dimension::new("status").with_sql("first"))
        .with_dimension(Dimension::new("status").with_sql("second"))
        .with_segment(Segment::new("done", "{model}.status = 'done' AND {model}.ok"));
    assert_eq!(model.get_dimension("status").unwrap().sql_expr(), "first");
    assert!(model.get_dimension("other").is_none());
    assert!(model.get_metric("status").is_none());
    assert!(model.get_relationship("status").is_none());
    assert!(model.get_segment("nope").is_none());
    assert_eq!(model.get_segment("done").unwrap().get_sql("o"), "o.status = 'done' AND o.ok");
}

#[test]
fn every_error_has_its_message() {
    assert_eq!(SidemanticError::ModelNotFound("m".into()).message(), "Model not found: m");
    assert_eq!(
        SidemanticError::DimensionNotFound { model: "m".into(), dimension: "d".into() }.message(),
        "Dimension not found: m.d"
    );
    assert_eq!(
        SidemanticError::MetricNotFound { model: "m".into(), metric: "x".into() }.message(),
        "Metric not found: m.x"
    );
    assert_eq!(
        SidemanticError::NoJoinPath { from: "a".into(), to: "b".into() }.message(),
        "No join path found between a and b"
    );
    assert_eq!(SidemanticError::SqlParse("bad".into()).message(), "SQL parse error: bad");
    assert_eq!(
        SidemanticError::InvalidReference("r".into()).message(),
        "Invalid reference: r"
    );
    assert_eq!(SidemanticError::Validation("v".into()).message(), "Validation error: v");
}
