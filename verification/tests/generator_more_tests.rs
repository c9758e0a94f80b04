use sidemantic::{
    Dimension, Metric, Model, Relationship, Segment, SemanticGraph, SemanticQuery, SqlGenerator,
};

fn shop() -> SemanticGraph {
    let mut graph = SemanticGraph::new();
    graph
        .add_model(
            Model::new("orders", "order_id")
                .with_table("orders")
                .with_dimension(Dimension::categorical("status"))
                .with_metric(Metric::sum("revenue", "amount"))
                .with_metric(Metric::count("order_count"))
                .with_metric(Metric::derived("aov", "revenue / order_count"))
                .with_metric(Metric::ratio("share", "revenue", "order_count"))
                .with_segment(Segment::new("done", "{model}.status = 'done'"))
                .with_relationship(Relationship::many_to_one("customers")),
        )
        .unwrap();
    graph
        .add_model(
            Model::new("customers", "id")
                .with_table("customers")
                .with_dimension(Dimension::categorical("country"))
                .with_relationship(Relationship::many_to_one("regions")),
        )
        .unwrap();
    graph
        .add_model(
            Model::new("regions", "id").with_table("regions").with_dimension(Dimension::new("name")),
        )
        .unwrap();
    graph
}

#[test]
fn derived_and_ratio_metrics_are_expanded() {
    let graph = shop();
    let generator = SqlGenerator::new(&graph);
    let query = SemanticQuery::new().with_metrics(vec!["orders.aov".into(), "orders.share".into()]);
    assert_eq!(
        generator.generate(&query).unwrap(),
        "SELECT\n  SUM(o.amount) / COUNT(*) AS aov,\n  (SUM(o.amount)) / NULLIF(COUNT(*), 0) AS share\nFROM orders AS o"
    );
}

#[test]
fn segments_become_filters() {
    let graph = shop();
    let generator = SqlGenerator::new(&graph);
    let query = SemanticQuery::new()
        .with_metrics(vec!["orders.revenue".into()])
        .with_filters(vec!["customers.country = 'US'".into()])
        .with_segments(vec!["orders.done".into()]);
    assert_eq!(
        generator.generate(&query).unwrap(),
        "SELECT\n  SUM(o.amount) AS revenue\nFROM orders AS o\nWHERE c.country = 'US' AND o.status = 'done'"
    );

    let unknown = SemanticQuery::new()
        .with_metrics(vec!["orders.revenue".into()])
        .with_segments(vec!["orders.nope".into()]);
    assert_eq!(
        generator.generate(&unknown).unwrap_err().message(),
        "Validation error: Segment not found: orders.nope"
    );
}

#[test]
fn models_on_the_way_are_joined_once() {
    let graph = shop();
    let generator = SqlGenerator::new(&graph);
    let query = SemanticQuery::new()
        .with_metrics(vec!["orders.revenue".into()])
        .with_dimensions(vec!["regions.name".into(), "customers.country".into()]);
    assert_eq!(
        generator.generate(&query).unwrap(),
        "SELECT\n  r.name AS name,\n  c.country AS country,\n  SUM(o.amount) AS revenue\nFROM orders AS o\nLEFT JOIN customers AS c ON o.customers_id = c.id\nLEFT JOIN regions AS r ON c.regions_id = r.id\nGROUP BY 1, 2"
    );
}

#[test]
fn a_model_that_cannot_be_joined_is_an_error() {
    let mut graph = shop();
    graph.add_model(Model::new("island", "id").with_table("island").with_dimension(Dimension::new("x"))).unwrap();
    let generator = SqlGenerator::new(&graph);
    let query = SemanticQuery::new()
        .with_metrics(vec!["orders.revenue".into()])
        .with_dimensions(vec!["island.x".into()]);
    assert_eq!(
        generator.generate(&query).unwrap_err().message(),
        "No join path found between orders and island"
    );
}
