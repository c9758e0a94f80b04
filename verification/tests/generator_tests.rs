use sidemantic::generator::{SemanticQuery, SqlGenerator};
use sidemantic::{Dimension, Metric, Model, Relationship, SemanticGraph};

fn create_generator_graph() -> SemanticGraph {
    let mut graph = SemanticGraph::new();

    let orders = Model::new("orders", "order_id")
        .with_table("orders")
        .with_dimension(Dimension::categorical("status"))
        .with_dimension(Dimension::time("order_date").with_sql("created_at"))
        .with_metric(Metric::sum("revenue", "amount"))
        .with_metric(Metric::count("order_count"))
        .with_relationship(Relationship::many_to_one("customers"));

    let customers = Model::new("customers", "id")
        .with_table("customers")
        .with_dimension(Dimension::categorical("name"))
        .with_dimension(Dimension::categorical("country"));

    graph.add_model(orders).unwrap();
    graph.add_model(customers).unwrap();

    graph
}

#[test]
fn test_simple_query() {
    let graph = create_generator_graph();
    let generator = SqlGenerator::new(&graph);

    let query = SemanticQuery::new()
        .with_metrics(vec!["orders.revenue".into()])
        .with_dimensions(vec!["orders.status".into()]);

    let sql = generator.generate(&query).unwrap();

    assert!(sql.contains("SELECT"));
    assert!(sql.contains("SUM(o.amount) AS revenue"));
    assert!(sql.contains("o.status AS status"));
    assert!(sql.contains("FROM orders AS o"));
    assert!(sql.contains("GROUP BY 1"));
}

#[test]
fn test_query_with_join() {
    let graph = create_generator_graph();
    let generator = SqlGenerator::new(&graph);

    let query = SemanticQuery::new()
        .with_metrics(vec!["orders.revenue".into()])
        .with_dimensions(vec!["customers.country".into()]);

    let sql = generator.generate(&query).unwrap();

    assert!(sql.contains("LEFT JOIN customers AS c"));
    assert!(sql.contains("o.customers_id = c.id"));
}

#[test]
fn test_query_with_filter() {
    let graph = create_generator_graph();
    let generator = SqlGenerator::new(&graph);

    let query = SemanticQuery::new()
        .with_metrics(vec!["orders.revenue".into()])
        .with_dimensions(vec!["orders.status".into()])
        .with_filters(vec!["orders.status = 'completed'".into()]);

    let sql = generator.generate(&query).unwrap();

    assert!(sql.contains("WHERE o.status = 'completed'"));
}

#[test]
fn generate_gives_the_exact_text() {
    let graph = create_generator_graph();
    let generator = SqlGenerator::new(&graph);

    let query = SemanticQuery::new()
        .with_metrics(vec!["orders.revenue".into(), "orders.order_count".into()])
        .with_dimensions(vec!["customers.country".into(), "orders.order_date__month".into()])
        .with_filters(vec!["orders.status = 'completed'".into()])
        .with_order_by(vec!["country".into()])
        .with_limit(10);

    let sql = generator.generate(&query).unwrap();
    assert_eq!(
        sql,
        "SELECT\n  c.country AS country,\n  DATE_TRUNC('month', o.created_at) AS order_date__month,\n  SUM(o.amount) AS revenue,\n  COUNT(*) AS order_count\nFROM orders AS o\nLEFT JOIN customers AS c ON o.customers_id = c.id\nWHERE o.status = 'completed'\nGROUP BY 1, 2\nORDER BY country\nLIMIT 10"
    );
}

#[test]
fn generate_reports_each_error() {
    let graph = create_generator_graph();
    let generator = SqlGenerator::new(&graph);

    let empty = SemanticQuery::new();
    assert_eq!(
        generator.generate(&empty).unwrap_err().message(),
        "Validation error: Query must have at least one metric or dimension"
    );

    let unknown_model = SemanticQuery::new().with_metrics(vec!["nope.revenue".into()]);
    assert_eq!(
        generator.generate(&unknown_model).unwrap_err().message(),
        "Model not found: nope"
    );

    let malformed = SemanticQuery::new().with_metrics(vec!["revenue".into()]);
    assert_eq!(
        generator.generate(&malformed).unwrap_err().message(),
        "Invalid reference: Expected 'model.field' format, got 'revenue'"
    );

    let unknown_metric = SemanticQuery::new().with_metrics(vec!["orders.nope".into()]);
    assert_eq!(
        generator.generate(&unknown_metric).unwrap_err().message(),
        "Metric not found: orders.nope"
    );

    let unknown_dimension = SemanticQuery::new().with_dimensions(vec!["orders.nope".into()]);
    assert_eq!(
        generator.generate(&unknown_dimension).unwrap_err().message(),
        "Dimension not found: orders.nope"
    );
}
