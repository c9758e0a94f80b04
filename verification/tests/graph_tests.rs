use sidemantic::{Dimension, Metric, Model, Relationship, SemanticGraph};

fn create_test_graph() -> SemanticGraph {
    let mut graph = SemanticGraph::new();

    let orders = Model::new("orders", "order_id")
        .with_table("orders")
        .with_dimension(Dimension::categorical("status"))
        .with_dimension(Dimension::time("order_date"))
        .with_metric(Metric::sum("revenue", "amount"))
        .with_relationship(Relationship::many_to_one("customers"));

    let customers = Model::new("customers", "id")
        .with_table("customers")
        .with_dimension(Dimension::categorical("name"))
        .with_dimension(Dimension::categorical("country"));

    graph.add_model(orders).unwrap();
    graph.add_model(customers).unwrap();

    graph
}

#[test]
fn test_add_and_get_model() {
    let graph = create_test_graph();
    assert!(graph.get_model("orders").is_some());
    assert!(graph.get_model("customers").is_some());
    assert!(graph.get_model("nonexistent").is_none());
}

#[test]
fn test_find_join_path() {
    let graph = create_test_graph();

    // Same model - empty path
    let path = graph.find_join_path("orders", "orders").unwrap();
    assert!(path.is_empty());

    // Direct relationship
    let path = graph.find_join_path("orders", "customers").unwrap();
    assert_eq!(path.steps.len(), 1);
    assert_eq!(path.steps[0].from_model, "orders");
    assert_eq!(path.steps[0].to_model, "customers");
    assert_eq!(path.steps[0].from_key, "customers_id");
    assert_eq!(path.steps[0].to_key, "id");

    // Reverse relationship
    let path = graph.find_join_path("customers", "orders").unwrap();
    assert_eq!(path.steps.len(), 1);
}

#[test]
fn test_parse_reference() {
    let graph = create_test_graph();

    let (model, field, gran) = graph.parse_reference("orders.status").unwrap();
    assert_eq!(model, "orders");
    assert_eq!(field, "status");
    assert!(gran.is_none());

    let (model, field, gran) = graph.parse_reference("orders.order_date__month").unwrap();
    assert_eq!(model, "orders");
    assert_eq!(field, "order_date");
    assert_eq!(gran.unwrap(), "month");
}
