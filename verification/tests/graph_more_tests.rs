use sidemantic::graph::search::shortest_walk;
use sidemantic::names::NameSet;
use sidemantic::{Dimension, Metric, Model, Relationship, RelationshipType, SemanticGraph};

fn chain() -> SemanticGraph {
    // items -> orders -> customers -> regions, and a model on its own.
    let mut graph = SemanticGraph::new();
    graph
        .add_model(
            Model::new("items", "id")
                .with_table("items")
                .with_relationship(Relationship::many_to_one("orders").with_keys("order_ref", "order_id")),
        )
        .unwrap();
    graph
        .add_model(
            Model::new("orders", "order_id")
                .with_table("orders")
                .with_relationship(Relationship::many_to_one("customers")),
        )
        .unwrap();
    graph
        .add_model(
            Model::new("customers", "id")
                .with_table("customers")
                .with_relationship(Relationship::one_to_many("regions")),
        )
        .unwrap();
    graph.add_model(Model::new("regions", "id").with_table("regions")).unwrap();
    graph.add_model(Model::new("island", "id").with_table("island")).unwrap();
    graph
}

#[test]
fn models_need_a_source_and_are_replaced_in_place() {
    let mut graph = SemanticGraph::new();
    let err = graph.add_model(Model::new("orders", "id")).unwrap_err();
    assert_eq!(
        err.message(),
        "Validation error: Model 'orders' must have either 'table' or 'sql' defined"
    );
    assert!(graph.get_model("orders").is_none());
    assert_eq!(graph.models().len(), 0);

    graph.add_model(Model::new("orders", "id").with_table("a")).unwrap();
    graph.add_model(Model::new("customers", "id").with_sql("SELECT 1")).unwrap();
    graph.add_model(Model::new("orders", "id").with_table("b")).unwrap();
    let names: Vec<&str> = graph.models().iter().map(|m| m.name.as_str()).collect();
    assert_eq!(names, vec!["orders", "customers"]);
    assert_eq!(graph.get_model("orders").unwrap().table_name(), "b");
}

#[test]
fn references_are_checked() {
    let graph = chain();
    assert_eq!(
        graph.parse_reference("orders").unwrap_err().message(),
        "Invalid reference: Expected 'model.field' format, got 'orders'"
    );
    assert_eq!(
        graph.parse_reference("a.b.c").unwrap_err().message(),
        "Invalid reference: Expected 'model.field' format, got 'a.b.c'"
    );
    assert_eq!(graph.parse_reference("nope.field").unwrap_err().message(), "Model not found: nope");
    let (model, field, gran) = graph.parse_reference("orders.day__week__x").unwrap();
    assert_eq!((model.as_str(), field.as_str(), gran.as_deref()), ("orders", "day", Some("week__x")));
    let (_, field, gran) = graph.parse_reference("orders.").unwrap();
    assert_eq!((field.as_str(), gran), ("", None));
}

#[test]
fn join_paths_are_shortest_and_as_long_both_ways() {
    let graph = chain();

    let there = graph.find_join_path("items", "regions").unwrap();
    let hops: Vec<(&str, &str, &str, &str)> = there
        .steps
        .iter()
        .map(|s| (s.from_model.as_str(), s.to_model.as_str(), s.from_key.as_str(), s.to_key.as_str()))
        .collect();
    assert_eq!(
        hops,
        vec![
            ("items", "orders", "order_ref", "order_id"),
            ("orders", "customers", "customers_id", "id"),
            ("customers", "regions", "regions_id", "id"),
        ]
    );
    assert_eq!(there.steps[2].relationship_type, RelationshipType::OneToMany);

    let back = graph.find_join_path("regions", "items").unwrap();
    assert_eq!(back.steps.len(), there.steps.len());
    assert_eq!(back.steps[0].from_model, "regions");
    assert_eq!(back.steps[0].from_key, "id");
    assert_eq!(back.steps[0].to_key, "regions_id");
    assert_eq!(back.steps[0].relationship_type, RelationshipType::ManyToOne);

    assert!(graph.find_join_path("island", "island").unwrap().is_empty());
    assert!(graph.find_join_path("nope", "nope").unwrap().is_empty());
}

#[test]
fn join_paths_fail_for_unknown_and_unreachable_models() {
    let graph = chain();
    assert_eq!(
        graph.find_join_path("nope", "orders").unwrap_err().message(),
        "Model not found: nope"
    );
    assert_eq!(
        graph.find_join_path("orders", "nope").unwrap_err().message(),
        "Model not found: nope"
    );
    assert_eq!(
        graph.find_join_path("orders", "island").unwrap_err().message(),
        "No join path found between orders and island"
    );
    assert_eq!(
        graph.find_join_path("island", "orders").unwrap_err().message(),
        "No join path found between island and orders"
    );
}

#[test]
fn among_shortest_paths_the_first_edges_win() {
    // a reaches d through b and through c; b was related first.
    let mut graph = SemanticGraph::new();
    graph
        .add_model(
            Model::new("a", "id")
                .with_table("a")
                .with_relationship(Relationship::many_to_one("b"))
                .with_relationship(Relationship::many_to_one("c")),
        )
        .unwrap();
    graph
        .add_model(Model::new("b", "id").with_table("b").with_relationship(Relationship::many_to_one("d")))
        .unwrap();
    graph
        .add_model(Model::new("c", "id").with_table("c").with_relationship(Relationship::many_to_one("d")))
        .unwrap();
    graph.add_model(Model::new("d", "id").with_table("d")).unwrap();

    for _ in 0..3 {
        let path = graph.find_join_path("a", "d").unwrap();
        let via: Vec<&str> = path.steps.iter().map(|s| s.to_model.as_str()).collect();
        assert_eq!(via, vec!["b", "d"]);
    }
}

#[test]
fn join_plans_join_each_model_once() {
    let graph = chain();
    let present = vec!["items".to_string()];
    let targets = vec!["regions".to_string(), "customers".to_string(), "items".to_string()];
    let plan = graph.join_plan("items", &present, &targets).unwrap();
    let joined: Vec<&str> = plan.iter().map(|s| s.to_model.as_str()).collect();
    assert_eq!(joined, vec!["orders", "customers", "regions"]);

    let present = vec!["items".to_string(), "customers".to_string()];
    let plan = graph.join_plan("items", &present, &targets).unwrap();
    let joined: Vec<&str> = plan.iter().map(|s| s.to_model.as_str()).collect();
    assert_eq!(joined, vec!["orders", "regions"]);

    let err = graph.join_plan("items", &present, &vec!["island".to_string()]).unwrap_err();
    assert_eq!(err.message(), "No join path found between items and island");
}

#[test]
fn walks_over_bare_edges() {
    let graph = chain();
    let orders = graph.get_model("orders").unwrap();
    assert!(orders.get_relationship("customers").is_some());
    let edges = sidemantic::graph::build_edges(graph.models());
    assert_eq!(edges.len(), 6);
    let walk = shortest_walk(&edges, "regions", "orders").unwrap();
    assert_eq!(walk.len(), 2);
    assert!(shortest_walk(&edges, "regions", "island").is_none());
}

#[test]
fn name_sets_keep_each_name_once() {
    let mut names = NameSet::new();
    assert!(names.is_empty());
    names.insert("b".to_string());
    names.insert("a".to_string());
    names.insert("b".to_string());
    assert!(!names.is_empty());
    assert_eq!(names.len(), 2);
    assert!(names.contains("a"));
    assert!(!names.contains("c"));
    assert_eq!(names.get(0), "b");
    assert_eq!(names.to_vec(), vec!["b".to_string(), "a".to_string()]);
    let _ = Dimension::new("x");
    let _ = Metric::new("y");
}
