use sidemantic::dependency::cycles::check_circular_dependencies;
use sidemantic::dependency::{
    add_node_references, parse_references, NodeParts, extract_column_references, extract_dependencies, extract_simple_references, has_operators,
    is_keyword, is_number, is_simple_reference, references_from_parse, resolve_reference,
};
use sidemantic::{Metric, MetricType, Model, SemanticGraph};

#[test]
fn test_ratio_dependencies() {
    let metric = Metric::ratio("profit_margin", "profit", "revenue");

    let deps = extract_dependencies(&metric, None);
    assert!(deps.contains("profit"));
    assert!(deps.contains("revenue"));
}

#[test]
fn test_derived_simple_reference() {
    let metric = Metric::derived("total_revenue", "orders.revenue");

    let deps = extract_dependencies(&metric, None);
    assert!(deps.contains("orders.revenue"));
}

#[test]
fn test_derived_expression() {
    let metric = Metric::derived("avg_order_value", "revenue / order_count");

    let deps = extract_dependencies(&metric, None);
    assert!(deps.contains("revenue"));
    assert!(deps.contains("order_count"));
}

#[test]
fn test_simple_aggregation_no_deps() {
    let metric = Metric::sum("revenue", "amount");

    let deps = extract_dependencies(&metric, None);
    assert!(deps.is_empty());
}

#[test]
fn test_extract_column_references() {
    let refs = extract_column_references("(revenue - cost) / revenue");
    assert!(refs.contains("revenue"));
    assert!(refs.contains("cost"));
}

#[test]
fn derived_expression_has_exactly_its_two_names() {
    let metric = Metric::derived("avg_order_value", "revenue / order_count");
    let deps = extract_dependencies(&metric, None);
    assert_eq!(deps.len(), 2);
    assert_eq!(deps.to_vec(), vec!["revenue".to_string(), "order_count".to_string()]);
}

#[test]
fn parsed_references_are_not_the_formula_itself() {
    let refs = extract_column_references("orders.revenue + 1");
    assert!(refs.contains("orders.revenue"));
    assert!(!refs.contains("orders.revenue + 1"));
    assert_eq!(refs.len(), 1);
}

#[test]
fn references_from_parse_uses_the_parse_or_the_scan() {
    let parsed = Some(vec![
        (None, "revenue".to_string()),
        (Some("orders".to_string()), "cost".to_string()),
        (None, "revenue".to_string()),
    ]);
    let refs = references_from_parse("ignored", parsed);
    assert_eq!(refs.to_vec(), vec!["revenue".to_string(), "orders.cost".to_string()]);

    let scanned = references_from_parse("revenue / (cost", None);
    assert_eq!(scanned.to_vec(), vec!["revenue".to_string(), "cost".to_string()]);
}

#[test]
fn scan_skips_keywords_numbers_and_quoted_text() {
    let refs = extract_simple_references("CASE WHEN status = 'done' THEN amount * 1.5 ELSE 0 END");
    assert_eq!(refs.to_vec(), vec!["status".to_string(), "amount".to_string()]);

    let escaped = extract_simple_references("a = 'it\\'s' + b");
    assert_eq!(escaped.to_vec(), vec!["a".to_string(), "b".to_string()]);

    let dotted = extract_simple_references("orders.revenue/sum");
    assert_eq!(dotted.to_vec(), vec!["orders.revenue".to_string()]);
}

#[test]
fn keywords_numbers_and_operators() {
    assert!(is_keyword("select"));
    assert!(is_keyword("NullIf"));
    assert!(!is_keyword("revenue"));

    assert!(is_number("1"));
    assert!(is_number("1.5"));
    assert!(is_number(".5"));
    assert!(is_number("5."));
    assert!(is_number("1e5"));
    assert!(is_number("1E-5"));
    assert!(is_number("-3"));
    assert!(is_number("inf"));
    assert!(is_number("NaN"));
    assert!(is_number("+infinity"));
    assert!(!is_number(""));
    assert!(!is_number("."));
    assert!(!is_number("e5"));
    assert!(!is_number("1e"));
    assert!(!is_number("1.2.3"));
    assert!(!is_number("x1"));
    assert!(!is_number("-"));

    assert!(has_operators("a+b"));
    assert!(!has_operators("orders.revenue"));

    assert!(is_simple_reference("orders.revenue"));
    assert!(!is_simple_reference("revenue"));
    assert!(!is_simple_reference("orders.revenue / 2"));
    assert!(!is_simple_reference(" orders.revenue"));
}

fn graph_with_metrics() -> SemanticGraph {
    let mut graph = SemanticGraph::new();
    graph
        .add_model(
            Model::new("orders", "id")
                .with_table("orders")
                .with_metric(Metric::sum("revenue", "amount"))
                .with_metric(Metric::count("order_count")),
        )
        .unwrap();
    graph
        .add_model(
            Model::new("refunds", "id")
                .with_table("refunds")
                .with_metric(Metric::sum("revenue", "refunded")),
        )
        .unwrap();
    graph
}

#[test]
fn bare_names_resolve_to_the_first_model_with_the_metric() {
    let graph = graph_with_metrics();
    assert_eq!(resolve_reference("revenue", &graph), "orders.revenue");
    assert_eq!(resolve_reference("order_count", &graph), "orders.order_count");
    assert_eq!(resolve_reference("unknown", &graph), "unknown");
    assert_eq!(resolve_reference("refunds.revenue", &graph), "refunds.revenue");

    let metric = Metric::derived("aov", "revenue / order_count");
    let deps = extract_dependencies(&metric, Some(&graph));
    assert_eq!(
        deps.to_vec(),
        vec!["orders.revenue".to_string(), "orders.order_count".to_string()]
    );
}

#[test]
fn cumulative_and_time_comparison_depend_on_their_backing_metric() {
    let mut cumulative = Metric::new("running");
    cumulative.kind = MetricType::Cumulative;
    cumulative.sql = Some("revenue".to_string());
    assert_eq!(extract_dependencies(&cumulative, None).to_vec(), vec!["revenue".to_string()]);

    let mut comparison = Metric::new("yoy");
    comparison.kind = MetricType::TimeComparison;
    comparison.base_metric = Some("revenue".to_string());
    assert_eq!(extract_dependencies(&comparison, None).to_vec(), vec!["revenue".to_string()]);
}

#[test]
fn cycles_are_found_and_chains_are_not() {
    let graph = SemanticGraph::new();

    let a = Metric::derived("a", "b + 1");
    let b = Metric::derived("b", "c + 1");
    let c = Metric::sum("c", "amount");
    let chain = [("a", &a), ("b", &b), ("c", &c)];
    assert!(check_circular_dependencies(&chain, &graph).is_ok());

    let dangling = Metric::derived("d", "missing * 2");
    assert!(check_circular_dependencies(&[("d", &dangling)], &graph).is_ok());

    let x = Metric::derived("x", "y + 1");
    let y = Metric::derived("y", "x + 1");
    let err = check_circular_dependencies(&[("x", &x), ("y", &y)], &graph).unwrap_err();
    assert_eq!(
        err.message(),
        "Validation error: Circular dependency detected involving metric 'x'"
    );

    let own = Metric::derived("own", "own + 1");
    assert!(check_circular_dependencies(&[("own", &own)], &graph).is_err());

    // The metric named is on the cycle, not merely one that leads to it.
    let start = Metric::derived("start", "p + 1");
    let p = Metric::derived("p", "q + 1");
    let q = Metric::derived("q", "p + 1");
    let err = check_circular_dependencies(&[("start", &start), ("p", &p), ("q", &q)], &graph)
        .unwrap_err();
    assert_eq!(
        err.message(),
        "Validation error: Circular dependency detected involving metric 'p'"
    );
}

#[test]
fn identifiers_and_columns_are_the_references_of_a_formula() {
    let nodes = vec![
        NodeParts::Other,
        NodeParts::Column(None, "revenue".to_string()),
        NodeParts::Identifier("cost".to_string()),
        NodeParts::Other,
        NodeParts::Column(Some("orders".to_string()), "tax".to_string()),
    ];
    let mut out = vec![(None, "first".to_string())];
    add_node_references(&nodes, &mut out);
    assert_eq!(
        out,
        vec![
            (None, "first".to_string()),
            (None, "revenue".to_string()),
            (None, "cost".to_string()),
            (Some("orders".to_string()), "tax".to_string()),
        ]
    );

    let found = parse_references("SELECT revenue / orders.cost, SUM(a) + 1").unwrap();
    assert_eq!(
        found,
        vec![
            (None, "revenue".to_string()),
            (Some("orders".to_string()), "cost".to_string()),
            (None, "a".to_string()),
        ]
    );
    assert_eq!(parse_references("SELECT 1; DROP TABLE t").unwrap(), vec![]);
    assert!(parse_references("DROP TABLE t").is_none());
    assert!(parse_references("SELECT").is_none());
    assert!(parse_references("SELECT (").is_none());
}

#[test]
fn names_that_the_graph_resolves_are_compared_as_resolved() {
    let a = Metric::derived("a", "b + 1");
    let b = Metric::derived("b", "a + 1");
    let mut graph = SemanticGraph::new();
    let orders = Model::new("orders", "id")
        .with_table("public.orders")
        .with_metric(Metric::derived("a", "b + 1"))
        .with_metric(Metric::derived("b", "a + 1"));
    graph.add_model(orders).unwrap();

    // With the graph, `b` is the metric of `orders`, and is named so.
    assert_eq!(extract_dependencies(&a, Some(&graph)).to_vec(), vec!["orders.b".to_string()]);
    assert_eq!(extract_dependencies(&b, Some(&graph)).to_vec(), vec!["orders.a".to_string()]);

    // The names `a` and `b` are then no dependency of either: no cycle is reported.
    assert!(check_circular_dependencies(&[("a", &a), ("b", &b)], &graph).is_ok());

    // Under the names that the graph gives them the cycle is found.
    let err =
        check_circular_dependencies(&[("orders.a", &a), ("orders.b", &b)], &graph).unwrap_err();
    assert_eq!(
        err.message(),
        "Validation error: Circular dependency detected involving metric 'orders.a'"
    );

    // Without the models the bare names are compared, and the cycle is found.
    assert!(check_circular_dependencies(&[("a", &a), ("b", &b)], &SemanticGraph::new()).is_err());
}
