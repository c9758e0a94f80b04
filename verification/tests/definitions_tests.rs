use sidemantic::definitions::{
    add_definition, extract_model_prefix, query_references_models, remove_model, split_definitions,
};
use sidemantic::{Dimension, Metric, Model, Segment, SemanticGraph};

#[test]
fn definitions_are_split_at_model() {
    let text = "-- header\nMODEL (name a, table t);\nMETRIC (name m, agg sum);\nmodel (name b, table u);\nDIMENSION (name remodel)\n";
    let parts = split_definitions(text);
    assert_eq!(
        parts,
        vec![
            "MODEL (name a, table t);\nMETRIC (name m, agg sum);\n".to_string(),
            "model (name b, table u);\nDIMENSION (name remodel)\n".to_string(),
        ]
    );

    // A definition at the very start of the text is not kept once another follows.
    let parts = split_definitions("MODEL (name a);\nMODEL (name b);");
    assert_eq!(parts, vec!["MODEL (name b);".to_string()]);

    assert_eq!(split_definitions(""), Vec::<String>::new());
    assert_eq!(split_definitions("no definitions"), vec!["no definitions".to_string()]);
    assert_eq!(split_definitions("MODEL"), vec!["MODEL".to_string()]);
}

#[test]
fn model_prefix_is_taken_out() {
    assert_eq!(
        extract_model_prefix("METRIC orders.revenue (agg sum, sql amount)"),
        (Some("orders".to_string()), "METRIC (name revenue, agg sum, sql amount)".to_string())
    );
    assert_eq!(
        extract_model_prefix("dimension orders.status AS state"),
        (Some("orders".to_string()), "DIMENSION status AS state".to_string())
    );
    assert_eq!(
        extract_model_prefix("SEGMENT   orders.done   (  sql x = 1)"),
        (Some("orders".to_string()), "SEGMENT (name done, sql x = 1)".to_string())
    );
    assert_eq!(
        extract_model_prefix("METRIC (name revenue, agg sum)"),
        (None, "METRIC (name revenue, agg sum)".to_string())
    );
    assert_eq!(
        extract_model_prefix("METRIC revenue AS SUM(o.amount)"),
        (None, "METRIC revenue AS SUM(o.amount)".to_string())
    );
    assert_eq!(extract_model_prefix("MODEL a.b (x)"), (None, "MODEL a.b (x)".to_string()));
    assert_eq!(extract_model_prefix("METRIC a.b"), (None, "METRIC a.b".to_string()));
}

#[test]
fn queries_that_speak_of_models() {
    let mut graph = SemanticGraph::new();
    graph.add_model(Model::new("Orders", "id").with_table("orders")).unwrap();

    assert!(query_references_models("SELECT * FROM orders", &graph));
    assert!(query_references_models("select x from t join ORDERS on 1 = 1", &graph));
    assert!(query_references_models("SELECT orders.revenue FROM t", &graph));
    assert!(!query_references_models("SELECT * FROM some_table", &graph));
    assert!(!query_references_models("SELECT * FROM orders", &SemanticGraph::new()));
}

#[test]
fn a_model_is_taken_out_of_the_definitions() {
    let text = "MODEL (name a, table t);\nMETRIC (name m);\n\n-- note\nMODEL (name b, table u);\nMETRIC (name n);\r\n";
    assert_eq!(remove_model(text, "a"), "MODEL (name b, table u);\nMETRIC (name n);");
    assert_eq!(
        remove_model(text, "B"),
        "MODEL (name a, table t);\nMETRIC (name m);\n\n-- note"
    );
    assert_eq!(
        remove_model(text, "zz"),
        "MODEL (name a, table t);\nMETRIC (name m);\n\n-- note\nMODEL (name b, table u);\nMETRIC (name n);"
    );
    assert_eq!(remove_model("", "a"), "");
}

#[test]
fn definitions_are_put_into_a_model() {
    let model = Model::new("orders", "id")
        .with_metric(Metric::sum("revenue", "amount"))
        .with_metric(Metric::count("orders"))
        .with_dimension(Dimension::new("status"))
        .with_segment(Segment::new("done", "{model}.status = 'done'"));
    let parsed = Model::new("orders", "id")
        .with_metric(Metric::avg("revenue", "price"))
        .with_dimension(Dimension::new("status").with_sql("state"))
        .with_segment(Segment::new("done", "1 = 1"));

    let added = add_definition(model.clone(), &parsed, "METRIC (name revenue)", false);
    let names: Vec<&str> = added.metrics.iter().map(|m| m.name.as_str()).collect();
    assert_eq!(names, vec!["revenue", "orders", "revenue"]);
    assert_eq!(added.dimensions.len(), 1);

    let replaced = add_definition(model.clone(), &parsed, "  metric (name revenue)", true);
    let names: Vec<&str> = replaced.metrics.iter().map(|m| m.name.as_str()).collect();
    assert_eq!(names, vec!["orders", "revenue"]);
    assert_eq!(replaced.metrics[1].sql.as_deref(), Some("price"));

    let replaced = add_definition(model.clone(), &parsed, "DIMENSION (name status)", true);
    assert_eq!(replaced.dimensions.len(), 1);
    assert_eq!(replaced.dimensions[0].sql.as_deref(), Some("state"));
    assert_eq!(replaced.metrics.len(), 2);

    let replaced = add_definition(model.clone(), &parsed, "SEGMENT (name done)", true);
    assert_eq!(replaced.segments.len(), 1);
    assert_eq!(replaced.segments[0].sql, "1 = 1");

    let same = add_definition(model.clone(), &parsed, "MODEL (name x)", true);
    assert_eq!(same.metrics.len(), 2);
    assert_eq!(same.dimensions.len(), 1);
    assert_eq!(same.segments.len(), 1);
}
