use sidemantic::{Dimension, Metric, MetricType, Model, QueryRewriter, Relationship, SemanticGraph};

fn create_rewriter_graph() -> SemanticGraph {
    let mut graph = SemanticGraph::new();

    let orders = Model::new("orders", "order_id")
        .with_table("public.orders")
        .with_dimension(Dimension::categorical("status"))
        .with_dimension(Dimension::time("order_date").with_sql("created_at"))
        .with_metric(Metric::sum("revenue", "amount"))
        .with_metric(Metric::count("order_count"))
        .with_relationship(Relationship::many_to_one("customers"));

    let customers = Model::new("customers", "id")
        .with_table("public.customers")
        .with_dimension(Dimension::categorical("name"))
        .with_dimension(Dimension::categorical("country"));

    graph.add_model(orders).unwrap();
    graph.add_model(customers).unwrap();

    graph
}

#[test]
fn test_simple_rewrite() {
    let graph = create_rewriter_graph();
    let rewriter = QueryRewriter::new(&graph);

    let sql = "SELECT orders.revenue, orders.status FROM orders";
    let rewritten = rewriter.rewrite(sql).unwrap();

    assert!(rewritten.contains("public.orders"));
    assert!(rewritten.contains("SUM("));
    assert!(rewritten.contains("GROUP BY"));
}

#[test]
fn test_rewrite_with_alias() {
    let graph = create_rewriter_graph();
    let rewriter = QueryRewriter::new(&graph);

    let sql = "SELECT o.revenue, o.status FROM orders AS o";
    let rewritten = rewriter.rewrite(sql).unwrap();

    assert!(rewritten.contains("public.orders"));
}

#[test]
fn test_rewrite_with_filter() {
    let graph = create_rewriter_graph();
    let rewriter = QueryRewriter::new(&graph);

    let sql = "SELECT orders.revenue FROM orders WHERE orders.status = 'completed'";
    let rewritten = rewriter.rewrite(sql).unwrap();

    assert!(rewritten.contains("WHERE"));
    assert!(rewritten.contains("status"));
}

fn orders_only() -> SemanticGraph {
    let mut graph = SemanticGraph::new();
    graph
        .add_model(
            Model::new("orders", "order_id")
                .with_table("public.orders")
                .with_dimension(Dimension::categorical("status"))
                .with_metric(Metric::sum("revenue", "amount")),
        )
        .unwrap();
    graph
}

#[test]
fn metric_and_dimension_of_one_model() {
    let graph = orders_only();
    let rewriter = QueryRewriter::new(&graph);

    let out = rewriter.rewrite("SELECT orders.revenue, orders.status FROM orders").unwrap();
    assert!(out.contains("SUM(o.amount)"));
    assert!(out.contains("o.status"));
    assert!(out.contains("FROM public.orders"));
    assert!(out.contains("GROUP BY 2"));
    assert_eq!(
        out,
        "SELECT SUM(o.amount) AS revenue, o.status AS status FROM public.orders AS o GROUP BY 2"
    );
}

#[test]
fn reference_to_a_related_model_adds_a_join() {
    let graph = create_rewriter_graph();
    let rewriter = QueryRewriter::new(&graph);

    let out = rewriter.rewrite("SELECT orders.revenue, customers.country FROM orders").unwrap();
    assert!(out.contains("LEFT JOIN public.customers"));
    assert!(out.contains("ON o.customers_id = c.id"));
    assert!(out.contains("SUM(o.amount)"));
    assert!(out.contains("GROUP BY"));
    assert_eq!(
        out,
        "SELECT SUM(o.amount) AS revenue, c.country AS country FROM public.orders AS o LEFT JOIN public.customers AS c ON o.customers_id = c.id GROUP BY 2"
    );
    assert_eq!(out.matches("LEFT JOIN").count(), 1);
}

#[test]
fn reference_in_the_condition_adds_a_join() {
    let graph = create_rewriter_graph();
    let rewriter = QueryRewriter::new(&graph);

    let out = rewriter
        .rewrite("SELECT orders.revenue FROM orders WHERE customers.country = 'US'")
        .unwrap();
    assert!(out.contains("LEFT JOIN public.customers"));
    assert_eq!(
        out,
        "SELECT SUM(o.amount) AS revenue FROM public.orders AS o LEFT JOIN public.customers AS c ON o.customers_id = c.id WHERE c.country = 'US'"
    );
}

#[test]
fn count_without_sql_counts_rows() {
    let mut graph = SemanticGraph::new();
    let mut count = Metric::new("count");
    count.agg = Some(sidemantic::Aggregation::Count);
    graph
        .add_model(Model::new("orders", "order_id").with_table("public.orders").with_metric(count))
        .unwrap();
    let rewriter = QueryRewriter::new(&graph);

    let out = rewriter.rewrite("SELECT orders.count FROM orders").unwrap();
    assert!(out.contains("COUNT(*)"));
    assert!(!out.contains("COUNT(count)"));
}

#[test]
fn ratio_divides_by_nullif() {
    let mut graph = SemanticGraph::new();
    graph
        .add_model(
            Model::new("orders", "order_id")
                .with_table("public.orders")
                .with_metric(Metric::ratio("m", "numerator", "denominator")),
        )
        .unwrap();
    let rewriter = QueryRewriter::new(&graph);

    let out = rewriter.rewrite("SELECT orders.m FROM orders").unwrap();
    assert!(out.contains("NULLIF("));
    assert!(out.contains(", 0)"));
    assert_eq!(
        out,
        "SELECT (numerator) / NULLIF(denominator, 0) AS m FROM public.orders AS o"
    );
}

#[test]
fn queries_without_models_pass_through() {
    let graph = create_rewriter_graph();
    let rewriter = QueryRewriter::new(&graph);

    let once = rewriter.rewrite("SELECT a, b FROM some_table WHERE a > 1").unwrap();
    assert_eq!(once, "SELECT a, b FROM some_table WHERE a > 1");
    let twice = rewriter.rewrite(&once).unwrap();
    assert_eq!(twice, once);

    let star = rewriter.rewrite("SELECT * FROM some_table").unwrap();
    assert_eq!(star, "SELECT * FROM some_table");

    let other = rewriter.rewrite("DROP TABLE some_table").unwrap();
    assert_eq!(other, "DROP TABLE some_table");
}

#[test]
fn rewrite_reports_each_error() {
    let mut graph = create_rewriter_graph();
    graph.add_model(Model::new("islands", "id").with_table("islands")).unwrap();
    let rewriter = QueryRewriter::new(&graph);

    let err = rewriter.rewrite("SELECT FROM WHERE").unwrap_err();
    assert!(err.message().starts_with("SQL parse error: "));

    let err = rewriter.rewrite("").unwrap_err();
    assert_eq!(err.message(), "SQL parse error: Empty SQL");

    let err = rewriter.rewrite("SELECT orders.revenue, islands.id FROM orders").unwrap_err();
    assert_eq!(err.message(), "No join path found between orders and islands");
}

#[test]
fn written_aliases_are_kept_and_generated_ones_do_not_collide() {
    let mut graph = SemanticGraph::new();
    graph
        .add_model(
            Model::new("orders", "id")
                .with_table("orders")
                .with_metric(Metric::sum("revenue", "amount"))
                .with_relationship(Relationship::many_to_one("offers")),
        )
        .unwrap();
    graph
        .add_model(
            Model::new("offers", "id").with_table("offers").with_dimension(Dimension::new("code")),
        )
        .unwrap();
    let rewriter = QueryRewriter::new(&graph);

    let out = rewriter.rewrite("SELECT x.revenue, offers.code FROM orders AS x").unwrap();
    assert_eq!(
        out,
        "SELECT SUM(x.amount) AS revenue, o.code AS code FROM orders AS x LEFT JOIN offers AS o ON x.offers_id = o.id GROUP BY 2"
    );

    let out = rewriter.rewrite("SELECT orders.revenue, offers.code FROM orders").unwrap();
    assert_eq!(
        out,
        "SELECT SUM(o.amount) AS revenue, o2.code AS code FROM orders AS o LEFT JOIN offers AS o2 ON o.offers_id = o2.id GROUP BY 2"
    );
}

#[test]
fn granularity_and_nested_expressions() {
    let graph = create_rewriter_graph();
    let rewriter = QueryRewriter::new(&graph);

    let out = rewriter
        .rewrite("SELECT orders.order_date__month, orders.revenue / 2 AS half FROM orders")
        .unwrap();
    assert_eq!(
        out,
        "SELECT DATE_TRUNC('month', o.created_at) AS order_date__month, SUM(o.amount) / 2 AS half FROM public.orders AS o GROUP BY 1"
    );

    let out = rewriter
        .rewrite("SELECT orders.status FROM orders WHERE NOT (orders.status = 'x' AND orders.revenue > 1)")
        .unwrap();
    assert_eq!(
        out,
        "SELECT o.status AS status FROM public.orders AS o WHERE NOT (o.status = 'x' AND orders.revenue > 1)"
    );
}

#[test]
fn derived_metrics_and_subquery_models() {
    let mut graph = SemanticGraph::new();
    let mut expression = Metric::new("net");
    expression.agg = Some(sidemantic::Aggregation::Expression);
    expression.sql = Some("SUM(amount) - SUM(refund)".to_string());
    let mut cumulative = Metric::new("running");
    cumulative.kind = MetricType::Cumulative;
    cumulative.sql = Some("total".to_string());
    graph
        .add_model(
            Model::new("sales", "id")
                .with_sql("SELECT * FROM raw_sales WHERE ok")
                .with_dimension(Dimension::new("region"))
                .with_metric(Metric::derived("avg_price", "SUM(amount) / COUNT(*)"))
                .with_metric(Metric::derived("broken", "SUM("))
                .with_metric(expression)
                .with_metric(cumulative),
        )
        .unwrap();
    let rewriter = QueryRewriter::new(&graph);

    let out = rewriter.rewrite("SELECT sales.avg_price, sales.net, sales.region FROM sales").unwrap();
    assert_eq!(
        out,
        "SELECT SUM(amount) / COUNT(*) AS avg_price, SUM(amount) - SUM(refund) AS net, s.region AS region FROM (SELECT * FROM raw_sales WHERE ok) AS s GROUP BY 3"
    );

    let out = rewriter.rewrite("SELECT sales.running FROM sales").unwrap();
    assert_eq!(out, "SELECT total AS running FROM (SELECT * FROM raw_sales WHERE ok) AS s");

    let err = rewriter.rewrite("SELECT sales.broken FROM sales").unwrap_err();
    assert_eq!(err.message(), "SQL parse error: Cannot parse metric expression: SUM(");
}

#[test]
fn set_operations_and_several_statements() {
    let graph = orders_only();
    let rewriter = QueryRewriter::new(&graph);

    let out = rewriter
        .rewrite("SELECT orders.status FROM orders UNION ALL SELECT x FROM t; SELECT 1")
        .unwrap();
    assert_eq!(
        out,
        "SELECT o.status AS status FROM public.orders AS o UNION ALL SELECT x FROM t;\nSELECT 1"
    );
}

#[test]
fn queries_in_parentheses_are_rewritten_too() {
    let graph = orders_only();
    let rewriter = QueryRewriter::new(&graph);

    let out = rewriter.rewrite("(SELECT orders.status FROM orders) ORDER BY 1 LIMIT 5").unwrap();
    assert_eq!(
        out,
        "(SELECT o.status AS status FROM public.orders AS o) ORDER BY 1 LIMIT 5"
    );
}

#[test]
fn a_reference_inside_a_call_still_brings_its_model_in() {
    let graph = create_rewriter_graph();
    let rewriter = QueryRewriter::new(&graph);

    let out = rewriter
        .rewrite("SELECT orders.revenue FROM orders WHERE LOWER(customers.country) = 'us'")
        .unwrap();
    assert_eq!(
        out,
        "SELECT SUM(o.amount) AS revenue FROM public.orders AS o LEFT JOIN public.customers AS c ON o.customers_id = c.id WHERE LOWER(customers.country) = 'us'"
    );
}

#[test]
fn a_distinct_count_and_a_written_alias() {
    let mut graph = SemanticGraph::new();
    graph
        .add_model(
            Model::new("orders", "id")
                .with_table("orders")
                .with_metric(Metric::count_distinct("buyers", "customer_id")),
        )
        .unwrap();
    let rewriter = QueryRewriter::new(&graph);

    let out = rewriter.rewrite("SELECT t.buyers AS b FROM orders AS t (x, y)").unwrap();
    assert_eq!(out, "SELECT COUNT(DISTINCT t.customer_id) AS b FROM orders AS t (x, y)");
}

#[test]
fn text_that_the_parser_cannot_take_is_refused() {
    let mut graph = orders_only();
    graph
        .add_model(
            Model::new("grants", "id")
                .with_sql("GRANT SELECT ON t TO u GRANTED BY")
                .with_metric(Metric::derived("odd", "1; FLUSH RELAY LOGS FOR CHANNEL"))
                .with_metric(Metric::sum("total", "amount")),
        )
        .unwrap();
    let rewriter = QueryRewriter::new(&graph);

    for sql in [
        "GRANT SELECT ON t TO u GRANTED BY",
        "REVOKE SELECT ON t FROM u granted   by 1",
        "FLUSH RELAY LOGS FOR CHANNEL",
        "flush relay logs for /* x */ channel",
        "SELECT 1; GRANT SELECT ON t TO u Granted\nBy",
        "GRANT SELECT ON t TO u GRANTED BY N'x'",
        "GRANT SELECT ON t TO u GRANTED BY /* c */ 1",
        "FLUSH RELAY LOGS FOR CHANNEL a.",
        "FLUSH RELAY LOGS FOR CHANNEL a /* c */ .",
    ] {
        let err = rewriter.rewrite(sql).unwrap_err();
        assert_eq!(
            err.message(),
            "SQL parse error: Unsupported SQL: GRANTED BY and FOR CHANNEL need a name after them",
            "{sql}"
        );
    }

    let err = rewriter.rewrite("SELECT grants.total FROM grants").unwrap_err();
    assert_eq!(
        err.message(),
        "SQL parse error: Model SQL is not a query: GRANT SELECT ON t TO u GRANTED BY"
    );
    let err = rewriter.rewrite("SELECT orders.status, grants.odd FROM grants, orders").unwrap_err();
    assert_eq!(
        err.message(),
        "SQL parse error: Cannot parse metric expression: 1; FLUSH RELAY LOGS FOR CHANNEL"
    );

    // Words that only hold these words, or hold them the other way round, pass.
    assert!(rewriter.rewrite("SELECT channel FROM t FOR UPDATE").is_ok());
    assert!(rewriter.rewrite("SELECT information, channels FROM t").is_ok());
    assert!(rewriter.rewrite("SELECT a FROM t GROUP BY granted").is_ok());
    assert_eq!(
        rewriter.rewrite("SELECT is_granted FROM t ORDER BY 1").unwrap(),
        "SELECT is_granted FROM t ORDER BY 1"
    );
    assert_eq!(
        rewriter.rewrite("SELECT granted FROM t FOR UPDATE; SELECT channel FROM u ORDER BY 1").unwrap(),
        "SELECT granted FROM t FOR UPDATE;\nSELECT channel FROM u ORDER BY 1"
    );

    // With a name after them the statements are other statements, and pass through.
    assert_eq!(
        rewriter.rewrite("grant select on t to u granted by admin").unwrap(),
        "GRANT SELECT ON t TO u GRANTED BY admin"
    );
    assert_eq!(
        rewriter.rewrite("REVOKE SELECT ON t FROM u GRANTED BY admin").unwrap(),
        "REVOKE SELECT ON t FROM u GRANTED BY admin RESTRICT"
    );
    assert!(rewriter
        .rewrite("FLUSH RELAY LOGS FOR CHANNEL main")
        .unwrap()
        .ends_with("FOR CHANNEL main"));
}

#[test]
fn what_came_back_comes_back_again() {
    let graph = create_rewriter_graph();
    let rewriter = QueryRewriter::new(&graph);

    for sql in [
        "SELECT a, b FROM some_table WHERE a > 1",
        "select   x from t; select y from u",
        "SELECT orders.revenue, orders.status FROM orders",
        "SELECT orders.revenue, customers.name FROM orders WHERE customers.country = 'US'",
    ] {
        let once = rewriter.rewrite(sql).unwrap();
        let twice = rewriter.rewrite(&once).unwrap();
        assert_eq!(twice, once, "{sql}");
    }
    assert_eq!(
        rewriter.rewrite("select   x from t; select y from u").unwrap(),
        "SELECT x FROM t;\nSELECT y FROM u"
    );
}

#[test]
fn a_statement_that_cannot_be_printed_is_refused() {
    let graph = create_rewriter_graph();
    let rewriter = QueryRewriter::new(&graph);

    for sql in [
        "CREATE EXTERNAL TABLE t (a INT)",
        "SELECT 1; CREATE EXTERNAL TABLE t (a INT) STORED AS PARQUET",
        "EXPLAIN CREATE EXTERNAL TABLE t (a INT)",
    ] {
        let err = rewriter.rewrite(sql).unwrap_err();
        assert_eq!(
            err.message(),
            "SQL parse error: Unsupported SQL: an external table needs a location",
            "{sql}"
        );
    }

    assert_eq!(
        rewriter.rewrite("CREATE EXTERNAL TABLE t (a INT) LOCATION 's3://bucket/t'").unwrap(),
        "CREATE EXTERNAL TABLE t (a INT) LOCATION 's3://bucket/t'"
    );
    assert_eq!(
        rewriter.rewrite("CREATE TABLE t (a INT)").unwrap(),
        "CREATE TABLE t (a INT)"
    );
}

#[test]
fn a_model_on_the_way_to_another_is_joined_once_by_its_own_path() {
    let mut graph = create_rewriter_graph();
    graph
        .add_model(
            Model::new("regions", "id")
                .with_table("public.regions")
                .with_dimension(Dimension::categorical("title")),
        )
        .unwrap();
    let customers = Model::new("customers", "id")
        .with_table("public.customers")
        .with_dimension(Dimension::categorical("name"))
        .with_relationship(Relationship::many_to_one("regions"));
    let mut linked = SemanticGraph::new();
    for model in graph.models() {
        if model.name == "customers" {
            linked.add_model(customers.clone()).unwrap();
        } else {
            linked.add_model(model.clone()).unwrap();
        }
    }
    let rewriter = QueryRewriter::new(&linked);

    // The path to `regions` passes `customers`, which is asked for after it.
    let out = rewriter
        .rewrite("SELECT orders.revenue, regions.title, customers.name FROM orders")
        .unwrap();
    assert_eq!(
        out,
        "SELECT SUM(o.amount) AS revenue, r.title AS title, c.name AS name FROM public.orders AS o \
         LEFT JOIN public.customers AS c ON o.customers_id = c.id \
         LEFT JOIN public.regions AS r ON c.regions_id = r.id GROUP BY 2, 3"
    );
    assert_eq!(out.matches("LEFT JOIN public.customers").count(), 1);

    let to_customers = linked.find_join_path("orders", "customers").unwrap();
    let to_regions = linked.find_join_path("orders", "regions").unwrap();
    assert_eq!(to_customers.steps.len(), 1);
    assert_eq!(to_regions.steps.len(), 2);
    assert_eq!(to_regions.steps[0].to_model, "customers");
    assert_eq!(to_regions.steps[0].from_key, to_customers.steps[0].from_key);
    assert_eq!(to_regions.steps[0].to_key, to_customers.steps[0].to_key);
}
