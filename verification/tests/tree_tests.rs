use sidemantic::rewriter::expr::{
    build_group_by, has_aggregations, has_non_aggregated_columns, is_aggregate_name,
    is_aggregation, ParsedMetric,
};
use sidemantic::rewriter::plan::{model_source, split_at_dots};
use sidemantic::tree::{
    lift_expr, lift_select, lower_expr, lower_select, GroupBy, JoinTree, ProjectionItem, SelectTree,
    SqlExpr, TableRef, TableSource, LIFT_DEPTH,
};
use sidemantic::{Dimension, Metric, Model, QueryRewriter, Relationship, SemanticGraph};
use sqlparser::ast::{Expr, Select, SetExpr, Statement};
use sqlparser::dialect::GenericDialect;
use sqlparser::parser::Parser;

fn parse_select(sql: &str) -> Select {
    let mut statements = Parser::parse_sql(&GenericDialect {}, sql).unwrap();
    match statements.remove(0) {
        Statement::Query(q) => match *q.body {
            SetExpr::Select(s) => *s,
            _ => panic!("not a select"),
        },
        _ => panic!("not a query"),
    }
}

fn parse_expr(sql: &str) -> Expr {
    Parser::new(&GenericDialect {}).try_with_sql(sql).unwrap().parse_expr().unwrap()
}

fn tree_of(sql: &str) -> SelectTree {
    lift_select(parse_select(sql))
}

fn shop() -> SemanticGraph {
    let mut graph = SemanticGraph::new();
    graph
        .add_model(
            Model::new("orders", "order_id")
                .with_table("public.orders")
                .with_dimension(Dimension::categorical("status"))
                .with_dimension(Dimension::time("order_date").with_sql("created_at"))
                .with_metric(Metric::sum("revenue", "amount"))
                .with_metric(Metric::derived("aov", "SUM(amount) / COUNT(*)"))
                .with_relationship(Relationship::many_to_one("customers")),
        )
        .unwrap();
    graph
        .add_model(
            Model::new("customers", "id")
                .with_table("public.customers")
                .with_dimension(Dimension::categorical("country"))
                .with_relationship(Relationship::many_to_one("regions")),
        )
        .unwrap();
    graph
        .add_model(
            Model::new("regions", "id").with_table("regions").with_dimension(Dimension::new("name")),
        )
        .unwrap();
    graph
}

#[test]
fn expressions_are_lifted_and_lowered_as_they_are() {
    for sql in [
        "a.b",
        "a.b + 1",
        "NOT (a.b = 'x' AND c.d > 2)",
        "-x",
        "SUM(a.b) / COUNT(*)",
        "CASE WHEN a.b THEN 1 ELSE 2 END",
        "s.t.c",
    ] {
        let lifted = lift_expr(parse_expr(sql), LIFT_DEPTH);
        assert_eq!(lower_expr(lifted).to_string(), sql);
    }

    match lift_expr(parse_expr("a.b + f(c.d, e.f.g, h)"), LIFT_DEPTH) {
        SqlExpr::Binary { left, right, .. } => {
            match *left {
                SqlExpr::Column { qualifier, name, .. } => {
                    assert_eq!((qualifier.as_str(), name.as_str()), ("a", "b"))
                }
                other => panic!("{other:?}"),
            }
            match *right {
                SqlExpr::Call { path, columns, .. } => {
                    assert_eq!(path, vec!["f".to_string()]);
                    assert_eq!(columns.len(), 1);
                    assert_eq!(columns[0].qualifier, "c");
                    assert_eq!(columns[0].name, "d");
                }
                other => panic!("{other:?}"),
            }
        }
        other => panic!("{other:?}"),
    }

    // Below the depth that is looked into, an expression stays whole.
    match lift_expr(parse_expr("(a.b)"), 1) {
        SqlExpr::Nested(inner) => assert!(matches!(*inner, SqlExpr::Other { .. })),
        other => panic!("{other:?}"),
    }
    assert!(matches!(lift_expr(parse_expr("(a.b)"), 0), SqlExpr::Other { .. }));
}

#[test]
fn selects_are_lifted_and_lowered_as_they_are() {
    for sql in [
        "SELECT a, b AS c, * FROM t AS x JOIN u ON x.id = u.id, v WHERE a > 1 GROUP BY a HAVING COUNT(*) > 1",
        "SELECT DISTINCT a FROM (SELECT 1) AS s",
        "SELECT 1",
    ] {
        let lowered = lower_select(tree_of(sql)).unwrap();
        assert_eq!(lowered.to_string(), sql);
    }

    let tree = tree_of("SELECT a FROM s.t AS x, u");
    match &tree.from[0].table {
        TableRef::Named { path, alias_name, .. } => {
            assert_eq!(path, &vec!["s".to_string(), "t".to_string()]);
            assert_eq!(alias_name.as_deref(), Some("x"));
        }
        other => panic!("{other:?}"),
    }
    match &tree.from[1].table {
        TableRef::Named { path, alias_name, .. } => {
            assert_eq!(path, &vec!["u".to_string()]);
            assert!(alias_name.is_none());
        }
        other => panic!("{other:?}"),
    }
}

#[test]
fn a_select_is_rewritten_as_a_tree() {
    let graph = shop();
    let rewriter = QueryRewriter::new(&graph);
    let tree = tree_of("SELECT orders.revenue, regions.name, orders.status AS s FROM orders WHERE customers.country = 'US'");

    let plan = rewriter.plan_select(&tree).unwrap().unwrap();
    let refs: Vec<(&str, &str)> =
        plan.refs.iter().map(|r| (r.model.as_str(), r.alias.as_str())).collect();
    assert_eq!(refs, vec![("orders", "o"), ("customers", "c"), ("regions", "r")]);
    assert_eq!(plan.joins.len(), 2);
    assert_eq!(plan.joins[0].alias, "c");
    assert_eq!(plan.joins[0].from_alias, "o");
    assert_eq!(plan.joins[0].from_key, "customers_id");
    assert_eq!(plan.joins[0].to_key, "id");
    assert_eq!(plan.joins[1].alias, "r");
    assert_eq!(plan.joins[1].from_alias, "c");
    assert_eq!(plan.joins[1].from_key, "regions_id");
    assert!(rewriter.metric_sql(&plan, &tree).is_empty());

    let out = rewriter.rewrite_select(tree, &Vec::new()).unwrap();
    match &out.projection[0] {
        ProjectionItem::Named { expr: SqlExpr::Aggregate { function, distinct, column }, label } => {
            assert_eq!(function, "SUM");
            assert!(!distinct);
            let column = column.as_ref().unwrap();
            assert_eq!((column.qualifier.as_str(), column.name.as_str()), ("o", "amount"));
            assert_eq!(label, "revenue");
        }
        other => panic!("{other:?}"),
    }
    match &out.projection[1] {
        ProjectionItem::Named { expr: SqlExpr::Field { qualifier, name }, label } => {
            assert_eq!((qualifier.as_str(), name.as_str(), label.as_str()), ("r", "name", "name"));
        }
        other => panic!("{other:?}"),
    }
    assert!(matches!(&out.projection[2], ProjectionItem::Aliased { expr: SqlExpr::Field { .. }, .. }));
    match &out.group_by {
        GroupBy::Positions(p) => assert_eq!(p, &vec![2, 3]),
        other => panic!("{other:?}"),
    }
    match &out.from[0].table {
        TableRef::Physical { table: TableSource::Table(parts), alias, written_alias } => {
            assert_eq!(parts, &vec!["public".to_string(), "orders".to_string()]);
            assert_eq!(alias, "o");
            assert!(written_alias.is_none());
        }
        other => panic!("{other:?}"),
    }
    assert_eq!(out.from[0].joins.len(), 2);
    assert!(out.from[0].joins.iter().all(|j| matches!(j, JoinTree::Left(_))));

    assert_eq!(
        lower_select(out).unwrap().to_string(),
        "SELECT SUM(o.amount) AS revenue, r.name AS name, o.status AS s FROM public.orders AS o LEFT JOIN public.customers AS c ON o.customers_id = c.id LEFT JOIN regions AS r ON c.regions_id = r.id WHERE c.country = 'US' GROUP BY 2, 3"
    );
}

#[test]
fn rewriting_twice_changes_nothing_more() {
    let graph = shop();
    let rewriter = QueryRewriter::new(&graph);
    let once = rewriter
        .rewrite_select(tree_of("SELECT orders.revenue, customers.country FROM orders"), &Vec::new())
        .unwrap();
    let text = lower_select(once).unwrap().to_string();
    let once = rewriter
        .rewrite_select(tree_of("SELECT orders.revenue, customers.country FROM orders"), &Vec::new())
        .unwrap();
    let twice = rewriter.rewrite_select(once, &Vec::new()).unwrap();
    assert_eq!(lower_select(twice).unwrap().to_string(), text);
}

#[test]
fn the_sql_of_a_metric_must_have_been_parsed() {
    let graph = shop();
    let rewriter = QueryRewriter::new(&graph);
    let tree = tree_of("SELECT orders.aov, orders.aov + 1, orders.status FROM orders");
    let plan = rewriter.plan_select(&tree).unwrap().unwrap();
    assert_eq!(
        rewriter.metric_sql(&plan, &tree),
        vec!["SUM(amount) / COUNT(*)".to_string(), "SUM(amount) / COUNT(*)".to_string()]
    );

    let err = rewriter.apply_plan(&plan, &Vec::new(), tree).unwrap_err();
    assert_eq!(err.message(), "SQL parse error: Cannot parse metric expression: SUM(amount) / COUNT(*)");

    let parsed = vec![ParsedMetric {
        sql: "SUM(amount) / COUNT(*)".to_string(),
        tree: lift_expr(parse_expr("SUM(amount) / COUNT(*)"), LIFT_DEPTH),
    }];
    let tree = tree_of("SELECT orders.aov, orders.aov + 1, orders.status FROM orders");
    let out = rewriter.apply_plan(&plan, &parsed, tree).unwrap();
    assert_eq!(
        lower_select(out).unwrap().to_string(),
        "SELECT SUM(amount) / COUNT(*) AS aov, SUM(amount) / COUNT(*) + 1, o.status AS status FROM public.orders AS o GROUP BY 3"
    );
}

#[test]
fn each_reference_to_a_sum_becomes_one_sum() {
    let graph = shop();
    let rewriter = QueryRewriter::new(&graph);
    let out = rewriter
        .rewrite("SELECT orders.revenue, orders.revenue * 2 AS twice, (o.revenue) FROM orders AS o")
        .unwrap();
    assert_eq!(out.matches("SUM(o.amount)").count(), 3);
    assert_eq!(
        out,
        "SELECT SUM(o.amount) AS revenue, SUM(o.amount) * 2 AS twice, (SUM(o.amount)) FROM public.orders AS o"
    );
}

#[test]
fn grouping_is_by_the_places_of_what_does_not_aggregate() {
    let graph = shop();
    let rewriter = QueryRewriter::new(&graph);
    let out = rewriter
        .rewrite("SELECT orders.status, orders.revenue, 1 + 1, *, MAX(x), orders.order_date FROM orders GROUP BY x")
        .unwrap();
    assert!(out.ends_with("GROUP BY 1, 3, 6"));

    let out = rewriter.rewrite("SELECT orders.status, x FROM orders GROUP BY x").unwrap();
    assert!(out.ends_with("GROUP BY x"));
    let out = rewriter.rewrite("SELECT orders.revenue FROM orders").unwrap();
    assert!(!out.contains("GROUP BY"));

    let tree = tree_of("SELECT a, SUM(b), count(c), f(d), * FROM t");
    assert!(has_aggregations(&tree.projection));
    assert!(has_non_aggregated_columns(&tree.projection));
    assert_eq!(build_group_by(&tree.projection), vec![1, 4]);
    let flags: Vec<bool> = tree
        .projection
        .iter()
        .filter_map(|i| match i {
            ProjectionItem::Unnamed(e) => Some(is_aggregation(e)),
            _ => None,
        })
        .collect();
    assert_eq!(flags, vec![false, true, true, false]);
    assert!(is_aggregate_name("sum"));
    assert!(is_aggregate_name("Approx_Count_Distinct"));
    assert!(is_aggregate_name("LISTAGG"));
    assert!(!is_aggregate_name("COALESCE"));
}

#[test]
fn sources_of_models() {
    assert_eq!(split_at_dots("a.b.c"), vec!["a".to_string(), "b".to_string(), "c".to_string()]);
    assert_eq!(split_at_dots("orders"), vec!["orders".to_string()]);
    assert_eq!(split_at_dots("a..b."), vec!["a".to_string(), "".to_string(), "b".to_string(), "".to_string()]);
    assert!(matches!(
        model_source(&Model::new("m", "id").with_table("t").with_sql("SELECT 1")),
        TableSource::Subquery(_)
    ));
    match model_source(&Model::new("m", "id")) {
        TableSource::Table(parts) => assert_eq!(parts, vec!["m".to_string()]),
        other => panic!("{other:?}"),
    }
}

#[test]
fn taken_names_are_not_given_again() {
    let graph = shop();
    let rewriter = QueryRewriter::new(&graph);
    let out = rewriter
        .rewrite("SELECT orders.revenue, customers.country FROM other AS o, orders, c")
        .unwrap();
    assert_eq!(
        out,
        "SELECT SUM(o2.amount) AS revenue, c2.country AS country FROM other AS o, public.orders AS o2 LEFT JOIN public.customers AS c2 ON o2.customers_id = c2.id, c GROUP BY 2"
    );
}
