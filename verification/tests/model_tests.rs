use sidemantic::{Dimension, Metric, Model, Relationship};

#[test]
fn test_dimension_sql_expr() {
    let dim = Dimension::new("status");
    assert_eq!(dim.sql_expr(), "status");

    let dim = Dimension::new("order_status").with_sql("status");
    assert_eq!(dim.sql_expr(), "status");
}

#[test]
fn test_metric_to_sql() {
    let metric = Metric::sum("revenue", "amount");
    assert_eq!(metric.to_sql(None), "SUM(amount)");
    assert_eq!(metric.to_sql(Some("o")), "SUM(o.amount)");

    let metric = Metric::count("order_count");
    assert_eq!(metric.to_sql(None), "COUNT(*)");

    let metric = Metric::count_distinct("unique_customers", "customer_id");
    assert_eq!(metric.to_sql(Some("o")), "COUNT(DISTINCT o.customer_id)");
}

#[test]
fn test_model_builder() {
    let model = Model::new("orders", "order_id")
        .with_table("public.orders")
        .with_dimension(Dimension::categorical("status"))
        .with_metric(Metric::sum("revenue", "amount"))
        .with_relationship(Relationship::many_to_one("customers"));

    assert_eq!(model.table_name(), "public.orders");
    assert!(model.get_dimension("status").is_some());
    assert!(model.get_metric("revenue").is_some());
    assert!(model.get_relationship("customers").is_some());
}
