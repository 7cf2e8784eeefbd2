use bqvalid::context::AnalysisContext;
use bqvalid::models::ColumnInfo;

#[test]
fn test_context_creation() {
    let sql = "SELECT * FROM table1";
    let context = AnalysisContext::new(sql);

    assert_eq!(context.sql(), sql);
    assert_eq!(context.cte_columns.len(), 0);
}

#[test]
fn context_test_add_cte() {
    let sql = "WITH cte1 AS (SELECT col1 FROM t1) SELECT * FROM cte1";
    let mut context = AnalysisContext::new(sql);

    let columns = vec![ColumnInfo::new(
        Some("cte1".to_string()),
        "col1".to_string(),
        None,
        0,
        0,
    )];

    context.add_cte("cte1".to_string(), columns);

    assert!(context.has_cte("cte1"));
    assert!(!context.has_cte("cte2"));
}

#[test]
fn test_mark_used() {
    let sql = "WITH cte1 AS (SELECT col1, col2 FROM t1) SELECT col1 FROM cte1";
    let mut context = AnalysisContext::new(sql);

    let columns = vec![
        ColumnInfo::new(Some("cte1".to_string()), "col1".to_string(), None, 0, 0),
        ColumnInfo::new(Some("cte1".to_string()), "col2".to_string(), None, 0, 5),
    ];

    context.add_cte("cte1".to_string(), columns);
    context.mark_used("cte1", "col1");

    let unused = context.collect_unused();
    assert_eq!(unused.len(), 1);
    assert_eq!(unused[0].column_name, "col2");
}

#[test]
fn test_get_cte_columns() {
    let sql = "WITH cte1 AS (SELECT col1 FROM t1) SELECT * FROM cte1";
    let mut context = AnalysisContext::new(sql);

    let columns = vec![ColumnInfo::new(
        Some("cte1".to_string()),
        "col1".to_string(),
        None,
        0,
        0,
    )];

    context.add_cte("cte1".to_string(), columns);

    let retrieved = context.get_cte_columns("cte1");
    assert!(retrieved.is_some());
    assert_eq!(retrieved.unwrap().len(), 1);
    assert_eq!(retrieved.unwrap()[0].column_name, "col1");
}
