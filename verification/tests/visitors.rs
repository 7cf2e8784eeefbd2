use bqvalid::context::AnalysisContext;
use bqvalid::tree::{parse_sql_tree, SqlTree};
use bqvalid::visitors::{
    CteVisitor, DistinctVisitor, PivotVisitor, QualifyVisitor, SelectStarVisitor, SelectVisitor,
    WhereVisitor,
};

fn parse_sql(sql: &str) -> SqlTree {
    parse_sql_tree(sql).expect("the statement should parse")
}

#[test]
fn test_cte_visitor() {
    let sql = "WITH cte1 AS (SELECT col1, col2 FROM table1) SELECT * FROM cte1";
    let tree = parse_sql(sql);
    let mut context = AnalysisContext::new(sql);

    let visitor = CteVisitor;

    // Visit all nodes
    for node in 0..tree.node_count() {
        visitor.visit(&tree, node, &mut context);
    }

    assert!(context.has_cte("cte1"));
    let columns = context.get_cte_columns("cte1").unwrap();
    assert_eq!(columns.len(), 2);
    assert_eq!(columns[0].column_name, "col1");
    assert_eq!(columns[1].column_name, "col2");
}

#[test]
fn test_cte_visitor_with_aliases() {
    let sql =
        "WITH cte1 AS (SELECT col1 AS alias1, col2 AS alias2, col3 FROM table1) SELECT * FROM cte1";
    let tree = parse_sql(sql);
    let mut context = AnalysisContext::new(sql);

    let visitor = CteVisitor;

    for node in 0..tree.node_count() {
        visitor.visit(&tree, node, &mut context);
    }

    assert!(context.has_cte("cte1"));
    let columns = context.get_cte_columns("cte1").unwrap();
    assert_eq!(columns.len(), 3);
    assert_eq!(columns[0].column_name, "alias1");
    assert_eq!(columns[0].original_column_name, Some("col1".to_string()));
    assert_eq!(columns[1].column_name, "alias2");
    assert_eq!(columns[1].original_column_name, Some("col2".to_string()));
    assert_eq!(columns[2].column_name, "col3");
}

#[test]
fn test_cte_visitor_with_select_star() {
    let sql = "WITH cte1 AS (SELECT col1, col2, col3 FROM table1), \
               cte2 AS (SELECT * FROM cte1) \
               SELECT * FROM cte2";
    let tree = parse_sql(sql);
    let mut context = AnalysisContext::new(sql);

    let visitor = CteVisitor;

    for node in 0..tree.node_count() {
        visitor.visit(&tree, node, &mut context);
    }

    // cte1 should have 3 columns
    assert!(context.has_cte("cte1"));
    let columns1 = context.get_cte_columns("cte1").unwrap();
    assert_eq!(columns1.len(), 3);

    // cte2 should expand SELECT * from cte1, so it should also have 3 columns
    assert!(context.has_cte("cte2"));
    let columns2 = context.get_cte_columns("cte2").unwrap();
    assert_eq!(columns2.len(), 3);
    assert_eq!(columns2[0].column_name, "col1");
    assert_eq!(columns2[1].column_name, "col2");
    assert_eq!(columns2[2].column_name, "col3");
}

#[test]
fn test_cte_visitor_multiple_ctes() {
    let sql = "WITH \
               cte1 AS (SELECT id, name FROM users), \
               cte2 AS (SELECT user_id, email FROM contacts), \
               cte3 AS (SELECT order_id, amount FROM orders) \
               SELECT * FROM cte1";
    let tree = parse_sql(sql);
    let mut context = AnalysisContext::new(sql);

    let visitor = CteVisitor;

    for node in 0..tree.node_count() {
        visitor.visit(&tree, node, &mut context);
    }

    // All three CTEs should be collected
    assert!(context.has_cte("cte1"));
    assert!(context.has_cte("cte2"));
    assert!(context.has_cte("cte3"));

    let columns1 = context.get_cte_columns("cte1").unwrap();
    assert_eq!(columns1.len(), 2);
    assert_eq!(columns1[0].column_name, "id");
    assert_eq!(columns1[1].column_name, "name");

    let columns2 = context.get_cte_columns("cte2").unwrap();
    assert_eq!(columns2.len(), 2);
    assert_eq!(columns2[0].column_name, "user_id");
    assert_eq!(columns2[1].column_name, "email");

    let columns3 = context.get_cte_columns("cte3").unwrap();
    assert_eq!(columns3.len(), 2);
    assert_eq!(columns3[0].column_name, "order_id");
    assert_eq!(columns3[1].column_name, "amount");
}

#[test]
fn test_cte_visitor_with_qualified_names() {
    let sql = "WITH cte1 AS (SELECT t.col1, t.col2 FROM table1 t) SELECT * FROM cte1";
    let tree = parse_sql(sql);
    let mut context = AnalysisContext::new(sql);

    let visitor = CteVisitor;

    for node in 0..tree.node_count() {
        visitor.visit(&tree, node, &mut context);
    }

    assert!(context.has_cte("cte1"));
    let columns = context.get_cte_columns("cte1").unwrap();
    assert_eq!(columns.len(), 2);
    // Qualified names should be simplified to just column names
    assert_eq!(columns[0].column_name, "col1");
    assert_eq!(columns[1].column_name, "col2");
}

#[test]
fn test_cte_visitor_mixed_columns_and_star() {
    let sql = "WITH cte1 AS (SELECT col1, col2 FROM table1), \
               cte2 AS (SELECT *, col3 FROM cte1, table2) \
               SELECT * FROM cte2";
    let tree = parse_sql(sql);
    let mut context = AnalysisContext::new(sql);

    let visitor = CteVisitor;

    for node in 0..tree.node_count() {
        visitor.visit(&tree, node, &mut context);
    }

    assert!(context.has_cte("cte1"));
    assert!(context.has_cte("cte2"));

    let columns2 = context.get_cte_columns("cte2").unwrap();
    // Should have columns from cte1 (col1, col2) plus col3
    assert!(columns2.len() >= 3);
}

#[test]
fn test_distinct_visitor() {
    let sql = "WITH cte1 AS (SELECT DISTINCT col1, col2, col3 FROM table1) \
               SELECT col1 FROM cte1";
    let tree = parse_sql(sql);
    let mut context = AnalysisContext::new(sql);

    let cte_visitor = CteVisitor;
    let distinct_visitor = DistinctVisitor;

    for node in 0..tree.node_count() {
        cte_visitor.visit(&tree, node, &mut context);
        distinct_visitor.visit(&tree, node, &mut context);
    }

    // All columns should be marked as used (DISTINCT)
    assert!(context.graph.is_column_used("cte1", "col1"));
    assert!(context.graph.is_column_used("cte1", "col2"));
    assert!(context.graph.is_column_used("cte1", "col3"));

    let unused = context.collect_unused();
    assert_eq!(unused.len(), 0);
}

#[test]
fn test_pivot_visitor() {
    let sql = "WITH raw_data AS (SELECT category, month, value, unused FROM table1) \
               SELECT category FROM raw_data PIVOT(sum(value) for month in ('Jan' as jan))";
    let tree = parse_sql(sql);
    let mut context = AnalysisContext::new(sql);

    let cte_visitor = CteVisitor;
    let select_visitor = SelectVisitor::new();
    let pivot_visitor = PivotVisitor;

    for node in 0..tree.node_count() {
        cte_visitor.visit(&tree, node, &mut context);
        select_visitor.visit(&tree, node, &mut context);
        pivot_visitor.visit(&tree, node, &mut context);
    }

    // value and month should be marked as used (PIVOT clause)
    assert!(context.graph.is_column_used("raw_data", "value"));
    assert!(context.graph.is_column_used("raw_data", "month"));
    // category should be marked as used (final SELECT)
    assert!(context.graph.is_column_used("raw_data", "category"));

    // unused should be the only unused column
    let unused = context.collect_unused();
    assert_eq!(unused.len(), 1);
    assert_eq!(unused[0].column_name, "unused");
}

#[test]
fn test_qualify_visitor() {
    let sql = "WITH cte1 AS (SELECT col1, col2, unused FROM table1) \
               SELECT col2 FROM cte1 QUALIFY row_number() over (partition by col1) = 1";
    let tree = parse_sql(sql);
    let mut context = AnalysisContext::new(sql);

    let cte_visitor = CteVisitor;
    let select_visitor = SelectVisitor::new();
    let qualify_visitor = QualifyVisitor;

    for node in 0..tree.node_count() {
        cte_visitor.visit(&tree, node, &mut context);
        select_visitor.visit(&tree, node, &mut context);
        qualify_visitor.visit(&tree, node, &mut context);
    }

    // col1 should be marked as used (QUALIFY clause)
    assert!(context.graph.is_column_used("cte1", "col1"));
    // col2 should be marked as used (final SELECT)
    assert!(context.graph.is_column_used("cte1", "col2"));

    // unused should be the only unused column
    let unused = context.collect_unused();
    assert_eq!(unused.len(), 1);
    assert_eq!(unused[0].column_name, "unused");
}

#[test]
fn test_select_star_visitor() {
    let sql = "WITH cte1 AS (SELECT col1, col2, unused FROM table1) \
               SELECT * FROM cte1";
    let tree = parse_sql(sql);
    let mut context = AnalysisContext::new(sql);

    let cte_visitor = CteVisitor;
    let select_star_visitor = SelectStarVisitor;
    let select_visitor = SelectVisitor::new();

    for node in 0..tree.node_count() {
        cte_visitor.visit(&tree, node, &mut context);
        select_star_visitor.visit(&tree, node, &mut context);
        select_visitor.visit(&tree, node, &mut context);
    }

    // All columns should be marked as used (final SELECT *)
    assert!(context.graph.is_column_used("cte1", "col1"));
    assert!(context.graph.is_column_used("cte1", "col2"));
    assert!(context.graph.is_column_used("cte1", "unused"));

    let unused = context.collect_unused();
    assert_eq!(unused.len(), 0); // All columns used
}

#[test]
fn test_select_visitor() {
    let sql = "WITH cte1 AS (SELECT col1, col2, col3 FROM table1) SELECT col1, col2 FROM cte1";
    let tree = parse_sql(sql);
    let mut context = AnalysisContext::new(sql);

    let cte_visitor = CteVisitor;
    let select_visitor = SelectVisitor::new();

    // First pass: collect CTEs
    for node in 0..tree.node_count() {
        cte_visitor.visit(&tree, node, &mut context);
    }

    // Second pass: mark usage
    for node in 0..tree.node_count() {
        select_visitor.visit(&tree, node, &mut context);
    }

    // Check that col1 and col2 are marked as used
    assert!(context.graph.is_column_used("cte1", "col1"));
    assert!(context.graph.is_column_used("cte1", "col2"));

    // col3 should be unused
    let unused = context.collect_unused();
    assert_eq!(unused.len(), 1);
    assert_eq!(unused[0].column_name, "col3");
}

#[test]
fn test_where_visitor() {
    let sql = "WITH cte1 AS (SELECT col1, col2, col3 FROM table1) \
               SELECT col1 FROM cte1 WHERE col2 > 10";
    let tree = parse_sql(sql);
    let mut context = AnalysisContext::new(sql);

    let cte_visitor = CteVisitor;
    let select_visitor = SelectVisitor::new();
    let where_visitor = WhereVisitor;

    // Single pass with all visitors
    for node in 0..tree.node_count() {
        cte_visitor.visit(&tree, node, &mut context);
        select_visitor.visit(&tree, node, &mut context);
        where_visitor.visit(&tree, node, &mut context);
    }

    // col1 should be marked as used (in SELECT)
    assert!(context.graph.is_column_used("cte1", "col1"));
    // col2 should be marked as used (in WHERE)
    assert!(context.graph.is_column_used("cte1", "col2"));

    // col3 should still be unused
    let unused = context.collect_unused();
    assert_eq!(unused.len(), 1);
    assert_eq!(unused[0].column_name, "col3");
}

#[test]
fn test_join_condition() {
    let sql = "WITH cte1 AS (SELECT id, name, unused FROM t1), \
                    cte2 AS (SELECT id, value FROM t2) \
               SELECT cte1.name, cte2.value FROM cte1 \
               JOIN cte2 ON cte1.id = cte2.id";
    let tree = parse_sql(sql);
    let mut context = AnalysisContext::new(sql);

    let cte_visitor = CteVisitor;
    let select_visitor = SelectVisitor::new();
    let where_visitor = WhereVisitor;

    for node in 0..tree.node_count() {
        cte_visitor.visit(&tree, node, &mut context);
        select_visitor.visit(&tree, node, &mut context);
        where_visitor.visit(&tree, node, &mut context);
    }

    // name and value should be marked as used (in SELECT)
    assert!(context.graph.is_column_used("cte1", "name"));
    assert!(context.graph.is_column_used("cte2", "value"));
    // id columns should be marked as used (in JOIN condition)
    assert!(context.graph.is_column_used("cte1", "id"));
    assert!(context.graph.is_column_used("cte2", "id"));

    // unused should still be unused
    let unused = context.collect_unused();
    assert_eq!(unused.len(), 1);
    assert_eq!(unused[0].column_name, "unused");
}
