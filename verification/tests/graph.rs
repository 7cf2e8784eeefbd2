use bqvalid::graph::DependencyGraph;
use bqvalid::models::ColumnInfo;
use bqvalid::utils::extract_column_name;

#[test]
fn test_dependency_graph_new() {
    let graph = DependencyGraph::new();
    assert_eq!(graph.get_all_ctes().len(), 0);
}

#[test]
fn graph_test_add_cte() {
    let mut graph = DependencyGraph::new();

    let columns = vec![
        ColumnInfo::new(Some("cte1".to_string()), "col1".to_string(), None, 0, 0),
        ColumnInfo::new(Some("cte1".to_string()), "col2".to_string(), None, 0, 5),
    ];

    graph.add_cte("cte1", &columns);

    assert_eq!(graph.get_all_ctes().len(), 1);
    assert!(graph.get_columns("cte1").is_some());
}

#[test]
fn test_mark_column_used() {
    let mut graph = DependencyGraph::new();

    let columns = vec![ColumnInfo::new(
        Some("cte1".to_string()),
        "col1".to_string(),
        None,
        0,
        0,
    )];

    graph.add_cte("cte1", &columns);
    graph.mark_column_used("cte1", "col1");

    assert!(graph.is_column_used("cte1", "col1"));
    assert!(!graph.is_column_used("cte1", "col2"));
}

#[test]
fn test_collect_unused_columns() {
    let mut graph = DependencyGraph::new();

    let columns = vec![
        ColumnInfo::new(Some("cte1".to_string()), "col1".to_string(), None, 0, 0),
        ColumnInfo::new(Some("cte1".to_string()), "col2".to_string(), None, 0, 5),
        ColumnInfo::new(Some("cte1".to_string()), "col3".to_string(), None, 0, 10),
    ];

    graph.add_cte("cte1", &columns);

    // Mark col1 and col2 as used
    graph.mark_column_used("cte1", "col1");
    graph.mark_column_used("cte1", "col2");

    let unused = graph.collect_unused_columns();

    assert_eq!(unused.len(), 1);
    assert_eq!(unused[0].column_name, "col3");
}

#[test]
fn graph_test_extract_column_name() {
    assert_eq!(extract_column_name("column"), "column");
    assert_eq!(extract_column_name("table.column"), "column");
    assert_eq!(extract_column_name("schema.table.column"), "column");
}

#[test]
fn test_collect_unused_with_qualified_names() {
    let mut graph = DependencyGraph::new();

    let columns = vec![ColumnInfo::new(
        Some("cte1".to_string()),
        "cte1.col1".to_string(),
        None,
        0,
        0,
    )];

    graph.add_cte("cte1", &columns);

    // Mark using base name
    graph.mark_column_used("cte1", "col1");

    let unused = graph.collect_unused_columns();
    assert_eq!(unused.len(), 0);
}

#[test]
fn test_first_definition_wins() {
    let mut graph = DependencyGraph::new();

    let first = vec![ColumnInfo::new(
        Some("cte1".to_string()),
        "col1".to_string(),
        None,
        0,
        0,
    )];
    let second = vec![
        ColumnInfo::new(Some("cte1".to_string()), "other".to_string(), None, 1, 0),
        ColumnInfo::new(Some("cte1".to_string()), "more".to_string(), None, 1, 5),
    ];

    graph.add_cte("cte1", &first);
    graph.add_cte("cte1", &second);

    assert_eq!(graph.get_all_ctes().len(), 1);
    assert_eq!(graph.get_columns("cte1").unwrap().len(), 1);
    assert_eq!(graph.get_columns("cte1").unwrap()[0].column_name, "col1");
}

#[test]
fn test_collect_unused_sorted_by_position() {
    let mut graph = DependencyGraph::new();

    let columns = vec![
        ColumnInfo::new(Some("cte1".to_string()), "late".to_string(), None, 2, 0),
        ColumnInfo::new(Some("cte1".to_string()), "early".to_string(), None, 0, 4),
        ColumnInfo::new(Some("cte1".to_string()), "middle".to_string(), None, 0, 9),
    ];

    graph.add_cte("cte1", &columns);

    let unused = graph.collect_unused_columns();
    assert_eq!(unused.len(), 3);
    assert_eq!(unused[0].column_name, "early");
    assert_eq!(unused[1].column_name, "middle");
    assert_eq!(unused[2].column_name, "late");
}
