use bqvalid::models::ColumnInfo;

#[test]
fn test_column_info_creation() {
    let col = ColumnInfo::new(Some("table1".to_string()), "col1".to_string(), None, 0, 0);

    assert_eq!(col.table_name, Some("table1".to_string()));
    assert_eq!(col.column_name, "col1");
    assert_eq!(col.row, 1); // 0-indexed to 1-indexed
    assert_eq!(col.col, 1);
}

#[test]
fn test_column_info_ordering() {
    let col1 = ColumnInfo::new(Some("t1".to_string()), "c1".to_string(), None, 1, 5);
    let col2 = ColumnInfo::new(Some("t1".to_string()), "c2".to_string(), None, 1, 10);
    let col3 = ColumnInfo::new(Some("t1".to_string()), "c3".to_string(), None, 2, 5);

    assert!(col1 < col2);
    assert!(col2 < col3);
}

#[test]
fn test_column_info_display() {
    let col = ColumnInfo::new(
        Some("users".to_string()),
        "user_id".to_string(),
        None,
        5,
        10,
    );

    assert_eq!(col.display_string(), "users:user_id:6:11");
}

#[test]
fn test_column_info_display_without_table() {
    let col = ColumnInfo::new(None, "count_all".to_string(), None, 0, 3);
    assert_eq!(col.display_string(), ":count_all:1:4");
}

#[test]
fn test_column_info_equality_ignores_source_name() {
    let a = ColumnInfo::new(Some("t".to_string()), "x".to_string(), None, 2, 7);
    let b = ColumnInfo::new(
        Some("t".to_string()),
        "x".to_string(),
        Some("col1".to_string()),
        2,
        7,
    );
    assert!(a == b);
}
