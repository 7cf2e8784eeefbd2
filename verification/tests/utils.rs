use bqvalid::context::CteIndex;
use bqvalid::models::ColumnInfo;
use bqvalid::utils::{extract_column_name, extract_table_name, find_original_table, AliasMap};

#[test]
fn utils_test_extract_column_name() {
    assert_eq!(extract_column_name("column"), "column");
    assert_eq!(extract_column_name("table.column"), "column");
    assert_eq!(extract_column_name("schema.table.column"), "column");
}

#[test]
fn test_extract_table_name() {
    assert_eq!(extract_table_name("table"), "table");
    assert_eq!(extract_table_name("schema.table"), "schema");
}

fn index_with(name: &str, cols: &[&str]) -> CteIndex {
    let mut ix = CteIndex::new();
    let columns: Vec<ColumnInfo> = cols
        .iter()
        .enumerate()
        .map(|(k, c)| ColumnInfo::new(Some(name.to_string()), c.to_string(), None, 0, k))
        .collect();
    ix.insert(name.to_string(), columns);
    ix
}

#[test]
fn test_find_original_table_qualified() {
    let tables = vec!["cte1".to_string()];
    let aliases = AliasMap::new();
    let ix = index_with("cte1", &["col1"]);

    assert_eq!(
        find_original_table("cte1.col1", &tables, &aliases, &ix),
        "cte1"
    );
}

#[test]
fn test_find_original_table_through_alias() {
    let tables = vec!["cte1".to_string()];
    let mut aliases = AliasMap::new();
    aliases.insert("c".to_string(), "cte1".to_string());
    let ix = index_with("cte1", &["col1"]);

    assert_eq!(
        find_original_table("c.col1", &tables, &aliases, &ix),
        "cte1"
    );
}

#[test]
fn test_find_original_table_unqualified_scan() {
    let tables = vec!["cte1".to_string(), "cte2".to_string()];
    let aliases = AliasMap::new();
    let mut ix = CteIndex::new();
    ix.insert(
        "cte1".to_string(),
        vec![ColumnInfo::new(
            Some("cte1".to_string()),
            "a".to_string(),
            None,
            0,
            0,
        )],
    );
    ix.insert(
        "cte2".to_string(),
        vec![ColumnInfo::new(
            Some("cte2".to_string()),
            "b".to_string(),
            None,
            0,
            0,
        )],
    );

    assert_eq!(find_original_table("b", &tables, &aliases, &ix), "cte2");
    // A table with no known schema claims the reference outright.
    let physical = vec!["raw_table".to_string()];
    assert_eq!(
        find_original_table("anything", &physical, &aliases, &ix),
        "raw_table"
    );
    // An untraceable reference resolves to nothing.
    let none: Vec<String> = Vec::new();
    assert_eq!(find_original_table("b", &none, &aliases, &ix), "");
}

#[test]
fn test_alias_rebinding_latest_wins() {
    let mut aliases = AliasMap::new();
    aliases.insert("x".to_string(), "first_table".to_string());
    aliases.insert("x".to_string(), "second_table".to_string());

    assert_eq!(aliases.get("x"), Some(&"second_table".to_string()));
    assert_eq!(aliases.get("y"), None);
}
