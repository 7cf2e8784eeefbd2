use bqvalid::diagnostic::Diagnostic;
use bqvalid::rule::check;
use bqvalid::tree::{parse_sql_tree, SqlTree};

fn parse_sql(sql: &str) -> SqlTree {
    parse_sql_tree(sql).expect("the statement should parse")
}

fn messages(diags: &[Diagnostic]) -> Vec<String> {
    diags.iter().map(|d| d.message().to_string()).collect()
}

#[test]
fn no_cte_yields_nothing() {
    let sql = "SELECT col1, col2 FROM table1 WHERE col3 > 10";
    let tree = parse_sql(sql);
    assert!(check(&tree, sql).is_none());
}

#[test]
fn star_consumed_cte_reports_nothing() {
    let sql = "WITH cte1 AS (SELECT col1, col2, col3 FROM table1), \
               cte2 AS (SELECT * FROM cte1) \
               SELECT * FROM cte2";
    let tree = parse_sql(sql);
    assert!(check(&tree, sql).is_none());
}

#[test]
fn check_is_idempotent() {
    let sql = "WITH data1 AS (SELECT column1, column2, unused_column1 FROM t1), \
               data2 AS (SELECT column3, unused_column2 FROM t2), \
               data3 AS (SELECT data1.column1, data1.column2, data2.column3 \
               FROM data1 JOIN data2 ON data1.column1 = data2.column3) \
               SELECT * FROM data3";
    let tree = parse_sql(sql);
    let first = check(&tree, sql).expect("unused columns expected");
    let second = check(&tree, sql).expect("unused columns expected");

    assert_eq!(first.len(), second.len());
    for (a, b) in first.iter().zip(second.iter()) {
        assert_eq!(a.row(), b.row());
        assert_eq!(a.col(), b.col());
        assert_eq!(a.message(), b.message());
    }
}

#[test]
fn alias_marks_source_column_used() {
    let sql = "WITH cte1 AS (SELECT col1 FROM t1), \
               cte2 AS (SELECT col1 AS x FROM cte1) \
               SELECT x FROM cte2";
    let tree = parse_sql(sql);
    // Referencing the alias downstream must mark col1 used in its origin CTE.
    assert!(check(&tree, sql).is_none());
}

#[test]
fn diagnostics_sorted_by_position() {
    let sql = "WITH cte1 AS (\n\
               SELECT col1,\n\
               unused_b,\n\
               col2 FROM t1),\n\
               cte2 AS (SELECT unused_a, col3 FROM t2)\n\
               SELECT cte1.col1, cte1.col2, cte2.col3 FROM cte1 JOIN cte2 ON cte1.col1 = cte2.col3";
    let tree = parse_sql(sql);
    let diags = check(&tree, sql).expect("unused columns expected");

    assert_eq!(diags.len(), 2);
    // The row-3 diagnostic comes before the row-5 one.
    assert!(diags[0].row() < diags[1].row());
    assert_eq!(diags[0].message(), "Unused column: unused_b");
    assert_eq!(diags[1].message(), "Unused column: unused_a");
    for pair in diags.windows(2) {
        assert!(
            pair[0].row() < pair[1].row()
                || (pair[0].row() == pair[1].row() && pair[0].col() <= pair[1].col())
        );
    }
}

#[test]
fn simple_chain_scenario() {
    let sql = "WITH data1 AS (SELECT column1, column2, unused_column1 FROM t1), \
               data2 AS (SELECT column3, unused_column2 FROM t2), \
               data3 AS (SELECT data1.column1, data1.column2, data2.column3 \
               FROM data1 JOIN data2 ON data1.column1 = data2.column3) \
               SELECT * FROM data3";
    let tree = parse_sql(sql);
    let diags = check(&tree, sql).expect("unused columns expected");

    assert_eq!(
        messages(&diags),
        vec![
            "Unused column: unused_column1".to_string(),
            "Unused column: unused_column2".to_string(),
        ]
    );
}

#[test]
fn qualify_scenario() {
    let sql = "WITH cte1 AS (SELECT col1, col2 FROM table1) \
               SELECT col2 FROM cte1 QUALIFY row_number() over (partition by col1) = 1";
    let tree = parse_sql(sql);
    // col1 is only referenced in the QUALIFY window partition and must not be
    // reported unused.
    assert!(check(&tree, sql).is_none());
}

#[test]
fn distinct_scenario() {
    let sql = "WITH cte1 AS (SELECT DISTINCT col1, col2, col3 FROM t1) \
               SELECT col1 FROM cte1";
    let tree = parse_sql(sql);
    let diags = check(&tree, sql).expect("unused columns expected");

    // DISTINCT does not imply every column is used.
    assert_eq!(
        messages(&diags),
        vec![
            "Unused column: col2".to_string(),
            "Unused column: col3".to_string(),
        ]
    );
}

#[test]
fn diagnostic_rendering() {
    let d = Diagnostic::new(12, 34, "Unused column: extra".to_string());
    assert_eq!(d.row(), 12);
    assert_eq!(d.col(), 34);
    assert_eq!(d.message(), "Unused column: extra");
    assert_eq!(d.display_string(), "12:34: Unused column: extra");
}

#[test]
fn parse_builds_a_tree() {
    let sql = "SELECT col1 FROM table1";
    let tree = parse_sql(sql);
    // A real parse yields many nodes, not a single opaque blob.
    assert!(tree.node_count() > 3);
}

#[test]
fn function_argument_usage_counts() {
    let sql = "WITH cte1 AS (SELECT col1, unused_field FROM t1) \
               SELECT sum(col1) FROM cte1";
    let tree = parse_sql(sql);
    let diags = check(&tree, sql).expect("unused columns expected");
    assert_eq!(messages(&diags), vec!["Unused column: unused_field".to_string()]);
}

#[test]
fn where_only_usage_counts() {
    let sql = "WITH cte1 AS (SELECT id, name, unused_field FROM t1) \
               SELECT name FROM cte1 WHERE id > 5";
    let tree = parse_sql(sql);
    let diags = check(&tree, sql).expect("unused columns expected");
    assert_eq!(messages(&diags), vec!["Unused column: unused_field".to_string()]);
}

#[test]
fn group_by_usage_counts() {
    let sql = "WITH cte1 AS (SELECT a, b, c FROM t) \
               SELECT sum(a) FROM cte1 GROUP BY b";
    let tree = parse_sql(sql);
    let diags = check(&tree, sql).expect("unused columns expected");
    assert_eq!(messages(&diags), vec!["Unused column: c".to_string()]);
}

#[test]
fn table_alias_resolves_usage() {
    let sql = "WITH cte1 AS (SELECT id, name FROM t1) \
               SELECT c.id, c.name FROM cte1 AS c";
    let tree = parse_sql(sql);
    assert!(check(&tree, sql).is_none());
}

#[test]
fn unnest_argument_usage_counts() {
    let sql = "WITH cte1 AS (SELECT arr, id, unused_field FROM t1) \
               SELECT id FROM cte1, UNNEST(arr) AS element";
    let tree = parse_sql(sql);
    let diags = check(&tree, sql).expect("unused columns expected");
    assert_eq!(messages(&diags), vec!["Unused column: unused_field".to_string()]);
}
