//! The CTE collector: fires once per CTE in document order and registers
//! its output columns, resolved against that CTE's own FROM clause.

use vstd::prelude::*;

verus! {

use crate::context::{AnalysisContext, spec_lookup_columns};
use crate::graph::CteNodeView;
use crate::models::ColumnView;
use crate::models::{ColumnInfo, clone_opt_string, clone_string};
use crate::text::str_eq;
use crate::tree::SqlTree;
use crate::utils::{AliasMap, extract_column_name, find_original_table, spec_base_name,
    spec_find_original_table};
use crate::visitors::{ctes_grow, extract_table, get_cte_name, node_text, spec_cte_name,
    spec_extract_table, spec_first_named, spec_first_of_kind, spec_last_named, view_strings};


/// The column one select expression defines, per the collector's rules: the
/// alias is the output name when present (tracing the pre-alias source),
/// otherwise the expression text's base name; the owning table is resolved
/// against the current FROM scope; positions become 1-based.
pub open spec fn spec_expr_column(
    tree: SqlTree,
    c: int,
    tables: Seq<Seq<char>>,
    amap: Seq<(Seq<char>, Seq<char>)>,
    ctes: Seq<(Seq<char>, Seq<ColumnView>)>,
) -> ColumnView {
    let parts: (Seq<char>, Seq<char>, Option<Seq<char>>) = match spec_first_of_kind(
        tree.nodes@,
        tree.nodes@[c].children@,
        "as_alias"@,
    ) {
        Some(a) => {
            let alias_name = match spec_last_named(tree.nodes@, tree.nodes@[a as int].children@) {
                Some(x) => tree.nodes@[x as int].text@,
                None => Seq::empty(),
            };
            let original = match spec_first_named(tree.nodes@, tree.nodes@[c].children@) {
                Some(f) => tree.nodes@[f as int].text@,
                None => alias_name,
            };
            (alias_name, original, Some(spec_base_name(original)))
        },
        None => {
            let expr = tree.nodes@[c].text@;
            let cn = spec_base_name(expr);
            (
                cn,
                expr,
                if cn != expr {
                    Some(cn)
                } else {
                    None
                },
            )
        },
    };
    ColumnView {
        table_name: Some(spec_find_original_table(parts.1, tables, amap, ctes)),
        column_name: parts.0,
        original_column_name: parts.2,
        row: tree.nodes@[c].row + 1,
        col: tree.nodes@[c].col + 1,
    }
}

/// One known column re-homed by star expansion to the star's position.
pub open spec fn spec_star_column(t: Seq<char>, cv: ColumnView, row: int, col: int) -> ColumnView {
    ColumnView {
        table_name: Some(t),
        column_name: cv.column_name,
        original_column_name: cv.original_column_name,
        row: row + 1,
        col: col + 1,
    }
}

/// Star expansion over the listed tables from index `ti` on: every known
/// column of every table, in order; tables with no known schema contribute
/// nothing.
pub open spec fn spec_star_columns(
    tables: Seq<Seq<char>>,
    ti: int,
    ctes: Seq<(Seq<char>, Seq<ColumnView>)>,
    row: int,
    col: int,
) -> Seq<ColumnView>
    decreases tables.len() - ti,
    when 0 <= ti
{
    if ti >= tables.len() {
        Seq::empty()
    } else {
        let here: Seq<ColumnView> = match spec_lookup_columns(ctes, tables[ti]) {
            Some(cols) => cols.map_values(|cv: ColumnView| spec_star_column(tables[ti], cv, row, col)),
            None => Seq::empty(),
        };
        here + spec_star_columns(tables, ti + 1, ctes, row, col)
    }
}

/// The columns a select list defines, child by child: one column per select
/// expression, the star expansion per star.
pub open spec fn spec_list_columns(
    tree: SqlTree,
    i: int,
    k: int,
    tables: Seq<Seq<char>>,
    amap: Seq<(Seq<char>, Seq<char>)>,
    ctes: Seq<(Seq<char>, Seq<ColumnView>)>,
) -> Seq<ColumnView>
    decreases tree.nodes@[i].children@.len() - k,
    when 0 <= k
{
    if k >= tree.nodes@[i].children@.len() {
        Seq::empty()
    } else {
        let c = tree.nodes@[i].children@[k];
        let here: Seq<ColumnView> = if tree.nodes@[c as int].kind@ == "select_expression"@ {
            seq![spec_expr_column(tree, c as int, tables, amap, ctes)]
        } else if tree.nodes@[c as int].kind@ == "select_all"@ {
            spec_star_columns(tables, 0, ctes, tree.nodes@[c as int].row as int, tree.nodes@[c as int].col as int)
        } else {
            Seq::empty()
        };
        here + spec_list_columns(tree, i, k + 1, tables, amap, ctes)
    }
}

/// The columns the collector gathers under a node: a select list yields its
/// own columns against its FROM scope; any other node concatenates its named
/// children's collections.
pub open spec fn spec_collect_columns(
    tree: SqlTree,
    i: int,
    ctes: Seq<(Seq<char>, Seq<ColumnView>)>,
) -> Seq<ColumnView>
    decreases tree.nodes@.len() - i, tree.nodes@[i].children@.len() + 1,
    when tree.wf() && 0 <= i < tree.nodes@.len()
{
    if tree.nodes@[i].kind@ == "select_list"@ {
        let scope = spec_extract_table(tree, tree.spec_next_named_sibling(i as usize));
        spec_list_columns(tree, i, 0, scope.0, scope.1, ctes)
    } else {
        spec_collect_children(tree, i, 0, ctes)
    }
}

pub open spec fn spec_collect_children(
    tree: SqlTree,
    i: int,
    k: int,
    ctes: Seq<(Seq<char>, Seq<ColumnView>)>,
) -> Seq<ColumnView>
    decreases tree.nodes@.len() - i, tree.nodes@[i].children@.len() - k,
    when tree.wf() && 0 <= i < tree.nodes@.len() && 0 <= k
{
    if k >= tree.nodes@[i].children@.len() {
        Seq::empty()
    } else {
        let c = tree.nodes@[i].children@[k];
        let here: Seq<ColumnView> = if tree.nodes@[c as int].named {
            spec_collect_columns(tree, c as int, ctes)
        } else {
            Seq::empty()
        };
        here + spec_collect_children(tree, i, k + 1, ctes)
    }
}

/// Column list of one select list: each select expression yields one column
/// (the alias when aliased, tracing its pre-alias source), and a star
/// expands, at the star's position, into every already-known column of every
/// table in the FROM clause; the result is exactly the collector's
/// specification of the subtree.
fn extract_columns<'a>(tree: &SqlTree, i: usize, context: &AnalysisContext<'a>) -> (res: Vec<
    ColumnInfo,
>)
    requires
        tree.wf(),
        i < tree.nodes@.len(),
        context.wf(),
    ensures
        res@.map_values(|c: ColumnInfo| c@) == spec_collect_columns(
            *tree,
            i as int,
            context.cte_columns@,
        ),
    decreases tree.nodes@.len() - i,
{
    let ghost ctes = context.cte_columns@;
    let mut columns: Vec<ColumnInfo> = Vec::new();
    if tree.kind_is(i, "select_list") {
        let from = tree.next_named_sibling(i);
        let (tables, alias_map) = extract_table(tree, from);
        let ghost scope = spec_extract_table(*tree, tree.spec_next_named_sibling(i));
        proof {
            assert(view_strings(tables@) == scope.0);
            assert(alias_map@ == scope.1);
        }
        let children = &tree.nodes[i].children;
        let n = children.len();
        let mut k: usize = 0;
        while k < n
            invariant
                tree.wf(),
                i < tree.nodes@.len(),
                context.wf(),
                ctes == context.cte_columns@,
                children@ == tree.nodes@[i as int].children@,
                n == children@.len(),
                view_strings(tables@) == scope.0,
                alias_map@ == scope.1,
                0 <= k <= n,
                spec_list_columns(*tree, i as int, 0, scope.0, scope.1, ctes)
                    =~= columns@.map_values(|c: ColumnInfo| c@) + spec_list_columns(
                    *tree,
                    i as int,
                    k as int,
                    scope.0,
                    scope.1,
                    ctes,
                ),
            decreases n - k,
        {
            let c = children[k];
            let ghost here: Seq<ColumnView> = if tree.nodes@[c as int].kind@
                == "select_expression"@ {
                seq![spec_expr_column(*tree, c as int, scope.0, scope.1, ctes)]
            } else if tree.nodes@[c as int].kind@ == "select_all"@ {
                spec_star_columns(
                    scope.0,
                    0,
                    ctes,
                    tree.nodes@[c as int].row as int,
                    tree.nodes@[c as int].col as int,
                )
            } else {
                Seq::empty()
            };
            proof {
                assert(spec_list_columns(*tree, i as int, k as int, scope.0, scope.1, ctes)
                    == here + spec_list_columns(*tree, i as int, k + 1, scope.0, scope.1, ctes));
            }
            if tree.kind_is(c, "select_expression") {
                let column_info = extract_column_info_from_select_expression(
                    tree,
                    c,
                    &tables,
                    &alias_map,
                    context,
                );
                columns.push(column_info);
            } else if tree.kind_is(c, "select_all") {
                let mut expanded = expand_asterisk(
                    tree.nodes[c].row,
                    tree.nodes[c].col,
                    &tables,
                    context,
                );
                proof {
                    assert(expanded@.map_values(|cc: ColumnInfo| cc@) == here);
                }
                columns.append(&mut expanded);
            }
            proof {
                assert(spec_list_columns(*tree, i as int, 0, scope.0, scope.1, ctes)
                    =~= columns@.map_values(|cc: ColumnInfo| cc@) + spec_list_columns(
                    *tree,
                    i as int,
                    k + 1,
                    scope.0,
                    scope.1,
                    ctes,
                ));
            }
            k = k + 1;
        }
        proof {
            assert(spec_list_columns(*tree, i as int, n as int, scope.0, scope.1, ctes) =~= Seq::<
                ColumnView,
            >::empty());
            assert(columns@.map_values(|c: ColumnInfo| c@) =~= spec_collect_columns(
                *tree,
                i as int,
                ctes,
            ));
        }
        return columns;
    }
    let children = &tree.nodes[i].children;
    let n = children.len();
    let mut k: usize = 0;
    while k < n
        invariant
            tree.wf(),
            i < tree.nodes@.len(),
            context.wf(),
            ctes == context.cte_columns@,
            tree.nodes@[i as int].kind@ != "select_list"@,
            children@ == tree.nodes@[i as int].children@,
            n == children@.len(),
            0 <= k <= n,
            spec_collect_children(*tree, i as int, 0, ctes) =~= columns@.map_values(
                |c: ColumnInfo| c@,
            ) + spec_collect_children(*tree, i as int, k as int, ctes),
        decreases n - k,
    {
        let c = children[k];
        proof {
            assert(spec_collect_children(*tree, i as int, k as int, ctes)
                == (if tree.nodes@[c as int].named {
                spec_collect_columns(*tree, c as int, ctes)
            } else {
                Seq::<ColumnView>::empty()
            }) + spec_collect_children(*tree, i as int, k + 1, ctes));
        }
        if tree.nodes[c].named {
            let mut nested = extract_columns(tree, c, context);
            columns.append(&mut nested);
        }
        proof {
            assert(spec_collect_children(*tree, i as int, 0, ctes) =~= columns@.map_values(
                |cc: ColumnInfo| cc@,
            ) + spec_collect_children(*tree, i as int, k + 1, ctes));
        }
        k = k + 1;
    }
    proof {
        assert(spec_collect_children(*tree, i as int, n as int, ctes) =~= Seq::<
            ColumnView,
        >::empty());
        assert(columns@.map_values(|c: ColumnInfo| c@) =~= spec_collect_columns(
            *tree,
            i as int,
            ctes,
        ));
    }
    columns
}

/// One column from a select expression: output name, pre-alias source, and
/// the owning table resolved against the current FROM clause.
fn extract_column_info_from_select_expression<'a>(
    tree: &SqlTree,
    select_expr: usize,
    tables: &Vec<String>,
    alias_map: &AliasMap,
    context: &AnalysisContext<'a>,
) -> (res: ColumnInfo)
    requires
        tree.wf(),
        select_expr < tree.nodes@.len(),
        context.wf(),
    ensures
        res@ == spec_expr_column(
            *tree,
            select_expr as int,
            view_strings(tables@),
            alias_map@,
            context.cte_columns@,
        ),
{
    let children = &tree.nodes[select_expr].children;
    let n = children.len();
    let mut as_alias: Option<usize> = None;
    let mut k: usize = 0;
    proof {
        assert(children@.subrange(0, n as int) =~= children@);
    }
    while k < n && as_alias.is_none()
        invariant
            tree.wf(),
            select_expr < tree.nodes@.len(),
            children@ == tree.nodes@[select_expr as int].children@,
            n == children@.len(),
            0 <= k <= n,
            as_alias is None ==> spec_first_of_kind(tree.nodes@, children@, "as_alias"@)
                == spec_first_of_kind(
                tree.nodes@,
                children@.subrange(k as int, n as int),
                "as_alias"@,
            ),
            as_alias matches Some(a) ==> a < tree.nodes@.len() && spec_first_of_kind(
                tree.nodes@,
                children@,
                "as_alias"@,
            ) == Some(a),
        decreases n - k,
    {
        let c = children[k];
        proof {
            assert(children@.subrange(k as int, n as int)[0] == children@[k as int]);
            assert(children@.subrange(k as int, n as int).subrange(
                1,
                (n - k) as int,
            ) =~= children@.subrange(k + 1, n as int));
        }
        if tree.kind_is(c, "as_alias") {
            as_alias = Some(c);
        }
        k = k + 1;
    }
    proof {
        if as_alias is None {
            assert(children@.subrange(n as int, n as int) =~= Seq::<usize>::empty());
        }
    }
    let (column, original_column, source_column) = match as_alias {
        Some(alias_node) => extract_alias_info(tree, alias_node, select_expr),
        None => extract_column_name_without_alias(tree, select_expr),
    };
    let table = find_original_table(
        original_column.as_str(),
        tables,
        alias_map,
        &context.cte_columns,
    );
    ColumnInfo::new(
        Some(table),
        column,
        source_column,
        tree.nodes[select_expr].row,
        tree.nodes[select_expr].col,
    )
}

/// Output name of an unaliased select expression: the base name of its text,
/// with the full text kept for resolution; a qualified spelling records the
/// base name as the source.
fn extract_column_name_without_alias(tree: &SqlTree, select_expr: usize) -> (res: (
    String,
    String,
    Option<String>,
))
    requires
        tree.wf(),
        select_expr < tree.nodes@.len(),
    ensures
        res.1@ == tree.nodes@[select_expr as int].text@,
        res.0@ == spec_base_name(res.1@),
        crate::models::view_opt_string(res.2) == (if res.0@ != res.1@ {
            Some(res.0@)
        } else {
            None::<Seq<char>>
        }),
{
    let expr = node_text(tree, select_expr);
    let column_name = extract_column_name(expr.as_str()).to_owned();
    let source: Option<String> = if !str_eq(column_name.as_str(), expr.as_str()) {
        Some(clone_string(&column_name))
    } else {
        None
    };
    (column_name, expr, source)
}

/// Alias name, the aliased expression, and the base name of that expression
/// as the pre-alias source.
fn extract_alias_info(tree: &SqlTree, alias_node: usize, select_expr: usize) -> (res: (
    String,
    String,
    Option<String>,
))
    requires
        tree.wf(),
        alias_node < tree.nodes@.len(),
        select_expr < tree.nodes@.len(),
    ensures
        ({
            let an: Seq<char> = match spec_last_named(
                tree.nodes@,
                tree.nodes@[alias_node as int].children@,
            ) {
                Some(x) => tree.nodes@[x as int].text@,
                None => Seq::empty(),
            };
            let orig: Seq<char> = match spec_first_named(
                tree.nodes@,
                tree.nodes@[select_expr as int].children@,
            ) {
                Some(f) => tree.nodes@[f as int].text@,
                None => an,
            };
            &&& res.0@ == an
            &&& res.1@ == orig
            &&& crate::models::view_opt_string(res.2) == Some(spec_base_name(orig))
        }),
{
    let inner = &tree.nodes[alias_node].children;
    let m = inner.len();
    let mut last_named: Option<usize> = None;
    let mut k: usize = 0;
    proof {
        assert(inner@.subrange(0, 0) =~= Seq::<usize>::empty());
    }
    while k < m
        invariant
            tree.wf(),
            alias_node < tree.nodes@.len(),
            inner@ == tree.nodes@[alias_node as int].children@,
            m == inner@.len(),
            0 <= k <= m,
            last_named matches Some(a) ==> a < tree.nodes@.len(),
            last_named == spec_last_named(tree.nodes@, inner@.subrange(0, k as int)),
        decreases m - k,
    {
        let a = inner[k];
        proof {
            assert(inner@.subrange(0, k + 1).last() == inner@[k as int]);
            assert(inner@.subrange(0, k + 1).drop_last() =~= inner@.subrange(0, k as int));
        }
        if tree.nodes[a].named {
            last_named = Some(a);
        }
        k = k + 1;
    }
    proof {
        assert(inner@.subrange(0, m as int) =~= inner@);
    }
    let alias_name: String = match last_named {
        Some(a) => node_text(tree, a),
        None => String::new(),
    };
    let outer = &tree.nodes[select_expr].children;
    let n = outer.len();
    let mut first_named: Option<usize> = None;
    let mut k2: usize = 0;
    proof {
        assert(outer@.subrange(0, n as int) =~= outer@);
    }
    while k2 < n && first_named.is_none()
        invariant
            tree.wf(),
            select_expr < tree.nodes@.len(),
            outer@ == tree.nodes@[select_expr as int].children@,
            n == outer@.len(),
            0 <= k2 <= n,
            first_named is None ==> spec_first_named(tree.nodes@, outer@) == spec_first_named(
                tree.nodes@,
                outer@.subrange(k2 as int, n as int),
            ),
            first_named matches Some(a) ==> a < tree.nodes@.len() && spec_first_named(
                tree.nodes@,
                outer@,
            ) == Some(a),
        decreases n - k2,
    {
        let a = outer[k2];
        proof {
            assert(outer@.subrange(k2 as int, n as int)[0] == outer@[k2 as int]);
            assert(outer@.subrange(k2 as int, n as int).subrange(
                1,
                (n - k2) as int,
            ) =~= outer@.subrange(k2 + 1, n as int));
        }
        if tree.nodes[a].named {
            first_named = Some(a);
        }
        k2 = k2 + 1;
    }
    proof {
        if first_named is None {
            assert(outer@.subrange(n as int, n as int) =~= Seq::<usize>::empty());
        }
    }
    let original: String = match first_named {
        Some(a) => node_text(tree, a),
        None => clone_string(&alias_name),
    };
    let source = extract_column_name(original.as_str()).to_owned();
    (alias_name, original, Some(source))
}

/// The star expanded: every known column of every listed table, re-homed to
/// that table at the star's position.
fn expand_asterisk<'a>(
    row: usize,
    col: usize,
    tables: &Vec<String>,
    context: &AnalysisContext<'a>,
) -> (res: Vec<ColumnInfo>)
    requires
        row < usize::MAX,
        col < usize::MAX,
        context.wf(),
    ensures
        res@.map_values(|c: ColumnInfo| c@) == spec_star_columns(
            view_strings(tables@),
            0,
            context.cte_columns@,
            row as int,
            col as int,
        ),
{
    let ghost tviews = view_strings(tables@);
    let ghost ctes = context.cte_columns@;
    let mut expanded: Vec<ColumnInfo> = Vec::new();
    let n = tables.len();
    let mut t: usize = 0;
    while t < n
        invariant
            n == tables@.len(),
            tviews == view_strings(tables@),
            ctes == context.cte_columns@,
            context.wf(),
            row < usize::MAX,
            col < usize::MAX,
            0 <= t <= n,
            spec_star_columns(tviews, 0, ctes, row as int, col as int) =~= expanded@.map_values(
                |c: ColumnInfo| c@,
            ) + spec_star_columns(tviews, t as int, ctes, row as int, col as int),
        decreases n - t,
    {
        match context.get_cte_columns(tables[t].as_str()) {
            Some(cols) => {
                let ghost colviews = cols@.map_values(|c: ColumnInfo| c@);
                let ghost here = colviews.map_values(
                    |cv: ColumnView| spec_star_column(tviews[t as int], cv, row as int, col as int),
                );
                let m = cols.len();
                let mut k: usize = 0;
                while k < m
                    invariant
                        m == cols@.len(),
                        n == tables@.len(),
                        tviews == view_strings(tables@),
                        colviews == cols@.map_values(|c: ColumnInfo| c@),
                        here == colviews.map_values(
                            |cv: ColumnView| spec_star_column(
                                tviews[t as int],
                                cv,
                                row as int,
                                col as int,
                            ),
                        ),
                        0 <= t < n,
                        row < usize::MAX,
                        col < usize::MAX,
                        0 <= k <= m,
                        spec_star_columns(tviews, 0, ctes, row as int, col as int)
                            =~= expanded@.map_values(|c: ColumnInfo| c@) + here.subrange(
                            k as int,
                            m as int,
                        ) + spec_star_columns(tviews, t + 1, ctes, row as int, col as int),
                    decreases m - k,
                {
                    let column = ColumnInfo::new(
                        Some(clone_string(&tables[t])),
                        clone_string(&cols[k].column_name),
                        clone_opt_string(&cols[k].original_column_name),
                        row,
                        col,
                    );
                    proof {
                        assert(column@ == here[k as int]);
                        assert(here.subrange(k as int, m as int).subrange(
                            1,
                            (m - k) as int,
                        ) =~= here.subrange(k + 1, m as int));
                    }
                    expanded.push(column);
                    proof {
                        assert(spec_star_columns(tviews, 0, ctes, row as int, col as int)
                            =~= expanded@.map_values(|c: ColumnInfo| c@) + here.subrange(
                            k + 1,
                            m as int,
                        ) + spec_star_columns(tviews, t + 1, ctes, row as int, col as int));
                    }
                    k = k + 1;
                }
                proof {
                    assert(here.subrange(m as int, m as int) =~= Seq::<ColumnView>::empty());
                    assert(spec_star_columns(tviews, 0, ctes, row as int, col as int)
                        =~= expanded@.map_values(|c: ColumnInfo| c@) + spec_star_columns(
                        tviews,
                        t + 1,
                        ctes,
                        row as int,
                        col as int,
                    ));
                }
            },
            None => {},
        }
        t = t + 1;
    }
    proof {
        assert(spec_star_columns(tviews, n as int, ctes, row as int, col as int) =~= Seq::<
            ColumnView,
        >::empty());
        assert(expanded@.map_values(|c: ColumnInfo| c@) =~= spec_star_columns(
            tviews,
            0,
            ctes,
            row as int,
            col as int,
        ));
    }
    expanded
}


/// First named child that is a `select` or a `query_expr`.
pub open spec fn spec_cte_query(tree: SqlTree, children: Seq<usize>) -> Option<usize>
    decreases children.len(),
{
    if children.len() == 0 {
        None
    } else {
        let c = children[0];
        if tree.nodes@[c as int].named && (tree.nodes@[c as int].kind@ == "select"@
            || tree.nodes@[c as int].kind@ == "query_expr"@) {
            Some(c)
        } else {
            spec_cte_query(tree, children.subrange(1, children.len() as int))
        }
    }
}

/// The select list that defines a CTE's columns, if discoverable: the first
/// named `select`/`query_expr` child, through the `query_expr` to its
/// `select`, down to the `select_list`.
pub open spec fn spec_cte_select_list(tree: SqlTree, i: int) -> Option<usize> {
    match spec_cte_query(tree, tree.nodes@[i].children@) {
        Some(q) => {
            let sel = if tree.nodes@[q as int].kind@ == "query_expr"@ {
                tree.spec_named_child_of_kind(q as int, "select"@)
            } else {
                Some(q)
            };
            match sel {
                Some(se) => tree.spec_named_child_of_kind(se as int, "select_list"@),
                None => None,
            }
        },
        None => None,
    }
}

/// Appending an entry leaves earlier lookups alone and answers for the new
/// name.
proof fn lemma_lookup_push(
    s: Seq<(Seq<char>, Seq<ColumnView>)>,
    e: (Seq<char>, Seq<ColumnView>),
    n: Seq<char>,
)
    ensures
        spec_lookup_columns(s.push(e), n) == if spec_lookup_columns(s, n) is Some {
            spec_lookup_columns(s, n)
        } else if e.0 == n {
            Some(e.1)
        } else {
            None
        },
    decreases s.len(),
{
    let m = s.push(e);
    assert(m.len() == s.len() + 1);
    if s.len() == 0 {
        assert(m[0] == e);
        if e.0 == n {
            assert(spec_lookup_columns(m, n) == Some(e.1));
        } else {
            assert(m.subrange(1, m.len() as int) =~= Seq::<(Seq<char>, Seq<ColumnView>)>::empty());
            assert(spec_lookup_columns(Seq::<(Seq<char>, Seq<ColumnView>)>::empty(), n) is None);
            assert(spec_lookup_columns(m, n) is None);
        }
    } else {
        assert(m[0] == s[0]);
        if s[0].0 == n {
            assert(spec_lookup_columns(m, n) == Some(s[0].1));
            assert(spec_lookup_columns(s, n) == Some(s[0].1));
        } else {
            let st = s.subrange(1, s.len() as int);
            assert(m.subrange(1, m.len() as int) =~= st.push(e));
            lemma_lookup_push(st, e, n);
            assert(spec_lookup_columns(s, n) == spec_lookup_columns(st, n));
            assert(spec_lookup_columns(m, n) == spec_lookup_columns(st.push(e), n));
        }
    }
}


/// Star-expanded columns sit at the star's 1-based position.
proof fn lemma_star_columns_positions(
    tables: Seq<Seq<char>>,
    ti: int,
    ctes: Seq<(Seq<char>, Seq<ColumnView>)>,
    row: int,
    col: int,
)
    requires
        0 <= ti,
        row >= 0,
        col >= 0,
    ensures
        forall|j: int|
            0 <= j < spec_star_columns(tables, ti, ctes, row, col).len()
                ==> (#[trigger] spec_star_columns(tables, ti, ctes, row, col)[j]).row >= 1
                && spec_star_columns(tables, ti, ctes, row, col)[j].col >= 1,
    decreases tables.len() - ti,
{
    if ti < tables.len() {
        lemma_star_columns_positions(tables, ti + 1, ctes, row, col);
    }
}

/// The columns a select list defines sit at 1-based positions.
proof fn lemma_list_columns_positions(
    tree: SqlTree,
    i: int,
    k: int,
    tables: Seq<Seq<char>>,
    amap: Seq<(Seq<char>, Seq<char>)>,
    ctes: Seq<(Seq<char>, Seq<ColumnView>)>,
)
    requires
        tree.wf(),
        0 <= i < tree.nodes@.len(),
        0 <= k,
    ensures
        forall|j: int|
            0 <= j < spec_list_columns(tree, i, k, tables, amap, ctes).len()
                ==> (#[trigger] spec_list_columns(tree, i, k, tables, amap, ctes)[j]).row >= 1
                && spec_list_columns(tree, i, k, tables, amap, ctes)[j].col >= 1,
    decreases tree.nodes@[i].children@.len() - k,
{
    if k < tree.nodes@[i].children@.len() {
        let c = tree.nodes@[i].children@[k];
        if tree.nodes@[c as int].kind@ == "select_all"@ {
            lemma_star_columns_positions(
                tables,
                0,
                ctes,
                tree.nodes@[c as int].row as int,
                tree.nodes@[c as int].col as int,
            );
        }
        lemma_list_columns_positions(tree, i, k + 1, tables, amap, ctes);
    }
}

/// Every collected column sits at a 1-based position.
pub proof fn lemma_collect_columns_positions(
    tree: SqlTree,
    i: int,
    ctes: Seq<(Seq<char>, Seq<ColumnView>)>,
)
    requires
        tree.wf(),
        0 <= i < tree.nodes@.len(),
    ensures
        forall|j: int|
            0 <= j < spec_collect_columns(tree, i, ctes).len()
                ==> (#[trigger] spec_collect_columns(tree, i, ctes)[j]).row >= 1
                && spec_collect_columns(tree, i, ctes)[j].col >= 1,
    decreases tree.nodes@.len() - i, tree.nodes@[i].children@.len() + 1,
{
    if tree.nodes@[i].kind@ == "select_list"@ {
        let scope = spec_extract_table(tree, tree.spec_next_named_sibling(i as usize));
        lemma_list_columns_positions(tree, i, 0, scope.0, scope.1, ctes);
    } else {
        lemma_collect_children_positions(tree, i, 0, ctes);
    }
}

proof fn lemma_collect_children_positions(
    tree: SqlTree,
    i: int,
    k: int,
    ctes: Seq<(Seq<char>, Seq<ColumnView>)>,
)
    requires
        tree.wf(),
        0 <= i < tree.nodes@.len(),
        0 <= k,
    ensures
        forall|j: int|
            0 <= j < spec_collect_children(tree, i, k, ctes).len()
                ==> (#[trigger] spec_collect_children(tree, i, k, ctes)[j]).row >= 1
                && spec_collect_children(tree, i, k, ctes)[j].col >= 1,
    decreases tree.nodes@.len() - i, tree.nodes@[i].children@.len() - k,
{
    if k < tree.nodes@[i].children@.len() {
        let c = tree.nodes@[i].children@[k];
        if tree.nodes@[c as int].named {
            lemma_collect_columns_positions(tree, c as int, ctes);
        }
        lemma_collect_children_positions(tree, i, k + 1, ctes);
    }
}

/// Visitor collecting CTE definitions: fires on each `cte` node in document
/// order, extracts the defined column list against that CTE's own FROM
/// clause, and registers it, the first definition of a name winning. A `cte`
/// node with a discoverable name and select list is known afterwards: either
/// its first definition already stood, or exactly one entry with that name
/// and an empty used set is appended.
pub struct CteVisitor;

impl CteVisitor {
    pub fn visit<'a>(&self, tree: &SqlTree, i: usize, context: &mut AnalysisContext<'a>)
        requires
            tree.wf(),
            i < tree.nodes@.len(),
            old(context).wf(),
        ensures
            final(context).wf(),
            ctes_grow(*old(context), *final(context)),
            tree.nodes@[i as int].kind@ != "cte"@ ==> *final(context) == *old(context),
            (final(context).graph@ == old(context).graph@ && final(context).cte_columns@ == old(
                context,
            ).cte_columns@) || (final(context).graph@ == old(context).graph@.push(
                final(context).graph@.last(),
            ) && final(context).graph@.last().1.used == Seq::<Seq<char>>::empty()
                && spec_cte_name(*tree, i as int) == Some(final(context).graph@.last().0)
                && (spec_cte_select_list(*tree, i as int) matches Some(sl) && sl
                < tree.nodes@.len() && final(context).graph@.last().1.columns
                == spec_collect_columns(*tree, sl as int, old(context).cte_columns@))),
            tree.nodes@[i as int].kind@ == "cte"@ && (spec_cte_name(*tree, i as int) matches Some(
                nm,
            )) && spec_cte_select_list(*tree, i as int) is Some ==> spec_lookup_columns(
                final(context).cte_columns@,
                spec_cte_name(*tree, i as int).unwrap(),
            ) is Some,
            tree.nodes@[i as int].kind@ == "cte"@ && spec_cte_name(*tree, i as int) is None
                ==> *final(context) == *old(context),
            tree.nodes@[i as int].kind@ == "cte"@ && spec_cte_select_list(*tree, i as int)
                is None ==> *final(context) == *old(context),
            ({
                &&& tree.nodes@[i as int].kind@ == "cte"@
                &&& spec_cte_name(*tree, i as int) matches Some(nm)
                &&& spec_lookup_columns(old(context).cte_columns@, nm) is Some
            }) ==> final(context).graph@ == old(context).graph@ && final(context).cte_columns@
                == old(context).cte_columns@,
            ({
                &&& tree.nodes@[i as int].kind@ == "cte"@
                &&& spec_cte_name(*tree, i as int) matches Some(nm)
                &&& spec_cte_select_list(*tree, i as int) matches Some(sl)
                &&& spec_lookup_columns(old(context).cte_columns@, nm) is None
            }) ==> final(context).graph@ == old(context).graph@.push(
                (
                    spec_cte_name(*tree, i as int).unwrap(),
                    CteNodeView {
                        columns: spec_collect_columns(
                            *tree,
                            spec_cte_select_list(*tree, i as int).unwrap() as int,
                            old(context).cte_columns@,
                        ),
                        used: Seq::empty(),
                    },
                ),
            ),
    {
        if !tree.kind_is(i, "cte") {
            return;
        }
        let cte_name = match get_cte_name(tree, i) {
            Some(name) => name,
            None => {
                return;
            },
        };
        let children = &tree.nodes[i].children;
        let n = children.len();
        let mut query: Option<usize> = None;
        let mut k: usize = 0;
        proof {
            assert(children@.subrange(0, n as int) =~= children@);
        }
        while k < n && query.is_none()
            invariant
                tree.wf(),
                i < tree.nodes@.len(),
                children@ == tree.nodes@[i as int].children@,
                n == children@.len(),
                0 <= k <= n,
                query is None ==> spec_cte_query(*tree, children@) == spec_cte_query(
                    *tree,
                    children@.subrange(k as int, n as int),
                ),
                query matches Some(q) ==> q < tree.nodes@.len() && spec_cte_query(*tree, children@)
                    == Some(q),
            decreases n - k,
        {
            let c = children[k];
            proof {
                assert(children@.subrange(k as int, n as int)[0] == children@[k as int]);
                assert(children@.subrange(k as int, n as int).subrange(
                    1,
                    (n - k) as int,
                ) =~= children@.subrange(k + 1, n as int));
            }
            if tree.nodes[c].named && (tree.kind_is(c, "select") || tree.kind_is(c, "query_expr")) {
                query = Some(c);
            }
            k = k + 1;
        }
        proof {
            if query is None {
                assert(children@.subrange(n as int, n as int) =~= Seq::<usize>::empty());
            }
        }
        let query = match query {
            Some(q) => q,
            None => {
                return;
            },
        };
        let select_node = if tree.kind_is(query, "query_expr") {
            tree.named_child_of_kind(query, "select")
        } else {
            Some(query)
        };
        let select_node = match select_node {
            Some(s) => s,
            None => {
                return;
            },
        };
        let select_list = match tree.named_child_of_kind(select_node, "select_list") {
            Some(s) => s,
            None => {
                return;
            },
        };
        let ghost pre = *context;
        proof {
            assert(spec_cte_select_list(*tree, i as int) == Some(select_list));
        }
        let columns = extract_columns(tree, select_list, context);
        context.add_cte(cte_name, columns);
        proof {
            crate::context::lemma_lookup_agrees(pre.graph@, pre.cte_columns@, cte_name@);
            match crate::graph::spec_find_cte(pre.graph@, cte_name@) {
                Some(_) => {},
                None => {
                    lemma_lookup_push(
                        pre.cte_columns@,
                        context.cte_columns@.last(),
                        cte_name@,
                    );
                },
            }
        }
    }
}

} // verus!
