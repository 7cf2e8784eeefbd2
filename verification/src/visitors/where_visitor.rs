//! The WHERE, JOIN-condition and GROUP BY visitor, with the UNNEST scan of
//! FROM clauses.

use vstd::prelude::*;

verus! {

use vstd::string::StrSliceExecFns;
use crate::context::AnalysisContext;
use crate::graph::spec_find_cte;
use crate::models::{clone_string, ColumnView};
use crate::text::str_contains_char;
use crate::tree::SqlTree;
use crate::utils::{AliasMap, extract_column_name, extract_table_name, find_original_table,
    spec_base_name, spec_find_original_table, spec_first_segment, spec_lookup_alias};
use crate::visitors::{extract_table, is_function_name, is_marked, lemma_add_contains,
    lemma_mark_step, lemma_pointwise_find, marks_grow, node_text, spec_extract_table,
    spec_is_function_name, view_strings};

/// The table a condition or UNNEST reference resolves to: a qualified
/// reference takes its alias-resolved first segment outright, an unqualified
/// one goes through the FROM-clause scan.
pub open spec fn spec_cond_table(
    text: Seq<char>,
    tables: Seq<Seq<char>>,
    amap: Seq<(Seq<char>, Seq<char>)>,
    ctes: Seq<(Seq<char>, Seq<ColumnView>)>,
) -> Seq<char> {
    if text.contains('.') {
        match spec_lookup_alias(amap, spec_first_segment(text)) {
            Some(t) => t,
            None => spec_first_segment(text),
        }
    } else {
        spec_find_original_table(text, tables, amap, ctes)
    }
}

/// The `(table, base name)` pair one condition reference yields, when the
/// resolution yields a table at all.
pub open spec fn spec_cond_pair(
    tree: SqlTree,
    i: int,
    tables: Seq<Seq<char>>,
    amap: Seq<(Seq<char>, Seq<char>)>,
    ctes: Seq<(Seq<char>, Seq<ColumnView>)>,
) -> Option<(Seq<char>, Seq<char>)> {
    let text = tree.nodes@[i].text@;
    let t = spec_cond_table(text, tables, amap, ctes);
    if t.len() > 0 {
        Some((t, spec_base_name(text)))
    } else {
        None
    }
}

/// Every resolvable condition reference under node `i`: `field` and
/// `identifier` nodes that are not function names, the walk never stopping.
pub open spec fn spec_cond_refs_under(
    tree: SqlTree,
    i: int,
    tables: Seq<Seq<char>>,
    amap: Seq<(Seq<char>, Seq<char>)>,
    ctes: Seq<(Seq<char>, Seq<ColumnView>)>,
) -> Seq<(Seq<char>, Seq<char>)>
    decreases tree.nodes@.len() - i, tree.nodes@[i].children@.len() + 1,
    when tree.wf() && 0 <= i < tree.nodes@.len()
{
    let own: Seq<(Seq<char>, Seq<char>)> = if (tree.nodes@[i].kind@ == "field"@
        || tree.nodes@[i].kind@ == "identifier"@) && !spec_is_function_name(tree, i as usize) {
        match spec_cond_pair(tree, i, tables, amap, ctes) {
            Some(p) => seq![p],
            None => Seq::empty(),
        }
    } else {
        Seq::empty()
    };
    own + spec_cond_refs_children(tree, i, 0, tables, amap, ctes)
}

pub open spec fn spec_cond_refs_children(
    tree: SqlTree,
    i: int,
    k: int,
    tables: Seq<Seq<char>>,
    amap: Seq<(Seq<char>, Seq<char>)>,
    ctes: Seq<(Seq<char>, Seq<ColumnView>)>,
) -> Seq<(Seq<char>, Seq<char>)>
    decreases tree.nodes@.len() - i, tree.nodes@[i].children@.len() - k,
    when tree.wf() && 0 <= i < tree.nodes@.len() && 0 <= k
{
    if k >= tree.nodes@[i].children@.len() {
        Seq::empty()
    } else {
        spec_cond_refs_under(tree, tree.nodes@[i].children@[k] as int, tables, amap, ctes)
            + spec_cond_refs_children(tree, i, k + 1, tables, amap, ctes)
    }
}

/// Every UNNEST argument reference under node `i`: `identifier` and `field`
/// nodes below an `unnest_operator` or `unnest_clause`.
pub open spec fn spec_unnest_refs_under(
    tree: SqlTree,
    i: int,
    inside: bool,
    tables: Seq<Seq<char>>,
    amap: Seq<(Seq<char>, Seq<char>)>,
    ctes: Seq<(Seq<char>, Seq<ColumnView>)>,
) -> Seq<(Seq<char>, Seq<char>)>
    decreases tree.nodes@.len() - i, tree.nodes@[i].children@.len() + 1,
    when tree.wf() && 0 <= i < tree.nodes@.len()
{
    let here = inside || tree.nodes@[i].kind@ == "unnest_operator"@ || tree.nodes@[i].kind@
        == "unnest_clause"@;
    let own: Seq<(Seq<char>, Seq<char>)> = if here && (tree.nodes@[i].kind@ == "identifier"@
        || tree.nodes@[i].kind@ == "field"@) {
        match spec_cond_pair(tree, i, tables, amap, ctes) {
            Some(p) => seq![p],
            None => Seq::empty(),
        }
    } else {
        Seq::empty()
    };
    own + spec_unnest_refs_children(tree, i, 0, here, tables, amap, ctes)
}

pub open spec fn spec_unnest_refs_children(
    tree: SqlTree,
    i: int,
    k: int,
    here: bool,
    tables: Seq<Seq<char>>,
    amap: Seq<(Seq<char>, Seq<char>)>,
    ctes: Seq<(Seq<char>, Seq<ColumnView>)>,
) -> Seq<(Seq<char>, Seq<char>)>
    decreases tree.nodes@.len() - i, tree.nodes@[i].children@.len() - k,
    when tree.wf() && 0 <= i < tree.nodes@.len() && 0 <= k
{
    if k >= tree.nodes@[i].children@.len() {
        Seq::empty()
    } else {
        spec_unnest_refs_under(tree, tree.nodes@[i].children@[k] as int, here, tables, amap, ctes)
            + spec_unnest_refs_children(tree, i, k + 1, here, tables, amap, ctes)
    }
}

/// The FROM node of the SELECT enclosing a condition node: the `from_clause`
/// child of the nearest `select` ancestor that has one.
pub open spec fn spec_condition_from(tree: SqlTree, i: int) -> Option<usize>
    decreases i,
    when tree.wf() && 0 <= i < tree.nodes@.len()
{
    match tree.nodes@[i].parent {
        None => None,
        Some(p) => {
            if tree.nodes@[p as int].kind@ == "select"@ && tree.spec_named_child_of_kind(
                p as int,
                "from_clause"@,
            ) is Some {
                tree.spec_named_child_of_kind(p as int, "from_clause"@)
            } else {
                spec_condition_from(tree, p as int)
            }
        },
    }
}

/// The references a condition node resolves, against its enclosing SELECT's
/// FROM scope.
pub open spec fn spec_condition_refs<'a>(tree: SqlTree, i: int, pre: AnalysisContext<'a>) -> Seq<
    (Seq<char>, Seq<char>),
> {
    let scope = spec_extract_table(tree, spec_condition_from(tree, i));
    spec_cond_refs_under(tree, i, scope.0, scope.1, pre.cte_columns@)
}

/// The UNNEST references a FROM clause resolves, against its own scope.
pub open spec fn spec_from_unnest_refs<'a>(tree: SqlTree, i: usize, pre: AnalysisContext<'a>) -> Seq<
    (Seq<char>, Seq<char>),
> {
    let scope = spec_extract_table(tree, Some(i));
    spec_unnest_refs_under(tree, i as int, false, scope.0, scope.1, pre.cte_columns@)
}

/// Visitor for WHERE clauses, JOIN conditions and GROUP BY: every column
/// reference beneath them is used; FROM clauses are scanned for UNNEST
/// arguments as well. Every resolvable reference in scope whose table is a
/// collected CTE ends up marked.
pub struct WhereVisitor;

impl WhereVisitor {
    pub fn visit<'a>(&self, tree: &SqlTree, i: usize, context: &mut AnalysisContext<'a>)
        requires
            tree.wf(),
            i < tree.nodes@.len(),
            old(context).wf(),
        ensures
            final(context).wf(),
            marks_grow(*old(context), *final(context)),
            tree.nodes@[i as int].kind@ != "join_condition"@ && tree.nodes@[i as int].kind@
                != "where_clause"@ && tree.nodes@[i as int].kind@ != "group_by_clause"@
                && tree.nodes@[i as int].kind@ != "from_clause"@ ==> *final(context) == *old(
                context,
            ),
            tree.nodes@[i as int].kind@ == "join_condition"@ || tree.nodes@[i as int].kind@
                == "where_clause"@ || tree.nodes@[i as int].kind@ == "group_by_clause"@
                ==> forall|p: (Seq<char>, Seq<char>)|
                #[trigger] spec_condition_refs(*tree, i as int, *old(context)).contains(p)
                    && spec_find_cte(old(context).graph@, p.0) is Some ==> is_marked(
                    final(context).graph@,
                    p.0,
                    p.1,
                ),
            tree.nodes@[i as int].kind@ == "from_clause"@ ==> forall|p: (Seq<char>, Seq<char>)|
                #[trigger] spec_from_unnest_refs(*tree, i, *old(context)).contains(p)
                    && spec_find_cte(old(context).graph@, p.0) is Some ==> is_marked(
                    final(context).graph@,
                    p.0,
                    p.1,
                ),
            tree.nodes@[i as int].kind@ == "join_condition"@ || tree.nodes@[i as int].kind@
                == "where_clause"@ || tree.nodes@[i as int].kind@ == "group_by_clause"@
                ==> forall|t: Seq<char>, c: Seq<char>|
                #[trigger] is_marked(final(context).graph@, t, c) && !is_marked(
                    old(context).graph@,
                    t,
                    c,
                ) ==> spec_condition_refs(*tree, i as int, *old(context)).contains((t, c)),
            tree.nodes@[i as int].kind@ == "from_clause"@ ==> forall|t: Seq<char>, c: Seq<char>|
                #[trigger] is_marked(final(context).graph@, t, c) && !is_marked(
                    old(context).graph@,
                    t,
                    c,
                ) ==> spec_from_unnest_refs(*tree, i, *old(context)).contains((t, c)),
    {
        if tree.kind_is(i, "join_condition") || tree.kind_is(i, "where_clause") || tree.kind_is(
            i,
            "group_by_clause",
        ) {
            proof {
                reveal_strlit("join_condition");
                reveal_strlit("where_clause");
                reveal_strlit("group_by_clause");
                reveal_strlit("from_clause");
                assert("join_condition"@.len() == 14);
                assert("where_clause"@.len() == 12);
                assert("group_by_clause"@.len() == 15);
                assert("from_clause"@.len() == 11);
                assert(tree.nodes@[i as int].kind@ != "from_clause"@);
            }
            process_condition_node(tree, i, context);
        } else if tree.kind_is(i, "from_clause") {
            process_unnest_in_from(tree, i, context);
        }
    }
}

/// The FROM-clause scope of the SELECT enclosing a condition node.
fn extract_tables_from_parent(tree: &SqlTree, i: usize) -> (res: (Vec<String>, AliasMap))
    requires
        tree.wf(),
        i < tree.nodes@.len(),
    ensures
        view_strings(res.0@) == spec_extract_table(*tree, spec_condition_from(*tree, i as int)).0,
        res.1@ == spec_extract_table(*tree, spec_condition_from(*tree, i as int)).1,
{
    let mut cur: usize = i;
    loop
        invariant
            tree.wf(),
            cur < tree.nodes@.len(),
            spec_condition_from(*tree, i as int) == spec_condition_from(*tree, cur as int),
        decreases cur,
    {
        match tree.nodes[cur].parent {
            Some(p) => {
                if tree.kind_is(p, "select") {
                    match tree.named_child_of_kind(p, "from_clause") {
                        Some(f) => {
                            return extract_table(tree, Some(f));
                        },
                        None => {},
                    }
                }
                cur = p;
            },
            None => {
                let empty_tables: Vec<String> = Vec::new();
                proof {
                    assert(view_strings(empty_tables@) =~= Seq::<Seq<char>>::empty());
                }
                return (empty_tables, AliasMap::new());
            },
        }
    }
}

/// Resolves one reference text the way condition and UNNEST marking does: a
/// qualified reference resolves through the alias table outright, an
/// unqualified one through the FROM-clause scan.
fn resolve_condition_table<'a>(
    column_text: &str,
    tables: &Vec<String>,
    alias_map: &AliasMap,
    context: &AnalysisContext<'a>,
) -> (res: String)
    requires
        context.wf(),
    ensures
        res@ == spec_cond_table(
            column_text@,
            view_strings(tables@),
            alias_map@,
            context.cte_columns@,
        ),
{
    if str_contains_char(column_text, '.') {
        let prefix = extract_table_name(column_text);
        match alias_map.get(prefix) {
            Some(t) => clone_string(t),
            None => prefix.to_owned(),
        }
    } else {
        find_original_table(column_text, tables, alias_map, &context.cte_columns)
    }
}

/// Marks every column reference under a condition node (WHERE, JOIN ON,
/// GROUP BY), skipping function names. Every resolvable reference whose
/// table is a collected CTE ends up marked.
fn mark_condition_refs<'a>(
    tree: &SqlTree,
    i: usize,
    tables: &Vec<String>,
    alias_map: &AliasMap,
    context: &mut AnalysisContext<'a>,
)
    requires
        tree.wf(),
        i < tree.nodes@.len(),
        old(context).wf(),
    ensures
        final(context).wf(),
        marks_grow(*old(context), *final(context)),
        forall|p: (Seq<char>, Seq<char>)|
            #[trigger] spec_cond_refs_under(
                *tree,
                i as int,
                view_strings(tables@),
                alias_map@,
                old(context).cte_columns@,
            ).contains(p) && spec_find_cte(old(context).graph@, p.0) is Some ==> is_marked(
                final(context).graph@,
                p.0,
                p.1,
            ),
        forall|t: Seq<char>, c: Seq<char>|
            #[trigger] is_marked(final(context).graph@, t, c) && !is_marked(
                old(context).graph@,
                t,
                c,
            ) ==> spec_cond_refs_under(
                *tree,
                i as int,
                view_strings(tables@),
                alias_map@,
                old(context).cte_columns@,
            ).contains((t, c)),
    decreases tree.nodes@.len() - i,
{
    let ghost entry = *context;
    let ghost tviews = view_strings(tables@);
    let ghost refs_full = spec_cond_refs_under(
        *tree,
        i as int,
        tviews,
        alias_map@,
        entry.cte_columns@,
    );
    if tree.kind_is(i, "field") || tree.kind_is(i, "identifier") {
        if !is_function_name(tree, i) {
            let column_text = node_text(tree, i);
            let table = resolve_condition_table(column_text.as_str(), tables, alias_map, context);
            if table.unicode_len() > 0 {
                let col_name = extract_column_name(column_text.as_str()).to_owned();
                let ghost g_before = context.graph@;
                context.mark_used(table.as_str(), col_name.as_str());
                proof {
                    lemma_mark_step(g_before, context.graph@, table@, col_name@);
                    assert(spec_cond_pair(*tree, i as int, tviews, alias_map@, entry.cte_columns@)
                        == Some((table@, col_name@)));
                }
            }
        }
    }
    let ghost own: Seq<(Seq<char>, Seq<char>)> = if (tree.nodes@[i as int].kind@ == "field"@
        || tree.nodes@[i as int].kind@ == "identifier"@) && !spec_is_function_name(*tree, i) {
        match spec_cond_pair(*tree, i as int, tviews, alias_map@, entry.cte_columns@) {
            Some(p) => seq![p],
            None => Seq::empty(),
        }
    } else {
        Seq::empty()
    };
    proof {
        assert(refs_full == own + spec_cond_refs_children(
            *tree,
            i as int,
            0,
            tviews,
            alias_map@,
            entry.cte_columns@,
        ));
        assert forall|p: (Seq<char>, Seq<char>)|
            #[trigger] own.contains(p) && spec_find_cte(entry.graph@, p.0) is Some implies
            is_marked(context.graph@, p.0, p.1) by {
            assert(own[0] == p);
        }
        assert forall|t: Seq<char>, c2: Seq<char>|
            #[trigger] is_marked(context.graph@, t, c2) && !is_marked(entry.graph@, t, c2) implies
            refs_full.contains((t, c2)) by {
            assert(own.contains((t, c2))) by {
                assert(own[0] == (t, c2));
            }
            lemma_add_contains(
                own,
                spec_cond_refs_children(*tree, i as int, 0, tviews, alias_map@, entry.cte_columns@),
                (t, c2),
            );
        }
        assert forall|p: (Seq<char>, Seq<char>)|
            #[trigger] spec_cond_refs_children(
                *tree,
                i as int,
                0,
                tviews,
                alias_map@,
                entry.cte_columns@,
            ).contains(p) implies refs_full.contains(p) by {
            lemma_add_contains(
                own,
                spec_cond_refs_children(*tree, i as int, 0, tviews, alias_map@, entry.cte_columns@),
                p,
            );
        }
    }
    let children = &tree.nodes[i].children;
    let n = children.len();
    let mut k: usize = 0;
    while k < n
        invariant
            tree.wf(),
            i < tree.nodes@.len(),
            children@ == tree.nodes@[i as int].children@,
            n == children@.len(),
            0 <= k <= n,
            context.wf(),
            marks_grow(entry, *context),
            tviews == view_strings(tables@),
            refs_full == spec_cond_refs_under(
                *tree,
                i as int,
                tviews,
                alias_map@,
                entry.cte_columns@,
            ),
            forall|p: (Seq<char>, Seq<char>)|
                #[trigger] refs_full.contains(p) && spec_find_cte(entry.graph@, p.0) is Some
                    ==> is_marked(context.graph@, p.0, p.1) || spec_cond_refs_children(
                    *tree,
                    i as int,
                    k as int,
                    tviews,
                    alias_map@,
                    entry.cte_columns@,
                ).contains(p),
            forall|t: Seq<char>, c: Seq<char>|
                #[trigger] is_marked(context.graph@, t, c) && !is_marked(entry.graph@, t, c)
                    ==> refs_full.contains((t, c)),
            forall|p: (Seq<char>, Seq<char>)|
                #[trigger] spec_cond_refs_children(
                    *tree,
                    i as int,
                    k as int,
                    tviews,
                    alias_map@,
                    entry.cte_columns@,
                ).contains(p) ==> refs_full.contains(p),
        decreases n - k,
    {
        let c = children[k];
        let ghost g_pre = context.graph@;
        mark_condition_refs(tree, c, tables, alias_map, context);
        proof {
            lemma_pointwise_find(g_pre, context.graph@);
            lemma_pointwise_find(entry.graph@, g_pre);
            assert forall|p: (Seq<char>, Seq<char>)|
                #[trigger] refs_full.contains(p) && spec_find_cte(entry.graph@, p.0) is Some
                    implies is_marked(context.graph@, p.0, p.1) || spec_cond_refs_children(
                *tree,
                i as int,
                k + 1,
                tviews,
                alias_map@,
                entry.cte_columns@,
            ).contains(p) by {
                let child_refs = spec_cond_refs_under(
                    *tree,
                    c as int,
                    tviews,
                    alias_map@,
                    entry.cte_columns@,
                );
                let rest = spec_cond_refs_children(
                    *tree,
                    i as int,
                    k + 1,
                    tviews,
                    alias_map@,
                    entry.cte_columns@,
                );
                assert(spec_cond_refs_children(
                    *tree,
                    i as int,
                    k as int,
                    tviews,
                    alias_map@,
                    entry.cte_columns@,
                ) == child_refs + rest);
                lemma_add_contains(child_refs, rest, p);
            }
            let ghost child_refs = spec_cond_refs_under(
                *tree,
                c as int,
                tviews,
                alias_map@,
                entry.cte_columns@,
            );
            let ghost rest = spec_cond_refs_children(
                *tree,
                i as int,
                k + 1,
                tviews,
                alias_map@,
                entry.cte_columns@,
            );
            let ghost at_k = spec_cond_refs_children(
                *tree,
                i as int,
                k as int,
                tviews,
                alias_map@,
                entry.cte_columns@,
            );
            assert(at_k == child_refs + rest);
            assert forall|t: Seq<char>, c2: Seq<char>|
                #[trigger] is_marked(context.graph@, t, c2) && !is_marked(entry.graph@, t, c2)
                    implies refs_full.contains((t, c2)) by {
                if !is_marked(g_pre, t, c2) {
                    assert(child_refs.contains((t, c2)));
                    lemma_add_contains(child_refs, rest, (t, c2));
                    assert(at_k.contains((t, c2)));
                }
            }
            assert forall|p: (Seq<char>, Seq<char>)|
                #[trigger] rest.contains(p) implies refs_full.contains(p) by {
                lemma_add_contains(child_refs, rest, p);
                assert(at_k.contains(p));
            }
        }
        k = k + 1;
    }
    proof {
        assert(spec_cond_refs_children(
            *tree,
            i as int,
            n as int,
            tviews,
            alias_map@,
            entry.cte_columns@,
        ) =~= Seq::<(Seq<char>, Seq<char>)>::empty());
    }
}

fn process_condition_node<'a>(tree: &SqlTree, i: usize, context: &mut AnalysisContext<'a>)
    requires
        tree.wf(),
        i < tree.nodes@.len(),
        old(context).wf(),
    ensures
        final(context).wf(),
        marks_grow(*old(context), *final(context)),
        forall|p: (Seq<char>, Seq<char>)|
            #[trigger] spec_condition_refs(*tree, i as int, *old(context)).contains(p)
                && spec_find_cte(old(context).graph@, p.0) is Some ==> is_marked(
                final(context).graph@,
                p.0,
                p.1,
            ),
        forall|t: Seq<char>, c: Seq<char>|
            #[trigger] is_marked(final(context).graph@, t, c) && !is_marked(
                old(context).graph@,
                t,
                c,
            ) ==> spec_condition_refs(*tree, i as int, *old(context)).contains((t, c)),
{
    let (tables, alias_map) = extract_tables_from_parent(tree, i);
    mark_condition_refs(tree, i, &tables, &alias_map, context);
}

/// Marks identifiers under UNNEST operators in a FROM clause. Every
/// resolvable UNNEST argument whose table is a collected CTE ends up marked.
fn mark_unnest_refs<'a>(
    tree: &SqlTree,
    i: usize,
    tables: &Vec<String>,
    alias_map: &AliasMap,
    context: &mut AnalysisContext<'a>,
    inside_unnest: bool,
)
    requires
        tree.wf(),
        i < tree.nodes@.len(),
        old(context).wf(),
    ensures
        final(context).wf(),
        marks_grow(*old(context), *final(context)),
        forall|p: (Seq<char>, Seq<char>)|
            #[trigger] spec_unnest_refs_under(
                *tree,
                i as int,
                inside_unnest,
                view_strings(tables@),
                alias_map@,
                old(context).cte_columns@,
            ).contains(p) && spec_find_cte(old(context).graph@, p.0) is Some ==> is_marked(
                final(context).graph@,
                p.0,
                p.1,
            ),
        forall|t: Seq<char>, c: Seq<char>|
            #[trigger] is_marked(final(context).graph@, t, c) && !is_marked(
                old(context).graph@,
                t,
                c,
            ) ==> spec_unnest_refs_under(
                *tree,
                i as int,
                inside_unnest,
                view_strings(tables@),
                alias_map@,
                old(context).cte_columns@,
            ).contains((t, c)),
    decreases tree.nodes@.len() - i,
{
    let ghost entry = *context;
    let ghost tviews = view_strings(tables@);
    let ghost refs_full = spec_unnest_refs_under(
        *tree,
        i as int,
        inside_unnest,
        tviews,
        alias_map@,
        entry.cte_columns@,
    );
    let here_unnest = inside_unnest || tree.kind_is(i, "unnest_operator") || tree.kind_is(
        i,
        "unnest_clause",
    );
    if here_unnest && (tree.kind_is(i, "identifier") || tree.kind_is(i, "field")) {
        let column_text = node_text(tree, i);
        let table = resolve_condition_table(column_text.as_str(), tables, alias_map, context);
        if table.unicode_len() > 0 {
            let col_name = extract_column_name(column_text.as_str()).to_owned();
            let ghost g_before = context.graph@;
            context.mark_used(table.as_str(), col_name.as_str());
            proof {
                lemma_mark_step(g_before, context.graph@, table@, col_name@);
                assert(spec_cond_pair(*tree, i as int, tviews, alias_map@, entry.cte_columns@)
                    == Some((table@, col_name@)));
            }
        }
    }
    let ghost own: Seq<(Seq<char>, Seq<char>)> = if here_unnest && (tree.nodes@[i as int].kind@
        == "identifier"@ || tree.nodes@[i as int].kind@ == "field"@) {
        match spec_cond_pair(*tree, i as int, tviews, alias_map@, entry.cte_columns@) {
            Some(p) => seq![p],
            None => Seq::empty(),
        }
    } else {
        Seq::empty()
    };
    proof {
        assert(refs_full == own + spec_unnest_refs_children(
            *tree,
            i as int,
            0,
            here_unnest,
            tviews,
            alias_map@,
            entry.cte_columns@,
        ));
        assert forall|p: (Seq<char>, Seq<char>)|
            #[trigger] own.contains(p) && spec_find_cte(entry.graph@, p.0) is Some implies
            is_marked(context.graph@, p.0, p.1) by {
            assert(own[0] == p);
        }
        assert forall|t: Seq<char>, c2: Seq<char>|
            #[trigger] is_marked(context.graph@, t, c2) && !is_marked(entry.graph@, t, c2) implies
            refs_full.contains((t, c2)) by {
            assert(own.contains((t, c2))) by {
                assert(own[0] == (t, c2));
            }
            lemma_add_contains(
                own,
                spec_unnest_refs_children(
                    *tree,
                    i as int,
                    0,
                    here_unnest,
                    tviews,
                    alias_map@,
                    entry.cte_columns@,
                ),
                (t, c2),
            );
        }
        assert forall|p: (Seq<char>, Seq<char>)|
            #[trigger] spec_unnest_refs_children(
                *tree,
                i as int,
                0,
                here_unnest,
                tviews,
                alias_map@,
                entry.cte_columns@,
            ).contains(p) implies refs_full.contains(p) by {
            lemma_add_contains(
                own,
                spec_unnest_refs_children(
                    *tree,
                    i as int,
                    0,
                    here_unnest,
                    tviews,
                    alias_map@,
                    entry.cte_columns@,
                ),
                p,
            );
        }
    }
    let children = &tree.nodes[i].children;
    let n = children.len();
    let mut k: usize = 0;
    while k < n
        invariant
            tree.wf(),
            i < tree.nodes@.len(),
            children@ == tree.nodes@[i as int].children@,
            n == children@.len(),
            0 <= k <= n,
            context.wf(),
            marks_grow(entry, *context),
            tviews == view_strings(tables@),
            refs_full == spec_unnest_refs_under(
                *tree,
                i as int,
                inside_unnest,
                tviews,
                alias_map@,
                entry.cte_columns@,
            ),
            forall|p: (Seq<char>, Seq<char>)|
                #[trigger] refs_full.contains(p) && spec_find_cte(entry.graph@, p.0) is Some
                    ==> is_marked(context.graph@, p.0, p.1) || spec_unnest_refs_children(
                    *tree,
                    i as int,
                    k as int,
                    here_unnest,
                    tviews,
                    alias_map@,
                    entry.cte_columns@,
                ).contains(p),
            forall|t: Seq<char>, c: Seq<char>|
                #[trigger] is_marked(context.graph@, t, c) && !is_marked(entry.graph@, t, c)
                    ==> refs_full.contains((t, c)),
            forall|p: (Seq<char>, Seq<char>)|
                #[trigger] spec_unnest_refs_children(
                    *tree,
                    i as int,
                    k as int,
                    here_unnest,
                    tviews,
                    alias_map@,
                    entry.cte_columns@,
                ).contains(p) ==> refs_full.contains(p),
        decreases n - k,
    {
        let c = children[k];
        let ghost g_pre = context.graph@;
        mark_unnest_refs(tree, c, tables, alias_map, context, here_unnest);
        proof {
            lemma_pointwise_find(g_pre, context.graph@);
            lemma_pointwise_find(entry.graph@, g_pre);
            assert forall|p: (Seq<char>, Seq<char>)|
                #[trigger] refs_full.contains(p) && spec_find_cte(entry.graph@, p.0) is Some
                    implies is_marked(context.graph@, p.0, p.1) || spec_unnest_refs_children(
                *tree,
                i as int,
                k + 1,
                here_unnest,
                tviews,
                alias_map@,
                entry.cte_columns@,
            ).contains(p) by {
                let child_refs = spec_unnest_refs_under(
                    *tree,
                    c as int,
                    here_unnest,
                    tviews,
                    alias_map@,
                    entry.cte_columns@,
                );
                let rest = spec_unnest_refs_children(
                    *tree,
                    i as int,
                    k + 1,
                    here_unnest,
                    tviews,
                    alias_map@,
                    entry.cte_columns@,
                );
                assert(spec_unnest_refs_children(
                    *tree,
                    i as int,
                    k as int,
                    here_unnest,
                    tviews,
                    alias_map@,
                    entry.cte_columns@,
                ) == child_refs + rest);
                lemma_add_contains(child_refs, rest, p);
            }
            let ghost child_refs = spec_unnest_refs_under(
                *tree,
                c as int,
                here_unnest,
                tviews,
                alias_map@,
                entry.cte_columns@,
            );
            let ghost rest = spec_unnest_refs_children(
                *tree,
                i as int,
                k + 1,
                here_unnest,
                tviews,
                alias_map@,
                entry.cte_columns@,
            );
            let ghost at_k = spec_unnest_refs_children(
                *tree,
                i as int,
                k as int,
                here_unnest,
                tviews,
                alias_map@,
                entry.cte_columns@,
            );
            assert(at_k == child_refs + rest);
            assert forall|t: Seq<char>, c2: Seq<char>|
                #[trigger] is_marked(context.graph@, t, c2) && !is_marked(entry.graph@, t, c2)
                    implies refs_full.contains((t, c2)) by {
                if !is_marked(g_pre, t, c2) {
                    assert(child_refs.contains((t, c2)));
                    lemma_add_contains(child_refs, rest, (t, c2));
                    assert(at_k.contains((t, c2)));
                }
            }
            assert forall|p: (Seq<char>, Seq<char>)|
                #[trigger] rest.contains(p) implies refs_full.contains(p) by {
                lemma_add_contains(child_refs, rest, p);
                assert(at_k.contains(p));
            }
        }
        k = k + 1;
    }
    proof {
        assert(spec_unnest_refs_children(
            *tree,
            i as int,
            n as int,
            here_unnest,
            tviews,
            alias_map@,
            entry.cte_columns@,
        ) =~= Seq::<(Seq<char>, Seq<char>)>::empty());
    }
}

fn process_unnest_in_from<'a>(tree: &SqlTree, i: usize, context: &mut AnalysisContext<'a>)
    requires
        tree.wf(),
        i < tree.nodes@.len(),
        old(context).wf(),
    ensures
        final(context).wf(),
        marks_grow(*old(context), *final(context)),
        forall|p: (Seq<char>, Seq<char>)|
            #[trigger] spec_from_unnest_refs(*tree, i, *old(context)).contains(p) && spec_find_cte(
                old(context).graph@,
                p.0,
            ) is Some ==> is_marked(final(context).graph@, p.0, p.1),
        forall|t: Seq<char>, c: Seq<char>|
            #[trigger] is_marked(final(context).graph@, t, c) && !is_marked(
                old(context).graph@,
                t,
                c,
            ) ==> spec_from_unnest_refs(*tree, i, *old(context)).contains((t, c)),
{
    let (tables, alias_map) = extract_table(tree, Some(i));
    proof {
        assert(view_strings(tables@) == spec_extract_table(*tree, Some(i)).0);
        assert(alias_map@ == spec_extract_table(*tree, Some(i)).1);
    }
    mark_unnest_refs(tree, i, &tables, &alias_map, context, false);
}

} // verus!
