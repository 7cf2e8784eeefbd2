//! The final-query star visitor: `SELECT *` outside every CTE consumes all
//! known columns of the listed tables.

use vstd::prelude::*;

verus! {

use crate::context::{AnalysisContext, spec_lookup_columns};
use crate::graph::CteNodeView;
use crate::models::ColumnView;
use crate::tree::SqlTree;
use crate::visitors::{extract_table, mark_all_columns_of, marks_grow, is_marked,
    lemma_pointwise_find, spec_extract_table, view_strings};

/// Whether a select list holds a star item.
pub open spec fn spec_has_star(tree: SqlTree, i: int) -> bool {
    exists|k: int|
        0 <= k < tree.nodes@[i].children@.len() && tree.nodes@[(
        #[trigger] tree.nodes@[i].children@[k]) as int].kind@ == "select_all"@
}

/// Every column the context knows for table `t` is marked used.
pub open spec fn all_columns_marked(
    g: Seq<(Seq<char>, CteNodeView)>,
    ctes: Seq<(Seq<char>, Seq<ColumnView>)>,
    t: Seq<char>,
) -> bool {
    match spec_lookup_columns(ctes, t) {
        Some(cols) => forall|k: int|
            0 <= k < cols.len() ==> is_marked(g, t, (#[trigger] cols[k]).column_name),
        None => true,
    }
}

/// A mark a final star may add: a listed table of the star's FROM clause and
/// one of its known columns.
pub open spec fn star_pair<'a>(
    tree: SqlTree,
    select_list: usize,
    pre: AnalysisContext<'a>,
    t: Seq<char>,
    c: Seq<char>,
) -> bool {
    &&& exists|ti: int|
        0 <= ti < spec_extract_table(tree, tree.spec_next_named_sibling(select_list)).0.len()
            && #[trigger] spec_extract_table(
            tree,
            tree.spec_next_named_sibling(select_list),
        ).0[ti] == t
    &&& spec_lookup_columns(pre.cte_columns@, t) matches Some(cols) && exists|k: int|
        0 <= k < cols.len() && (#[trigger] cols[k]).column_name == c
}

/// Visitor for `SELECT *` in the final query: on a select list that holds a
/// star and sits in no CTE, every known column of every table in that
/// SELECT's FROM clause ends up marked used, and nothing else is; any other
/// node changes nothing.
pub struct SelectStarVisitor;

impl SelectStarVisitor {
    pub fn visit<'a>(&self, tree: &SqlTree, i: usize, context: &mut AnalysisContext<'a>)
        requires
            tree.wf(),
            i < tree.nodes@.len(),
            old(context).wf(),
        ensures
            final(context).wf(),
            marks_grow(*old(context), *final(context)),
            tree.nodes@[i as int].kind@ != "select_list"@ ==> *final(context) == *old(context),
            tree.nodes@[i as int].kind@ == "select_list"@ && !spec_has_star(*tree, i as int)
                ==> *final(context) == *old(context),
            tree.nodes@[i as int].kind@ == "select_list"@ && tree.spec_ancestor_of_kind(
                i as int,
                "cte"@,
            ) is Some ==> *final(context) == *old(context),
            tree.nodes@[i as int].kind@ == "select_list"@ && spec_has_star(*tree, i as int)
                && tree.spec_ancestor_of_kind(i as int, "cte"@) is None ==> forall|
                t: Seq<char>,
                c: Seq<char>,
            |
                #[trigger] is_marked(final(context).graph@, t, c) && !is_marked(
                    old(context).graph@,
                    t,
                    c,
                ) ==> star_pair(*tree, i, *old(context), t, c),
            tree.nodes@[i as int].kind@ == "select_list"@ && spec_has_star(*tree, i as int)
                && tree.spec_ancestor_of_kind(i as int, "cte"@) is None ==> forall|ti: int|
                0 <= ti < spec_extract_table(*tree, tree.spec_next_named_sibling(i)).0.len()
                    ==> all_columns_marked(
                    final(context).graph@,
                    old(context).cte_columns@,
                    #[trigger] spec_extract_table(*tree, tree.spec_next_named_sibling(i)).0[ti],
                ),
    {
        if !tree.kind_is(i, "select_list") {
            return;
        }
        let children = &tree.nodes[i].children;
        let n = children.len();
        let mut has_star: bool = false;
        let mut k: usize = 0;
        while k < n
            invariant
                tree.wf(),
                i < tree.nodes@.len(),
                children@ == tree.nodes@[i as int].children@,
                n == children@.len(),
                0 <= k <= n,
                has_star ==> spec_has_star(*tree, i as int),
                !has_star ==> forall|k2: int|
                    0 <= k2 < k ==> tree.nodes@[(#[trigger] children@[k2]) as int].kind@
                        != "select_all"@,
            decreases n - k,
        {
            if tree.kind_is(children[k], "select_all") {
                has_star = true;
            }
            k = k + 1;
        }
        if !has_star {
            return;
        }
        if tree.is_inside_cte(i) {
            return;
        }
        mark_source_columns_as_used(tree, i, context);
    }
}

/// Marks every known column of every table in the select list's FROM clause.
fn mark_source_columns_as_used<'a>(
    tree: &SqlTree,
    select_list: usize,
    context: &mut AnalysisContext<'a>,
)
    requires
        tree.wf(),
        select_list < tree.nodes@.len(),
        old(context).wf(),
    ensures
        final(context).wf(),
        marks_grow(*old(context), *final(context)),
        forall|ti: int|
            0 <= ti < spec_extract_table(*tree, tree.spec_next_named_sibling(select_list)).0.len()
                ==> all_columns_marked(
                final(context).graph@,
                old(context).cte_columns@,
                #[trigger] spec_extract_table(
                    *tree,
                    tree.spec_next_named_sibling(select_list),
                ).0[ti],
            ),
        forall|t: Seq<char>, c: Seq<char>|
            #[trigger] is_marked(final(context).graph@, t, c) && !is_marked(
                old(context).graph@,
                t,
                c,
            ) ==> star_pair(*tree, select_list, *old(context), t, c),
{
    let ghost entry = *context;
    let from = tree.next_named_sibling(select_list);
    let (tables, _alias_map) = extract_table(tree, from);
    let ghost tviews = spec_extract_table(*tree, tree.spec_next_named_sibling(select_list)).0;
    proof {
        assert(view_strings(tables@) == tviews);
    }
    let n = tables.len();
    let mut t: usize = 0;
    while t < n
        invariant
            n == tables@.len(),
            view_strings(tables@) == tviews,
            tviews == spec_extract_table(*tree, tree.spec_next_named_sibling(select_list)).0,
            tree.wf(),
            select_list < tree.nodes@.len(),
            0 <= t <= n,
            context.wf(),
            marks_grow(entry, *context),
            forall|ti: int|
                0 <= ti < t ==> all_columns_marked(
                    context.graph@,
                    entry.cte_columns@,
                    #[trigger] tviews[ti],
                ),
            forall|tt: Seq<char>, c: Seq<char>|
                #[trigger] is_marked(context.graph@, tt, c) && !is_marked(entry.graph@, tt, c)
                    ==> star_pair(*tree, select_list, entry, tt, c),
        decreases n - t,
    {
        let ghost g_pre = context.graph@;
        mark_all_columns_of(tables[t].as_str(), context);
        proof {
            lemma_pointwise_find(g_pre, context.graph@);
            assert(tables@[t as int]@ == tviews[t as int]);
            assert forall|ti: int|
                0 <= ti < t + 1 implies all_columns_marked(
                context.graph@,
                entry.cte_columns@,
                #[trigger] tviews[ti],
            ) by {
                if ti < t {
                    assert(all_columns_marked(g_pre, entry.cte_columns@, tviews[ti]));
                }
            }
            assert forall|tt: Seq<char>, c: Seq<char>|
                #[trigger] is_marked(context.graph@, tt, c) && !is_marked(entry.graph@, tt, c)
                    implies star_pair(*tree, select_list, entry, tt, c) by {
                if !is_marked(g_pre, tt, c) {
                    assert(tviews.len() == tables@.len());
                    assert(tt == tviews[t as int]);
                    assert(spec_extract_table(
                        *tree,
                        tree.spec_next_named_sibling(select_list),
                    ).0[t as int] == tt);
                }
            }
        }
        t = t + 1;
    }
}

} // verus!
