//! The DISTINCT visitor: marks every column of the enclosing CTE used. Not
//! part of the fixed visitor set, since deduplication only involves the
//! columns already in the select list.

use vstd::prelude::*;

verus! {

use crate::context::{AnalysisContext, spec_lookup_columns};
use crate::tree::SqlTree;
use crate::visitors::{get_cte_name, mark_all_columns_of, marks_grow, is_marked, spec_cte_name,
    spec_ieq, str_eq_ignore_ascii_case};
use crate::visitors::select_star_visitor::all_columns_marked;

/// Whether some child of a `select` spells the DISTINCT keyword, in any case.
pub open spec fn spec_has_distinct(tree: SqlTree, i: int) -> bool {
    exists|k: int|
        0 <= k < tree.nodes@[i].children@.len() && spec_ieq(
            tree.nodes@[(#[trigger] tree.nodes@[i].children@[k]) as int].text@,
            "distinct"@,
        )
}

/// Visitor for `SELECT DISTINCT` inside a CTE: every collected column of
/// that CTE is used, and only that CTE's columns gain marks. Kept apart from
/// the fixed visitor set, since DISTINCT only affects the columns already in
/// the select list.
pub struct DistinctVisitor;

impl DistinctVisitor {
    pub fn visit<'a>(&self, tree: &SqlTree, i: usize, context: &mut AnalysisContext<'a>)
        requires
            tree.wf(),
            i < tree.nodes@.len(),
            old(context).wf(),
        ensures
            final(context).wf(),
            marks_grow(*old(context), *final(context)),
            tree.nodes@[i as int].kind@ != "select"@ ==> *final(context) == *old(context),
            tree.nodes@[i as int].kind@ == "select"@ && !spec_has_distinct(*tree, i as int)
                ==> *final(context) == *old(context),
            tree.nodes@[i as int].kind@ == "select"@ && tree.spec_ancestor_of_kind(
                i as int,
                "cte"@,
            ) is None ==> *final(context) == *old(context),
            ({
                &&& tree.nodes@[i as int].kind@ == "select"@
                &&& spec_has_distinct(*tree, i as int)
                &&& tree.spec_ancestor_of_kind(i as int, "cte"@) matches Some(cte)
                &&& spec_cte_name(*tree, cte as int) matches Some(nm)
            }) ==> all_columns_marked(
                final(context).graph@,
                old(context).cte_columns@,
                spec_cte_name(
                    *tree,
                    tree.spec_ancestor_of_kind(i as int, "cte"@).unwrap() as int,
                ).unwrap(),
            ),
            ({
                &&& tree.nodes@[i as int].kind@ == "select"@
                &&& tree.spec_ancestor_of_kind(i as int, "cte"@) matches Some(cte)
                &&& spec_cte_name(*tree, cte as int) matches Some(nm)
            }) ==> forall|t: Seq<char>, c: Seq<char>|
                #[trigger] is_marked(final(context).graph@, t, c) && !is_marked(
                    old(context).graph@,
                    t,
                    c,
                ) ==> t == spec_cte_name(
                    *tree,
                    tree.spec_ancestor_of_kind(i as int, "cte"@).unwrap() as int,
                ).unwrap() && (spec_lookup_columns(old(context).cte_columns@, t) matches Some(cols)
                    && exists|k: int| 0 <= k < cols.len() && (#[trigger] cols[k]).column_name == c),
    {
        if !tree.kind_is(i, "select") {
            return;
        }
        let children = &tree.nodes[i].children;
        let n = children.len();
        let mut has_distinct: bool = false;
        let mut k: usize = 0;
        while k < n
            invariant
                tree.wf(),
                i < tree.nodes@.len(),
                children@ == tree.nodes@[i as int].children@,
                n == children@.len(),
                0 <= k <= n,
                has_distinct ==> spec_has_distinct(*tree, i as int),
                !has_distinct ==> forall|k2: int|
                    0 <= k2 < k ==> !spec_ieq(
                        tree.nodes@[(#[trigger] children@[k2]) as int].text@,
                        "distinct"@,
                    ),
            decreases n - k,
        {
            if str_eq_ignore_ascii_case(tree.nodes[children[k]].text.as_str(), "distinct") {
                has_distinct = true;
            }
            k = k + 1;
        }
        if !has_distinct {
            return;
        }
        match tree.find_ancestor_of_kind(i, "cte") {
            Some(cte) => {
                match get_cte_name(tree, cte) {
                    Some(name) => {
                        mark_all_columns_of(name.as_str(), context);
                    },
                    None => {},
                }
            },
            None => {},
        }
    }
}

} // verus!
