//! The QUALIFY visitor: the post-window filter's references count as usage.

use vstd::prelude::*;

verus! {

use crate::context::AnalysisContext;
use crate::graph::spec_find_cte;
use crate::tree::SqlTree;
use crate::visitors::{extract_table, mark_fields_under, marks_grow, is_marked, spec_extract_table,
    spec_refs_under, view_strings};

/// The references a QUALIFY clause resolves: the clause's subtree against the
/// FROM scope of its enclosing SELECT.
pub open spec fn spec_qualify_refs<'a>(
    tree: SqlTree,
    i: int,
    sel: usize,
    pre: AnalysisContext<'a>,
) -> Seq<(Seq<char>, Seq<char>)> {
    let scope = spec_extract_table(
        tree,
        tree.spec_named_child_of_kind(sel as int, "from_clause"@),
    );
    spec_refs_under(tree, i, scope.0, scope.1, pre.cte_columns@, false)
}

/// Visitor for QUALIFY clauses: columns referenced by the post-window filter
/// are used, resolved against the enclosing SELECT's FROM clause. Every
/// resolvable reference under the clause whose table is a collected CTE ends
/// up marked.
pub struct QualifyVisitor;

impl QualifyVisitor {
    pub fn visit<'a>(&self, tree: &SqlTree, i: usize, context: &mut AnalysisContext<'a>)
        requires
            tree.wf(),
            i < tree.nodes@.len(),
            old(context).wf(),
        ensures
            final(context).wf(),
            marks_grow(*old(context), *final(context)),
            tree.nodes@[i as int].kind@ != "qualify_clause"@ ==> *final(context) == *old(context),
            tree.nodes@[i as int].kind@ == "qualify_clause"@ && tree.spec_ancestor_of_kind(
                i as int,
                "select"@,
            ) is None ==> *final(context) == *old(context),
            tree.nodes@[i as int].kind@ == "qualify_clause"@ && (tree.spec_ancestor_of_kind(
                i as int,
                "select"@,
            ) matches Some(sel)) ==> forall|p: (Seq<char>, Seq<char>)|
                #[trigger] spec_qualify_refs(
                    *tree,
                    i as int,
                    tree.spec_ancestor_of_kind(i as int, "select"@).unwrap(),
                    *old(context),
                ).contains(p) && spec_find_cte(old(context).graph@, p.0) is Some ==> is_marked(
                    final(context).graph@,
                    p.0,
                    p.1,
                ),
            tree.nodes@[i as int].kind@ == "qualify_clause"@ && (tree.spec_ancestor_of_kind(
                i as int,
                "select"@,
            ) matches Some(sel)) ==> forall|t: Seq<char>, c: Seq<char>|
                #[trigger] is_marked(final(context).graph@, t, c) && !is_marked(
                    old(context).graph@,
                    t,
                    c,
                ) ==> spec_qualify_refs(
                    *tree,
                    i as int,
                    tree.spec_ancestor_of_kind(i as int, "select"@).unwrap(),
                    *old(context),
                ).contains((t, c)),
    {
        if !tree.kind_is(i, "qualify_clause") {
            return;
        }
        let select_node = match tree.find_ancestor_of_kind(i, "select") {
            Some(s) => s,
            None => {
                return;
            },
        };
        let from_node = tree.named_child_of_kind(select_node, "from_clause");
        let (tables, alias_map) = extract_table(tree, from_node);
        proof {
            assert(view_strings(tables@) == spec_extract_table(*tree, from_node).0);
            assert(alias_map@ == spec_extract_table(*tree, from_node).1);
        }
        mark_fields_under(tree, i, &tables, &alias_map, context, false);
    }
}

} // verus!
