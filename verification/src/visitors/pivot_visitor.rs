//! The PIVOT visitor: aggregated columns and the FOR target count as usage.

use vstd::prelude::*;

verus! {

use crate::context::AnalysisContext;
use crate::graph::spec_find_cte;
use crate::tree::SqlTree;
use crate::utils::AliasMap;
use crate::visitors::{extract_table, mark_fields_under, marks_grow, is_marked, spec_extract_table,
    spec_refs_under, view_strings};

/// The FROM node whose scope surrounds a PIVOT operator: the nearest
/// ancestor that is a `from_clause`, or the `from_clause` child of the
/// nearest enclosing `select` that has one.
pub open spec fn spec_pivot_from(tree: SqlTree, i: int) -> Option<usize>
    decreases i,
    when tree.wf() && 0 <= i < tree.nodes@.len()
{
    match tree.nodes@[i].parent {
        None => None,
        Some(p) => {
            if tree.nodes@[p as int].kind@ == "from_clause"@ {
                Some(p)
            } else if tree.nodes@[p as int].kind@ == "select"@ && tree.spec_named_child_of_kind(
                p as int,
                "from_clause"@,
            ) is Some {
                tree.spec_named_child_of_kind(p as int, "from_clause"@)
            } else {
                spec_pivot_from(tree, p as int)
            }
        },
    }
}

/// The references a PIVOT operator resolves, input columns included.
pub open spec fn spec_pivot_refs<'a>(tree: SqlTree, i: int, pre: AnalysisContext<'a>) -> Seq<
    (Seq<char>, Seq<char>),
> {
    let scope = spec_extract_table(tree, spec_pivot_from(tree, i));
    spec_refs_under(tree, i, scope.0, scope.1, pre.cte_columns@, true)
}

/// Visitor for PIVOT operators: the aggregated columns and the FOR target
/// are used, resolved against the enclosing FROM clause. Every resolvable
/// reference under the operator whose table is a collected CTE ends up
/// marked.
pub struct PivotVisitor;

impl PivotVisitor {
    pub fn visit<'a>(&self, tree: &SqlTree, i: usize, context: &mut AnalysisContext<'a>)
        requires
            tree.wf(),
            i < tree.nodes@.len(),
            old(context).wf(),
        ensures
            final(context).wf(),
            marks_grow(*old(context), *final(context)),
            tree.nodes@[i as int].kind@ != "pivot_operator"@ ==> *final(context) == *old(context),
            tree.nodes@[i as int].kind@ == "pivot_operator"@ ==> forall|p: (Seq<char>, Seq<char>)|
                #[trigger] spec_pivot_refs(*tree, i as int, *old(context)).contains(p)
                    && spec_find_cte(old(context).graph@, p.0) is Some ==> is_marked(
                    final(context).graph@,
                    p.0,
                    p.1,
                ),
            tree.nodes@[i as int].kind@ == "pivot_operator"@ ==> forall|t: Seq<char>, c: Seq<char>|
                #[trigger] is_marked(final(context).graph@, t, c) && !is_marked(
                    old(context).graph@,
                    t,
                    c,
                ) ==> spec_pivot_refs(*tree, i as int, *old(context)).contains((t, c)),
    {
        if !tree.kind_is(i, "pivot_operator") {
            return;
        }
        let (tables, alias_map) = find_tables_for_pivot(tree, i);
        mark_fields_under(tree, i, &tables, &alias_map, context, true);
    }
}

/// The FROM-clause scope surrounding a PIVOT operator, found by walking
/// ancestors for a `from_clause` or a `select` that carries one.
fn find_tables_for_pivot(tree: &SqlTree, pivot_node: usize) -> (res: (Vec<String>, AliasMap))
    requires
        tree.wf(),
        pivot_node < tree.nodes@.len(),
    ensures
        view_strings(res.0@) == spec_extract_table(
            *tree,
            spec_pivot_from(*tree, pivot_node as int),
        ).0,
        res.1@ == spec_extract_table(*tree, spec_pivot_from(*tree, pivot_node as int)).1,
{
    let mut cur: usize = pivot_node;
    loop
        invariant
            tree.wf(),
            cur < tree.nodes@.len(),
            spec_pivot_from(*tree, pivot_node as int) == spec_pivot_from(*tree, cur as int),
        decreases cur,
    {
        match tree.nodes[cur].parent {
            Some(p) => {
                if tree.kind_is(p, "from_clause") {
                    return extract_table(tree, Some(p));
                }
                if tree.kind_is(p, "select") {
                    match tree.named_child_of_kind(p, "from_clause") {
                        Some(f) => {
                            return extract_table(tree, Some(f));
                        },
                        None => {},
                    }
                }
                cur = p;
            },
            None => {
                let empty_tables: Vec<String> = Vec::new();
                proof {
                    assert(view_strings(empty_tables@) =~= Seq::<Seq<char>>::empty());
                }
                return (empty_tables, AliasMap::new());
            },
        }
    }
}

} // verus!
