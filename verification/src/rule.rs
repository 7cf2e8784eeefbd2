//! The rule entry point: one document-order pass of all visitors over the
//! tree, then the unused columns become diagnostics.

use vstd::prelude::*;

verus! {

use vstd::string::StrSliceExecFns;
use vstd::string::StringExecFns;
use crate::context::AnalysisContext;
use crate::diagnostic::{Diagnostic, DiagnosticView};
use crate::graph::lemma_sort_by_pos_properties;
use crate::models::ColumnInfo;
use crate::tree::SqlTree;
use crate::visitors::{CteVisitor, PivotVisitor, QualifyVisitor, SelectStarVisitor, SelectVisitor,
    WhereVisitor};

/// Diagnostic order: ascending by row, then by column.
pub open spec fn diag_le(a: DiagnosticView, b: DiagnosticView) -> bool {
    a.row < b.row || (a.row == b.row && a.col <= b.col)
}

/// The message reported for one unused column name.
pub open spec fn unused_message(name: Seq<char>) -> Seq<char> {
    "Unused column: "@ + name
}

/// Whether a message has the exact reported form for some column name.
pub open spec fn is_unused_message(m: Seq<char>) -> bool {
    exists|name: Seq<char>| m == unused_message(name)
}

/// Runs the unused-column analysis over one parsed statement.
///
/// `None` when no unused column exists; otherwise a non-empty list of
/// diagnostics sorted ascending by `(row, col)`, each reading
/// `Unused column: <name>`. A statement without any CTE never yields
/// diagnostics.
pub fn check(tree: &SqlTree, sql: &str) -> (res: Option<Vec<Diagnostic>>)
    requires
        tree.wf(),
    ensures
        (forall|j: int|
            0 <= j < tree.nodes@.len() ==> (#[trigger] tree.nodes@[j]).kind@ != "cte"@) ==> res
            is None,
        res matches Some(v) ==> v@.len() > 0,
        res matches Some(v) ==> forall|a: int, b: int|
            0 <= a < b < v@.len() ==> diag_le(#[trigger] v@[a]@, #[trigger] v@[b]@),
        res matches Some(v) ==> forall|a: int|
            0 <= a < v@.len() ==> is_unused_message((#[trigger] v@[a]@).message),
        res matches Some(v) ==> forall|a: int|
            0 <= a < v@.len() ==> (#[trigger] v@[a]@).row >= 1 && v@[a]@.col >= 1,
{
    let mut context = AnalysisContext::new(sql);

    // The visitor set is fixed; DISTINCT deliberately marks nothing, since
    // deduplication only involves the columns already in its own select list.
    let cte_visitor = CteVisitor;
    let select_star_visitor = SelectStarVisitor;
    let select_visitor = SelectVisitor::new();
    let where_visitor = WhereVisitor;
    let qualify_visitor = QualifyVisitor;
    let pivot_visitor = PivotVisitor;

    let n = tree.node_count();
    let mut i: usize = 0;
    while i < n
        invariant
            tree.wf(),
            n == tree.nodes@.len(),
            0 <= i <= n,
            context.wf(),
            (forall|j: int|
                0 <= j < tree.nodes@.len() ==> (#[trigger] tree.nodes@[j]).kind@ != "cte"@)
                ==> context.graph@.len() == 0,
            forall|e: int, k: int|
                0 <= e < context.graph@.len() && 0 <= k < context.graph@[e].1.columns.len()
                    ==> (#[trigger] context.graph@[e].1.columns[k]).row >= 1
                    && context.graph@[e].1.columns[k].col >= 1,
        decreases n - i,
    {
        let ghost pre_cte = context;
        cte_visitor.visit(tree, i, &mut context);
        proof {
            assert forall|e: int, k: int|
                0 <= e < context.graph@.len() && 0 <= k < context.graph@[e].1.columns.len()
                    implies (#[trigger] context.graph@[e].1.columns[k]).row >= 1
                    && context.graph@[e].1.columns[k].col >= 1 by {
                if context.graph@ != pre_cte.graph@ {
                    if e < pre_cte.graph@.len() {
                        assert(context.graph@[e] == pre_cte.graph@[e]);
                    } else {
                        let sl = crate::visitors::cte_visitor::spec_cte_select_list(
                            *tree,
                            i as int,
                        ).unwrap();
                        crate::visitors::cte_visitor::lemma_collect_columns_positions(
                            *tree,
                            sl as int,
                            pre_cte.cte_columns@,
                        );
                    }
                }
            }
        }
        select_star_visitor.visit(tree, i, &mut context);
        select_visitor.visit(tree, i, &mut context);
        where_visitor.visit(tree, i, &mut context);
        qualify_visitor.visit(tree, i, &mut context);
        pivot_visitor.visit(tree, i, &mut context);
        i = i + 1;
    }

    let unused_columns = context.collect_unused();
    proof {
        lemma_sort_by_pos_properties(crate::graph::spec_all_unused(context.graph@));
        crate::graph::lemma_all_unused_positions(context.graph@);
        broadcast use vstd::seq_lib::group_to_multiset_ensures;

        let sviews = unused_columns@.map_values(|c: ColumnInfo| c@);
        let all = crate::graph::spec_all_unused(context.graph@);
        assert forall|a: int|
            0 <= a < sviews.len() implies (#[trigger] sviews[a]).row >= 1 && sviews[a].col
            >= 1 by {
            assert(sviews.to_multiset().contains(sviews[a])) by {
                assert(sviews.contains(sviews[a]));
            }
            assert(all.contains(sviews[a]));
            let w = choose|w: int| 0 <= w < all.len() && all[w] == sviews[a];
        }
        if forall|j: int|
            0 <= j < tree.nodes@.len() ==> (#[trigger] tree.nodes@[j]).kind@ != "cte"@ {
            assert(context.graph@.len() == 0);
            assert(crate::graph::spec_all_unused(context.graph@) =~= Seq::<
                crate::models::ColumnView,
            >::empty());
        }
    }
    if unused_columns.len() == 0 {
        return None;
    }

    let ghost uviews = unused_columns@.map_values(|c: ColumnInfo| c@);
    let mut diagnostics: Vec<Diagnostic> = Vec::new();
    let m = unused_columns.len();
    let mut k: usize = 0;
    while k < m
        invariant
            m == unused_columns@.len(),
            uviews == unused_columns@.map_values(|c: ColumnInfo| c@),
            0 <= k <= m,
            diagnostics@.len() == k,
            forall|a: int|
                0 <= a < k ==> (#[trigger] diagnostics@[a]@).row == uviews[a].row
                    && diagnostics@[a]@.col == uviews[a].col && diagnostics@[a]@.message
                    == unused_message(uviews[a].column_name),
        decreases m - k,
    {
        let col = &unused_columns[k];
        let mut message = String::from_str("Unused column: ");
        message.append(col.column_name.as_str());
        diagnostics.push(Diagnostic::new(col.row, col.col, message));
        k = k + 1;
    }
    proof {
        assert forall|a: int, b: int|
            0 <= a < b < diagnostics@.len() implies diag_le(
            #[trigger] diagnostics@[a]@,
            #[trigger] diagnostics@[b]@,
        ) by {
            assert(crate::models::pos_le(uviews[a], uviews[b]));
        }
        assert forall|a: int|
            0 <= a < diagnostics@.len() implies is_unused_message(
            (#[trigger] diagnostics@[a]@).message,
        ) by {
            assert(diagnostics@[a]@.message == unused_message(uviews[a].column_name));
        }
        assert forall|a: int|
            0 <= a < diagnostics@.len() implies (#[trigger] diagnostics@[a]@).row >= 1
                && diagnostics@[a]@.col >= 1 by {
            assert(uviews[a].row >= 1 && uviews[a].col >= 1);
        }
    }
    Some(diagnostics)
}

} // verus!
