//! The traversal visitors: independent units, each inspecting one node kind
//! per step and updating the analysis context. This module holds what they
//! share: the context-evolution predicates, navigation and FROM-clause
//! helpers, and the reference-marking walk.

use vstd::prelude::*;

pub mod cte_visitor;
pub mod distinct_visitor;
pub mod pivot_visitor;
pub mod qualify_visitor;
pub mod select_star_visitor;
pub mod select_visitor;
pub mod where_visitor;

pub use cte_visitor::CteVisitor;
pub use distinct_visitor::DistinctVisitor;
pub use pivot_visitor::PivotVisitor;
pub use qualify_visitor::QualifyVisitor;
pub use select_star_visitor::SelectStarVisitor;
pub use select_visitor::{SelectVisitor, is_column_match, mark_used_columns};
pub use where_visitor::WhereVisitor;

verus! {

use vstd::string::StrSliceExecFns;
use crate::context::AnalysisContext;
use crate::graph::{CteNodeView, spec_find_cte, spec_mark_node};
use crate::models::{ColumnInfo, ColumnView, clone_string};
use crate::tree::{SqlNode, SqlTree};
use crate::utils::{AliasMap, extract_column_name, find_original_table, spec_base_name,
    spec_find_original_table};

/// One marking step leaves the collected CTEs and their columns untouched
/// and only adds to the used sets.
pub open spec fn marks_grow<'a>(pre: AnalysisContext<'a>, post: AnalysisContext<'a>) -> bool {
    &&& post.sql@ == pre.sql@
    &&& post.cte_columns@ == pre.cte_columns@
    &&& post.graph@.len() == pre.graph@.len()
    &&& forall|j: int|
        0 <= j < post.graph@.len() ==> (#[trigger] post.graph@[j]).0 == pre.graph@[j].0
            && post.graph@[j].1.columns == pre.graph@[j].1.columns
    &&& forall|j: int, x: Seq<char>|
        0 <= j < post.graph@.len() && #[trigger] pre.graph@[j].1.used.contains(x)
            ==> post.graph@[j].1.used.contains(x)
}

/// A collecting step may add CTE entries at the end but never disturbs the
/// ones already present.
pub open spec fn ctes_grow<'a>(pre: AnalysisContext<'a>, post: AnalysisContext<'a>) -> bool {
    &&& post.sql@ == pre.sql@
    &&& pre.graph@.len() <= post.graph@.len()
    &&& forall|j: int| 0 <= j < pre.graph@.len() ==> #[trigger] post.graph@[j] == pre.graph@[j]
    &&& pre.cte_columns@.len() <= post.cte_columns@.len()
    &&& forall|j: int|
        0 <= j < pre.cte_columns@.len() ==> #[trigger] post.cte_columns@[j]
            == pre.cte_columns@[j]
}

/// The text of one node as an owned string.
pub(crate) fn node_text(tree: &SqlTree, i: usize) -> (res: String)
    requires
        i < tree.nodes@.len(),
    ensures
        res@ == tree.nodes@[i as int].text@,
{
    clone_string(&tree.nodes[i].text)
}

/// The text of the `alias_name` child of a CTE node.
pub open spec fn spec_cte_name(tree: SqlTree, cte_node: int) -> Option<Seq<char>> {
    match tree.spec_child_by_field(cte_node, "alias_name"@) {
        Some(c) => Some(tree.nodes@[c as int].text@),
        None => None,
    }
}

/// The CTE's name from its `alias_name` field, if discoverable.
pub fn get_cte_name(tree: &SqlTree, cte_node: usize) -> (res: Option<String>)
    requires
        tree.wf(),
        cte_node < tree.nodes@.len(),
    ensures
        match res {
            Some(s) => spec_cte_name(*tree, cte_node as int) == Some(s@),
            None => spec_cte_name(*tree, cte_node as int) is None,
        },
{
    match tree.child_by_field_name(cte_node, "alias_name") {
        Some(n) => Some(node_text(tree, n)),
        None => None,
    }
}

/// Node `i` is the name part of a function call: its parent is a
/// `function_call` and `i` sits under the `function` field, or is the first
/// child when that field is absent.
pub open spec fn spec_is_function_name(tree: SqlTree, i: usize) -> bool {
    match tree.nodes@[i as int].parent {
        Some(p) => tree.nodes@[p as int].kind@ == "function_call"@ && (match tree.spec_child_by_field(
            p as int,
            "function"@,
        ) {
            Some(f) => f == i,
            None => tree.nodes@[p as int].children@.len() > 0 && tree.nodes@[p as int].children@[0]
                == i,
        }),
        None => false,
    }
}

/// Whether node `i` is the name part of a function call, found through the
/// parent's `function` field or its first child.
pub fn is_function_name(tree: &SqlTree, i: usize) -> (res: bool)
    requires
        tree.wf(),
        i < tree.nodes@.len(),
    ensures
        res == spec_is_function_name(*tree, i),
{
    let p = match tree.nodes[i].parent {
        Some(p) => p,
        None => {
            return false;
        },
    };
    if !tree.kind_is(p, "function_call") {
        return false;
    }
    match tree.child_by_field_name(p, "function") {
        Some(f) => f == i,
        None => {
            let children = &tree.nodes[p].children;
            if children.len() > 0 {
                children[0] == i
            } else {
                false
            }
        },
    }
}

/// Node `i` is the callee name of a function call through the parent's
/// `name` field.
pub open spec fn spec_is_call_name_field(tree: SqlTree, i: usize) -> bool {
    match tree.nodes@[i as int].parent {
        Some(p) => tree.nodes@[p as int].kind@ == "function_call"@ && (match tree.spec_child_by_field(
            p as int,
            "name"@,
        ) {
            Some(f) => f == i,
            None => false,
        }),
        None => false,
    }
}

/// Whether node `i` is the callee name of a function call, found through the
/// parent's `name` field.
pub(crate) fn is_call_name_field(tree: &SqlTree, i: usize) -> (res: bool)
    requires
        tree.wf(),
        i < tree.nodes@.len(),
    ensures
        res == spec_is_call_name_field(*tree, i),
{
    let p = match tree.nodes[i].parent {
        Some(p) => p,
        None => {
            return false;
        },
    };
    if !tree.kind_is(p, "function_call") {
        return false;
    }
    match tree.child_by_field_name(p, "name") {
        Some(f) => f == i,
        None => false,
    }
}


/// First named entry of `children`.
pub open spec fn spec_first_named(nodes: Seq<SqlNode>, children: Seq<usize>) -> Option<usize>
    decreases children.len(),
{
    if children.len() == 0 {
        None
    } else if nodes[children[0] as int].named {
        Some(children[0])
    } else {
        spec_first_named(nodes, children.subrange(1, children.len() as int))
    }
}

/// Last named entry of `children`.
pub open spec fn spec_last_named(nodes: Seq<SqlNode>, children: Seq<usize>) -> Option<usize>
    decreases children.len(),
{
    if children.len() == 0 {
        None
    } else if nodes[children.last() as int].named {
        Some(children.last())
    } else {
        spec_last_named(nodes, children.drop_last())
    }
}

/// First entry of `children` with this kind, named or not.
pub open spec fn spec_first_of_kind(
    nodes: Seq<SqlNode>,
    children: Seq<usize>,
    kind: Seq<char>,
) -> Option<usize>
    decreases children.len(),
{
    if children.len() == 0 {
        None
    } else if nodes[children[0] as int].kind@ == kind {
        Some(children[0])
    } else {
        spec_first_of_kind(nodes, children.subrange(1, children.len() as int), kind)
    }
}

/// The base table a `from_item` names: the text of its first named child,
/// when that child is an identifier.
pub open spec fn spec_from_item_table(tree: SqlTree, i: int) -> Option<Seq<char>> {
    match spec_first_named(tree.nodes@, tree.nodes@[i].children@) {
        Some(c) => {
            if tree.nodes@[c as int].kind@ == "identifier"@ {
                Some(tree.nodes@[c as int].text@)
            } else {
                None
            }
        },
        None => None,
    }
}

/// The alias a `from_item` binds: the text of the last named child of its
/// first `as_alias` child.
pub open spec fn spec_from_item_alias_name(tree: SqlTree, i: int) -> Option<Seq<char>> {
    match spec_first_of_kind(tree.nodes@, tree.nodes@[i].children@, "as_alias"@) {
        Some(x) => {
            match spec_last_named(tree.nodes@, tree.nodes@[x as int].children@) {
                Some(a) => Some(tree.nodes@[a as int].text@),
                None => None,
            }
        },
        None => None,
    }
}

/// The table list one node contributes: one entry for a `from_item` with a
/// recognisable base table, nothing otherwise.
pub open spec fn spec_item_tables(tree: SqlTree, i: int) -> Seq<Seq<char>> {
    if tree.nodes@[i].kind@ == "from_item"@ {
        match spec_from_item_table(tree, i) {
            Some(t) => seq![t],
            None => Seq::empty(),
        }
    } else {
        Seq::empty()
    }
}

/// The alias bindings one node contributes: one `(alias, table)` pair when a
/// `from_item` has both a base table and an alias.
pub open spec fn spec_item_aliases(tree: SqlTree, i: int) -> Seq<(Seq<char>, Seq<char>)> {
    if tree.nodes@[i].kind@ == "from_item"@ {
        match (spec_from_item_table(tree, i), spec_from_item_alias_name(tree, i)) {
            (Some(t), Some(a)) => seq![(a, t)],
            _ => Seq::empty(),
        }
    } else {
        Seq::empty()
    }
}

/// All base tables under node `i`, in document order.
pub open spec fn spec_tables_under(tree: SqlTree, i: int) -> Seq<Seq<char>>
    decreases tree.nodes@.len() - i, tree.nodes@[i].children@.len() + 1,
    when tree.wf() && 0 <= i < tree.nodes@.len()
{
    spec_item_tables(tree, i) + spec_tables_children(tree, i, 0)
}

pub open spec fn spec_tables_children(tree: SqlTree, i: int, k: int) -> Seq<Seq<char>>
    decreases tree.nodes@.len() - i, tree.nodes@[i].children@.len() - k,
    when tree.wf() && 0 <= i < tree.nodes@.len() && 0 <= k
{
    if k >= tree.nodes@[i].children@.len() {
        Seq::empty()
    } else {
        spec_tables_under(tree, tree.nodes@[i].children@[k] as int) + spec_tables_children(
            tree,
            i,
            k + 1,
        )
    }
}

/// All alias bindings under node `i`, in document order.
pub open spec fn spec_aliases_under(tree: SqlTree, i: int) -> Seq<(Seq<char>, Seq<char>)>
    decreases tree.nodes@.len() - i, tree.nodes@[i].children@.len() + 1,
    when tree.wf() && 0 <= i < tree.nodes@.len()
{
    spec_item_aliases(tree, i) + spec_aliases_children(tree, i, 0)
}

pub open spec fn spec_aliases_children(tree: SqlTree, i: int, k: int) -> Seq<
    (Seq<char>, Seq<char>),
>
    decreases tree.nodes@.len() - i, tree.nodes@[i].children@.len() - k,
    when tree.wf() && 0 <= i < tree.nodes@.len() && 0 <= k
{
    if k >= tree.nodes@[i].children@.len() {
        Seq::empty()
    } else {
        spec_aliases_under(tree, tree.nodes@[i].children@[k] as int) + spec_aliases_children(
            tree,
            i,
            k + 1,
        )
    }
}

/// The tables and aliases of a FROM subtree, as `extract_table` returns them.
pub open spec fn spec_extract_table(tree: SqlTree, from: Option<usize>) -> (
    Seq<Seq<char>>,
    Seq<(Seq<char>, Seq<char>)>,
) {
    match from {
        Some(f) => (spec_tables_under(tree, f as int), spec_aliases_under(tree, f as int)),
        None => (Seq::empty(), Seq::empty()),
    }
}

/// Collects the base tables of a FROM clause in order, and the alias
/// bindings found beside them.
fn collect_from_items(
    tree: &SqlTree,
    i: usize,
    tables: &mut Vec<String>,
    alias_map: &mut AliasMap,
)
    requires
        tree.wf(),
        i < tree.nodes@.len(),
    ensures
        final(tables)@.map_values(|t: String| t@) == old(tables)@.map_values(|t: String| t@)
            + spec_tables_under(*tree, i as int),
        final(alias_map)@ == old(alias_map)@ + spec_aliases_under(*tree, i as int),
    decreases tree.nodes@.len() - i,
{
    let ghost t_entry = tables@.map_values(|t: String| t@);
    let ghost a_entry = alias_map@;
    if tree.kind_is(i, "from_item") {
        let children = &tree.nodes[i].children;
        let n = children.len();
        let mut first_named: Option<usize> = None;
        let mut k: usize = 0;
        proof {
            assert(children@.subrange(0, n as int) =~= children@);
        }
        while k < n && first_named.is_none()
            invariant
                tree.wf(),
                i < tree.nodes@.len(),
                children@ == tree.nodes@[i as int].children@,
                n == children@.len(),
                0 <= k <= n,
                first_named is None ==> spec_first_named(tree.nodes@, children@)
                    == spec_first_named(tree.nodes@, children@.subrange(k as int, n as int)),
                first_named matches Some(c) ==> c < tree.nodes@.len() && spec_first_named(
                    tree.nodes@,
                    children@,
                ) == Some(c),
            decreases n - k,
        {
            let c = children[k];
            proof {
                assert(children@.subrange(k as int, n as int)[0] == children@[k as int]);
                assert(children@.subrange(k as int, n as int).subrange(
                    1,
                    (n - k) as int,
                ) =~= children@.subrange(k + 1, n as int));
            }
            if tree.nodes[c].named {
                first_named = Some(c);
            }
            k = k + 1;
        }
        proof {
            if first_named is None {
                assert(children@.subrange(n as int, n as int) =~= Seq::<usize>::empty());
            }
        }
        match first_named {
            Some(c) => {
                if tree.kind_is(c, "identifier") {
                    let table_name = node_text(tree, c);
                    tables.push(clone_string(&table_name));
                    proof {
                        assert(tables@.map_values(|t: String| t@) =~= t_entry + spec_item_tables(
                            *tree,
                            i as int,
                        ));
                    }
                    let mut k2: usize = 0;
                    let mut done: bool = false;
                    proof {
                        assert(children@.subrange(0, n as int) =~= children@);
                    }
                    while k2 < n && !done
                        invariant
                            tree.wf(),
                            i < tree.nodes@.len(),
                            children@ == tree.nodes@[i as int].children@,
                            n == children@.len(),
                            0 <= k2 <= n,
                            tree.nodes@[i as int].kind@ == "from_item"@,
                            spec_from_item_table(*tree, i as int) == Some(table_name@),
                            spec_item_tables(*tree, i as int) == seq![table_name@],
                            !done ==> alias_map@ == a_entry && spec_first_of_kind(
                                tree.nodes@,
                                children@,
                                "as_alias"@,
                            ) == spec_first_of_kind(
                                tree.nodes@,
                                children@.subrange(k2 as int, n as int),
                                "as_alias"@,
                            ),
                            done ==> alias_map@ == a_entry + spec_item_aliases(*tree, i as int),
                        decreases n - k2,
                    {
                        let c2 = children[k2];
                        proof {
                            assert(children@.subrange(k2 as int, n as int)[0]
                                == children@[k2 as int]);
                            assert(children@.subrange(k2 as int, n as int).subrange(
                                1,
                                (n - k2) as int,
                            ) =~= children@.subrange(k2 + 1, n as int));
                        }
                        if !done && tree.kind_is(c2, "as_alias") {
                            let inner = &tree.nodes[c2].children;
                            let m = inner.len();
                            let mut last_named: Option<usize> = None;
                            let mut k3: usize = 0;
                            proof {
                                assert(inner@.subrange(0, 0) =~= Seq::<usize>::empty());
                            }
                            while k3 < m
                                invariant
                                    tree.wf(),
                                    c2 < tree.nodes@.len(),
                                    inner@ == tree.nodes@[c2 as int].children@,
                                    m == inner@.len(),
                                    0 <= k3 <= m,
                                    last_named matches Some(a) ==> a < tree.nodes@.len(),
                                    last_named == spec_last_named(
                                        tree.nodes@,
                                        inner@.subrange(0, k3 as int),
                                    ),
                                decreases m - k3,
                            {
                                let a = inner[k3];
                                proof {
                                    assert(inner@.subrange(0, k3 + 1).last()
                                        == inner@[k3 as int]);
                                    assert(inner@.subrange(0, k3 + 1).drop_last()
                                        =~= inner@.subrange(0, k3 as int));
                                }
                                if tree.nodes[a].named {
                                    last_named = Some(a);
                                }
                                k3 = k3 + 1;
                            }
                            proof {
                                assert(inner@.subrange(0, m as int) =~= inner@);
                            }
                            proof {
                                assert(spec_first_of_kind(
                                    tree.nodes@,
                                    children@.subrange(k2 as int, n as int),
                                    "as_alias"@,
                                ) == Some(c2));
                                assert(spec_first_of_kind(tree.nodes@, children@, "as_alias"@)
                                    == Some(c2));
                            }
                            match last_named {
                                Some(a) => {
                                    proof {
                                        assert(spec_from_item_alias_name(*tree, i as int) == Some(
                                            tree.nodes@[a as int].text@,
                                        ));
                                    }
                                    alias_map.insert(node_text(tree, a), clone_string(&table_name));
                                    proof {
                                        assert(alias_map@ =~= a_entry + spec_item_aliases(
                                            *tree,
                                            i as int,
                                        ));
                                    }
                                },
                                None => {
                                    proof {
                                        assert(spec_from_item_alias_name(*tree, i as int)
                                            is None);
                                        assert(alias_map@ =~= a_entry + spec_item_aliases(
                                            *tree,
                                            i as int,
                                        ));
                                    }
                                },
                            }
                            done = true;
                        }
                        k2 = k2 + 1;
                    }
                    proof {
                        if !done {
                            assert(children@.subrange(n as int, n as int) =~= Seq::<
                                usize,
                            >::empty());
                            assert(alias_map@ =~= a_entry + spec_item_aliases(*tree, i as int));
                        }
                    }
                }
            },
            None => {},
        }
    }
    proof {
        assert(tables@.map_values(|t: String| t@) =~= t_entry + spec_item_tables(*tree, i as int));
        assert(alias_map@ =~= a_entry + spec_item_aliases(*tree, i as int));
    }
    let children = &tree.nodes[i].children;
    let n = children.len();
    let mut k: usize = 0;
    while k < n
        invariant
            tree.wf(),
            i < tree.nodes@.len(),
            children@ == tree.nodes@[i as int].children@,
            n == children@.len(),
            0 <= k <= n,
            t_entry + spec_tables_under(*tree, i as int) =~= tables@.map_values(|t: String| t@)
                + spec_tables_children(*tree, i as int, k as int),
            a_entry + spec_aliases_under(*tree, i as int) =~= alias_map@ + spec_aliases_children(
                *tree,
                i as int,
                k as int,
            ),
        decreases n - k,
    {
        let c = children[k];
        let ghost t_pre = tables@.map_values(|t: String| t@);
        let ghost a_pre = alias_map@;
        collect_from_items(tree, c, tables, alias_map);
        proof {
            assert(t_entry + spec_tables_under(*tree, i as int) =~= tables@.map_values(
                |t: String| t@,
            ) + spec_tables_children(*tree, i as int, k + 1)) by {
                assert(spec_tables_children(*tree, i as int, k as int) =~= spec_tables_under(
                    *tree,
                    c as int,
                ) + spec_tables_children(*tree, i as int, k + 1));
            }
            assert(a_entry + spec_aliases_under(*tree, i as int) =~= alias_map@
                + spec_aliases_children(*tree, i as int, k + 1)) by {
                assert(spec_aliases_children(*tree, i as int, k as int) =~= spec_aliases_under(
                    *tree,
                    c as int,
                ) + spec_aliases_children(*tree, i as int, k + 1));
            }
        }
        k = k + 1;
    }
    proof {
        assert(spec_tables_children(*tree, i as int, n as int) =~= Seq::<Seq<char>>::empty());
        assert(spec_aliases_children(*tree, i as int, n as int) =~= Seq::<
            (Seq<char>, Seq<char>),
        >::empty());
        assert(tables@.map_values(|t: String| t@) =~= t_entry + spec_tables_under(
            *tree,
            i as int,
        ));
        assert(alias_map@ =~= a_entry + spec_aliases_under(*tree, i as int));
    }
}

/// Tables and aliases of a FROM clause: the base table or CTE names in
/// document order, and each alias bound to its base table, exactly as the
/// FROM subtree shows them.
pub fn extract_table(tree: &SqlTree, from: Option<usize>) -> (res: (Vec<String>, AliasMap))
    requires
        tree.wf(),
        from matches Some(f) ==> f < tree.nodes@.len(),
    ensures
        res.0@.map_values(|t: String| t@) == spec_extract_table(*tree, from).0,
        res.1@ == spec_extract_table(*tree, from).1,
{
    let mut tables: Vec<String> = Vec::new();
    let mut alias_map = AliasMap::new();
    proof {
        assert(tables@.map_values(|t: String| t@) =~= Seq::<Seq<char>>::empty());
    }
    match from {
        Some(f) => {
            collect_from_items(tree, f, &mut tables, &mut alias_map);
            proof {
                assert(tables@.map_values(|t: String| t@) =~= spec_tables_under(*tree, f as int));
                assert(alias_map@ =~= spec_aliases_under(*tree, f as int));
            }
        },
        None => {},
    }
    (tables, alias_map)
}

/// Pointwise growth of the used sets preserves every mark and never changes
/// which CTE names resolve.
pub(crate) proof fn lemma_pointwise_find(
    g1: Seq<(Seq<char>, CteNodeView)>,
    g2: Seq<(Seq<char>, CteNodeView)>,
)
    requires
        g1.len() == g2.len(),
        forall|j: int| 0 <= j < g1.len() ==> (#[trigger] g2[j]).0 == g1[j].0,
        forall|j: int, x: Seq<char>|
            0 <= j < g1.len() && #[trigger] g1[j].1.used.contains(x) ==> g2[j].1.used.contains(x),
    ensures
        forall|t: Seq<char>, c: Seq<char>| #[trigger] is_marked(g1, t, c) ==> is_marked(g2, t, c),
        forall|t: Seq<char>|
            (#[trigger] spec_find_cte(g2, t)) is Some <==> spec_find_cte(g1, t) is Some,
    decreases g1.len(),
{
    if g1.len() == 0 {
    } else {
        let r1 = g1.subrange(1, g1.len() as int);
        let r2 = g2.subrange(1, g2.len() as int);
        assert forall|j: int| 0 <= j < r1.len() implies (#[trigger] r2[j]).0 == r1[j].0 by {
            assert(r1[j] == g1[j + 1] && r2[j] == g2[j + 1]);
        }
        assert forall|j: int, x: Seq<char>|
            0 <= j < r1.len() && #[trigger] r1[j].1.used.contains(x) implies r2[j].1.used.contains(
            x,
        ) by {
            assert(r1[j] == g1[j + 1] && r2[j] == g2[j + 1]);
        }
        lemma_pointwise_find(r1, r2);
        assert(g2[0].0 == g1[0].0);
        assert forall|t: Seq<char>, c: Seq<char>| #[trigger] is_marked(g1, t, c) implies is_marked(
            g2,
            t,
            c,
        ) by {
            if g1[0].0 != t {
                assert(spec_find_cte(g1, t) == spec_find_cte(r1, t));
                assert(spec_find_cte(g2, t) == spec_find_cte(r2, t));
                assert(is_marked(r1, t, c));
                assert(is_marked(r2, t, c));
            } else {
                assert(spec_find_cte(g1, t) == Some(g1[0].1));
                assert(g1[0].1.used.contains(c));
                assert(g2[0].1.used.contains(c));
                assert(spec_find_cte(g2, t) == Some(g2[0].1));
            }
        }
        assert forall|t: Seq<char>|
            (#[trigger] spec_find_cte(g2, t)) is Some <==> spec_find_cte(g1, t) is Some by {
            if g1[0].0 != t {
                assert(spec_find_cte(g1, t) == spec_find_cte(r1, t));
                assert(spec_find_cte(g2, t) == spec_find_cte(r2, t));
            }
        }
    }
}

/// The character sequences of a vector of strings.
pub open spec fn view_strings(v: Seq<String>) -> Seq<Seq<char>> {
    v.map_values(|t: String| t@)
}

/// Whether a node counts as a column-like reference for the marking walk.
pub open spec fn spec_is_ref_node(tree: SqlTree, i: int, with_input_column: bool) -> bool {
    tree.nodes@[i].kind@ == "field"@ || tree.nodes@[i].kind@ == "identifier"@ || (
    with_input_column && tree.nodes@[i].kind@ == "input_column"@)
}

/// The `(table, base name)` pair one reference resolves to, when the
/// resolution yields a table at all.
pub open spec fn spec_ref_pair(
    tree: SqlTree,
    i: int,
    tables: Seq<Seq<char>>,
    amap: Seq<(Seq<char>, Seq<char>)>,
    ctes: Seq<(Seq<char>, Seq<ColumnView>)>,
) -> Option<(Seq<char>, Seq<char>)> {
    let text = tree.nodes@[i].text@;
    let t = spec_find_original_table(text, tables, amap, ctes);
    if t.len() > 0 {
        Some((t, spec_base_name(text)))
    } else {
        None
    }
}

/// Every resolvable reference pair under node `i`, in document order: a
/// reference that is a function-call name stops the walk there.
pub open spec fn spec_refs_under(
    tree: SqlTree,
    i: int,
    tables: Seq<Seq<char>>,
    amap: Seq<(Seq<char>, Seq<char>)>,
    ctes: Seq<(Seq<char>, Seq<ColumnView>)>,
    with_input_column: bool,
) -> Seq<(Seq<char>, Seq<char>)>
    decreases tree.nodes@.len() - i, tree.nodes@[i].children@.len() + 1,
    when tree.wf() && 0 <= i < tree.nodes@.len()
{
    if spec_is_ref_node(tree, i, with_input_column) && spec_is_call_name_field(tree, i as usize) {
        Seq::empty()
    } else {
        let own: Seq<(Seq<char>, Seq<char>)> = if spec_is_ref_node(tree, i, with_input_column) {
            match spec_ref_pair(tree, i, tables, amap, ctes) {
                Some(p) => seq![p],
                None => Seq::empty(),
            }
        } else {
            Seq::empty()
        };
        own + spec_refs_children(tree, i, 0, tables, amap, ctes, with_input_column)
    }
}

pub open spec fn spec_refs_children(
    tree: SqlTree,
    i: int,
    k: int,
    tables: Seq<Seq<char>>,
    amap: Seq<(Seq<char>, Seq<char>)>,
    ctes: Seq<(Seq<char>, Seq<ColumnView>)>,
    with_input_column: bool,
) -> Seq<(Seq<char>, Seq<char>)>
    decreases tree.nodes@.len() - i, tree.nodes@[i].children@.len() - k,
    when tree.wf() && 0 <= i < tree.nodes@.len() && 0 <= k
{
    if k >= tree.nodes@[i].children@.len() {
        Seq::empty()
    } else {
        spec_refs_under(
            tree,
            tree.nodes@[i].children@[k] as int,
            tables,
            amap,
            ctes,
            with_input_column,
        ) + spec_refs_children(tree, i, k + 1, tables, amap, ctes, with_input_column)
    }
}

/// Membership in a concatenation splits over the parts.
pub(crate) proof fn lemma_add_contains<A>(a: Seq<A>, b: Seq<A>, x: A)
    ensures
        (a + b).contains(x) <==> a.contains(x) || b.contains(x),
{
    if (a + b).contains(x) {
        let k = choose|k: int| 0 <= k < (a + b).len() && (a + b)[k] == x;
        if k < a.len() {
            assert(a[k] == x);
        } else {
            assert(b[k - a.len()] == x);
        }
    }
    if a.contains(x) {
        let k = choose|k: int| 0 <= k < a.len() && a[k] == x;
        assert((a + b)[k] == x);
    }
    if b.contains(x) {
        let k = choose|k: int| 0 <= k < b.len() && b[k] == x;
        assert((a + b)[a.len() + k] == x);
    }
}

/// Recursively resolves and marks every column-like reference under a node,
/// skipping function names; with `with_input_column`, `input_column` nodes
/// count as references too. Every resolvable reference whose table is a
/// collected CTE ends up marked.
pub(crate) fn mark_fields_under<'a>(
    tree: &SqlTree,
    i: usize,
    tables: &Vec<String>,
    alias_map: &AliasMap,
    context: &mut AnalysisContext<'a>,
    with_input_column: bool,
)
    requires
        tree.wf(),
        i < tree.nodes@.len(),
        old(context).wf(),
    ensures
        final(context).wf(),
        marks_grow(*old(context), *final(context)),
        forall|p: (Seq<char>, Seq<char>)|
            #[trigger] spec_refs_under(
                *tree,
                i as int,
                view_strings(tables@),
                alias_map@,
                old(context).cte_columns@,
                with_input_column,
            ).contains(p) && spec_find_cte(old(context).graph@, p.0) is Some ==> is_marked(
                final(context).graph@,
                p.0,
                p.1,
            ),
        forall|t: Seq<char>, c: Seq<char>|
            #[trigger] is_marked(final(context).graph@, t, c) && !is_marked(
                old(context).graph@,
                t,
                c,
            ) ==> spec_refs_under(
                *tree,
                i as int,
                view_strings(tables@),
                alias_map@,
                old(context).cte_columns@,
                with_input_column,
            ).contains((t, c)),
    decreases tree.nodes@.len() - i,
{
    let ghost entry = *context;
    let ghost tviews = view_strings(tables@);
    let ghost refs_full = spec_refs_under(
        *tree,
        i as int,
        tviews,
        alias_map@,
        entry.cte_columns@,
        with_input_column,
    );
    let is_ref = tree.kind_is(i, "field") || tree.kind_is(i, "identifier") || (with_input_column
        && tree.kind_is(i, "input_column"));
    proof {
        assert(is_ref == spec_is_ref_node(*tree, i as int, with_input_column));
    }
    if is_ref {
        if is_call_name_field(tree, i) {
            proof {
                assert(refs_full =~= Seq::<(Seq<char>, Seq<char>)>::empty());
            }
            return;
        }
        let field_text = node_text(tree, i);
        let col_name = extract_column_name(field_text.as_str());
        let table = find_original_table(
            field_text.as_str(),
            tables,
            alias_map,
            &context.cte_columns,
        );
        if table.unicode_len() > 0 {
            let col_owned = col_name.to_owned();
            let ghost g_before = context.graph@;
            context.mark_used(table.as_str(), col_owned.as_str());
            proof {
                lemma_mark_step(g_before, context.graph@, table@, col_owned@);
                assert(spec_ref_pair(*tree, i as int, tviews, alias_map@, entry.cte_columns@)
                    == Some((table@, col_owned@)));
            }
        }
    }
    let ghost own: Seq<(Seq<char>, Seq<char>)> = if spec_is_ref_node(
        *tree,
        i as int,
        with_input_column,
    ) {
        match spec_ref_pair(*tree, i as int, tviews, alias_map@, entry.cte_columns@) {
            Some(p) => seq![p],
            None => Seq::empty(),
        }
    } else {
        Seq::empty()
    };
    proof {
        assert(refs_full == own + spec_refs_children(
            *tree,
            i as int,
            0,
            tviews,
            alias_map@,
            entry.cte_columns@,
            with_input_column,
        ));
        assert forall|p: (Seq<char>, Seq<char>)|
            #[trigger] own.contains(p) && spec_find_cte(entry.graph@, p.0) is Some implies
            is_marked(context.graph@, p.0, p.1) by {
            assert(own[0] == p);
        }
        assert forall|t: Seq<char>, c: Seq<char>|
            #[trigger] is_marked(context.graph@, t, c) && !is_marked(entry.graph@, t, c) implies
            refs_full.contains((t, c)) by {
            assert(own.contains((t, c))) by {
                assert(own[0] == (t, c));
            }
            lemma_add_contains(
                own,
                spec_refs_children(
                    *tree,
                    i as int,
                    0,
                    tviews,
                    alias_map@,
                    entry.cte_columns@,
                    with_input_column,
                ),
                (t, c),
            );
        }
        assert forall|p: (Seq<char>, Seq<char>)|
            #[trigger] spec_refs_children(
                *tree,
                i as int,
                0,
                tviews,
                alias_map@,
                entry.cte_columns@,
                with_input_column,
            ).contains(p) implies refs_full.contains(p) by {
            lemma_add_contains(
                own,
                spec_refs_children(
                    *tree,
                    i as int,
                    0,
                    tviews,
                    alias_map@,
                    entry.cte_columns@,
                    with_input_column,
                ),
                p,
            );
        }
    }
    let children = &tree.nodes[i].children;
    let n = children.len();
    let mut k: usize = 0;
    while k < n
        invariant
            tree.wf(),
            i < tree.nodes@.len(),
            children@ == tree.nodes@[i as int].children@,
            n == children@.len(),
            0 <= k <= n,
            context.wf(),
            marks_grow(entry, *context),
            tviews == view_strings(tables@),
            refs_full == spec_refs_under(
                *tree,
                i as int,
                tviews,
                alias_map@,
                entry.cte_columns@,
                with_input_column,
            ),
            forall|p: (Seq<char>, Seq<char>)|
                #[trigger] refs_full.contains(p) && spec_find_cte(entry.graph@, p.0) is Some
                    ==> is_marked(context.graph@, p.0, p.1) || spec_refs_children(
                    *tree,
                    i as int,
                    k as int,
                    tviews,
                    alias_map@,
                    entry.cte_columns@,
                    with_input_column,
                ).contains(p),
            forall|t: Seq<char>, c: Seq<char>|
                #[trigger] is_marked(context.graph@, t, c) && !is_marked(entry.graph@, t, c)
                    ==> refs_full.contains((t, c)),
            forall|p: (Seq<char>, Seq<char>)|
                #[trigger] spec_refs_children(
                    *tree,
                    i as int,
                    k as int,
                    tviews,
                    alias_map@,
                    entry.cte_columns@,
                    with_input_column,
                ).contains(p) ==> refs_full.contains(p),
        decreases n - k,
    {
        let c = children[k];
        let ghost g_pre = context.graph@;
        mark_fields_under(tree, c, tables, alias_map, context, with_input_column);
        proof {
            lemma_pointwise_find(g_pre, context.graph@);
            lemma_pointwise_find(entry.graph@, g_pre);
            assert forall|p: (Seq<char>, Seq<char>)|
                #[trigger] refs_full.contains(p) && spec_find_cte(entry.graph@, p.0) is Some
                    implies is_marked(context.graph@, p.0, p.1) || spec_refs_children(
                *tree,
                i as int,
                k + 1,
                tviews,
                alias_map@,
                entry.cte_columns@,
                with_input_column,
            ).contains(p) by {
                let child_refs = spec_refs_under(
                    *tree,
                    c as int,
                    tviews,
                    alias_map@,
                    entry.cte_columns@,
                    with_input_column,
                );
                let rest = spec_refs_children(
                    *tree,
                    i as int,
                    k + 1,
                    tviews,
                    alias_map@,
                    entry.cte_columns@,
                    with_input_column,
                );
                assert(spec_refs_children(
                    *tree,
                    i as int,
                    k as int,
                    tviews,
                    alias_map@,
                    entry.cte_columns@,
                    with_input_column,
                ) == child_refs + rest);
                lemma_add_contains(child_refs, rest, p);
            }
            let ghost child_refs = spec_refs_under(
                *tree,
                c as int,
                tviews,
                alias_map@,
                entry.cte_columns@,
                with_input_column,
            );
            let ghost rest = spec_refs_children(
                *tree,
                i as int,
                k + 1,
                tviews,
                alias_map@,
                entry.cte_columns@,
                with_input_column,
            );
            let ghost at_k = spec_refs_children(
                *tree,
                i as int,
                k as int,
                tviews,
                alias_map@,
                entry.cte_columns@,
                with_input_column,
            );
            assert(at_k == child_refs + rest);
            assert forall|t: Seq<char>, c2: Seq<char>|
                #[trigger] is_marked(context.graph@, t, c2) && !is_marked(entry.graph@, t, c2)
                    implies refs_full.contains((t, c2)) by {
                if !is_marked(g_pre, t, c2) {
                    assert(child_refs.contains((t, c2)));
                    lemma_add_contains(child_refs, rest, (t, c2));
                    assert(at_k.contains((t, c2)));
                }
            }
            assert forall|p: (Seq<char>, Seq<char>)|
                #[trigger] rest.contains(p) implies refs_full.contains(p) by {
                lemma_add_contains(child_refs, rest, p);
                assert(at_k.contains(p));
            }
        }
        k = k + 1;
    }
    proof {
        assert(spec_refs_children(
            *tree,
            i as int,
            n as int,
            tviews,
            alias_map@,
            entry.cte_columns@,
            with_input_column,
        ) =~= Seq::<(Seq<char>, Seq<char>)>::empty());
    }
}

/// Whether this exact column name is marked used in this CTE of the graph.
pub open spec fn is_marked(g: Seq<(Seq<char>, CteNodeView)>, t: Seq<char>, c: Seq<char>) -> bool {
    match spec_find_cte(g, t) {
        Some(n) => n.used.contains(c),
        None => false,
    }
}

pub(crate) proof fn lemma_contains_push<A>(s: Seq<A>, x: A, y: A)
    requires
        s.contains(y),
    ensures
        s.push(x).contains(y),
{
    let k = choose|k: int| 0 <= k < s.len() && s[k] == y;
    assert(s.push(x)[k] == y);
}

pub(crate) proof fn lemma_push_contains_iff<A>(s: Seq<A>, x: A, y: A)
    ensures
        s.push(x).contains(y) <==> (s.contains(y) || y == x),
{
    if s.push(x).contains(y) {
        let k = choose|k: int| 0 <= k < s.push(x).len() && s.push(x)[k] == y;
        if k < s.len() {
            assert(s[k] == y);
        }
    }
    if s.contains(y) {
        let k = choose|k: int| 0 <= k < s.len() && s[k] == y;
        assert(s.push(x)[k] == y);
    }
    if y == x {
        assert(s.push(x)[s.len() as int] == y);
    }
}

/// Marking one pair keeps every existing mark, adds at most that pair, and
/// marks it whenever its CTE exists.
pub(crate) proof fn lemma_mark_step(
    g1: Seq<(Seq<char>, CteNodeView)>,
    g2: Seq<(Seq<char>, CteNodeView)>,
    t: Seq<char>,
    c: Seq<char>,
)
    requires
        forall|m: Seq<char>| m != t ==> spec_find_cte(g2, m) == spec_find_cte(g1, m),
        match spec_find_cte(g1, t) {
            Some(n) => spec_find_cte(g2, t) == Some(spec_mark_node(n, c)),
            None => g2 == g1,
        },
    ensures
        forall|tt: Seq<char>, cc: Seq<char>| #[trigger] is_marked(g1, tt, cc) ==> is_marked(
            g2,
            tt,
            cc,
        ),
        spec_find_cte(g1, t) is Some ==> is_marked(g2, t, c),
        forall|tt: Seq<char>, cc: Seq<char>| #[trigger] is_marked(g2, tt, cc) ==> is_marked(
            g1,
            tt,
            cc,
        ) || (tt == t && cc == c),
{
    assert forall|tt: Seq<char>, cc: Seq<char>| #[trigger] is_marked(g1, tt, cc) implies is_marked(
        g2,
        tt,
        cc,
    ) by {
        if tt == t {
            match spec_find_cte(g1, t) {
                Some(n) => {
                    if !n.used.contains(c) {
                        lemma_push_contains_iff(n.used, c, cc);
                    }
                },
                None => {},
            }
        }
    }
    match spec_find_cte(g1, t) {
        Some(n) => {
            if !n.used.contains(c) {
                lemma_push_contains_iff(n.used, c, c);
            }
        },
        None => {},
    }
    assert forall|tt: Seq<char>, cc: Seq<char>| #[trigger] is_marked(g2, tt, cc) implies is_marked(
        g1,
        tt,
        cc,
    ) || (tt == t && cc == c) by {
        if tt == t {
            match spec_find_cte(g1, t) {
                Some(n) => {
                    if !n.used.contains(c) {
                        lemma_push_contains_iff(n.used, c, cc);
                    }
                },
                None => {},
            }
        }
    }
}

/// Marks every collected column name of one table as used.
pub(crate) fn mark_all_columns_of<'a>(table: &str, context: &mut AnalysisContext<'a>)
    requires
        old(context).wf(),
    ensures
        final(context).wf(),
        marks_grow(*old(context), *final(context)),
        match crate::context::spec_lookup_columns(old(context).cte_columns@, table@) {
            Some(cols) => forall|k: int|
                0 <= k < cols.len() ==> is_marked(
                    final(context).graph@,
                    table@,
                    (#[trigger] cols[k]).column_name,
                ),
            None => final(context).graph@ == old(context).graph@,
        },
        forall|t: Seq<char>, c: Seq<char>|
            #[trigger] is_marked(final(context).graph@, t, c) && !is_marked(
                old(context).graph@,
                t,
                c,
            ) ==> t == table@ && (crate::context::spec_lookup_columns(
                old(context).cte_columns@,
                table@,
            ) matches Some(cols) && exists|k: int|
                0 <= k < cols.len() && (#[trigger] cols[k]).column_name == c),
{
    let ghost entry = *context;
    let ghost looked = crate::context::spec_lookup_columns(entry.cte_columns@, table@);
    let col_names: Vec<String> = match context.get_cte_columns(table) {
        Some(cols) => {
            let mut names: Vec<String> = Vec::new();
            let m = cols.len();
            let mut k: usize = 0;
            while k < m
                invariant
                    m == cols@.len(),
                    looked == Some(cols@.map_values(|c: ColumnInfo| c@)),
                    0 <= k <= m,
                    names@.len() == k,
                    forall|j: int| 0 <= j < k ==> (#[trigger] names@[j])@ == cols@[j]@.column_name,
                decreases m - k,
            {
                names.push(clone_string(&cols[k].column_name));
                k = k + 1;
            }
            names
        },
        None => Vec::new(),
    };
    let m = col_names.len();
    let mut k: usize = 0;
    while k < m
        invariant
            m == col_names@.len(),
            0 <= k <= m,
            context.wf(),
            marks_grow(entry, *context),
            entry.cte_columns@ == context.cte_columns@,
            looked == crate::context::spec_lookup_columns(entry.cte_columns@, table@),
            looked matches Some(cols) ==> m == cols.len() && (forall|j: int|
                0 <= j < m ==> (#[trigger] col_names@[j])@ == cols[j].column_name),
            looked is None ==> m == 0,
            looked is None ==> context.graph@ == entry.graph@,
            forall|j: int|
                0 <= j < k ==> is_marked(
                    context.graph@,
                    table@,
                    (#[trigger] col_names@[j])@,
                ),
            forall|t: Seq<char>, c: Seq<char>|
                #[trigger] is_marked(context.graph@, t, c) && !is_marked(entry.graph@, t, c)
                    ==> t == table@ && (exists|j: int|
                    0 <= j < k && (#[trigger] col_names@[j])@ == c),
        decreases m - k,
    {
        let ghost g_before = context.graph@;
        context.mark_used(table, col_names[k].as_str());
        proof {
            lemma_mark_step(g_before, context.graph@, table@, col_names@[k as int]@);
            crate::context::lemma_lookup_agrees(g_before, entry.cte_columns@, table@);
            assert forall|t: Seq<char>, c: Seq<char>|
                #[trigger] is_marked(context.graph@, t, c) && !is_marked(entry.graph@, t, c)
                    implies t == table@ && (exists|j: int|
                    0 <= j < k + 1 && (#[trigger] col_names@[j])@ == c) by {
                if !is_marked(g_before, t, c) {
                    assert(t == table@ && c == col_names@[k as int]@);
                }
            }
        }
        k = k + 1;
    }
    proof {
        if looked is None {
            assert(context.graph@ == entry.graph@);
        }
        match looked {
            Some(cols) => {
                assert forall|t: Seq<char>, c: Seq<char>|
                    #[trigger] is_marked(context.graph@, t, c) && !is_marked(entry.graph@, t, c)
                        implies t == table@ && (exists|kk: int|
                        0 <= kk < cols.len() && (#[trigger] cols[kk]).column_name == c) by {
                    let j = choose|j: int| 0 <= j < m && (#[trigger] col_names@[j])@ == c;
                    assert(cols[j].column_name == c);
                }
            },
            None => {},
        }
    }
    proof {
        match looked {
            Some(cols) => {
                assert forall|kk: int|
                    0 <= kk < cols.len() implies is_marked(
                    context.graph@,
                    table@,
                    (#[trigger] cols[kk]).column_name,
                ) by {
                    assert(col_names@[kk]@ == cols[kk].column_name);
                    assert(is_marked(context.graph@, table@, col_names@[kk]@));
                }
            },
            None => {},
        }
    }
}

/// ASCII lowercase folding of one character; others are unchanged.
pub open spec fn spec_lower_char(c: char) -> char {
    if c == 'A' { 'a' } else if c == 'B' { 'b' } else if c == 'C' { 'c' }
    else if c == 'D' { 'd' } else if c == 'E' { 'e' } else if c == 'F' { 'f' }
    else if c == 'G' { 'g' } else if c == 'H' { 'h' } else if c == 'I' { 'i' }
    else if c == 'J' { 'j' } else if c == 'K' { 'k' } else if c == 'L' { 'l' }
    else if c == 'M' { 'm' } else if c == 'N' { 'n' } else if c == 'O' { 'o' }
    else if c == 'P' { 'p' } else if c == 'Q' { 'q' } else if c == 'R' { 'r' }
    else if c == 'S' { 's' } else if c == 'T' { 't' } else if c == 'U' { 'u' }
    else if c == 'V' { 'v' } else if c == 'W' { 'w' } else if c == 'X' { 'x' }
    else if c == 'Y' { 'y' } else if c == 'Z' { 'z' } else { c }
}

/// Equality of two character sequences up to ASCII case.
pub open spec fn spec_ieq(a: Seq<char>, b: Seq<char>) -> bool {
    a.len() == b.len() && forall|j: int|
        0 <= j < a.len() ==> spec_lower_char(#[trigger] a[j]) == spec_lower_char(b[j])
}

/// The ASCII lowercase form of a character; other characters are unchanged.
pub(crate) fn lower_char(c: char) -> (res: char)
    ensures
        res == spec_lower_char(c),
{
    match c {
        'A' => 'a',
        'B' => 'b',
        'C' => 'c',
        'D' => 'd',
        'E' => 'e',
        'F' => 'f',
        'G' => 'g',
        'H' => 'h',
        'I' => 'i',
        'J' => 'j',
        'K' => 'k',
        'L' => 'l',
        'M' => 'm',
        'N' => 'n',
        'O' => 'o',
        'P' => 'p',
        'Q' => 'q',
        'R' => 'r',
        'S' => 's',
        'T' => 't',
        'U' => 'u',
        'V' => 'v',
        'W' => 'w',
        'X' => 'x',
        'Y' => 'y',
        'Z' => 'z',
        other => other,
    }
}

/// ASCII-case-insensitive string equality.
pub(crate) fn str_eq_ignore_ascii_case(a: &str, b: &str) -> (res: bool)
    ensures
        res == spec_ieq(a@, b@),
{
    let la = a.unicode_len();
    let lb = b.unicode_len();
    if la != lb {
        return false;
    }
    let mut i: usize = 0;
    while i < la
        invariant
            la == a@.len(),
            la == b@.len(),
            0 <= i <= la,
            forall|j: int| 0 <= j < i ==> spec_lower_char(#[trigger] a@[j]) == spec_lower_char(
                b@[j],
            ),
        decreases la - i,
    {
        if lower_char(a.get_char(i)) != lower_char(b.get_char(i)) {
            return false;
        }
        i = i + 1;
    }
    true
}

} // verus!
