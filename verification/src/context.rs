//! The analysis context: the dependency graph, a CTE-name-to-columns index
//! kept in sync with it, and the SQL source text, for one `check` run.

use vstd::prelude::*;

verus! {

use crate::graph::{CteNodeView, DependencyGraph, spec_find_cte, spec_mark_node, spec_all_unused,
    spec_sort_by_pos};
use crate::models::{ColumnInfo, ColumnView};
use crate::text::str_eq;

/// An index from CTE name to its columns; the first entry for a name wins.
pub struct CteIndex {
    pub entries: Vec<(String, Vec<ColumnInfo>)>,
}

impl View for CteIndex {
    type V = Seq<(Seq<char>, Seq<ColumnView>)>;

    open spec fn view(&self) -> Seq<(Seq<char>, Seq<ColumnView>)> {
        self.entries@.map_values(
            |p: (String, Vec<ColumnInfo>)| (p.0@, p.1@.map_values(|c: ColumnInfo| c@)),
        )
    }
}

/// First-match lookup of a column list by CTE name.
pub open spec fn spec_lookup_columns(s: Seq<(Seq<char>, Seq<ColumnView>)>, name: Seq<char>) -> Option<
    Seq<ColumnView>,
>
    decreases s.len(),
{
    if s.len() == 0 {
        None
    } else if s[0].0 == name {
        Some(s[0].1)
    } else {
        spec_lookup_columns(s.subrange(1, s.len() as int), name)
    }
}

impl CteIndex {
    pub fn new() -> (res: Self)
        ensures
            res@ == Seq::<(Seq<char>, Seq<ColumnView>)>::empty(),
    {
        let res = CteIndex { entries: Vec::new() };
        proof {
            assert(res@ =~= Seq::<(Seq<char>, Seq<ColumnView>)>::empty());
        }
        res
    }

    pub fn len(&self) -> (res: usize)
        ensures
            res == self@.len(),
    {
        self.entries.len()
    }

    /// The index of the first entry with this name, if any.
    fn find_index(&self, name: &str) -> (res: Option<usize>)
        ensures
            match res {
                Some(i) => {
                    &&& 0 <= i < self@.len()
                    &&& self@[i as int].0 == name@
                    &&& spec_lookup_columns(self@, name@) == Some(self@[i as int].1)
                },
                None => spec_lookup_columns(self@, name@) is None,
            },
    {
        let n = self.entries.len();
        let mut i: usize = 0;
        proof {
            assert(self@.subrange(0, n as int) =~= self@);
        }
        while i < n
            invariant
                n == self.entries@.len(),
                0 <= i <= n,
                spec_lookup_columns(self@, name@) == spec_lookup_columns(
                    self@.subrange(i as int, n as int),
                    name@,
                ),
            decreases n - i,
        {
            if str_eq(self.entries[i].0.as_str(), name) {
                proof {
                    assert(self@.subrange(i as int, n as int)[0] == self@[i as int]);
                }
                return Some(i);
            }
            proof {
                assert(self@.subrange(i as int, n as int)[0] == self@[i as int]);
                assert(self@.subrange(i as int, n as int).subrange(
                    1,
                    (n - i) as int,
                ) =~= self@.subrange(i + 1, n as int));
            }
            i = i + 1;
        }
        proof {
            assert(self@.subrange(n as int, n as int) =~= Seq::<
                (Seq<char>, Seq<ColumnView>),
            >::empty());
        }
        None
    }

    /// Whether a CTE of this name is known.
    pub fn contains(&self, name: &str) -> (res: bool)
        ensures
            res == (spec_lookup_columns(self@, name@) is Some),
    {
        self.find_index(name).is_some()
    }

    /// The columns of a CTE, if known.
    pub fn get(&self, name: &str) -> (res: Option<&Vec<ColumnInfo>>)
        ensures
            match res {
                Some(v) => spec_lookup_columns(self@, name@) == Some(
                    v@.map_values(|c: ColumnInfo| c@),
                ),
                None => spec_lookup_columns(self@, name@) is None,
            },
    {
        match self.find_index(name) {
            Some(i) => Some(&self.entries[i].1),
            None => None,
        }
    }

    /// Records a CTE's columns; an already-known name is left untouched.
    pub fn insert(&mut self, name: String, columns: Vec<ColumnInfo>)
        ensures
            match spec_lookup_columns(old(self)@, name@) {
                Some(_) => final(self)@ == old(self)@,
                None => final(self)@ == old(self)@.push(
                    (name@, columns@.map_values(|c: ColumnInfo| c@)),
                ),
            },
    {
        let ghost before = self@;
        match self.find_index(name.as_str()) {
            Some(_) => {},
            None => {
                self.entries.push((name, columns));
                proof {
                    assert(self@ =~= before.push(
                        (
                            self.entries@.last().0@,
                            self.entries@.last().1@.map_values(|c: ColumnInfo| c@),
                        ),
                    ));
                }
            },
        }
    }
}

/// The graph and the index agree: same names in the same order, each with the
/// same columns.
pub open spec fn graph_matches_index(
    g: Seq<(Seq<char>, CteNodeView)>,
    ix: Seq<(Seq<char>, Seq<ColumnView>)>,
) -> bool {
    ix == g.map_values(|p: (Seq<char>, CteNodeView)| (p.0, p.1.columns))
}

/// Under agreement, lookups in the two structures see the same CTEs and the
/// same columns.
pub proof fn lemma_lookup_agrees(
    g: Seq<(Seq<char>, CteNodeView)>,
    ix: Seq<(Seq<char>, Seq<ColumnView>)>,
    name: Seq<char>,
)
    requires
        graph_matches_index(g, ix),
    ensures
        match (spec_find_cte(g, name), spec_lookup_columns(ix, name)) {
            (Some(n), Some(cols)) => n.columns == cols,
            (None, None) => true,
            _ => false,
        },
    decreases g.len(),
{
    if g.len() == 0 {
    } else if g[0].0 == name {
        assert(ix[0] == (g[0].0, g[0].1.columns));
    } else {
        assert(ix[0] == (g[0].0, g[0].1.columns));
        let gt = g.subrange(1, g.len() as int);
        let it = ix.subrange(1, ix.len() as int);
        assert(graph_matches_index(gt, it)) by {
            assert(it =~= gt.map_values(|p: (Seq<char>, CteNodeView)| (p.0, p.1.columns)));
        }
        lemma_lookup_agrees(gt, it, name);
    }
}

/// Analysis context shared across all visitors: the SQL text, the dependency
/// graph, and the per-CTE column index.
pub struct AnalysisContext<'a> {
    pub sql: &'a str,
    pub graph: DependencyGraph,
    pub cte_columns: CteIndex,
}

impl<'a> AnalysisContext<'a> {
    /// The graph and the index hold the same CTEs with the same columns.
    pub open spec fn wf(&self) -> bool {
        graph_matches_index(self.graph@, self.cte_columns@)
    }

    pub open spec fn spec_sql(&self) -> Seq<char> {
        self.sql@
    }

    /// A fresh context over the given SQL text, with nothing collected yet.
    pub fn new(sql: &'a str) -> (res: Self)
        ensures
            res.wf(),
            res.spec_sql() == sql@,
            res.graph@ == Seq::<(Seq<char>, CteNodeView)>::empty(),
            res.cte_columns@ == Seq::<(Seq<char>, Seq<ColumnView>)>::empty(),
    {
        let res = AnalysisContext {
            sql,
            graph: DependencyGraph::new(),
            cte_columns: CteIndex::new(),
        };
        proof {
            assert(res.cte_columns@ =~= res.graph@.map_values(
                |p: (Seq<char>, CteNodeView)| (p.0, p.1.columns),
            ));
        }
        res
    }

    /// The SQL source text.
    pub fn sql(&self) -> (res: &'a str)
        ensures
            res@ == self.spec_sql(),
    {
        self.sql
    }

    /// Records a CTE definition in both the graph and the index; the first
    /// definition of a name wins.
    pub fn add_cte(&mut self, cte_name: String, columns: Vec<ColumnInfo>)
        requires
            old(self).wf(),
        ensures
            final(self).wf(),
            final(self).spec_sql() == old(self).spec_sql(),
            match spec_find_cte(old(self).graph@, cte_name@) {
                Some(_) => final(self).graph@ == old(self).graph@ && final(self).cte_columns@
                    == old(self).cte_columns@,
                None => final(self).graph@ == old(self).graph@.push(
                    (
                        cte_name@,
                        CteNodeView {
                            columns: columns@.map_values(|c: ColumnInfo| c@),
                            used: Seq::empty(),
                        },
                    ),
                ) && final(self).cte_columns@ == old(self).cte_columns@.push(
                    (cte_name@, columns@.map_values(|c: ColumnInfo| c@)),
                ),
            },
    {
        proof {
            lemma_lookup_agrees(self.graph@, self.cte_columns@, cte_name@);
        }
        self.graph.add_cte(cte_name.as_str(), columns.as_slice());
        self.cte_columns.insert(cte_name, columns);
        proof {
            assert(self.cte_columns@ =~= self.graph@.map_values(
                |p: (Seq<char>, CteNodeView)| (p.0, p.1.columns),
            ));
        }
    }

    /// Marks a column used in the graph; the index and the collected columns
    /// never change, and marks only grow.
    pub fn mark_used(&mut self, table_name: &str, column_name: &str)
        requires
            old(self).wf(),
        ensures
            final(self).wf(),
            final(self).spec_sql() == old(self).spec_sql(),
            final(self).cte_columns@ == old(self).cte_columns@,
            final(self).graph@.len() == old(self).graph@.len(),
            forall|j: int|
                0 <= j < final(self).graph@.len() ==> (#[trigger] final(self).graph@[j]).0 == old(
                    self,
                ).graph@[j].0 && final(self).graph@[j].1.columns == old(self).graph@[j].1.columns,
            forall|j: int, x: Seq<char>|
                0 <= j < final(self).graph@.len() && #[trigger] old(self).graph@[j].1.used.contains(
                    x,
                ) ==> final(self).graph@[j].1.used.contains(x),
            forall|j: int, x: Seq<char>|
                0 <= j < final(self).graph@.len()
                    && #[trigger] final(self).graph@[j].1.used.contains(x)
                    ==> old(self).graph@[j].1.used.contains(x) || x == column_name@,
            forall|m: Seq<char>|
                m != table_name@ ==> spec_find_cte(final(self).graph@, m) == spec_find_cte(
                    old(self).graph@,
                    m,
                ),
            match spec_find_cte(old(self).graph@, table_name@) {
                Some(n) => spec_find_cte(final(self).graph@, table_name@) == Some(
                    spec_mark_node(n, column_name@),
                ),
                None => final(self).graph@ == old(self).graph@,
            },
    {
        self.graph.mark_column_used(table_name, column_name);
        proof {
            assert(self.cte_columns@ =~= self.graph@.map_values(
                |p: (Seq<char>, CteNodeView)| (p.0, p.1.columns),
            ));
        }
    }

    /// Whether a CTE of this name has been collected.
    pub fn has_cte(&self, cte_name: &str) -> (res: bool)
        ensures
            res == (spec_lookup_columns(self.cte_columns@, cte_name@) is Some),
    {
        self.cte_columns.contains(cte_name)
    }

    /// The columns of a collected CTE, if any.
    pub fn get_cte_columns(&self, cte_name: &str) -> (res: Option<&Vec<ColumnInfo>>)
        ensures
            match res {
                Some(v) => spec_lookup_columns(self.cte_columns@, cte_name@) == Some(
                    v@.map_values(|c: ColumnInfo| c@),
                ),
                None => spec_lookup_columns(self.cte_columns@, cte_name@) is None,
            },
    {
        self.cte_columns.get(cte_name)
    }

    /// Every collected column not marked used, sorted by `(row, col)`.
    pub fn collect_unused(&self) -> (res: Vec<ColumnInfo>)
        ensures
            res@.map_values(|c: ColumnInfo| c@) == spec_sort_by_pos(
                spec_all_unused(self.graph@),
            ),
    {
        self.graph.collect_unused_columns()
    }
}

} // verus!
