//! The dependency graph: per-CTE columns and the set of column names marked
//! used, reduced at the end to the unused columns sorted by position.

use vstd::prelude::*;

verus! {

use vstd::string::StrSliceExecFns;
use crate::models::{ColumnInfo, ColumnView, clone_column, pos_le};
use crate::text::{str_eq, strings_contain};
use crate::utils::{extract_column_name, spec_base_name};

/// Mathematical view of one CTE's state.
pub ghost struct CteNodeView {
    pub columns: Seq<ColumnView>,
    pub used: Seq<Seq<char>>,
}

/// Per-CTE state: the output columns, immutable once collected, and the
/// column names marked used, which only ever grow.
pub struct CTENode {
    pub columns: Vec<ColumnInfo>,
    pub used_column_names: Vec<String>,
}

impl View for CTENode {
    type V = CteNodeView;

    open spec fn view(&self) -> CteNodeView {
        CteNodeView {
            columns: self.columns@.map_values(|c: ColumnInfo| c@),
            used: self.used_column_names@.map_values(|s: String| s@),
        }
    }
}

/// A mapping from CTE name to its node; the first entry for a name wins.
pub struct DependencyGraph {
    nodes: Vec<(String, CTENode)>,
}

impl View for DependencyGraph {
    type V = Seq<(Seq<char>, CteNodeView)>;

    closed spec fn view(&self) -> Seq<(Seq<char>, CteNodeView)> {
        self.nodes@.map_values(|p: (String, CTENode)| (p.0@, p.1@))
    }
}

/// First-match lookup of a CTE by name.
pub open spec fn spec_find_cte(s: Seq<(Seq<char>, CteNodeView)>, name: Seq<char>) -> Option<
    CteNodeView,
>
    decreases s.len(),
{
    if s.len() == 0 {
        None
    } else if s[0].0 == name {
        Some(s[0].1)
    } else {
        spec_find_cte(s.subrange(1, s.len() as int), name)
    }
}

/// A column counts as used when some used entry has the same base name;
/// an exact match is the special case of equal spellings.
pub open spec fn spec_col_used(used: Seq<Seq<char>>, name: Seq<char>) -> bool {
    exists|i: int| 0 <= i < used.len() && spec_base_name(#[trigger] used[i]) == spec_base_name(
        name,
    )
}

/// Marking a name used: the columns stay, the used set gains the name.
pub open spec fn spec_mark_node(n: CteNodeView, c: Seq<char>) -> CteNodeView {
    CteNodeView {
        columns: n.columns,
        used: if n.used.contains(c) {
            n.used
        } else {
            n.used.push(c)
        },
    }
}

/// The columns of one CTE that are not used, in definition order.
pub open spec fn spec_unused_cols(columns: Seq<ColumnView>, used: Seq<Seq<char>>) -> Seq<
    ColumnView,
>
    decreases columns.len(),
{
    if columns.len() == 0 {
        Seq::empty()
    } else {
        let rest = spec_unused_cols(columns.drop_last(), used);
        if spec_col_used(used, columns.last().column_name) {
            rest
        } else {
            rest.push(columns.last())
        }
    }
}

/// All unused columns across all CTEs, in graph order.
pub open spec fn spec_all_unused(s: Seq<(Seq<char>, CteNodeView)>) -> Seq<ColumnView>
    decreases s.len(),
{
    if s.len() == 0 {
        Seq::empty()
    } else {
        spec_all_unused(s.drop_last()) + spec_unused_cols(s.last().1.columns, s.last().1.used)
    }
}

/// Stable insertion of a column into a position-sorted sequence: the new
/// column goes after every element at or before its position.
pub open spec fn spec_insert_sorted(s: Seq<ColumnView>, c: ColumnView) -> Seq<ColumnView>
    decreases s.len(),
{
    if s.len() == 0 {
        seq![c]
    } else if pos_le(s.last(), c) {
        s.push(c)
    } else {
        spec_insert_sorted(s.drop_last(), c).push(s.last())
    }
}

/// Stable sort by position.
pub open spec fn spec_sort_by_pos(s: Seq<ColumnView>) -> Seq<ColumnView>
    decreases s.len(),
{
    if s.len() == 0 {
        Seq::empty()
    } else {
        spec_insert_sorted(spec_sort_by_pos(s.drop_last()), s.last())
    }
}

/// Ascending by position.
pub open spec fn spec_sorted_by_pos(s: Seq<ColumnView>) -> bool {
    forall|i: int, j: int| 0 <= i < j < s.len() ==> pos_le(#[trigger] s[i], #[trigger] s[j])
}

proof fn lemma_insert_sorted_keeps_sorted(s: Seq<ColumnView>, c: ColumnView)
    requires
        spec_sorted_by_pos(s),
    ensures
        spec_sorted_by_pos(spec_insert_sorted(s, c)),
        spec_insert_sorted(s, c).to_multiset() == s.to_multiset().insert(c),
        spec_insert_sorted(s, c).len() == s.len() + 1,
        forall|k: int|
            0 <= k < spec_insert_sorted(s, c).len() ==> s.contains(
                #[trigger] spec_insert_sorted(s, c)[k],
            ) || spec_insert_sorted(s, c)[k] == c,
    decreases s.len(),
{
    broadcast use vstd::seq_lib::group_to_multiset_ensures;

    let r = spec_insert_sorted(s, c);
    if s.len() == 0 {
        assert(r =~= s.push(c));
        assert(r[0] == c);
    } else if pos_le(s.last(), c) {
        assert forall|i: int, j: int| 0 <= i < j < r.len() implies pos_le(r[i], r[j]) by {
            if j == s.len() {
                assert(pos_le(s[i], s[s.len() - 1]));
            }
        }
        assert forall|k: int| 0 <= k < r.len() implies s.contains(#[trigger] r[k]) || r[k]
            == c by {
            if k < s.len() {
                assert(s.contains(s[k]));
            }
        }
    } else {
        let d = s.drop_last();
        assert(spec_sorted_by_pos(d));
        lemma_insert_sorted_keeps_sorted(d, c);
        let t = spec_insert_sorted(d, c);
        assert(r =~= t.push(s.last()));
        assert forall|i: int, j: int| 0 <= i < j < r.len() implies pos_le(r[i], r[j]) by {
            if j == t.len() {
                if t[i] == c {
                    assert(pos_le(c, s.last()));
                } else {
                    assert(d.contains(t[i]));
                    let m = choose|m: int| 0 <= m < d.len() && d[m] == t[i];
                    assert(pos_le(s[m], s[s.len() - 1]));
                }
            }
        }
        assert(s =~= d.push(s.last()));
        assert(r.to_multiset() =~= s.to_multiset().insert(c));
        assert forall|k: int| 0 <= k < r.len() implies s.contains(#[trigger] r[k]) || r[k]
            == c by {
            if k < t.len() {
                if t[k] != c {
                    assert(d.contains(t[k]));
                    let m = choose|m: int| 0 <= m < d.len() && d[m] == t[k];
                    assert(s[m] == r[k]);
                    assert(s.contains(s[m]));
                }
            } else {
                assert(r[k] == s[s.len() - 1]);
                assert(s.contains(s[s.len() - 1]));
            }
        }
    }
}

/// The sorted sequence is ascending by position and holds exactly the input
/// columns.
pub proof fn lemma_sort_by_pos_properties(s: Seq<ColumnView>)
    ensures
        spec_sorted_by_pos(spec_sort_by_pos(s)),
        spec_sort_by_pos(s).to_multiset() == s.to_multiset(),
        spec_sort_by_pos(s).len() == s.len(),
    decreases s.len(),
{
    broadcast use vstd::seq_lib::group_to_multiset_ensures;

    if s.len() == 0 {
        assert(spec_sort_by_pos(s) =~= s);
    } else {
        let d = s.drop_last();
        lemma_sort_by_pos_properties(d);
        lemma_insert_sorted_keeps_sorted(spec_sort_by_pos(d), s.last());
        assert(s.to_multiset() == d.to_multiset().insert(s.last())) by {
            assert(s =~= d.push(s.last()));
            assert(d.push(s.last()).to_multiset() == d.to_multiset().insert(s.last()));
        }
    }
}

proof fn lemma_insert_sorted_at(s: Seq<ColumnView>, c: ColumnView, j: int)
    requires
        0 <= j <= s.len(),
        forall|m: int| j <= m < s.len() ==> !pos_le(#[trigger] s[m], c),
        j == 0 || pos_le(s[j - 1], c),
    ensures
        spec_insert_sorted(s, c) == s.subrange(0, j) + seq![c] + s.subrange(j, s.len() as int),
    decreases s.len(),
{
    if j == s.len() {
        if s.len() == 0 {
            assert(spec_insert_sorted(s, c) =~= s.subrange(0, j) + seq![c] + s.subrange(
                j,
                s.len() as int,
            ));
        } else {
            assert(pos_le(s.last(), c));
            assert(spec_insert_sorted(s, c) =~= s.subrange(0, j) + seq![c] + s.subrange(
                j,
                s.len() as int,
            ));
        }
    } else {
        assert(!pos_le(s.last(), c));
        let d = s.drop_last();
        lemma_insert_sorted_at(d, c, j);
        assert(d.subrange(0, j) =~= s.subrange(0, j));
        assert(d.subrange(j, d.len() as int) =~= s.subrange(j, s.len() - 1));
        assert(spec_insert_sorted(s, c) =~= s.subrange(0, j) + seq![c] + s.subrange(
            j,
            s.len() as int,
        ));
    }
}


/// Unused columns are among the collected columns, so 1-based positions
/// carry over to them.
pub proof fn lemma_unused_cols_positions(columns: Seq<ColumnView>, used: Seq<Seq<char>>)
    requires
        forall|k: int|
            0 <= k < columns.len() ==> (#[trigger] columns[k]).row >= 1 && columns[k].col >= 1,
    ensures
        forall|j: int|
            0 <= j < spec_unused_cols(columns, used).len()
                ==> (#[trigger] spec_unused_cols(columns, used)[j]).row >= 1 && spec_unused_cols(
                columns,
                used,
            )[j].col >= 1,
    decreases columns.len(),
{
    if columns.len() > 0 {
        let d = columns.drop_last();
        assert forall|k: int|
            0 <= k < d.len() implies (#[trigger] d[k]).row >= 1 && d[k].col >= 1 by {
            assert(d[k] == columns[k]);
        }
        lemma_unused_cols_positions(d, used);
        assert(columns.last() == columns[columns.len() - 1]);
    }
}

/// Every unused column across a graph whose collected columns all sit at
/// 1-based positions sits at a 1-based position too.
pub proof fn lemma_all_unused_positions(g: Seq<(Seq<char>, CteNodeView)>)
    requires
        forall|e: int, k: int|
            0 <= e < g.len() && 0 <= k < g[e].1.columns.len()
                ==> (#[trigger] g[e].1.columns[k]).row >= 1 && g[e].1.columns[k].col >= 1,
    ensures
        forall|j: int|
            0 <= j < spec_all_unused(g).len() ==> (#[trigger] spec_all_unused(g)[j]).row >= 1
                && spec_all_unused(g)[j].col >= 1,
    decreases g.len(),
{
    if g.len() > 0 {
        let d = g.drop_last();
        assert forall|e: int, k: int|
            0 <= e < d.len() && 0 <= k < d[e].1.columns.len() implies (
        #[trigger] d[e].1.columns[k]).row >= 1 && d[e].1.columns[k].col >= 1 by {
            assert(d[e] == g[e]);
        }
        lemma_all_unused_positions(d);
        assert forall|k: int|
            0 <= k < g.last().1.columns.len() implies (#[trigger] g.last().1.columns[k]).row >= 1
                && g.last().1.columns[k].col >= 1 by {
            assert(g.last() == g[g.len() - 1]);
        }
        lemma_unused_cols_positions(g.last().1.columns, g.last().1.used);
    }
}

/// A graph whose every column is marked used collects nothing: when each
/// CTE's columns are all consumed — as a wholesale `SELECT *` consumer marks
/// them — no diagnostic is ever produced.
pub proof fn lemma_all_used_reports_nothing(g: Seq<(Seq<char>, CteNodeView)>)
    requires
        forall|j: int, k: int|
            0 <= j < g.len() && 0 <= k < g[j].1.columns.len() ==> spec_col_used(
                g[j].1.used,
                (#[trigger] g[j].1.columns[k]).column_name,
            ),
    ensures
        spec_all_unused(g) == Seq::<ColumnView>::empty(),
    decreases g.len(),
{
    if g.len() == 0 {
        assert(spec_all_unused(g) =~= Seq::<ColumnView>::empty());
    } else {
        let d = g.drop_last();
        lemma_all_used_reports_nothing(d);
        lemma_fully_used_cte_reports_nothing(g.last().1.columns, g.last().1.used);
        assert(g[g.len() - 1] == g.last());
        assert(spec_all_unused(g) =~= Seq::<ColumnView>::empty());
    }
}

/// No column of a CTE whose every column name is marked used is ever
/// collected as unused; in particular a CTE consumed wholesale, with each of
/// its column names marked, contributes nothing to the diagnostics.
pub proof fn lemma_fully_used_cte_reports_nothing(columns: Seq<ColumnView>, used: Seq<Seq<char>>)
    requires
        forall|k: int|
            0 <= k < columns.len() ==> spec_col_used(used, (#[trigger] columns[k]).column_name),
    ensures
        spec_unused_cols(columns, used) == Seq::<ColumnView>::empty(),
    decreases columns.len(),
{
    if columns.len() == 0 {
        assert(spec_unused_cols(columns, used) =~= Seq::<ColumnView>::empty());
    } else {
        let d = columns.drop_last();
        lemma_fully_used_cte_reports_nothing(d, used);
        assert(spec_col_used(used, columns.last().column_name)) by {
            assert(columns[columns.len() - 1] == columns.last());
        }
    }
}

proof fn lemma_find_cte_update(s: Seq<(Seq<char>, CteNodeView)>, i: int, v: CteNodeView, n: Seq<char>)
    requires
        0 <= i < s.len(),
        forall|j: int| 0 <= j < i ==> (#[trigger] s[j]).0 != s[i].0,
    ensures
        spec_find_cte(s.update(i, (s[i].0, v)), n) == if n == s[i].0 {
            Some(v)
        } else {
            spec_find_cte(s, n)
        },
    decreases s.len(),
{
    let u = s.update(i, (s[i].0, v));
    if i == 0 {
        if n == s[0].0 {
            assert(u[0].0 == n);
        } else {
            assert(u.subrange(1, u.len() as int) =~= s.subrange(1, s.len() as int));
        }
    } else {
        assert(u[0] == s[0]);
        let st = s.subrange(1, s.len() as int);
        assert(u.subrange(1, u.len() as int) =~= st.update(i - 1, (st[i - 1].0, v)));
        lemma_find_cte_update(st, i - 1, v, n);
    }
}

/// Whether some used entry shares the base name of `name`.
fn column_marked(used: &Vec<String>, name: &str) -> (res: bool)
    ensures
        res == spec_col_used(used@.map_values(|s: String| s@), name@),
{
    let ghost views = used@.map_values(|s: String| s@);
    let base = extract_column_name(name);
    let n = used.len();
    let mut i: usize = 0;
    while i < n
        invariant
            n == used@.len(),
            views == used@.map_values(|s: String| s@),
            base@ == spec_base_name(name@),
            0 <= i <= n,
            forall|j: int| 0 <= j < i ==> spec_base_name(#[trigger] views[j]) != spec_base_name(
                name@,
            ),
        decreases n - i,
    {
        let entry_base = extract_column_name(used[i].as_str());
        if str_eq(entry_base, base) {
            proof {
                assert(spec_base_name(views[i as int]) == spec_base_name(name@));
            }
            return true;
        }
        i = i + 1;
    }
    false
}

impl DependencyGraph {
    /// An empty graph.
    pub fn new() -> (res: Self)
        ensures
            res@ == Seq::<(Seq<char>, CteNodeView)>::empty(),
    {
        let res = DependencyGraph { nodes: Vec::new() };
        proof {
            assert(res@ =~= Seq::<(Seq<char>, CteNodeView)>::empty());
        }
        res
    }

    /// The index of the first entry with this name, if any.
    fn find_index(&self, name: &str) -> (res: Option<usize>)
        ensures
            match res {
                Some(i) => {
                    &&& 0 <= i < self@.len()
                    &&& self@[i as int].0 == name@
                    &&& forall|j: int| 0 <= j < i ==> (#[trigger] self@[j]).0 != name@
                    &&& spec_find_cte(self@, name@) == Some(self@[i as int].1)
                },
                None => spec_find_cte(self@, name@) is None,
            },
    {
        let n = self.nodes.len();
        let mut i: usize = 0;
        proof {
            assert(self@.subrange(0, n as int) =~= self@);
        }
        while i < n
            invariant
                n == self.nodes@.len(),
                0 <= i <= n,
                forall|j: int| 0 <= j < i ==> (#[trigger] self@[j]).0 != name@,
                spec_find_cte(self@, name@) == spec_find_cte(
                    self@.subrange(i as int, n as int),
                    name@,
                ),
            decreases n - i,
        {
            if str_eq(self.nodes[i].0.as_str(), name) {
                proof {
                    assert(self@.subrange(i as int, n as int)[0] == self@[i as int]);
                }
                return Some(i);
            }
            proof {
                assert(self@.subrange(i as int, n as int)[0] == self@[i as int]);
                assert(self@.subrange(i as int, n as int).subrange(
                    1,
                    (n - i) as int,
                ) =~= self@.subrange(i + 1, n as int));
            }
            i = i + 1;
        }
        proof {
            assert(self@.subrange(n as int, n as int) =~= Seq::<(Seq<char>, CteNodeView)>::empty());
        }
        None
    }

    /// Adds a CTE with its columns and an empty used set; an already-known
    /// name is left untouched, the first definition winning.
    pub fn add_cte(&mut self, cte_name: &str, columns: &[ColumnInfo])
        ensures
            match spec_find_cte(old(self)@, cte_name@) {
                Some(_) => final(self)@ == old(self)@,
                None => final(self)@ == old(self)@.push(
                    (
                        cte_name@,
                        CteNodeView {
                            columns: columns@.map_values(|c: ColumnInfo| c@),
                            used: Seq::empty(),
                        },
                    ),
                ),
            },
    {
        let ghost before = self@;
        match self.find_index(cte_name) {
            Some(_) => {},
            None => {
                let node = CTENode {
                    columns: clone_columns_slice(columns),
                    used_column_names: Vec::new(),
                };
                self.nodes.push((cte_name.to_owned(), node));
                proof {
                    assert(self@ =~= before.push(
                        (
                            cte_name@,
                            CteNodeView {
                                columns: columns@.map_values(|c: ColumnInfo| c@),
                                used: Seq::empty(),
                            },
                        ),
                    )) by {
                        assert(self.nodes@.last().1@.used =~= Seq::<Seq<char>>::empty());
                        assert(self@ =~= before.push(
                            (self.nodes@.last().0@, self.nodes@.last().1@),
                        ));
                    }
                }
            },
        }
    }

    /// Marks a column name used inside one CTE; unknown CTE names change
    /// nothing, marks never disappear, and no other name is added.
    pub fn mark_column_used(&mut self, table_name: &str, column_name: &str)
        ensures
            final(self)@.len() == old(self)@.len(),
            forall|j: int|
                0 <= j < final(self)@.len() ==> (#[trigger] final(self)@[j]).0 == old(self)@[j].0
                    && final(self)@[j].1.columns == old(self)@[j].1.columns,
            forall|j: int, x: Seq<char>|
                0 <= j < final(self)@.len() && #[trigger] old(self)@[j].1.used.contains(x)
                    ==> final(self)@[j].1.used.contains(x),
            forall|j: int, x: Seq<char>|
                0 <= j < final(self)@.len() && #[trigger] final(self)@[j].1.used.contains(x)
                    ==> old(self)@[j].1.used.contains(x) || x == column_name@,
            forall|m: Seq<char>|
                m != table_name@ ==> spec_find_cte(final(self)@, m) == spec_find_cte(
                    old(self)@,
                    m,
                ),
            spec_find_cte(old(self)@, table_name@) is None ==> final(self)@ == old(self)@,
            match spec_find_cte(old(self)@, table_name@) {
                Some(n) => spec_find_cte(final(self)@, table_name@) == Some(
                    spec_mark_node(n, column_name@),
                ),
                None => true,
            },
    {
        let ghost before = self@;
        match self.find_index(table_name) {
            None => {},
            Some(i) => {
                let ghost old_node = before[i as int].1;
                let already = strings_contain(&self.nodes[i].1.used_column_names, column_name);
                if !already {
                    let ghost old_used = self.nodes@[i as int].1.used_column_names@;
                    self.nodes[i].1.used_column_names.push(column_name.to_owned());
                    proof {
                        assert(self.nodes@[i as int].1.used_column_names@ =~= old_used.push(
                            self.nodes@[i as int].1.used_column_names@.last(),
                        ));
                        assert(self.nodes@[i as int].1@.used =~= old_node.used.push(
                            column_name@,
                        ));
                        assert(self@ =~= before.update(
                            i as int,
                            (before[i as int].0, spec_mark_node(old_node, column_name@)),
                        ));
                    }
                } else {
                    proof {
                        assert(spec_mark_node(old_node, column_name@) == old_node);
                        assert(self@ =~= before.update(
                            i as int,
                            (before[i as int].0, spec_mark_node(old_node, column_name@)),
                        ));
                    }
                }
                proof {
                    lemma_find_cte_update(before, i as int, spec_mark_node(old_node, column_name@), table_name@);
                    assert forall|m: Seq<char>| m != table_name@ implies spec_find_cte(
                        self@,
                        m,
                    ) == spec_find_cte(before, m) by {
                        lemma_find_cte_update(
                            before,
                            i as int,
                            spec_mark_node(old_node, column_name@),
                            m,
                        );
                    }
                    assert forall|j: int, x: Seq<char>|
                        0 <= j < self@.len() && #[trigger] before[j].1.used.contains(x)
                            implies self@[j].1.used.contains(x) by {
                        if j == i as int && !old_node.used.contains(column_name@) {
                            let k = choose|k: int| 0 <= k < old_node.used.len() && old_node.used[k] == x;
                            assert(self@[j].1.used[k] == x);
                        }
                    }
                    assert forall|j: int, x: Seq<char>|
                        0 <= j < self@.len() && #[trigger] self@[j].1.used.contains(x)
                            implies before[j].1.used.contains(x) || x == column_name@ by {
                        if j == i as int && !old_node.used.contains(column_name@) {
                            let k = choose|k: int|
                                0 <= k < self@[j].1.used.len() && self@[j].1.used[k] == x;
                            if k < old_node.used.len() {
                                assert(before[j].1.used[k] == x);
                            }
                        }
                    }
                }
            },
        }
    }

    /// Whether this exact column name is marked used in this CTE.
    pub fn is_column_used(&self, table_name: &str, column_name: &str) -> (res: bool)
        ensures
            res == match spec_find_cte(self@, table_name@) {
                Some(n) => n.used.contains(column_name@),
                None => false,
            },
    {
        match self.find_index(table_name) {
            None => false,
            Some(i) => strings_contain(&self.nodes[i].1.used_column_names, column_name),
        }
    }

    /// The columns of one CTE, if known.
    pub fn get_columns(&self, table_name: &str) -> (res: Option<&Vec<ColumnInfo>>)
        ensures
            match res {
                Some(v) => spec_find_cte(self@, table_name@) matches Some(n) && n.columns
                    == v@.map_values(|c: ColumnInfo| c@),
                None => spec_find_cte(self@, table_name@) is None,
            },
    {
        match self.find_index(table_name) {
            None => None,
            Some(i) => Some(&self.nodes[i].1.columns),
        }
    }

    /// Every column of every CTE not marked used, sorted ascending by
    /// `(row, col)`.
    pub fn collect_unused_columns(&self) -> (res: Vec<ColumnInfo>)
        ensures
            res@.map_values(|c: ColumnInfo| c@) == spec_sort_by_pos(spec_all_unused(self@)),
    {
        let mut unused: Vec<ColumnInfo> = Vec::new();
        let n = self.nodes.len();
        let mut i: usize = 0;
        while i < n
            invariant
                n == self.nodes@.len(),
                0 <= i <= n,
                unused@.map_values(|c: ColumnInfo| c@) == spec_all_unused(
                    self@.subrange(0, i as int),
                ),
            decreases n - i,
        {
            let cols = &self.nodes[i].1.columns;
            let used = &self.nodes[i].1.used_column_names;
            let m = cols.len();
            let mut k: usize = 0;
            while k < m
                invariant
                    n == self.nodes@.len(),
                    0 <= i < n,
                    m == cols@.len(),
                    cols@ == self.nodes@[i as int].1.columns@,
                    used@ == self.nodes@[i as int].1.used_column_names@,
                    self@[i as int].1.columns == cols@.map_values(|c: ColumnInfo| c@),
                    self@[i as int].1.used == used@.map_values(|s: String| s@),
                    0 <= k <= m,
                    unused@.map_values(|c: ColumnInfo| c@) == spec_all_unused(
                        self@.subrange(0, i as int),
                    ) + spec_unused_cols(
                        self@[i as int].1.columns.subrange(0, k as int),
                        self@[i as int].1.used,
                    ),
                decreases m - k,
            {
                let ghost prefix = self@[i as int].1.columns.subrange(0, k as int);
                let ghost next_prefix = self@[i as int].1.columns.subrange(0, k as int + 1);
                proof {
                    assert(next_prefix.drop_last() =~= prefix);
                    assert(next_prefix.last() == self@[i as int].1.columns[k as int]);
                    assert(self@[i as int].1.columns[k as int] == cols@[k as int]@);
                }
                let ghost pre_unused = unused@;
                if !column_marked(used, cols[k].column_name.as_str()) {
                    unused.push(clone_column(&cols[k]));
                    proof {
                        assert(cols@[k as int]@.column_name == cols@[k as int].column_name@);
                        assert(!spec_col_used(
                            self@[i as int].1.used,
                            next_prefix.last().column_name,
                        ));
                        assert(spec_unused_cols(next_prefix, self@[i as int].1.used)
                            == spec_unused_cols(prefix, self@[i as int].1.used).push(
                            next_prefix.last(),
                        ));
                        assert(unused@.len() == pre_unused.len() + 1);
                        assert(unused@.last()@ == cols@[k as int]@);
                        assert(forall|j: int|
                            0 <= j < pre_unused.len() ==> unused@[j] == pre_unused[j]);
                        assert(unused@.map_values(|c: ColumnInfo| c@)
                            =~= pre_unused.map_values(|c: ColumnInfo| c@).push(
                            unused@.last()@,
                        ));
                        assert(unused@.map_values(|c: ColumnInfo| c@) =~= spec_all_unused(
                            self@.subrange(0, i as int),
                        ) + spec_unused_cols(next_prefix, self@[i as int].1.used));
                    }
                } else {
                    proof {
                        assert(unused@.map_values(|c: ColumnInfo| c@) =~= spec_all_unused(
                            self@.subrange(0, i as int),
                        ) + spec_unused_cols(next_prefix, self@[i as int].1.used));
                    }
                }
                k = k + 1;
            }
            proof {
                assert(self@[i as int].1.columns.subrange(
                    0,
                    self@[i as int].1.columns.len() as int,
                ) =~= self@[i as int].1.columns);
                assert(self@.subrange(0, i as int + 1).drop_last() =~= self@.subrange(0, i as int));
                assert(self@.subrange(0, i as int + 1).last() == self@[i as int]);
            }
            i = i + 1;
        }
        proof {
            assert(self@.subrange(0, n as int) =~= self@);
        }
        sort_by_position(unused)
    }

    /// All entries, in insertion order.
    pub fn get_all_ctes(&self) -> (res: &Vec<(String, CTENode)>)
        ensures
            res@.map_values(|p: (String, CTENode)| (p.0@, p.1@)) == self@,
    {
        &self.nodes
    }
}

/// Whether the second column must come strictly after the first.
fn pos_greater(a: &ColumnInfo, b: &ColumnInfo) -> (res: bool)
    ensures
        res == !pos_le(a@, b@),
{
    a.row > b.row || (a.row == b.row && a.col > b.col)
}

/// Stable insertion sort ascending by `(row, col)`.
fn sort_by_position(input: Vec<ColumnInfo>) -> (res: Vec<ColumnInfo>)
    ensures
        res@.map_values(|c: ColumnInfo| c@) == spec_sort_by_pos(
            input@.map_values(|c: ColumnInfo| c@),
        ),
{
    let ghost in_views = input@.map_values(|c: ColumnInfo| c@);
    let mut sorted: Vec<ColumnInfo> = Vec::new();
    let n = input.len();
    let mut i: usize = 0;
    while i < n
        invariant
            n == input@.len(),
            in_views == input@.map_values(|c: ColumnInfo| c@),
            0 <= i <= n,
            sorted@.map_values(|c: ColumnInfo| c@) == spec_sort_by_pos(
                in_views.subrange(0, i as int),
            ),
        decreases n - i,
    {
        let ghost svs = sorted@.map_values(|c: ColumnInfo| c@);
        let c = clone_column(&input[i]);
        let mut j: usize = sorted.len();
        while j > 0 && pos_greater(&sorted[j - 1], &c)
            invariant
                0 <= j <= sorted@.len(),
                svs == sorted@.map_values(|cc: ColumnInfo| cc@),
                forall|m: int| j <= m < svs.len() ==> !pos_le(#[trigger] svs[m], c@),
            decreases j,
        {
            j = j - 1;
        }
        proof {
            lemma_insert_sorted_at(svs, c@, j as int);
        }
        sorted.insert(j, c);
        proof {
            assert(sorted@.map_values(|cc: ColumnInfo| cc@) =~= svs.subrange(0, j as int) + seq![
                in_views[i as int],
            ] + svs.subrange(j as int, svs.len() as int));
            assert(in_views.subrange(0, i as int + 1).drop_last() =~= in_views.subrange(
                0,
                i as int,
            ));
            assert(in_views.subrange(0, i as int + 1).last() == in_views[i as int]);
        }
        i = i + 1;
    }
    proof {
        assert(in_views.subrange(0, n as int) =~= in_views);
    }
    sorted
}

/// A copy of a column slice, element views preserved.
fn clone_columns_slice(cols: &[ColumnInfo]) -> (res: Vec<ColumnInfo>)
    ensures
        res@.map_values(|c: ColumnInfo| c@) == cols@.map_values(|c: ColumnInfo| c@),
{
    let mut out: Vec<ColumnInfo> = Vec::new();
    let mut i: usize = 0;
    while i < cols.len()
        invariant
            0 <= i <= cols@.len(),
            out@.len() == i,
            forall|j: int| 0 <= j < i ==> out@[j]@ == cols@[j]@,
        decreases cols@.len() - i,
    {
        out.push(clone_column(&cols[i]));
        i = i + 1;
    }
    proof {
        assert(out@.map_values(|c: ColumnInfo| c@) =~= cols@.map_values(|c: ColumnInfo| c@));
    }
    out
}

} // verus!
