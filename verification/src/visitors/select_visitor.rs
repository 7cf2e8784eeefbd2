//! The SELECT visitor: the final query's references seed a backward
//! reachability over the chain of CTEs; a CTE's own select list marks its
//! references one hop, without requeuing.

use vstd::prelude::*;

verus! {

use vstd::seq_lib::seq_to_set_is_finite;
use vstd::string::StrSliceExecFns;
use crate::context::{AnalysisContext, lemma_lookup_agrees, spec_lookup_columns};
use crate::graph::{CteNodeView, spec_find_cte};
use crate::models::{ColumnInfo, ColumnView, clone_string};
use crate::text::str_eq;
use crate::tree::SqlTree;
use crate::utils::{AliasMap, extract_column_name, extract_table_name, find_original_table,
    spec_base_name, spec_find_original_table, spec_first_segment};
use crate::visitors::{extract_table, is_call_name_field, is_marked, lemma_add_contains,
    lemma_contains_push, lemma_mark_step, lemma_pointwise_find, lemma_push_contains_iff,
    mark_fields_under, marks_grow, get_cte_name, node_text, spec_cte_name, spec_extract_table,
    spec_is_call_name_field, spec_refs_under, view_strings};

/// One backward-reachability step through one collected column: the column
/// matches the searched name (same base name or same spelling), its origin is
/// a known CTE, and the search continues there under the pre-alias name.
pub open spec fn col_succ(
    ctes: Seq<(Seq<char>, Seq<ColumnView>)>,
    col: ColumnView,
    c: Seq<char>,
    s: Seq<char>,
    o: Seq<char>,
) -> bool {
    &&& (spec_base_name(col.column_name) == spec_base_name(c) || col.column_name == c)
    &&& match col.table_name {
        Some(st) => {
            &&& s == spec_first_segment(st)
            &&& spec_lookup_columns(ctes, s) is Some
            &&& o == match col.original_column_name {
                Some(x) => x,
                None => col.column_name,
            }
        },
        None => false,
    }
}

/// The backward-reachability step from a `(table, column)` search pair to
/// the origin pair it leads to.
pub open spec fn spec_succ(
    ctes: Seq<(Seq<char>, Seq<ColumnView>)>,
    t: Seq<char>,
    c: Seq<char>,
    s: Seq<char>,
    o: Seq<char>,
) -> bool {
    match spec_lookup_columns(ctes, t) {
        Some(cols) => exists|k: int|
            0 <= k < cols.len() && col_succ(ctes, #[trigger] cols[k], c, s, o),
        None => false,
    }
}

/// A final-query root column, marked when its table is known.
pub open spec fn root_marked(
    g: Seq<(Seq<char>, CteNodeView)>,
    ctes: Seq<(Seq<char>, Seq<ColumnView>)>,
    cv: ColumnView,
) -> bool {
    match cv.table_name {
        Some(t) => spec_lookup_columns(ctes, t) is Some ==> is_marked(g, t, cv.column_name),
        None => true,
    }
}

/// The search pair a root column seeds.
pub open spec fn root_pair(cv: ColumnView) -> (Seq<char>, Seq<char>) {
    (
        match cv.table_name {
            Some(t) => t,
            None => Seq::empty(),
        },
        cv.column_name,
    )
}

/// The search pair one collected column can lead to.
pub open spec fn succ_pair(col: ColumnView) -> (Seq<char>, Seq<char>) {
    match col.table_name {
        Some(st) => (
            spec_first_segment(st),
            match col.original_column_name {
                Some(x) => x,
                None => col.column_name,
            },
        ),
        None => (Seq::empty(), Seq::empty()),
    }
}

/// Every search pair any collected column can lead to.
pub open spec fn succ_pairs(ctes: Seq<(Seq<char>, Seq<ColumnView>)>) -> Seq<
    (Seq<char>, Seq<char>),
>
    decreases ctes.len(),
{
    if ctes.len() == 0 {
        Seq::empty()
    } else {
        ctes[0].1.map_values(|col: ColumnView| succ_pair(col)) + succ_pairs(
            ctes.subrange(1, ctes.len() as int),
        )
    }
}

/// Every pair the worklist can ever hold: the roots and the step targets.
pub open spec fn pair_universe(
    finals: Seq<ColumnView>,
    ctes: Seq<(Seq<char>, Seq<ColumnView>)>,
) -> Set<(Seq<char>, Seq<char>)> {
    (finals.map_values(|cv: ColumnView| root_pair(cv)) + succ_pairs(ctes)).to_set()
}

/// The views of the worklist entries.
pub open spec fn pair_view(p: (String, String)) -> (Seq<char>, Seq<char>) {
    (p.0@, p.1@)
}

pub open spec fn qviews(q: Seq<(String, String)>) -> Seq<(Seq<char>, Seq<char>)> {
    q.map_values(|p: (String, String)| pair_view(p))
}

proof fn lemma_qviews_push(q: Seq<(String, String)>, p: (String, String))
    ensures
        qviews(q.push(p)) == qviews(q).push(pair_view(p)),
{
    assert(qviews(q.push(p)) =~= qviews(q).push(pair_view(p)));
}

/// Every pair a collected column can lead to sits in the successor-pair pool.
proof fn lemma_col_pair_in_pool(ctes: Seq<(Seq<char>, Seq<ColumnView>)>, t: Seq<char>, k: int)
    requires
        spec_lookup_columns(ctes, t) is Some,
        0 <= k < spec_lookup_columns(ctes, t).unwrap().len(),
    ensures
        succ_pairs(ctes).contains(succ_pair(spec_lookup_columns(ctes, t).unwrap()[k])),
    decreases ctes.len(),
{
    let cols = spec_lookup_columns(ctes, t).unwrap();
    if ctes[0].0 == t {
        assert(succ_pairs(ctes)[k] == succ_pair(cols[k])) by {
            assert(ctes[0].1.map_values(|col: ColumnView| succ_pair(col))[k] == succ_pair(
                cols[k],
            ));
        }
        assert(succ_pairs(ctes).contains(succ_pair(cols[k])));
    } else {
        let rest = ctes.subrange(1, ctes.len() as int);
        assert(spec_lookup_columns(rest, t) == spec_lookup_columns(ctes, t));
        lemma_col_pair_in_pool(rest, t, k);
        let m = choose|m: int|
            0 <= m < succ_pairs(rest).len() && succ_pairs(rest)[m] == succ_pair(cols[k]);
        assert(succ_pairs(ctes)[ctes[0].1.len() + m] == succ_pair(cols[k]));
        assert(succ_pairs(ctes).contains(succ_pair(cols[k])));
    }
}

/// A step target always sits in the successor-pair pool.
proof fn lemma_succ_in_pool(
    ctes: Seq<(Seq<char>, Seq<ColumnView>)>,
    t: Seq<char>,
    c: Seq<char>,
    s: Seq<char>,
    o: Seq<char>,
)
    requires
        spec_succ(ctes, t, c, s, o),
    ensures
        succ_pairs(ctes).contains((s, o)),
{
    let cols = spec_lookup_columns(ctes, t).unwrap();
    let k = choose|k: int| 0 <= k < cols.len() && col_succ(ctes, #[trigger] cols[k], c, s, o);
    assert(succ_pair(cols[k]) == (s, o));
    lemma_col_pair_in_pool(ctes, t, k);
}


/// Backward reachability through fresh pairs only: a pair already marked
/// before the call blocks propagation, exactly as the worklist skips it.
pub open spec fn spec_breach_n(
    ctes: Seq<(Seq<char>, Seq<ColumnView>)>,
    finals: Seq<ColumnView>,
    g0: Seq<(Seq<char>, CteNodeView)>,
    p: (Seq<char>, Seq<char>),
    n: nat,
) -> bool
    decreases n,
{
    if spec_is_root(finals, p) {
        true
    } else if n == 0 {
        false
    } else {
        exists|q: (Seq<char>, Seq<char>)|
            spec_breach_n(ctes, finals, g0, q, (n - 1) as nat) && !is_marked(g0, q.0, q.1)
                && #[trigger] spec_succ(ctes, q.0, q.1, p.0, p.1)
    }
}

/// `p` lies in the blocked backward-reachability closure of the root pairs.
pub open spec fn spec_breach(
    ctes: Seq<(Seq<char>, Seq<ColumnView>)>,
    finals: Seq<ColumnView>,
    g0: Seq<(Seq<char>, CteNodeView)>,
    p: (Seq<char>, Seq<char>),
) -> bool {
    exists|n: nat| #[trigger] spec_breach_n(ctes, finals, g0, p, n)
}

/// Completeness of the worklist against the blocked closure: in a final
/// state where every root is marked and every freshly marked pair has its
/// step targets marked, every closure pair with a collected table is marked.
proof fn lemma_breach_complete(
    ctes: Seq<(Seq<char>, Seq<ColumnView>)>,
    finals: Seq<ColumnView>,
    g0: Seq<(Seq<char>, CteNodeView)>,
    g1: Seq<(Seq<char>, CteNodeView)>,
    p: (Seq<char>, Seq<char>),
    n: nat,
)
    requires
        forall|j: int| 0 <= j < finals.len() ==> root_marked(g1, ctes, #[trigger] finals[j]),
        forall|t: Seq<char>, c: Seq<char>, s: Seq<char>, o: Seq<char>|
            #[trigger] spec_succ(ctes, t, c, s, o) && is_marked(g1, t, c) && !is_marked(g0, t, c)
                ==> is_marked(g1, s, o),
        forall|t: Seq<char>, c: Seq<char>| #[trigger] is_marked(g0, t, c) ==> is_marked(g1, t, c),
        spec_breach_n(ctes, finals, g0, p, n),
        spec_lookup_columns(ctes, p.0) is Some,
    ensures
        is_marked(g1, p.0, p.1),
    decreases n,
{
    if spec_is_root(finals, p) {
        let j = choose|j: int|
            0 <= j < finals.len() && (#[trigger] finals[j]).table_name == Some(p.0)
                && finals[j].column_name == p.1;
        assert(root_marked(g1, ctes, finals[j]));
    } else {
        let q = choose|q: (Seq<char>, Seq<char>)|
            spec_breach_n(ctes, finals, g0, q, (n - 1) as nat) && !is_marked(g0, q.0, q.1)
                && #[trigger] spec_succ(ctes, q.0, q.1, p.0, p.1);
        lemma_breach_complete(ctes, finals, g0, g1, q, (n - 1) as nat);
    }
}

/// A root column's search pair has been placed on the worklist.
pub open spec fn root_enqueued(cv: ColumnView, qs: Seq<(Seq<char>, Seq<char>)>) -> bool {
    match cv.table_name {
        Some(t) => qs.contains((t, cv.column_name)),
        None => true,
    }
}

/// Every root column whose table is collected already carries its mark.
pub open spec fn all_roots_premarked(
    g: Seq<(Seq<char>, CteNodeView)>,
    ctes: Seq<(Seq<char>, Seq<ColumnView>)>,
    finals: Seq<ColumnView>,
) -> bool {
    forall|j: int| 0 <= j < finals.len() ==> root_marked(g, ctes, #[trigger] finals[j])
}

/// `p` is the search pair of one of the final query's root columns.
pub open spec fn spec_is_root(finals: Seq<ColumnView>, p: (Seq<char>, Seq<char>)) -> bool {
    exists|j: int|
        0 <= j < finals.len() && (#[trigger] finals[j]).table_name == Some(p.0)
            && finals[j].column_name == p.1
}

/// `p` is reachable from the root pairs in at most `n` backward steps.
pub open spec fn spec_reachable_n(
    ctes: Seq<(Seq<char>, Seq<ColumnView>)>,
    finals: Seq<ColumnView>,
    p: (Seq<char>, Seq<char>),
    n: nat,
) -> bool
    decreases n,
{
    if spec_is_root(finals, p) {
        true
    } else if n == 0 {
        false
    } else {
        exists|q: (Seq<char>, Seq<char>)|
            spec_reachable_n(ctes, finals, q, (n - 1) as nat) && #[trigger] spec_succ(
                ctes,
                q.0,
                q.1,
                p.0,
                p.1,
            )
    }
}

/// `p` lies in the backward-reachability closure of the root pairs.
pub open spec fn spec_reachable(
    ctes: Seq<(Seq<char>, Seq<ColumnView>)>,
    finals: Seq<ColumnView>,
    p: (Seq<char>, Seq<char>),
) -> bool {
    exists|n: nat| #[trigger] spec_reachable_n(ctes, finals, p, n)
}

/// Whether a collected column answers a search for `search_column`: same
/// base name, or the same exact spelling.
pub fn is_column_match(col_info: &ColumnInfo, search_column: &str) -> (res: bool)
    ensures
        res == (spec_base_name(col_info@.column_name) == spec_base_name(search_column@)
            || col_info@.column_name == search_column@),
{
    let col_base = extract_column_name(col_info.column_name.as_str());
    let search_base = extract_column_name(search_column);
    str_eq(col_base, search_base) || str_eq(col_info.column_name.as_str(), search_column)
}

/// Whether this pair is already on the worklist.
fn pair_in_queue(queue: &Vec<(String, String)>, pair: &(String, String)) -> (res: bool)
    ensures
        res == qviews(queue@).contains(pair_view(*pair)),
{
    let n = queue.len();
    let mut q: usize = 0;
    while q < n
        invariant
            n == queue@.len(),
            0 <= q <= n,
            forall|m: int| 0 <= m < q ==> qviews(queue@)[m] != pair_view(*pair),
        decreases n - q,
    {
        if str_eq(queue[q].0.as_str(), pair.0.as_str()) && str_eq(
            queue[q].1.as_str(),
            pair.1.as_str(),
        ) {
            proof {
                assert(qviews(queue@)[q as int] == pair_view(*pair));
            }
            return true;
        }
        q = q + 1;
    }
    false
}

/// Marks the final query's root columns used and traces their provenance
/// backward through the chain of CTEs with an explicit worklist: a popped
/// pair already marked is skipped; a fresh one is marked and every matching
/// collected column pushes its origin CTE under the pre-alias name.
///
/// The contract carries the aliasing guarantee: a root marked fresh has every
/// step target marked too, so a reference to an alias marks the pre-alias
/// column in its origin CTE. Conversely no mark appears out of thin air:
/// every newly marked pair lies in the backward-reachability closure of the
/// roots.
pub fn mark_used_columns<'a>(context: &mut AnalysisContext<'a>, final_columns: Vec<ColumnInfo>)
    requires
        old(context).wf(),
    ensures
        final(context).wf(),
        marks_grow(*old(context), *final(context)),
        forall|j: int|
            0 <= j < final_columns@.len() ==> root_marked(
                final(context).graph@,
                old(context).cte_columns@,
                #[trigger] final_columns@[j]@,
            ),
        forall|t: Seq<char>, c: Seq<char>, s: Seq<char>, o: Seq<char>|
            #[trigger] spec_succ(old(context).cte_columns@, t, c, s, o) && is_marked(
                final(context).graph@,
                t,
                c,
            ) && !is_marked(old(context).graph@, t, c) ==> is_marked(final(context).graph@, s, o),
        forall|t: Seq<char>, c: Seq<char>|
            #[trigger] is_marked(final(context).graph@, t, c) && !is_marked(
                old(context).graph@,
                t,
                c,
            ) ==> spec_reachable(
                old(context).cte_columns@,
                final_columns@.map_values(|cv: ColumnInfo| cv@),
                (t, c),
            ),
        all_roots_premarked(
            old(context).graph@,
            old(context).cte_columns@,
            final_columns@.map_values(|cv: ColumnInfo| cv@),
        ) ==> final(context).graph@ == old(context).graph@,
        forall|t: Seq<char>, c: Seq<char>|
            #[trigger] is_marked(final(context).graph@, t, c) <==> is_marked(
                old(context).graph@,
                t,
                c,
            ) || (spec_breach(
                old(context).cte_columns@,
                final_columns@.map_values(|cv: ColumnInfo| cv@),
                old(context).graph@,
                (t, c),
            ) && spec_lookup_columns(old(context).cte_columns@, t) is Some),
{
    proof {
        broadcast use seq_to_set_is_finite;

    }
    let ghost g0 = context.graph@;
    let ghost ctes = context.cte_columns@;
    let ghost fviews = final_columns@.map_values(|cv: ColumnInfo| cv@);
    let ghost uni = pair_universe(fviews, ctes);
    let ghost pool = fviews.map_values(|cv: ColumnView| root_pair(cv)) + succ_pairs(ctes);

    let mut queue: Vec<(String, String)> = Vec::new();
    let nf = final_columns.len();
    let mut j: usize = 0;
    while j < nf
        invariant
            nf == final_columns@.len(),
            fviews == final_columns@.map_values(|cv: ColumnInfo| cv@),
            uni == pair_universe(fviews, ctes),
            pool == fviews.map_values(|cv: ColumnView| root_pair(cv)) + succ_pairs(ctes),
            0 <= j <= nf,
            forall|q: int| 0 <= q < qviews(queue@).len() ==> uni.contains(#[trigger] qviews(queue@)[q]),
            forall|q: int|
                0 <= q < qviews(queue@).len() ==> spec_reachable(
                    ctes,
                    fviews,
                    #[trigger] qviews(queue@)[q],
                ),
            forall|q: int|
                0 <= q < qviews(queue@).len() ==> spec_breach(
                    ctes,
                    fviews,
                    g0,
                    #[trigger] qviews(queue@)[q],
                ),
            forall|q: int|
                0 <= q < qviews(queue@).len() ==> spec_is_root(fviews, #[trigger] qviews(queue@)[q]),
            forall|m: int| 0 <= m < j ==> root_enqueued(#[trigger] fviews[m], qviews(queue@)),
        decreases nf - j,
    {
        let ghost pre_q = queue@;
        match &final_columns[j].table_name {
            Some(t) => {
                let pair = (clone_string(t), clone_string(&final_columns[j].column_name));
                proof {
                    assert(pair_view(pair) == root_pair(fviews[j as int]));
                    assert(pool[j as int] == root_pair(fviews[j as int]));
                    assert(pool.contains(root_pair(fviews[j as int])));
                    assert(uni.contains(pair_view(pair)));
                }
                if !pair_in_queue(&queue, &pair) {
                    proof {
                        assert(spec_is_root(fviews, pair_view(pair))) by {
                            assert((#[trigger] fviews[j as int]).table_name == Some(
                                pair_view(pair).0,
                            ));
                        }
                        assert(spec_reachable_n(ctes, fviews, pair_view(pair), 0));
                        assert(spec_reachable(ctes, fviews, pair_view(pair)));
                        assert(spec_breach_n(ctes, fviews, g0, pair_view(pair), 0));
                        assert(spec_breach(ctes, fviews, g0, pair_view(pair)));
                    }
                    queue.push(pair);
                    proof {
                        lemma_qviews_push(pre_q, queue@.last());
                        assert forall|q: int|
                            0 <= q < qviews(queue@).len() implies uni.contains(
                            #[trigger] qviews(queue@)[q],
                        ) by {
                            if q < pre_q.len() {
                                assert(qviews(queue@)[q] == qviews(pre_q)[q]);
                            }
                        }
                        assert forall|q: int|
                            0 <= q < qviews(queue@).len() implies spec_reachable(
                            ctes,
                            fviews,
                            #[trigger] qviews(queue@)[q],
                        ) by {
                            if q < pre_q.len() {
                                assert(qviews(queue@)[q] == qviews(pre_q)[q]);
                            }
                        }
                        assert forall|q: int|
                            0 <= q < qviews(queue@).len() implies spec_breach(
                            ctes,
                            fviews,
                            g0,
                            #[trigger] qviews(queue@)[q],
                        ) by {
                            if q < pre_q.len() {
                                assert(qviews(queue@)[q] == qviews(pre_q)[q]);
                            }
                        }
                        assert forall|q: int|
                            0 <= q < qviews(queue@).len() implies spec_is_root(
                            fviews,
                            #[trigger] qviews(queue@)[q],
                        ) by {
                            if q < pre_q.len() {
                                assert(qviews(queue@)[q] == qviews(pre_q)[q]);
                            } else {
                                assert((#[trigger] fviews[j as int]).table_name == Some(
                                    qviews(queue@)[q].0,
                                ));
                            }
                        }
                        assert forall|m: int|
                            0 <= m <= j implies root_enqueued(
                            #[trigger] fviews[m],
                            qviews(queue@),
                        ) by {
                            if m < j {
                                match fviews[m].table_name {
                                    Some(tm) => {
                                        lemma_contains_push(
                                            qviews(pre_q),
                                            qviews(queue@).last(),
                                            (tm, fviews[m].column_name),
                                        );
                                    },
                                    None => {},
                                }
                            } else {
                                lemma_push_contains_iff(
                                    qviews(pre_q),
                                    pair_view(queue@.last()),
                                    root_pair(fviews[j as int]),
                                );
                            }
                        }
                    }
                } else {
                }
            },
            None => {},
        }
        j = j + 1;
    }

    let mut head: usize = 0;
    while head < queue.len()
        invariant
            context.wf(),
            ctes == context.cte_columns@,
            g0 == old(context).graph@,
            ctes == old(context).cte_columns@,
            marks_grow(*old(context), *context),
            fviews == final_columns@.map_values(|cv: ColumnInfo| cv@),
            uni == pair_universe(fviews, ctes),
            uni.finite(),
            0 <= head <= queue@.len(),
            forall|q: int| 0 <= q < qviews(queue@).len() ==> uni.contains(#[trigger] qviews(queue@)[q]),
            forall|m: int| 0 <= m < fviews.len() ==> root_enqueued(#[trigger] fviews[m], qviews(queue@)),
            forall|q: int|
                0 <= q < head ==> (spec_lookup_columns(ctes, (#[trigger] qviews(queue@)[q]).0)
                    is Some ==> is_marked(
                    context.graph@,
                    qviews(queue@)[q].0,
                    qviews(queue@)[q].1,
                )),
            forall|t: Seq<char>, c: Seq<char>, s: Seq<char>, o: Seq<char>|
                #[trigger] spec_succ(ctes, t, c, s, o) && is_marked(context.graph@, t, c)
                    && !is_marked(g0, t, c) ==> qviews(queue@).contains((s, o)),
            forall|q: int|
                0 <= q < qviews(queue@).len() ==> spec_reachable(
                    ctes,
                    fviews,
                    #[trigger] qviews(queue@)[q],
                ),
            forall|t: Seq<char>, c: Seq<char>|
                #[trigger] is_marked(context.graph@, t, c) && !is_marked(g0, t, c)
                    ==> spec_reachable(ctes, fviews, (t, c)),
            forall|q: int|
                0 <= q < qviews(queue@).len() ==> spec_breach(
                    ctes,
                    fviews,
                    g0,
                    #[trigger] qviews(queue@)[q],
                ),
            forall|t: Seq<char>, c: Seq<char>|
                #[trigger] is_marked(context.graph@, t, c) && !is_marked(g0, t, c)
                    ==> spec_breach(ctes, fviews, g0, (t, c)),
            all_roots_premarked(g0, ctes, fviews) ==> (context.graph@ == g0 && forall|q: int|
                0 <= q < qviews(queue@).len() ==> spec_is_root(
                    fviews,
                    #[trigger] qviews(queue@)[q],
                )),
        decreases uni.difference(qviews(queue@).to_set()).len(), queue@.len() - head,
    {
        let ghost iter_q = queue@;
        let ghost iter_diff = uni.difference(qviews(iter_q).to_set()).len();
        let t = clone_string(&queue[head].0);
        let c = clone_string(&queue[head].1);
        let ghost popped = qviews(iter_q)[head as int];
        proof {
            assert(popped == (t@, c@));
        }
        head = head + 1;
        if context.graph.is_column_used(t.as_str(), c.as_str()) {
        } else {
            let ghost g_before = context.graph@;
            proof {
                lemma_pointwise_find(g0, g_before);
                assert(!is_marked(g0, t@, c@));
            }
            context.mark_used(t.as_str(), c.as_str());
            proof {
                lemma_mark_step(g_before, context.graph@, t@, c@);
                lemma_lookup_agrees(g_before, ctes, t@);
                assert(spec_reachable(ctes, fviews, popped));
                assert(spec_breach(ctes, fviews, g0, popped));
                assert forall|tt: Seq<char>, cc: Seq<char>|
                    #[trigger] is_marked(context.graph@, tt, cc) && !is_marked(g0, tt, cc)
                        implies spec_reachable(ctes, fviews, (tt, cc)) by {
                    if !is_marked(g_before, tt, cc) {
                        assert(tt == t@ && cc == c@);
                        assert((tt, cc) == popped);
                    }
                }
                assert forall|tt: Seq<char>, cc: Seq<char>|
                    #[trigger] is_marked(context.graph@, tt, cc) && !is_marked(g0, tt, cc)
                        implies spec_breach(ctes, fviews, g0, (tt, cc)) by {
                    if !is_marked(g_before, tt, cc) {
                        assert((tt, cc) == popped);
                    }
                }
                if all_roots_premarked(g0, ctes, fviews) {
                    assert(spec_is_root(fviews, popped));
                    let j = choose|j: int|
                        0 <= j < fviews.len() && (#[trigger] fviews[j]).table_name == Some(
                            popped.0,
                        ) && fviews[j].column_name == popped.1;
                    assert(root_marked(g0, ctes, fviews[j]));
                    assert(spec_find_cte(g_before, t@) is None);
                    assert(context.graph@ == g_before);
                }
            }
            match context.get_cte_columns(t.as_str()) {
                Some(cte_cols) => {
                    let ghost colviews = cte_cols@.map_values(|cv: ColumnInfo| cv@);
                    let m = cte_cols.len();
                    let mut k: usize = 0;
                    while k < m
                        invariant
                            context.wf(),
                            ctes == context.cte_columns@,
                            g0 == old(context).graph@,
                            ctes == old(context).cte_columns@,
                            marks_grow(*old(context), *context),
                            fviews == final_columns@.map_values(|cv: ColumnInfo| cv@),
                            uni == pair_universe(fviews, ctes),
                            uni.finite(),
                            m == cte_cols@.len(),
                            colviews == cte_cols@.map_values(|cv: ColumnInfo| cv@),
                            spec_lookup_columns(ctes, t@) == Some(colviews),
                            iter_diff == uni.difference(qviews(iter_q).to_set()).len(),
                            0 <= k <= m,
                            0 < head <= queue@.len(),
                            iter_q.len() <= queue@.len(),
                            forall|q: int|
                                0 <= q < qviews(iter_q).len() ==> #[trigger] qviews(queue@)[q]
                                    == qviews(iter_q)[q],
                            forall|q: int|
                                0 <= q < qviews(queue@).len() ==> uni.contains(
                                    #[trigger] qviews(queue@)[q],
                                ),
                            forall|m2: int|
                                0 <= m2 < fviews.len() ==> root_enqueued(
                                    #[trigger] fviews[m2],
                                    qviews(queue@),
                                ),
                            is_marked(context.graph@, t@, c@),
                            forall|q: int|
                                0 <= q < head ==> (spec_lookup_columns(
                                    ctes,
                                    (#[trigger] qviews(queue@)[q]).0,
                                ) is Some ==> is_marked(
                                    context.graph@,
                                    qviews(queue@)[q].0,
                                    qviews(queue@)[q].1,
                                )),
                            forall|tt: Seq<char>, cc: Seq<char>, s: Seq<char>, o: Seq<char>|
                                #[trigger] spec_succ(ctes, tt, cc, s, o) && is_marked(
                                    context.graph@,
                                    tt,
                                    cc,
                                ) && !is_marked(g0, tt, cc) && (tt != t@ || cc != c@)
                                    ==> qviews(queue@).contains((s, o)),
                            forall|k2: int, s: Seq<char>, o: Seq<char>|
                                0 <= k2 < k && #[trigger] col_succ(ctes, colviews[k2], c@, s, o)
                                    ==> qviews(queue@).contains((s, o)),
                            spec_reachable(ctes, fviews, (t@, c@)),
                            spec_breach(ctes, fviews, g0, (t@, c@)),
                            !is_marked(g0, t@, c@),
                            forall|q: int|
                                0 <= q < qviews(queue@).len() ==> spec_reachable(
                                    ctes,
                                    fviews,
                                    #[trigger] qviews(queue@)[q],
                                ),
                            forall|q: int|
                                0 <= q < qviews(queue@).len() ==> spec_breach(
                                    ctes,
                                    fviews,
                                    g0,
                                    #[trigger] qviews(queue@)[q],
                                ),
                            forall|tt: Seq<char>, cc: Seq<char>|
                                #[trigger] is_marked(context.graph@, tt, cc) && !is_marked(
                                    g0,
                                    tt,
                                    cc,
                                ) ==> spec_reachable(ctes, fviews, (tt, cc)),
                            forall|tt: Seq<char>, cc: Seq<char>|
                                #[trigger] is_marked(context.graph@, tt, cc) && !is_marked(
                                    g0,
                                    tt,
                                    cc,
                                ) ==> spec_breach(ctes, fviews, g0, (tt, cc)),
                            (queue@ == iter_q && qviews(queue@).to_set() == qviews(
                                iter_q,
                            ).to_set()) || uni.difference(qviews(queue@).to_set()).len()
                                < iter_diff,
                        decreases m - k,
                    {
                        let ghost pre_q = queue@;
                        let col = &cte_cols[k];
                        if is_column_match(col, c.as_str()) {
                            match &col.table_name {
                                Some(st) => {
                                    let ast = extract_table_name(st.as_str());
                                    if context.has_cte(ast) {
                                        let next_name = match &col.original_column_name {
                                            Some(x) => clone_string(x),
                                            None => clone_string(&col.column_name),
                                        };
                                        let pair = (ast.to_owned(), next_name);
                                        proof {
                                            assert(colviews[k as int] == cte_cols@[k as int]@);
                                            assert(pair_view(pair) == succ_pair(
                                                colviews[k as int],
                                            ));
                                            lemma_col_pair_in_pool(ctes, t@, k as int);
                                            assert((fviews.map_values(
                                                |cv: ColumnView| root_pair(cv),
                                            ) + succ_pairs(ctes)).contains(pair_view(pair))) by {
                                                let w = choose|w: int|
                                                    0 <= w < succ_pairs(ctes).len() && succ_pairs(
                                                        ctes,
                                                    )[w] == succ_pair(colviews[k as int]);
                                                assert((fviews.map_values(
                                                    |cv: ColumnView| root_pair(cv),
                                                ) + succ_pairs(ctes))[fviews.len() + w]
                                                    == pair_view(pair));
                                            }
                                            assert(uni.contains(pair_view(pair)));
                                        }
                                        if !pair_in_queue(&queue, &pair) {
                                            proof {
                                                assert(!qviews(pre_q).to_set().contains(
                                                    pair_view(pair),
                                                ));
                                                uni.lemma_set_insert_diff_decreases(
                                                    qviews(pre_q).to_set(),
                                                    pair_view(pair),
                                                );
                                            }
                                            queue.push(pair);
                                            proof {
                                                lemma_qviews_push(pre_q, queue@.last());
                                                assert(qviews(queue@).to_set() =~= qviews(
                                                    pre_q,
                                                ).to_set().insert(pair_view(queue@.last()))) by {
                                                    assert forall|y: (Seq<char>, Seq<char>)|
                                                        qviews(queue@).contains(y) <==> (qviews(
                                                            pre_q,
                                                        ).contains(y) || y == pair_view(
                                                            queue@.last(),
                                                        )) by {
                                                        lemma_push_contains_iff(
                                                            qviews(pre_q),
                                                            pair_view(queue@.last()),
                                                            y,
                                                        );
                                                    }
                                                }
                                                assert(uni.difference(
                                                    qviews(queue@).to_set(),
                                                ).len() < uni.difference(
                                                    qviews(pre_q).to_set(),
                                                ).len());
                                                assert(uni.difference(
                                                    qviews(pre_q).to_set(),
                                                ).len() <= iter_diff);
                                                assert(qviews(queue@)[queue@.len() - 1]
                                                    == succ_pair(colviews[k as int]));
                                                assert(qviews(queue@).contains(succ_pair(
                                                    colviews[k as int],
                                                )));
                                                assert(col_succ(
                                                    ctes,
                                                    colviews[k as int],
                                                    c@,
                                                    pair_view(queue@.last()).0,
                                                    pair_view(queue@.last()).1,
                                                ));
                                                assert(spec_succ(
                                                    ctes,
                                                    t@,
                                                    c@,
                                                    pair_view(queue@.last()).0,
                                                    pair_view(queue@.last()).1,
                                                ));
                                                assert(spec_reachable(
                                                    ctes,
                                                    fviews,
                                                    pair_view(queue@.last()),
                                                )) by {
                                                    let n0 = choose|n0: nat|
                                                        spec_reachable_n(
                                                            ctes,
                                                            fviews,
                                                            (t@, c@),
                                                            n0,
                                                        );
                                                    assert(spec_reachable_n(
                                                        ctes,
                                                        fviews,
                                                        pair_view(queue@.last()),
                                                        n0 + 1,
                                                    ));
                                                }
                                                assert(spec_breach(
                                                    ctes,
                                                    fviews,
                                                    g0,
                                                    pair_view(queue@.last()),
                                                )) by {
                                                    let n1 = choose|n1: nat|
                                                        spec_breach_n(
                                                            ctes,
                                                            fviews,
                                                            g0,
                                                            (t@, c@),
                                                            n1,
                                                        );
                                                    assert(spec_breach_n(
                                                        ctes,
                                                        fviews,
                                                        g0,
                                                        pair_view(queue@.last()),
                                                        n1 + 1,
                                                    ));
                                                }
                                                assert forall|q: int|
                                                    0 <= q < qviews(queue@).len() implies
                                                    spec_reachable(
                                                    ctes,
                                                    fviews,
                                                    #[trigger] qviews(queue@)[q],
                                                ) by {
                                                    if q < pre_q.len() {
                                                        assert(qviews(queue@)[q] == qviews(
                                                            pre_q,
                                                        )[q]);
                                                    }
                                                }
                                                assert forall|q: int|
                                                    0 <= q < qviews(queue@).len() implies
                                                    spec_breach(
                                                    ctes,
                                                    fviews,
                                                    g0,
                                                    #[trigger] qviews(queue@)[q],
                                                ) by {
                                                    if q < pre_q.len() {
                                                        assert(qviews(queue@)[q] == qviews(
                                                            pre_q,
                                                        )[q]);
                                                    }
                                                }
                                                assert forall|q: int|
                                                    0 <= q < qviews(queue@).len() implies
                                                    uni.contains(
                                                    #[trigger] qviews(queue@)[q],
                                                ) by {
                                                    if q < pre_q.len() {
                                                        assert(qviews(queue@)[q] == qviews(
                                                            pre_q,
                                                        )[q]);
                                                    }
                                                }
                                                assert forall|m2: int|
                                                    0 <= m2 < fviews.len() implies root_enqueued(
                                                    #[trigger] fviews[m2],
                                                    qviews(queue@),
                                                ) by {
                                                    match fviews[m2].table_name {
                                                        Some(tm) => {
                                                            lemma_contains_push(
                                                                qviews(pre_q),
                                                                qviews(queue@).last(),
                                                                (tm, fviews[m2].column_name),
                                                            );
                                                        },
                                                        None => {},
                                                    }
                                                }
                                                assert forall|
                                                    tt: Seq<char>,
                                                    cc: Seq<char>,
                                                    s2: Seq<char>,
                                                    o2: Seq<char>,
                                                |
                                                    #[trigger] spec_succ(ctes, tt, cc, s2, o2)
                                                        && is_marked(context.graph@, tt, cc)
                                                        && !is_marked(g0, tt, cc) && (tt != t@
                                                        || cc != c@) implies qviews(
                                                    queue@,
                                                ).contains((s2, o2)) by {
                                                    lemma_contains_push(
                                                        qviews(pre_q),
                                                        qviews(queue@).last(),
                                                        (s2, o2),
                                                    );
                                                }
                                                assert forall|k2: int, s2: Seq<char>, o2: Seq<char>|
                                                    0 <= k2 < k && #[trigger] col_succ(
                                                        ctes,
                                                        colviews[k2],
                                                        c@,
                                                        s2,
                                                        o2,
                                                    ) implies qviews(queue@).contains(
                                                    (s2, o2),
                                                ) by {
                                                    lemma_contains_push(
                                                        qviews(pre_q),
                                                        qviews(queue@).last(),
                                                        (s2, o2),
                                                    );
                                                }
                                            }
                                        } else {
                                            proof {
                                                assert(qviews(queue@).contains(succ_pair(
                                                    colviews[k as int],
                                                )));
                                            }
                                        }
                                    }
                                },
                                None => {},
                            }
                        }
                        proof {
                            assert forall|k2: int, s: Seq<char>, o: Seq<char>|
                                0 <= k2 < k + 1 && #[trigger] col_succ(ctes, colviews[k2], c@, s, o)
                                    implies qviews(queue@).contains((s, o)) by {
                                if k2 < k {
                                    assert(qviews(pre_q).contains((s, o)));
                                    if queue@.len() > pre_q.len() {
                                        lemma_contains_push(
                                            qviews(pre_q),
                                            qviews(queue@).last(),
                                            (s, o),
                                        );
                                    }
                                } else {
                                    assert(col_succ(ctes, colviews[k as int], c@, s, o));
                                    assert((s, o) == succ_pair(colviews[k as int]));
                                    assert(qviews(queue@).contains((s, o)));
                                }
                            }
                        }
                        k = k + 1;
                    }
                },
                None => {},
            }
        }
    }
    proof {
        assert forall|j2: int|
            0 <= j2 < final_columns@.len() implies root_marked(
            context.graph@,
            ctes,
            #[trigger] final_columns@[j2]@,
        ) by {
            assert(fviews[j2] == final_columns@[j2]@);
            match fviews[j2].table_name {
                Some(t) => {
                    assert(qviews(queue@).contains((t, fviews[j2].column_name)));
                    let q = choose|q: int|
                        0 <= q < qviews(queue@).len() && qviews(queue@)[q] == (
                            t,
                            fviews[j2].column_name,
                        );
                },
                None => {},
            }
        }
        assert forall|t: Seq<char>, c: Seq<char>, s: Seq<char>, o: Seq<char>|
            #[trigger] spec_succ(ctes, t, c, s, o) && is_marked(context.graph@, t, c)
                && !is_marked(g0, t, c) implies is_marked(context.graph@, s, o) by {
            assert(qviews(queue@).contains((s, o)));
            let q = choose|q: int|
                0 <= q < qviews(queue@).len() && qviews(queue@)[q] == (s, o);
        }
        lemma_pointwise_find(g0, context.graph@);
        assert forall|j2: int|
            0 <= j2 < fviews.len() implies root_marked(
            context.graph@,
            ctes,
            #[trigger] fviews[j2],
        ) by {
            assert(fviews[j2] == final_columns@[j2]@);
            assert(root_marked(context.graph@, ctes, final_columns@[j2]@));
        }
        assert forall|t: Seq<char>, c: Seq<char>|
            #[trigger] is_marked(context.graph@, t, c) <==> is_marked(g0, t, c) || (spec_breach(
                ctes,
                fviews,
                g0,
                (t, c),
            ) && spec_lookup_columns(ctes, t) is Some) by {
            if is_marked(context.graph@, t, c) && !is_marked(g0, t, c) {
                assert(spec_breach(ctes, fviews, g0, (t, c)));
                assert(spec_find_cte(context.graph@, t) is Some);
                assert(spec_find_cte(g0, t) is Some);
                lemma_lookup_agrees(g0, ctes, t);
            }
            if !is_marked(context.graph@, t, c) && spec_breach(ctes, fviews, g0, (t, c))
                && spec_lookup_columns(ctes, t) is Some {
                let n2 = choose|n2: nat| spec_breach_n(ctes, fviews, g0, (t, c), n2);
                lemma_breach_complete(ctes, fviews, g0, context.graph@, (t, c), n2);
            }
        }
    }
}

/// Visitor for SELECT statements: the final query's column references become
/// the roots of the backward-reachability marking; a CTE's own select list
/// marks the references its expressions make, one hop, without requeuing.
pub struct SelectVisitor;

impl SelectVisitor {
    pub fn new() -> (res: Self) {
        SelectVisitor
    }

    pub fn visit<'a>(&self, tree: &SqlTree, i: usize, context: &mut AnalysisContext<'a>)
        requires
            tree.wf(),
            i < tree.nodes@.len(),
            old(context).wf(),
        ensures
            final(context).wf(),
            marks_grow(*old(context), *final(context)),
            tree.nodes@[i as int].kind@ != "select"@ ==> *final(context) == *old(context),
            ({
                &&& tree.nodes@[i as int].kind@ == "select"@
                &&& tree.spec_named_child_of_kind(i as int, "select_list"@) matches Some(sl)
                &&& tree.spec_ancestor_of_kind(i as int, "cte"@) matches Some(cte)
                &&& spec_cte_name(*tree, cte as int) matches Some(nm)
                &&& nm.len() > 0
            }) ==> forall|p: (Seq<char>, Seq<char>)|
                #[trigger] spec_cte_select_refs(
                    *tree,
                    tree.spec_named_child_of_kind(i as int, "select_list"@).unwrap(),
                    *old(context),
                ).contains(p) && spec_find_cte(old(context).graph@, p.0) is Some ==> is_marked(
                    final(context).graph@,
                    p.0,
                    p.1,
                ),
            ({
                &&& tree.nodes@[i as int].kind@ == "select"@
                &&& tree.spec_named_child_of_kind(i as int, "select_list"@) matches Some(sl)
                &&& tree.spec_ancestor_of_kind(i as int, "cte"@) is Some
            }) ==> forall|t: Seq<char>, c: Seq<char>|
                #[trigger] is_marked(final(context).graph@, t, c) && !is_marked(
                    old(context).graph@,
                    t,
                    c,
                ) ==> spec_cte_select_refs(
                    *tree,
                    tree.spec_named_child_of_kind(i as int, "select_list"@).unwrap(),
                    *old(context),
                ).contains((t, c)),
            tree.nodes@[i as int].kind@ == "select"@ && tree.spec_named_child_of_kind(
                i as int,
                "select_list"@,
            ) is None ==> *final(context) == *old(context),
            ({
                &&& tree.nodes@[i as int].kind@ == "select"@
                &&& tree.spec_named_child_of_kind(i as int, "select_list"@) matches Some(sl)
                &&& tree.spec_ancestor_of_kind(i as int, "cte"@) is None
            }) ==> forall|j: int|
                0 <= j < spec_final_roots(
                    *tree,
                    tree.spec_named_child_of_kind(i as int, "select_list"@).unwrap(),
                    old(context).cte_columns@,
                ).len() ==> root_marked(
                    final(context).graph@,
                    old(context).cte_columns@,
                    #[trigger] spec_final_roots(
                        *tree,
                        tree.spec_named_child_of_kind(i as int, "select_list"@).unwrap(),
                        old(context).cte_columns@,
                    )[j],
                ),
            ({
                &&& tree.nodes@[i as int].kind@ == "select"@
                &&& tree.spec_named_child_of_kind(i as int, "select_list"@) matches Some(sl)
                &&& tree.spec_ancestor_of_kind(i as int, "cte"@) is None
            }) ==> forall|t: Seq<char>, c: Seq<char>, so: Seq<char>, o: Seq<char>|
                #[trigger] spec_succ(old(context).cte_columns@, t, c, so, o) && is_marked(
                    final(context).graph@,
                    t,
                    c,
                ) && !is_marked(old(context).graph@, t, c) ==> is_marked(
                    final(context).graph@,
                    so,
                    o,
                ),
            ({
                &&& tree.nodes@[i as int].kind@ == "select"@
                &&& tree.spec_named_child_of_kind(i as int, "select_list"@) matches Some(sl)
                &&& tree.spec_ancestor_of_kind(i as int, "cte"@) is None
            }) ==> forall|t: Seq<char>, c: Seq<char>|
                #[trigger] is_marked(final(context).graph@, t, c) && !is_marked(
                    old(context).graph@,
                    t,
                    c,
                ) ==> spec_reachable(
                    old(context).cte_columns@,
                    spec_final_roots(
                        *tree,
                        tree.spec_named_child_of_kind(i as int, "select_list"@).unwrap(),
                        old(context).cte_columns@,
                    ),
                    (t, c),
                ),
            ({
                &&& tree.nodes@[i as int].kind@ == "select"@
                &&& tree.spec_named_child_of_kind(i as int, "select_list"@) matches Some(sl)
                &&& tree.spec_ancestor_of_kind(i as int, "cte"@) is None
            }) ==> forall|t: Seq<char>, c: Seq<char>|
                #[trigger] is_marked(final(context).graph@, t, c) <==> is_marked(
                    old(context).graph@,
                    t,
                    c,
                ) || (spec_breach(
                    old(context).cte_columns@,
                    spec_final_roots(
                        *tree,
                        tree.spec_named_child_of_kind(i as int, "select_list"@).unwrap(),
                        old(context).cte_columns@,
                    ),
                    old(context).graph@,
                    (t, c),
                ) && spec_lookup_columns(old(context).cte_columns@, t) is Some),
    {
        if !tree.kind_is(i, "select") {
            return;
        }
        let select_list = match tree.named_child_of_kind(i, "select_list") {
            Some(s) => s,
            None => {
                return;
            },
        };
        if !tree.is_inside_cte(i) {
            let final_columns = extract_final_select_columns(tree, select_list, context);
            proof {
                assert(final_columns@.map_values(|cv: ColumnInfo| cv@) == spec_final_roots(
                    *tree,
                    select_list,
                    context.cte_columns@,
                ));
            }
            mark_used_columns(context, final_columns);
        } else {
            extract_and_mark_expression_columns(tree, select_list, i, context);
        }
    }
}


/// Every resolvable reference under the select expressions of a select list.
pub open spec fn spec_exprs_refs_children(
    tree: SqlTree,
    select_list: int,
    k: int,
    tables: Seq<Seq<char>>,
    amap: Seq<(Seq<char>, Seq<char>)>,
    ctes: Seq<(Seq<char>, Seq<ColumnView>)>,
) -> Seq<(Seq<char>, Seq<char>)>
    decreases tree.nodes@.len() - select_list, tree.nodes@[select_list].children@.len() - k,
    when tree.wf() && 0 <= select_list < tree.nodes@.len() && 0 <= k
{
    if k >= tree.nodes@[select_list].children@.len() {
        Seq::empty()
    } else {
        let c = tree.nodes@[select_list].children@[k];
        let here: Seq<(Seq<char>, Seq<char>)> = if tree.nodes@[c as int].kind@
            == "select_expression"@ {
            spec_refs_under(tree, c as int, tables, amap, ctes, false)
        } else {
            Seq::empty()
        };
        here + spec_exprs_refs_children(tree, select_list, k + 1, tables, amap, ctes)
    }
}

/// The references a CTE's own select list resolves, against its FROM scope.
pub open spec fn spec_cte_select_refs<'a>(
    tree: SqlTree,
    select_list: usize,
    pre: AnalysisContext<'a>,
) -> Seq<(Seq<char>, Seq<char>)> {
    let scope = spec_extract_table(tree, tree.spec_next_named_sibling(select_list));
    spec_exprs_refs_children(tree, select_list as int, 0, scope.0, scope.1, pre.cte_columns@)
}

/// Column references of a CTE's own select list, marked directly: references
/// nested in function calls and window clauses included. When the enclosing
/// CTE has a non-empty name, every resolvable reference in the select
/// expressions whose table is a collected CTE ends up marked.
fn extract_and_mark_expression_columns<'a>(
    tree: &SqlTree,
    select_list: usize,
    select_node: usize,
    context: &mut AnalysisContext<'a>,
)
    requires
        tree.wf(),
        select_list < tree.nodes@.len(),
        select_node < tree.nodes@.len(),
        old(context).wf(),
    ensures
        final(context).wf(),
        marks_grow(*old(context), *final(context)),
        tree.spec_ancestor_of_kind(select_node as int, "cte"@) is None ==> *final(context) == *old(
            context,
        ),
        (tree.spec_ancestor_of_kind(select_node as int, "cte"@) matches Some(cte)
            && spec_cte_name(*tree, cte as int) is None) ==> *final(context) == *old(context),
        (tree.spec_ancestor_of_kind(select_node as int, "cte"@) matches Some(cte)
            && spec_cte_name(*tree, cte as int) matches Some(nm) && nm.len() == 0)
            ==> *final(context) == *old(context),
        (tree.spec_ancestor_of_kind(select_node as int, "cte"@) matches Some(cte)
            && spec_cte_name(*tree, cte as int) matches Some(nm) && nm.len() > 0) ==> forall|
            p: (Seq<char>, Seq<char>),
        |
            #[trigger] spec_cte_select_refs(*tree, select_list, *old(context)).contains(p)
                && spec_find_cte(old(context).graph@, p.0) is Some ==> is_marked(
                final(context).graph@,
                p.0,
                p.1,
            ),
        forall|t: Seq<char>, c: Seq<char>|
            #[trigger] is_marked(final(context).graph@, t, c) && !is_marked(
                old(context).graph@,
                t,
                c,
            ) ==> spec_cte_select_refs(*tree, select_list, *old(context)).contains((t, c)),
{
    let ghost entry = *context;
    let cte = match tree.find_ancestor_of_kind(select_node, "cte") {
        Some(c) => c,
        None => {
            return;
        },
    };
    let cte_name = match get_cte_name(tree, cte) {
        Some(n) => n,
        None => {
            return;
        },
    };
    if cte_name.unicode_len() == 0 {
        return;
    }
    let from = tree.next_named_sibling(select_list);
    let (tables, alias_map) = extract_table(tree, from);
    let ghost tviews = spec_extract_table(*tree, tree.spec_next_named_sibling(select_list)).0;
    let ghost aviews = spec_extract_table(*tree, tree.spec_next_named_sibling(select_list)).1;
    proof {
        assert(view_strings(tables@) == tviews);
        assert(alias_map@ == aviews);
    }
    let ghost refs_full = spec_cte_select_refs(*tree, select_list, entry);
    proof {
        assert(refs_full == spec_exprs_refs_children(
            *tree,
            select_list as int,
            0,
            tviews,
            aviews,
            entry.cte_columns@,
        ));
    }
    let children = &tree.nodes[select_list].children;
    let n = children.len();
    let mut k: usize = 0;
    while k < n
        invariant
            tree.wf(),
            select_list < tree.nodes@.len(),
            children@ == tree.nodes@[select_list as int].children@,
            n == children@.len(),
            0 <= k <= n,
            context.wf(),
            marks_grow(entry, *context),
            view_strings(tables@) == tviews,
            alias_map@ == aviews,
            refs_full == spec_cte_select_refs(*tree, select_list, entry),
            forall|p: (Seq<char>, Seq<char>)|
                #[trigger] refs_full.contains(p) && spec_find_cte(entry.graph@, p.0) is Some
                    ==> is_marked(context.graph@, p.0, p.1) || spec_exprs_refs_children(
                    *tree,
                    select_list as int,
                    k as int,
                    tviews,
                    aviews,
                    entry.cte_columns@,
                ).contains(p),
            forall|t: Seq<char>, c: Seq<char>|
                #[trigger] is_marked(context.graph@, t, c) && !is_marked(entry.graph@, t, c)
                    ==> refs_full.contains((t, c)),
            forall|p: (Seq<char>, Seq<char>)|
                #[trigger] spec_exprs_refs_children(
                    *tree,
                    select_list as int,
                    k as int,
                    tviews,
                    aviews,
                    entry.cte_columns@,
                ).contains(p) ==> refs_full.contains(p),
        decreases n - k,
    {
        let c = children[k];
        let ghost g_pre = context.graph@;
        if tree.kind_is(c, "select_expression") {
            mark_fields_under(tree, c, &tables, &alias_map, context, false);
        }
        proof {
            lemma_pointwise_find(g_pre, context.graph@);
            lemma_pointwise_find(entry.graph@, g_pre);
            assert forall|p: (Seq<char>, Seq<char>)|
                #[trigger] refs_full.contains(p) && spec_find_cte(entry.graph@, p.0) is Some
                    implies is_marked(context.graph@, p.0, p.1) || spec_exprs_refs_children(
                *tree,
                select_list as int,
                k + 1,
                tviews,
                aviews,
                entry.cte_columns@,
            ).contains(p) by {
                let here: Seq<(Seq<char>, Seq<char>)> = if tree.nodes@[c as int].kind@
                    == "select_expression"@ {
                    spec_refs_under(*tree, c as int, tviews, aviews, entry.cte_columns@, false)
                } else {
                    Seq::empty()
                };
                let rest = spec_exprs_refs_children(
                    *tree,
                    select_list as int,
                    k + 1,
                    tviews,
                    aviews,
                    entry.cte_columns@,
                );
                assert(spec_exprs_refs_children(
                    *tree,
                    select_list as int,
                    k as int,
                    tviews,
                    aviews,
                    entry.cte_columns@,
                ) == here + rest);
                lemma_add_contains(here, rest, p);
            }
            let ghost here: Seq<(Seq<char>, Seq<char>)> = if tree.nodes@[c as int].kind@
                == "select_expression"@ {
                spec_refs_under(*tree, c as int, tviews, aviews, entry.cte_columns@, false)
            } else {
                Seq::empty()
            };
            let ghost rest = spec_exprs_refs_children(
                *tree,
                select_list as int,
                k + 1,
                tviews,
                aviews,
                entry.cte_columns@,
            );
            let ghost at_k = spec_exprs_refs_children(
                *tree,
                select_list as int,
                k as int,
                tviews,
                aviews,
                entry.cte_columns@,
            );
            assert(at_k == here + rest);
            assert forall|t: Seq<char>, c2: Seq<char>|
                #[trigger] is_marked(context.graph@, t, c2) && !is_marked(entry.graph@, t, c2)
                    implies refs_full.contains((t, c2)) by {
                if !is_marked(g_pre, t, c2) {
                    assert(here.contains((t, c2)));
                    lemma_add_contains(here, rest, (t, c2));
                    assert(at_k.contains((t, c2)));
                }
            }
            assert forall|p: (Seq<char>, Seq<char>)|
                #[trigger] rest.contains(p) implies refs_full.contains(p) by {
                lemma_add_contains(here, rest, p);
                assert(at_k.contains(p));
            }
        }
        k = k + 1;
    }
    proof {
        assert(spec_exprs_refs_children(
            *tree,
            select_list as int,
            n as int,
            tviews,
            aviews,
            entry.cte_columns@,
        ) =~= Seq::<(Seq<char>, Seq<char>)>::empty());
    }
}


/// Whether a select expression has a direct `field` child.
pub open spec fn spec_has_direct_field(tree: SqlTree, c: int) -> bool {
    exists|g: int|
        0 <= g < tree.nodes@[c].children@.len() && tree.nodes@[(
        #[trigger] tree.nodes@[c].children@[g]) as int].kind@ == "field"@
}

/// The root a resolvable reference text yields at a node's position.
pub open spec fn spec_text_root(
    tree: SqlTree,
    i: int,
    tables: Seq<Seq<char>>,
    amap: Seq<(Seq<char>, Seq<char>)>,
    ctes: Seq<(Seq<char>, Seq<ColumnView>)>,
) -> Seq<ColumnView> {
    let text = tree.nodes@[i].text@;
    let t = spec_find_original_table(text, tables, amap, ctes);
    if t.len() > 0 {
        seq![
            ColumnView {
                table_name: Some(t),
                column_name: spec_base_name(text),
                original_column_name: None,
                row: tree.nodes@[i].row + 1,
                col: tree.nodes@[i].col + 1,
            },
        ]
    } else {
        Seq::empty()
    }
}

/// Every root a reference walk collects under a node: `field` and
/// `identifier` nodes at their own positions, function-call names stopping
/// the walk.
pub open spec fn spec_field_roots(
    tree: SqlTree,
    i: int,
    tables: Seq<Seq<char>>,
    amap: Seq<(Seq<char>, Seq<char>)>,
    ctes: Seq<(Seq<char>, Seq<ColumnView>)>,
) -> Seq<ColumnView>
    decreases tree.nodes@.len() - i, tree.nodes@[i].children@.len() + 1,
    when tree.wf() && 0 <= i < tree.nodes@.len()
{
    let is_ref = tree.nodes@[i].kind@ == "field"@ || tree.nodes@[i].kind@ == "identifier"@;
    if is_ref && spec_is_call_name_field(tree, i as usize) {
        Seq::empty()
    } else {
        let own: Seq<ColumnView> = if is_ref {
            spec_text_root(tree, i, tables, amap, ctes)
        } else {
            Seq::empty()
        };
        own + spec_field_roots_children(tree, i, 0, tables, amap, ctes)
    }
}

pub open spec fn spec_field_roots_children(
    tree: SqlTree,
    i: int,
    k: int,
    tables: Seq<Seq<char>>,
    amap: Seq<(Seq<char>, Seq<char>)>,
    ctes: Seq<(Seq<char>, Seq<ColumnView>)>,
) -> Seq<ColumnView>
    decreases tree.nodes@.len() - i, tree.nodes@[i].children@.len() - k,
    when tree.wf() && 0 <= i < tree.nodes@.len() && 0 <= k
{
    if k >= tree.nodes@[i].children@.len() {
        Seq::empty()
    } else {
        spec_field_roots(tree, tree.nodes@[i].children@[k] as int, tables, amap, ctes)
            + spec_field_roots_children(tree, i, k + 1, tables, amap, ctes)
    }
}

/// Star roots: every known column of every listed table, at the star's
/// position, with no pre-alias source.
pub open spec fn spec_star_roots(
    tables: Seq<Seq<char>>,
    ti: int,
    ctes: Seq<(Seq<char>, Seq<ColumnView>)>,
    row: int,
    col: int,
) -> Seq<ColumnView>
    decreases tables.len() - ti,
    when 0 <= ti
{
    if ti >= tables.len() {
        Seq::empty()
    } else {
        let here: Seq<ColumnView> = match spec_lookup_columns(ctes, tables[ti]) {
            Some(cols) => cols.map_values(
                |cv: ColumnView| ColumnView {
                    table_name: Some(tables[ti]),
                    column_name: cv.column_name,
                    original_column_name: None,
                    row: row + 1,
                    col: col + 1,
                },
            ),
            None => Seq::empty(),
        };
        here + spec_star_roots(tables, ti + 1, ctes, row, col)
    }
}

/// The final query's root columns, child by child: per select expression the
/// text fallback (when no direct field child) plus the reference walk; per
/// star the star roots.
pub open spec fn spec_final_roots_children(
    tree: SqlTree,
    sl: int,
    k: int,
    tables: Seq<Seq<char>>,
    amap: Seq<(Seq<char>, Seq<char>)>,
    ctes: Seq<(Seq<char>, Seq<ColumnView>)>,
) -> Seq<ColumnView>
    decreases tree.nodes@[sl].children@.len() - k,
    when tree.wf() && 0 <= sl < tree.nodes@.len() && 0 <= k
{
    if k >= tree.nodes@[sl].children@.len() {
        Seq::empty()
    } else {
        let c = tree.nodes@[sl].children@[k];
        let here: Seq<ColumnView> = if tree.nodes@[c as int].kind@ == "select_expression"@ {
            let direct: Seq<ColumnView> = if !spec_has_direct_field(tree, c as int) {
                spec_text_root(tree, c as int, tables, amap, ctes)
            } else {
                Seq::empty()
            };
            direct + spec_field_roots(tree, c as int, tables, amap, ctes)
        } else if tree.nodes@[c as int].kind@ == "select_all"@ {
            spec_star_roots(
                tables,
                0,
                ctes,
                tree.nodes@[c as int].row as int,
                tree.nodes@[c as int].col as int,
            )
        } else {
            Seq::empty()
        };
        here + spec_final_roots_children(tree, sl, k + 1, tables, amap, ctes)
    }
}

/// The final query's root columns against the select list's FROM scope.
pub open spec fn spec_final_roots(
    tree: SqlTree,
    sl: usize,
    ctes: Seq<(Seq<char>, Seq<ColumnView>)>,
) -> Seq<ColumnView> {
    let scope = spec_extract_table(tree, tree.spec_next_named_sibling(sl));
    spec_final_roots_children(tree, sl as int, 0, scope.0, scope.1, ctes)
}

/// The shape of every root column the final query contributes: an owning
/// table is always present, no pre-alias source is recorded, and positions
/// are 1-based.
pub open spec fn root_shape(c: ColumnView) -> bool {
    &&& c.table_name is Some
    &&& c.original_column_name is None
    &&& c.row >= 1
    &&& c.col >= 1
}

/// The final query's root columns: each select expression contributes the
/// column references found anywhere inside it, an expression with no direct
/// field falls back to its whole text, and a star expands to every known
/// column of the listed tables. Every returned column is a well-shaped root.
fn extract_final_select_columns<'a>(
    tree: &SqlTree,
    select_list: usize,
    context: &AnalysisContext<'a>,
) -> (res: Vec<ColumnInfo>)
    requires
        tree.wf(),
        select_list < tree.nodes@.len(),
        context.wf(),
    ensures
        forall|j: int| 0 <= j < res@.len() ==> root_shape((#[trigger] res@[j])@),
        res@.map_values(|c: ColumnInfo| c@) == spec_final_roots(
            *tree,
            select_list,
            context.cte_columns@,
        ),
{
    let mut columns: Vec<ColumnInfo> = Vec::new();
    let from = tree.next_named_sibling(select_list);
    let (tables, alias_map) = extract_table(tree, from);
    let ghost scope = spec_extract_table(*tree, tree.spec_next_named_sibling(select_list));
    let ghost ctes = context.cte_columns@;
    proof {
        assert(view_strings(tables@) == scope.0);
        assert(alias_map@ == scope.1);
    }
    let children = &tree.nodes[select_list].children;
    let n = children.len();
    let mut k: usize = 0;
    while k < n
        invariant
            tree.wf(),
            select_list < tree.nodes@.len(),
            context.wf(),
            ctes == context.cte_columns@,
            children@ == tree.nodes@[select_list as int].children@,
            n == children@.len(),
            view_strings(tables@) == scope.0,
            alias_map@ == scope.1,
            0 <= k <= n,
            spec_final_roots_children(*tree, select_list as int, 0, scope.0, scope.1, ctes)
                =~= columns@.map_values(|c: ColumnInfo| c@) + spec_final_roots_children(
                *tree,
                select_list as int,
                k as int,
                scope.0,
                scope.1,
                ctes,
            ),
            forall|j: int| 0 <= j < columns@.len() ==> root_shape((#[trigger] columns@[j])@),
        decreases n - k,
    {
        let c = children[k];
        if tree.kind_is(c, "select_expression") {
            let grand = &tree.nodes[c].children;
            let gn = grand.len();
            let mut has_direct_field: bool = false;
            let mut g: usize = 0;
            while g < gn
                invariant
                    tree.wf(),
                    c < tree.nodes@.len(),
                    grand@ == tree.nodes@[c as int].children@,
                    gn == grand@.len(),
                    0 <= g <= gn,
                    has_direct_field ==> spec_has_direct_field(*tree, c as int),
                    !has_direct_field ==> forall|g2: int|
                        0 <= g2 < g ==> tree.nodes@[(#[trigger] grand@[g2]) as int].kind@
                            != "field"@,
                decreases gn - g,
            {
                if tree.kind_is(grand[g], "field") {
                    has_direct_field = true;
                }
                g = g + 1;
            }
            let ghost direct: Seq<ColumnView> = if !spec_has_direct_field(*tree, c as int) {
                spec_text_root(*tree, c as int, scope.0, scope.1, ctes)
            } else {
                Seq::empty()
            };
            if !has_direct_field {
                let column_text = node_text(tree, c);
                let col_name = extract_column_name(column_text.as_str());
                let table = find_original_table(
                    column_text.as_str(),
                    &tables,
                    &alias_map,
                    &context.cte_columns,
                );
                if table.unicode_len() > 0 {
                    columns.push(
                        ColumnInfo::new(
                            Some(table),
                            col_name.to_owned(),
                            None,
                            tree.nodes[c].row,
                            tree.nodes[c].col,
                        ),
                    );
                    proof {
                        assert(columns@.last()@ == direct[0]);
                    }
                }
            } else {
                proof {
                    assert(spec_has_direct_field(*tree, c as int));
                }
            }
            collect_field_references(tree, c, &tables, &alias_map, context, &mut columns);
            proof {
                assert(spec_final_roots_children(
                    *tree,
                    select_list as int,
                    k as int,
                    scope.0,
                    scope.1,
                    ctes,
                ) == (direct + spec_field_roots(*tree, c as int, scope.0, scope.1, ctes))
                    + spec_final_roots_children(
                    *tree,
                    select_list as int,
                    k + 1,
                    scope.0,
                    scope.1,
                    ctes,
                ));
                assert(spec_final_roots_children(*tree, select_list as int, 0, scope.0, scope.1, ctes)
                    =~= columns@.map_values(|cc: ColumnInfo| cc@) + spec_final_roots_children(
                    *tree,
                    select_list as int,
                    k + 1,
                    scope.0,
                    scope.1,
                    ctes,
                ));
            }
        } else if tree.kind_is(c, "select_all") {
            let star_row = tree.nodes[c].row;
            let star_col = tree.nodes[c].col;
            let ghost star_full = spec_star_roots(
                scope.0,
                0,
                ctes,
                star_row as int,
                star_col as int,
            );
            let ghost pre_star = columns@.map_values(|cc: ColumnInfo| cc@);
            let tn = tables.len();
            let mut t: usize = 0;
            while t < tn
                invariant
                    tree.wf(),
                    context.wf(),
                    ctes == context.cte_columns@,
                    tn == tables@.len(),
                    view_strings(tables@) == scope.0,
                    star_row < usize::MAX,
                    star_col < usize::MAX,
                    0 <= t <= tn,
                    star_full == spec_star_roots(scope.0, 0, ctes, star_row as int, star_col as int),
                    pre_star + star_full =~= columns@.map_values(|cc: ColumnInfo| cc@)
                        + spec_star_roots(scope.0, t as int, ctes, star_row as int, star_col as int),
                    forall|j: int|
                        0 <= j < columns@.len() ==> root_shape((#[trigger] columns@[j])@),
                decreases tn - t,
            {
                match context.get_cte_columns(tables[t].as_str()) {
                    Some(cols) => {
                        let ghost colviews = cols@.map_values(|cc: ColumnInfo| cc@);
                        let ghost here = colviews.map_values(
                            |cv: ColumnView| ColumnView {
                                table_name: Some(scope.0[t as int]),
                                column_name: cv.column_name,
                                original_column_name: None,
                                row: star_row as int + 1,
                                col: star_col as int + 1,
                            },
                        );
                        let m = cols.len();
                        let mut q: usize = 0;
                        while q < m
                            invariant
                                m == cols@.len(),
                                tn == tables@.len(),
                                view_strings(tables@) == scope.0,
                                colviews == cols@.map_values(|cc: ColumnInfo| cc@),
                                here == colviews.map_values(
                                    |cv: ColumnView| ColumnView {
                                        table_name: Some(scope.0[t as int]),
                                        column_name: cv.column_name,
                                        original_column_name: None,
                                        row: star_row as int + 1,
                                        col: star_col as int + 1,
                                    },
                                ),
                                0 <= t < tn,
                                star_row < usize::MAX,
                                star_col < usize::MAX,
                                0 <= q <= m,
                                pre_star + star_full =~= columns@.map_values(
                                    |cc: ColumnInfo| cc@,
                                ) + here.subrange(q as int, m as int) + spec_star_roots(
                                    scope.0,
                                    t + 1,
                                    ctes,
                                    star_row as int,
                                    star_col as int,
                                ),
                                forall|j: int|
                                    0 <= j < columns@.len() ==> root_shape(
                                        (#[trigger] columns@[j])@,
                                    ),
                            decreases m - q,
                        {
                            let column = ColumnInfo::new(
                                Some(clone_string(&tables[t])),
                                clone_string(&cols[q].column_name),
                                None,
                                star_row,
                                star_col,
                            );
                            proof {
                                assert(column@ == here[q as int]);
                                assert(here.subrange(q as int, m as int).subrange(
                                    1,
                                    (m - q) as int,
                                ) =~= here.subrange(q + 1, m as int));
                            }
                            columns.push(column);
                            proof {
                                assert(pre_star + star_full =~= columns@.map_values(
                                    |cc: ColumnInfo| cc@,
                                ) + here.subrange(q + 1, m as int) + spec_star_roots(
                                    scope.0,
                                    t + 1,
                                    ctes,
                                    star_row as int,
                                    star_col as int,
                                ));
                            }
                            q = q + 1;
                        }
                        proof {
                            assert(here.subrange(m as int, m as int) =~= Seq::<
                                ColumnView,
                            >::empty());
                            assert(pre_star + star_full =~= columns@.map_values(
                                |cc: ColumnInfo| cc@,
                            ) + spec_star_roots(
                                scope.0,
                                t + 1,
                                ctes,
                                star_row as int,
                                star_col as int,
                            ));
                        }
                    },
                    None => {},
                }
                t = t + 1;
            }
            proof {
                assert(spec_star_roots(scope.0, tn as int, ctes, star_row as int, star_col as int)
                    =~= Seq::<ColumnView>::empty());
                assert(spec_final_roots_children(
                    *tree,
                    select_list as int,
                    k as int,
                    scope.0,
                    scope.1,
                    ctes,
                ) == star_full + spec_final_roots_children(
                    *tree,
                    select_list as int,
                    k + 1,
                    scope.0,
                    scope.1,
                    ctes,
                ));
                assert(spec_final_roots_children(*tree, select_list as int, 0, scope.0, scope.1, ctes)
                    =~= columns@.map_values(|cc: ColumnInfo| cc@) + spec_final_roots_children(
                    *tree,
                    select_list as int,
                    k + 1,
                    scope.0,
                    scope.1,
                    ctes,
                ));
            }
        } else {
            proof {
                assert(spec_final_roots_children(
                    *tree,
                    select_list as int,
                    k as int,
                    scope.0,
                    scope.1,
                    ctes,
                ) == spec_final_roots_children(
                    *tree,
                    select_list as int,
                    k + 1,
                    scope.0,
                    scope.1,
                    ctes,
                ));
            }
        }
        k = k + 1;
    }
    proof {
        assert(spec_final_roots_children(
            *tree,
            select_list as int,
            n as int,
            scope.0,
            scope.1,
            ctes,
        ) =~= Seq::<ColumnView>::empty());
        assert(columns@.map_values(|c: ColumnInfo| c@) =~= spec_final_roots(
            *tree,
            select_list,
            ctes,
        ));
    }
    columns
}

/// Collects every column reference found under an expression, skipping
/// function names, as a root column at the reference's own position. Only
/// well-shaped roots are appended.
fn collect_field_references<'a>(
    tree: &SqlTree,
    i: usize,
    tables: &Vec<String>,
    alias_map: &AliasMap,
    context: &AnalysisContext<'a>,
    columns: &mut Vec<ColumnInfo>,
)
    requires
        tree.wf(),
        i < tree.nodes@.len(),
        context.wf(),
    ensures
        old(columns)@.len() <= final(columns)@.len(),
        forall|j: int|
            0 <= j < old(columns)@.len() ==> #[trigger] final(columns)@[j] == old(columns)@[j],
        forall|j: int|
            old(columns)@.len() <= j < final(columns)@.len() ==> root_shape(
                (#[trigger] final(columns)@[j])@,
            ),
        final(columns)@.map_values(|c: ColumnInfo| c@) == old(columns)@.map_values(
            |c: ColumnInfo| c@,
        ) + spec_field_roots(
            *tree,
            i as int,
            view_strings(tables@),
            alias_map@,
            context.cte_columns@,
        ),
    decreases tree.nodes@.len() - i,
{
    let ghost entry_cols = columns@;
    let ghost entry_map = columns@.map_values(|c: ColumnInfo| c@);
    let ghost tviews = view_strings(tables@);
    let ghost ctes = context.cte_columns@;
    let ghost roots_full = spec_field_roots(*tree, i as int, tviews, alias_map@, ctes);
    if tree.kind_is(i, "field") || tree.kind_is(i, "identifier") {
        if is_call_name_field(tree, i) {
            proof {
                assert(roots_full =~= Seq::<ColumnView>::empty());
                assert(columns@.map_values(|c: ColumnInfo| c@) =~= entry_map + roots_full);
            }
            return;
        }
        let field_text = node_text(tree, i);
        let col_name = extract_column_name(field_text.as_str());
        let table = find_original_table(
            field_text.as_str(),
            tables,
            alias_map,
            &context.cte_columns,
        );
        if table.unicode_len() > 0 {
            columns.push(
                ColumnInfo::new(
                    Some(table),
                    col_name.to_owned(),
                    None,
                    tree.nodes[i].row,
                    tree.nodes[i].col,
                ),
            );
            proof {
                assert(columns@.last()@ == spec_text_root(
                    *tree,
                    i as int,
                    tviews,
                    alias_map@,
                    ctes,
                )[0]);
            }
        }
    }
    let ghost own: Seq<ColumnView> = if tree.nodes@[i as int].kind@ == "field"@
        || tree.nodes@[i as int].kind@ == "identifier"@ {
        spec_text_root(*tree, i as int, tviews, alias_map@, ctes)
    } else {
        Seq::empty()
    };
    proof {
        assert(roots_full == own + spec_field_roots_children(
            *tree,
            i as int,
            0,
            tviews,
            alias_map@,
            ctes,
        ));
        assert(columns@.map_values(|c: ColumnInfo| c@) =~= entry_map + own);
    }
    let children = &tree.nodes[i].children;
    let n = children.len();
    let mut k: usize = 0;
    while k < n
        invariant
            tree.wf(),
            i < tree.nodes@.len(),
            context.wf(),
            children@ == tree.nodes@[i as int].children@,
            n == children@.len(),
            0 <= k <= n,
            tviews == view_strings(tables@),
            ctes == context.cte_columns@,
            entry_map == entry_cols.map_values(|c: ColumnInfo| c@),
            roots_full == spec_field_roots(*tree, i as int, tviews, alias_map@, ctes),
            entry_map + roots_full =~= columns@.map_values(|c: ColumnInfo| c@)
                + spec_field_roots_children(*tree, i as int, k as int, tviews, alias_map@, ctes),
            entry_cols.len() <= columns@.len(),
            forall|j: int| 0 <= j < entry_cols.len() ==> #[trigger] columns@[j] == entry_cols[j],
            forall|j: int|
                entry_cols.len() <= j < columns@.len() ==> root_shape((#[trigger] columns@[j])@),
        decreases n - k,
    {
        let c = children[k];
        collect_field_references(tree, c, tables, alias_map, context, columns);
        proof {
            assert(spec_field_roots_children(*tree, i as int, k as int, tviews, alias_map@, ctes)
                == spec_field_roots(*tree, c as int, tviews, alias_map@, ctes)
                + spec_field_roots_children(
                *tree,
                i as int,
                k + 1,
                tviews,
                alias_map@,
                ctes,
            ));
            assert(entry_map + roots_full =~= columns@.map_values(|cc: ColumnInfo| cc@)
                + spec_field_roots_children(*tree, i as int, k + 1, tviews, alias_map@, ctes));
        }
        k = k + 1;
    }
    proof {
        assert(spec_field_roots_children(*tree, i as int, n as int, tviews, alias_map@, ctes)
            =~= Seq::<ColumnView>::empty());
        assert(columns@.map_values(|c: ColumnInfo| c@) =~= entry_map + roots_full);
    }
}

} // verus!
