//! Resolution utilities: mapping textual column and table references,
//! possibly qualified and possibly aliased, to the owning CTE or table.

use vstd::prelude::*;

verus! {

use vstd::string::StrSliceExecFns;
use crate::models::ColumnView;
use crate::text::{str_eq, str_contains_char, strings_contain};
use crate::context::{CteIndex, spec_lookup_columns};

/// The last dot-separated segment of a reference: `table.column` gives
/// `column`, a plain name gives itself.
pub open spec fn spec_base_name(s: Seq<char>) -> Seq<char>
    decreases s.len(),
{
    if s.len() == 0 {
        s
    } else if s.last() == '.' {
        Seq::empty()
    } else {
        spec_base_name(s.drop_last()).push(s.last())
    }
}

/// The first dot-separated segment of a reference: `schema.table` gives
/// `schema`, a plain name gives itself.
pub open spec fn spec_first_segment(s: Seq<char>) -> Seq<char>
    decreases s.len(),
{
    if s.len() == 0 {
        s
    } else if s[0] == '.' {
        Seq::empty()
    } else {
        seq![s[0]] + spec_first_segment(s.subrange(1, s.len() as int))
    }
}

proof fn lemma_base_name_is_tail(s: Seq<char>, i: int)
    requires
        0 <= i <= s.len(),
        forall|j: int| i <= j < s.len() ==> s[j] != '.',
        i == 0 || s[i - 1] == '.',
    ensures
        spec_base_name(s) == s.subrange(i, s.len() as int),
    decreases s.len(),
{
    if i == s.len() {
        if s.len() == 0 {
            assert(spec_base_name(s) =~= s.subrange(i, s.len() as int));
        } else {
            assert(s.last() == '.');
            assert(spec_base_name(s) =~= s.subrange(i, s.len() as int));
        }
    } else {
        assert(s.last() != '.');
        let d = s.drop_last();
        assert(d =~= s.subrange(0, s.len() - 1));
        lemma_base_name_is_tail(d, i);
        assert(d.subrange(i, d.len() as int) =~= s.subrange(i, s.len() - 1));
        assert(spec_base_name(s) =~= s.subrange(i, s.len() as int));
    }
}

proof fn lemma_first_segment_is_head(s: Seq<char>, k: int)
    requires
        0 <= k <= s.len(),
        forall|j: int| 0 <= j < k ==> s[j] != '.',
        k == s.len() || s[k] == '.',
    ensures
        spec_first_segment(s) == s.subrange(0, k),
    decreases s.len(),
{
    if k == 0 {
        if s.len() == 0 {
            assert(spec_first_segment(s) =~= s.subrange(0, 0));
        } else {
            assert(s[0] == '.');
            assert(spec_first_segment(s) =~= s.subrange(0, 0));
        }
    } else {
        assert(s[0] != '.');
        let t = s.subrange(1, s.len() as int);
        lemma_first_segment_is_head(t, k - 1);
        assert(t.subrange(0, k - 1) =~= s.subrange(1, k));
        assert(spec_first_segment(s) =~= s.subrange(0, k));
    }
}

/// Strips table or alias qualification: the last dot-separated segment.
pub fn extract_column_name(column_ref: &str) -> (res: &str)
    ensures
        res@ == spec_base_name(column_ref@),
{
    let n = column_ref.unicode_len();
    let mut last: usize = n;
    let mut j: usize = 0;
    while j < n
        invariant
            n == column_ref@.len(),
            0 <= j <= n,
            last == n || (last < j && column_ref@[last as int] == '.'),
            forall|m: int| (if last == n { 0 } else { last + 1 }) <= m < j ==> column_ref@[m]
                != '.',
        decreases n - j,
    {
        if column_ref.get_char(j) == '.' {
            last = j;
        }
        j = j + 1;
    }
    if last == n {
        proof {
            lemma_base_name_is_tail(column_ref@, 0);
            assert(column_ref@.subrange(0, n as int) =~= column_ref@);
        }
        column_ref
    } else {
        let res = column_ref.substring_char(last + 1, n);
        proof {
            lemma_base_name_is_tail(column_ref@, last + 1);
        }
        res
    }
}

/// The table or schema part of a qualified reference: the first
/// dot-separated segment.
pub fn extract_table_name(table_ref: &str) -> (res: &str)
    ensures
        res@ == spec_first_segment(table_ref@),
{
    let n = table_ref.unicode_len();
    let mut j: usize = 0;
    while j < n
        invariant
            n == table_ref@.len(),
            0 <= j <= n,
            forall|m: int| 0 <= m < j ==> table_ref@[m] != '.',
        decreases n - j,
    {
        if table_ref.get_char(j) == '.' {
            let res = table_ref.substring_char(0, j);
            proof {
                lemma_first_segment_is_head(table_ref@, j as int);
            }
            return res;
        }
        j = j + 1;
    }
    proof {
        lemma_first_segment_is_head(table_ref@, n as int);
        assert(table_ref@.subrange(0, n as int) =~= table_ref@);
    }
    table_ref
}

/// An alias table for one FROM clause: alias name to base table name,
/// earliest binding winning on lookup.
pub struct AliasMap {
    pub pairs: Vec<(String, String)>,
}

impl View for AliasMap {
    type V = Seq<(Seq<char>, Seq<char>)>;

    open spec fn view(&self) -> Seq<(Seq<char>, Seq<char>)> {
        self.pairs@.map_values(|p: (String, String)| (p.0@, p.1@))
    }
}

/// Lookup in an association sequence; the latest binding of a key wins, as
/// rebinding in a map overwrites.
pub open spec fn spec_lookup_alias(m: Seq<(Seq<char>, Seq<char>)>, key: Seq<char>) -> Option<
    Seq<char>,
>
    decreases m.len(),
{
    if m.len() == 0 {
        None
    } else if m.last().0 == key {
        Some(m.last().1)
    } else {
        spec_lookup_alias(m.drop_last(), key)
    }
}

impl AliasMap {
    pub fn new() -> (res: Self)
        ensures
            res@ == Seq::<(Seq<char>, Seq<char>)>::empty(),
    {
        let res = AliasMap { pairs: Vec::new() };
        proof {
            assert(res@ =~= Seq::<(Seq<char>, Seq<char>)>::empty());
        }
        res
    }

    /// Records one alias binding after the existing ones.
    pub fn insert(&mut self, alias: String, table: String)
        ensures
            final(self)@ == old(self)@.push((alias@, table@)),
    {
        let ghost before = self@;
        self.pairs.push((alias, table));
        proof {
            assert(self@ =~= before.push((self.pairs@.last().0@, self.pairs@.last().1@)));
        }
    }

    /// The base table bound to an alias, if any; the latest binding wins.
    pub fn get(&self, key: &str) -> (res: Option<&String>)
        ensures
            match res {
                Some(v) => spec_lookup_alias(self@, key@) == Some(v@),
                None => spec_lookup_alias(self@, key@) is None,
            },
    {
        let n = self.pairs.len();
        let mut i: usize = n;
        proof {
            assert(self@.subrange(0, n as int) =~= self@);
        }
        while i > 0
            invariant
                n == self.pairs@.len(),
                0 <= i <= n,
                spec_lookup_alias(self@, key@) == spec_lookup_alias(
                    self@.subrange(0, i as int),
                    key@,
                ),
            decreases i,
        {
            i = i - 1;
            proof {
                assert(self@.subrange(0, i + 1).last() == self@[i as int]);
                assert(self@.subrange(0, i + 1).drop_last() =~= self@.subrange(0, i as int));
            }
            if str_eq(self.pairs[i].0.as_str(), key) {
                return Some(&self.pairs[i].1);
            }
        }
        proof {
            assert(self@.subrange(0, 0) =~= Seq::<(Seq<char>, Seq<char>)>::empty());
        }
        None
    }
}

/// Scan of the FROM-clause tables, in order, for the first one that can own
/// an unqualified reference with the given base name: a known CTE owns it
/// when one of its columns has that base name; a table with no known schema
/// is assumed to own it outright.
/// Whether some column of the list has this base name.
pub open spec fn spec_has_base_column(cols: Seq<ColumnView>, base: Seq<char>) -> bool {
    exists|k: int|
        0 <= k < cols.len() && spec_base_name((#[trigger] cols[k]).column_name) == base
}

pub open spec fn spec_scan_tables(
    base: Seq<char>,
    tables: Seq<Seq<char>>,
    ctes: Seq<(Seq<char>, Seq<ColumnView>)>,
) -> Seq<char>
    decreases tables.len(),
{
    if tables.len() == 0 {
        Seq::empty()
    } else {
        match spec_lookup_columns(ctes, tables[0]) {
            Some(cols) => {
                if spec_has_base_column(cols, base) {
                    tables[0]
                } else {
                    spec_scan_tables(base, tables.subrange(1, tables.len() as int), ctes)
                }
            },
            None => tables[0],
        }
    }
}

/// Resolution of a column reference to its owning table, per the documented
/// heuristic: a qualified reference resolves through the alias table and is
/// accepted when it names an in-scope table or a known CTE; otherwise the
/// FROM-clause tables are scanned in order for the base name. An empty
/// result means the reference is untraceable.
pub open spec fn spec_find_original_table(
    column: Seq<char>,
    tables: Seq<Seq<char>>,
    amap: Seq<(Seq<char>, Seq<char>)>,
    ctes: Seq<(Seq<char>, Seq<ColumnView>)>,
) -> Seq<char> {
    let qualified = if column.contains('.') {
        let prefix = spec_first_segment(column);
        let actual = match spec_lookup_alias(amap, prefix) {
            Some(t) => t,
            None => prefix,
        };
        if tables.contains(actual) || spec_lookup_columns(ctes, actual) is Some {
            Some(actual)
        } else {
            None
        }
    } else {
        None
    };
    match qualified {
        Some(t) => t,
        None => spec_scan_tables(spec_base_name(column), tables, ctes),
    }
}

/// Whether some column of the list has the given base name.
fn columns_have_base(cols: &Vec<ColumnInfo>, base: &str) -> (res: bool)
    ensures
        res == spec_has_base_column(cols@.map_values(|c: ColumnInfo| c@), base@),
{
    let ghost views = cols@.map_values(|c: ColumnInfo| c@);
    let n = cols.len();
    let mut i: usize = 0;
    while i < n
        invariant
            n == cols@.len(),
            views == cols@.map_values(|c: ColumnInfo| c@),
            0 <= i <= n,
            forall|j: int| 0 <= j < i ==> spec_base_name(#[trigger] views[j].column_name)
                != base@,
        decreases n - i,
    {
        let col_base = extract_column_name(cols[i].column_name.as_str());
        if str_eq(col_base, base) {
            proof {
                assert(spec_base_name(views[i as int].column_name) == base@);
            }
            return true;
        }
        i = i + 1;
    }
    false
}

use crate::models::ColumnInfo;

/// Finds the table a column reference belongs to, against the current
/// FROM-clause tables and aliases; empty when untraceable.
pub fn find_original_table(
    column: &str,
    tables: &Vec<String>,
    alias_map: &AliasMap,
    cte_columns: &CteIndex,
) -> (res: String)
    ensures
        res@ == spec_find_original_table(
            column@,
            tables@.map_values(|t: String| t@),
            alias_map@,
            cte_columns@,
        ),
{
    let ghost table_views = tables@.map_values(|t: String| t@);
    if str_contains_char(column, '.') {
        let prefix = extract_table_name(column);
        let actual: &str = match alias_map.get(prefix) {
            Some(t) => t.as_str(),
            None => prefix,
        };
        if strings_contain(tables, actual) || cte_columns.contains(actual) {
            return actual.to_owned();
        }
    }
    let base = extract_column_name(column);
    let n = tables.len();
    let mut i: usize = 0;
    proof {
        assert(table_views.len() == tables@.len());
        assert(table_views.subrange(0, n as int) =~= table_views);
    }
    while i < n
        invariant
            n == tables@.len(),
            table_views == tables@.map_values(|t: String| t@),
            0 <= i <= n,
            base@ == spec_base_name(column@),
            spec_find_original_table(column@, table_views, alias_map@, cte_columns@)
                == spec_scan_tables(base@, table_views, cte_columns@),
            spec_scan_tables(base@, table_views, cte_columns@) == spec_scan_tables(
                base@,
                table_views.subrange(i as int, n as int),
                cte_columns@,
            ),
        decreases n - i,
    {
        proof {
            assert(table_views.subrange(i as int, n as int)[0] == table_views[i as int]);
            assert(tables@[i as int]@ == table_views[i as int]);
        }
        match cte_columns.get(tables[i].as_str()) {
            Some(cols) => {
                if columns_have_base(cols, base) {
                    proof {
                        assert(spec_scan_tables(
                            base@,
                            table_views.subrange(i as int, n as int),
                            cte_columns@,
                        ) == table_views[i as int]);
                        assert(spec_find_original_table(
                            column@,
                            table_views,
                            alias_map@,
                            cte_columns@,
                        ) == spec_scan_tables(base@, table_views, cte_columns@));
                    }
                    return crate::models::clone_string(&tables[i]);
                }
            },
            None => {
                proof {
                    assert(spec_scan_tables(
                        base@,
                        table_views.subrange(i as int, n as int),
                        cte_columns@,
                    ) == table_views[i as int]);
                    assert(spec_find_original_table(
                        column@,
                        table_views,
                        alias_map@,
                        cte_columns@,
                    ) == spec_scan_tables(base@, table_views, cte_columns@));
                }
                return crate::models::clone_string(&tables[i]);
            },
        }
        proof {
            assert(table_views.subrange(i as int, n as int).subrange(
                1,
                (n - i) as int,
            ) =~= table_views.subrange(i + 1, n as int));
        }
        i = i + 1;
    }
    proof {
        assert(table_views.subrange(n as int, n as int) =~= Seq::<Seq<char>>::empty());
    }
    String::new()
}

} // verus!
