//! The column model: one output column of a CTE or of the final query.

use vstd::prelude::*;

verus! {

use vstd::string::StringExecFns;
use crate::text::{spec_decimal, usize_to_string};

/// Mathematical view of a `ColumnInfo`: every field as a plain value.
pub ghost struct ColumnView {
    pub table_name: Option<Seq<char>>,
    pub column_name: Seq<char>,
    pub original_column_name: Option<Seq<char>>,
    pub row: int,
    pub col: int,
}

/// One output column of a CTE or of the final query.
///
/// `table_name` is the owning CTE or table, resolved when the column is
/// collected; `column_name` is the output name (the alias when aliased);
/// `original_column_name` is the pre-alias source name used to trace
/// provenance through a chain of CTEs. `row` and `col` are 1-based.
pub struct ColumnInfo {
    pub table_name: Option<String>,
    pub column_name: String,
    pub original_column_name: Option<String>,
    pub row: usize,
    pub col: usize,
}

pub open spec fn view_opt_string(s: Option<String>) -> Option<Seq<char>> {
    match s {
        Some(v) => Some(v@),
        None => None,
    }
}

impl View for ColumnInfo {
    type V = ColumnView;

    open spec fn view(&self) -> ColumnView {
        ColumnView {
            table_name: view_opt_string(self.table_name),
            column_name: self.column_name@,
            original_column_name: view_opt_string(self.original_column_name),
            row: self.row as int,
            col: self.col as int,
        }
    }
}

impl ColumnInfo {
    /// Builds a column from a 0-based source position; the stored position is
    /// 1-based, as diagnostics report it.
    pub fn new(
        table_name: Option<String>,
        column_name: String,
        original_column_name: Option<String>,
        row: usize,
        col: usize,
    ) -> (res: Self)
        requires
            row < usize::MAX,
            col < usize::MAX,
        ensures
            res@ == (ColumnView {
                table_name: view_opt_string(table_name),
                column_name: column_name@,
                original_column_name: view_opt_string(original_column_name),
                row: row + 1,
                col: col + 1,
            }),
    {
        ColumnInfo {
            table_name,
            column_name,
            original_column_name,
            row: row + 1,
            col: col + 1,
        }
    }

    /// Renders the column as `table:name:row:col`, with an absent table
    /// rendered empty.
    pub fn display_string(&self) -> (res: String)
        ensures
            res@ == spec_column_display(self@),
    {
        let mut out: String = match &self.table_name {
            Some(t) => clone_string(t),
            None => String::new(),
        };
        out.append(":");
        out.append(self.column_name.as_str());
        out.append(":");
        let row_s = usize_to_string(self.row);
        out.append(row_s.as_str());
        out.append(":");
        let col_s = usize_to_string(self.col);
        out.append(col_s.as_str());
        proof {
            reveal_strlit(":");
            assert(":"@ =~= seq![':']);
            assert(out@ =~= spec_column_display(self@));
        }
        out
    }
}

/// The rendering `table:name:row:col` of a column view.
pub open spec fn spec_column_display(c: ColumnView) -> Seq<char> {
    let table = match c.table_name {
        Some(t) => t,
        None => Seq::empty(),
    };
    table + seq![':'] + c.column_name + seq![':'] + spec_decimal(c.row as nat) + seq![':']
        + spec_decimal(c.col as nat)
}

/// A copy of a string with the same characters.
pub fn clone_string(s: &String) -> (res: String)
    ensures
        res@ == s@,
{
    String::from_str(s.as_str())
}

/// A copy of an optional string with the same characters.
pub fn clone_opt_string(s: &Option<String>) -> (res: Option<String>)
    ensures
        view_opt_string(res) == view_opt_string(*s),
{
    match s {
        Some(v) => Some(clone_string(v)),
        None => None,
    }
}

/// A copy of a column with the same view.
pub fn clone_column(c: &ColumnInfo) -> (res: ColumnInfo)
    ensures
        res@ == c@,
{
    ColumnInfo {
        table_name: clone_opt_string(&c.table_name),
        column_name: clone_string(&c.column_name),
        original_column_name: clone_opt_string(&c.original_column_name),
        row: c.row,
        col: c.col,
    }
}

impl PartialEq for ColumnInfo {
    /// Column equality compares the owning table, the output name, and the
    /// position; the pre-alias source name is ignored.
    fn eq(&self, other: &Self) -> (res: bool) {
        let tables_equal = match (&self.table_name, &other.table_name) {
            (Some(a), Some(b)) => crate::text::str_eq(a.as_str(), b.as_str()),
            (None, None) => true,
            _ => false,
        };
        tables_equal && crate::text::str_eq(self.column_name.as_str(), other.column_name.as_str())
            && self.row == other.row && self.col == other.col
    }
}

impl Eq for ColumnInfo {

}

impl vstd::std_specs::cmp::PartialEqSpecImpl for ColumnInfo {
    open spec fn obeys_eq_spec() -> bool {
        true
    }

    open spec fn eq_spec(&self, other: &Self) -> bool {
        self@.table_name == other@.table_name && self@.column_name == other@.column_name
            && self@.row == other@.row && self@.col == other@.col
    }
}

impl PartialOrd for ColumnInfo {
    /// Columns are ordered by position: first by row, then by column.
    fn partial_cmp(&self, other: &Self) -> (res: Option<core::cmp::Ordering>) {
        if self.row < other.row {
            Some(core::cmp::Ordering::Less)
        } else if self.row > other.row {
            Some(core::cmp::Ordering::Greater)
        } else if self.col < other.col {
            Some(core::cmp::Ordering::Less)
        } else if self.col > other.col {
            Some(core::cmp::Ordering::Greater)
        } else {
            Some(core::cmp::Ordering::Equal)
        }
    }
}

impl vstd::std_specs::cmp::PartialOrdSpecImpl for ColumnInfo {
    open spec fn obeys_partial_cmp_spec() -> bool {
        true
    }

    open spec fn partial_cmp_spec(&self, other: &Self) -> Option<core::cmp::Ordering> {
        if self@.row < other@.row {
            Some(core::cmp::Ordering::Less)
        } else if self@.row > other@.row {
            Some(core::cmp::Ordering::Greater)
        } else if self@.col < other@.col {
            Some(core::cmp::Ordering::Less)
        } else if self@.col > other@.col {
            Some(core::cmp::Ordering::Greater)
        } else {
            Some(core::cmp::Ordering::Equal)
        }
    }
}

/// Position order on column views: by row, then by column.
pub open spec fn pos_le(a: ColumnView, b: ColumnView) -> bool {
    a.row < b.row || (a.row == b.row && a.col <= b.col)
}

/// One FROM-clause table reference together with the alias it was given,
/// if any.
pub struct TableInfo {
    pub table_name: String,
    pub alias_name: Option<String>,
}

impl TableInfo {
    pub fn new(table_name: String, alias_name: Option<String>) -> (res: Self)
        ensures
            res.table_name@ == table_name@,
            view_opt_string(res.alias_name) == view_opt_string(alias_name),
    {
        TableInfo { table_name, alias_name }
    }
}

} // verus!
