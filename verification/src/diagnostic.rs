//! A diagnostic: a 1-based source position and a human-readable message.

use vstd::prelude::*;

verus! {

use vstd::string::StringExecFns;
use crate::text::{spec_decimal, usize_to_string};

/// Mathematical view of a diagnostic.
pub ghost struct DiagnosticView {
    pub row: int,
    pub col: int,
    pub message: Seq<char>,
}

/// A reported finding; rows and columns are 1-based.
pub struct Diagnostic {
    row: usize,
    col: usize,
    message: String,
}

impl View for Diagnostic {
    type V = DiagnosticView;

    closed spec fn view(&self) -> DiagnosticView {
        DiagnosticView { row: self.row as int, col: self.col as int, message: self.message@ }
    }
}

impl Diagnostic {
    pub fn new(row: usize, col: usize, message: String) -> (res: Self)
        ensures
            res@ == (DiagnosticView { row: row as int, col: col as int, message: message@ }),
    {
        Diagnostic { row, col, message }
    }

    pub fn row(&self) -> (res: usize)
        ensures
            res as int == self@.row,
    {
        self.row
    }

    pub fn col(&self) -> (res: usize)
        ensures
            res as int == self@.col,
    {
        self.col
    }

    pub fn message(&self) -> (res: &str)
        ensures
            res@ == self@.message,
    {
        self.message.as_str()
    }

    /// Renders the diagnostic as `row:col: message`.
    pub fn display_string(&self) -> (res: String)
        ensures
            res@ == spec_diagnostic_display(self@),
    {
        let mut out = usize_to_string(self.row);
        out.append(":");
        let col_s = usize_to_string(self.col);
        out.append(col_s.as_str());
        out.append(": ");
        out.append(self.message.as_str());
        proof {
            reveal_strlit(":");
            reveal_strlit(": ");
            assert(":"@ =~= seq![':']);
            assert(": "@ =~= seq![':', ' ']);
            assert(out@ =~= spec_diagnostic_display(self@));
        }
        out
    }
}

/// The rendering `row:col: message` of a diagnostic view.
pub open spec fn spec_diagnostic_display(d: DiagnosticView) -> Seq<char> {
    spec_decimal(d.row as nat) + seq![':'] + spec_decimal(d.col as nat) + seq![':', ' ']
        + d.message
}

} // verus!
