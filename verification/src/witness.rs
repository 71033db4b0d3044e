//! Witness assignments.
//!
//! An assignment holds the concrete contents of every committed column and
//! every selector column for one proving pass: a rectangle of field
//! elements, plus a rectangle of booleans, each `rows` tall.

use vstd::prelude::*;
use crate::felt::Felt;

verus! {

/// The concrete cell contents of one proving pass.
pub struct Assignment {
    /// Committed columns, outer index the column, inner index the row.
    pub advice: Vec<Vec<Felt>>,
    /// Selector columns, outer index the selector, inner index the row.
    pub selectors: Vec<Vec<bool>>,
    /// Height of every column.
    pub rows: usize,
}

impl Assignment {
    /// Number of committed columns.
    pub open spec fn spec_num_cols(self) -> nat {
        self.advice@.len()
    }

    /// Number of selector columns.
    pub open spec fn spec_num_sels(self) -> nat {
        self.selectors@.len()
    }

    /// Every column is `rows` tall and holds reduced field elements.
    pub open spec fn wf(self) -> bool {
        &&& self.rows >= 1
        &&& forall|c: int|
            0 <= c < self.advice@.len() ==> (#[trigger] self.advice@[c])@.len() == self.rows
        &&& forall|c: int, r: int|
            0 <= c < self.advice@.len() && 0 <= r < self.advice@[c]@.len()
                ==> (#[trigger] self.advice@[c]@[r]).wf()
        &&& forall|s: int|
            0 <= s < self.selectors@.len() ==> (#[trigger] self.selectors@[s])@.len() == self.rows
    }

    /// The value of one committed cell.
    pub open spec fn aval(self, col: int, row: int) -> int
        recommends
            0 <= col < self.spec_num_cols(),
            0 <= row < self.rows,
    {
        self.advice@[col]@[row]@
    }

    /// Whether one selector is active on one row.
    pub open spec fn sel_on(self, sel: int, row: int) -> bool
        recommends
            0 <= sel < self.spec_num_sels(),
            0 <= row < self.rows,
    {
        self.selectors@[sel]@[row]
    }

    /// A fresh assignment: every cell zero, every selector inactive.
    pub fn new(num_cols: usize, num_sels: usize, rows: usize) -> (r: Assignment)
        requires
            rows >= 1,
        ensures
            r.wf(),
            r.spec_num_cols() == num_cols,
            r.spec_num_sels() == num_sels,
            r.rows == rows,
            forall|c: int, row: int| 0 <= c < num_cols && 0 <= row < rows ==> r.aval(c, row) == 0,
            forall|s: int, row: int| 0 <= s < num_sels && 0 <= row < rows ==> !r.sel_on(s, row),
    {
        let mut advice: Vec<Vec<Felt>> = Vec::new();
        while advice.len() < num_cols
            invariant
                advice@.len() <= num_cols,
                forall|c: int| 0 <= c < advice@.len() ==> (#[trigger] advice@[c])@.len() == rows,
                forall|c: int, row: int|
                    0 <= c < advice@.len() && 0 <= row < rows
                        ==> (#[trigger] advice@[c]@[row]) == (Felt { v: 0u64 }),
            decreases num_cols - advice.len(),
        {
            let mut col: Vec<Felt> = Vec::new();
            while col.len() < rows
                invariant
                    col@.len() <= rows,
                    forall|row: int|
                        0 <= row < col@.len() ==> (#[trigger] col@[row]) == (Felt { v: 0u64 }),
                decreases rows - col.len(),
            {
                col.push(Felt { v: 0 });
            }
            advice.push(col);
        }
        let mut selectors: Vec<Vec<bool>> = Vec::new();
        while selectors.len() < num_sels
            invariant
                selectors@.len() <= num_sels,
                forall|s: int|
                    0 <= s < selectors@.len() ==> (#[trigger] selectors@[s])@.len() == rows,
                forall|s: int, row: int|
                    0 <= s < selectors@.len() && 0 <= row < rows
                        ==> !(#[trigger] selectors@[s]@[row]),
            decreases num_sels - selectors.len(),
        {
            let mut col: Vec<bool> = Vec::new();
            while col.len() < rows
                invariant
                    col@.len() <= rows,
                    forall|row: int| 0 <= row < col@.len() ==> !(#[trigger] col@[row]),
                decreases rows - col.len(),
            {
                col.push(false);
            }
            selectors.push(col);
        }
        Assignment { advice, selectors, rows }
    }

    /// Writes one committed cell.
    pub fn set_advice(&mut self, col: usize, row: usize, v: Felt)
        requires
            old(self).wf(),
            col < old(self).spec_num_cols(),
            row < old(self).rows,
            v.wf(),
        ensures
            final(self).wf(),
            final(self).spec_num_cols() == old(self).spec_num_cols(),
            final(self).spec_num_sels() == old(self).spec_num_sels(),
            final(self).rows == old(self).rows,
            final(self).selectors == old(self).selectors,
            forall|s: int, r: int|
                0 <= s < old(self).spec_num_sels() && 0 <= r < old(self).rows
                    ==> #[trigger] final(self).sel_on(s, r) == old(self).sel_on(s, r),
            forall|c: int, r: int|
                0 <= c < old(self).spec_num_cols() && 0 <= r < old(self).rows
                    ==> #[trigger] final(self).aval(c, r) == if c == col && r == row {
                        v@
                    } else {
                        old(self).aval(c, r)
                    },
    {
        self.advice[col][row] = v;
    }

    /// Reads one committed cell.
    pub fn advice_at(&self, col: usize, row: usize) -> (r: Felt)
        requires
            self.wf(),
            col < self.spec_num_cols(),
            row < self.rows,
        ensures
            r.wf(),
            r@ == self.aval(col as int, row as int),
    {
        self.advice[col][row]
    }

    /// Activates one selector on one row.
    pub fn enable_selector(&mut self, sel: usize, row: usize)
        requires
            old(self).wf(),
            sel < old(self).spec_num_sels(),
            row < old(self).rows,
        ensures
            final(self).wf(),
            final(self).spec_num_cols() == old(self).spec_num_cols(),
            final(self).spec_num_sels() == old(self).spec_num_sels(),
            final(self).rows == old(self).rows,
            final(self).advice == old(self).advice,
            forall|c: int, r: int|
                0 <= c < old(self).spec_num_cols() && 0 <= r < old(self).rows
                    ==> #[trigger] final(self).aval(c, r) == old(self).aval(c, r),
            forall|s: int, r: int|
                0 <= s < old(self).spec_num_sels() && 0 <= r < old(self).rows
                    ==> #[trigger] final(self).sel_on(s, r) == if s == sel && r == row {
                        true
                    } else {
                        old(self).sel_on(s, r)
                    },
    {
        self.selectors[sel][row] = true;
    }

    /// Reads one selector flag.
    pub fn selector_at(&self, sel: usize, row: usize) -> (r: bool)
        requires
            self.wf(),
            sel < self.spec_num_sels(),
            row < self.rows,
        ensures
            r == self.sel_on(sel as int, row as int),
    {
        self.selectors[sel][row]
    }
}

} // verus!
