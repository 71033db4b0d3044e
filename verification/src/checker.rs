//! Whole-circuit satisfaction checking.
//!
//! Given an arena and a witness assignment, the checker decides whether
//! every gate and every lookup argument holds on every row: exactly the
//! satisfaction predicate the configuration contracts speak of.

use vstd::prelude::*;
use crate::expr::eval;
use crate::system::{gate_holds, lookup_holds, lookup_matches, satisfied, Gate, LookupArg, System};
use crate::witness::Assignment;

verus! {

/// Whether one gate holds on one row.
fn gate_ok_at(g: &Gate, asn: &Assignment, row: usize) -> (b: bool)
    requires
        asn.wf(),
        g.selector < asn.spec_num_sels(),
        g.poly.wf(asn.spec_num_cols(), asn.spec_num_sels()),
        row < asn.rows,
    ensures
        b == gate_holds(*g, *asn, row as int),
{
    if asn.selector_at(g.selector, row) {
        let v = eval(&g.poly, asn, row);
        v.v == 0
    } else {
        true
    }
}

/// Whether every gate holds on every row.
#[verifier::loop_isolation(false)]
pub fn check_gates(sys: &System, asn: &Assignment) -> (b: bool)
    requires
        sys.wf(),
        sys.compat(*asn),
        asn.wf(),
    ensures
        b == forall|i: int, row: int|
            0 <= i < sys.gates@.len() && 0 <= row < asn.rows ==> #[trigger] gate_holds(
                sys.gates@[i],
                *asn,
                row,
            ),
{
    let mut i: usize = 0;
    while i < sys.gates.len()
        invariant
            i <= sys.gates@.len(),
            forall|i2: int, row: int|
                0 <= i2 < i && 0 <= row < asn.rows ==> #[trigger] gate_holds(
                    sys.gates@[i2],
                    *asn,
                    row,
                ),
        decreases sys.gates@.len() - i,
    {
        let g = &sys.gates[i];
        let mut row: usize = 0;
        while row < asn.rows
            invariant
                row <= asn.rows,
                g == &sys.gates@[i as int],
                i < sys.gates@.len(),
                forall|r2: int| 0 <= r2 < row ==> #[trigger] gate_holds(sys.gates@[i as int], *asn, r2),
            decreases asn.rows - row,
        {
            if !gate_ok_at(g, asn, row) {
                return false;
            }
            row = row + 1;
        }
        i = i + 1;
    }
    true
}

/// Whether one table row matches every paired expression of one lookup
/// argument on one witness row.
#[verifier::loop_isolation(false)]
fn lookup_match_at(la: &LookupArg, sys: &System, asn: &Assignment, row: usize, t: usize) -> (b:
    bool)
    requires
        sys.wf(),
        sys.compat(*asn),
        asn.wf(),
        la.wf(*sys),
        row < asn.rows,
    ensures
        b == lookup_matches(*la, *sys, *asn, row as int, t as int),
{
    let mut j: usize = 0;
    while j < la.pairs.len()
        invariant
            j <= la.pairs@.len(),
            forall|j2: int|
                0 <= j2 < j ==> t < sys.table_cols@[(#[trigger] la.pairs@[j2]).1 as int]@.len()
                    && crate::expr::eval_expr(la.pairs@[j2].0, *asn, row as int)
                    == sys.table_cols@[la.pairs@[j2].1 as int]@[t as int]@,
        decreases la.pairs@.len() - j,
    {
        let col = la.pairs[j].1;
        if t >= sys.table_col_len(col) {
            return false;
        }
        let v = eval(&la.pairs[j].0, asn, row);
        let cell = sys.table_cell(col, t);
        if v.v != cell.v {
            return false;
        }
        j = j + 1;
    }
    true
}

/// Whether one lookup argument holds on one witness row: some table row
/// matches all its paired expressions.
#[verifier::loop_isolation(false)]
fn lookup_ok_at(la: &LookupArg, sys: &System, asn: &Assignment, row: usize) -> (b: bool)
    requires
        sys.wf(),
        sys.compat(*asn),
        asn.wf(),
        la.wf(*sys),
        row < asn.rows,
    ensures
        b == lookup_holds(*la, *sys, *asn, row as int),
{
    let tl = sys.table_col_len(la.pairs[0].1);
    let mut t: usize = 0;
    while t < tl
        invariant
            t <= tl,
            tl == sys.table_cols@[la.pairs@[0].1 as int]@.len(),
            forall|t2: int| 0 <= t2 < t ==> !lookup_matches(*la, *sys, *asn, row as int, t2),
        decreases tl - t,
    {
        if lookup_match_at(la, sys, asn, row, t) {
            return true;
        }
        t = t + 1;
    }
    proof {
        assert forall|t2: int| 0 <= t2 implies !lookup_matches(*la, *sys, *asn, row as int, t2) by {
            if t2 < tl {
            } else {
                if lookup_matches(*la, *sys, *asn, row as int, t2) {
                    assert(t2 < sys.table_cols@[(la.pairs@[0]).1 as int]@.len()
                        && crate::expr::eval_expr(la.pairs@[0].0, *asn, row as int)
                        == sys.table_cols@[la.pairs@[0].1 as int]@[t2]@);
                }
            }
        }
    }
    false
}

/// Whether every lookup argument holds on every row.
#[verifier::loop_isolation(false)]
pub fn check_lookups(sys: &System, asn: &Assignment) -> (b: bool)
    requires
        sys.wf(),
        sys.compat(*asn),
        asn.wf(),
    ensures
        b == forall|i: int, row: int|
            0 <= i < sys.lookups@.len() && 0 <= row < asn.rows ==> #[trigger] lookup_holds(
                sys.lookups@[i],
                *sys,
                *asn,
                row,
            ),
{
    let mut i: usize = 0;
    while i < sys.lookups.len()
        invariant
            i <= sys.lookups@.len(),
            forall|i2: int, row: int|
                0 <= i2 < i && 0 <= row < asn.rows ==> #[trigger] lookup_holds(
                    sys.lookups@[i2],
                    *sys,
                    *asn,
                    row,
                ),
        decreases sys.lookups@.len() - i,
    {
        let la = &sys.lookups[i];
        let mut row: usize = 0;
        while row < asn.rows
            invariant
                row <= asn.rows,
                la == &sys.lookups@[i as int],
                i < sys.lookups@.len(),
                forall|r2: int|
                    0 <= r2 < row ==> #[trigger] lookup_holds(sys.lookups@[i as int], *sys, *asn, r2),
            decreases asn.rows - row,
        {
            if !lookup_ok_at(la, sys, asn, row) {
                return false;
            }
            row = row + 1;
        }
        i = i + 1;
    }
    true
}

/// Whether an assignment satisfies the whole circuit: every gate and
/// every lookup argument holds on every row.
pub fn check(sys: &System, asn: &Assignment) -> (b: bool)
    requires
        sys.wf(),
        sys.compat(*asn),
        asn.wf(),
    ensures
        b == satisfied(*sys, *asn),
{
    let gates = check_gates(sys, asn);
    let lookups = check_lookups(sys, asn);
    gates && lookups
}

} // verus!
