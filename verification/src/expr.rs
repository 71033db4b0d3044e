//! Symbolic cell expressions.
//!
//! A gate or a lookup argument is stated over expressions: polynomial
//! combinations of committed cells queried at a small rotation, of selector
//! flags, and of constants. Evaluation against a witness assignment gives
//! each expression a field value per row, with rotations wrapping around
//! the column height.

use vstd::prelude::*;
use crate::felt::{Felt, add_mod, mul_mod, neg_mod};
use crate::witness::Assignment;

verus! {

/// A symbolic expression over the cells of one row.
pub enum Expr {
    /// A constant field element.
    Constant(Felt),
    /// A committed cell of column `col`, queried `rot` rows away from the
    /// current one.
    Advice { col: usize, rot: i64 },
    /// A selector flag, evaluating to one where active and zero elsewhere.
    Selector(usize),
    /// Additive inverse.
    Negated(Box<Expr>),
    /// Sum of two expressions.
    Sum(Box<Expr>, Box<Expr>),
    /// Product of two expressions.
    Product(Box<Expr>, Box<Expr>),
}

/// The row a rotation lands on, wrapping around a column of height `n`.
pub open spec fn wrap_row(row: int, rot: int, n: int) -> int {
    if row + rot < 0 {
        row + rot + n
    } else if row + rot >= n {
        row + rot - n
    } else {
        row + rot
    }
}

impl Expr {
    /// The expression only queries columns and selectors that exist, at a
    /// rotation of at most one row backwards, and holds reduced constants.
    pub open spec fn wf(self, num_cols: nat, num_sels: nat) -> bool
        decreases self,
    {
        match self {
            Expr::Constant(f) => f.wf(),
            Expr::Advice { col, rot } => col < num_cols && -1 <= rot <= 0,
            Expr::Selector(s) => s < num_sels,
            Expr::Negated(e) => e.wf(num_cols, num_sels),
            Expr::Sum(a, b) => a.wf(num_cols, num_sels) && b.wf(num_cols, num_sels),
            Expr::Product(a, b) => a.wf(num_cols, num_sels) && b.wf(num_cols, num_sels),
        }
    }
}

/// Well-formedness only bounds the columns and selectors an expression may
/// query, so it survives growing the arena.
pub proof fn lemma_expr_wf_mono(e: Expr, nc1: nat, ns1: nat, nc2: nat, ns2: nat)
    requires
        e.wf(nc1, ns1),
        nc1 <= nc2,
        ns1 <= ns2,
    ensures
        e.wf(nc2, ns2),
    decreases e,
{
    match e {
        Expr::Negated(e1) => lemma_expr_wf_mono(*e1, nc1, ns1, nc2, ns2),
        Expr::Sum(a, b) => {
            lemma_expr_wf_mono(*a, nc1, ns1, nc2, ns2);
            lemma_expr_wf_mono(*b, nc1, ns1, nc2, ns2);
        },
        Expr::Product(a, b) => {
            lemma_expr_wf_mono(*a, nc1, ns1, nc2, ns2);
            lemma_expr_wf_mono(*b, nc1, ns1, nc2, ns2);
        },
        _ => {},
    }
}

/// The value of an expression on one row of a witness assignment.
pub open spec fn eval_expr(e: Expr, asn: Assignment, row: int) -> int
    decreases e,
{
    match e {
        Expr::Constant(f) => f@,
        Expr::Advice { col, rot } => asn.aval(
            col as int,
            wrap_row(row, rot as int, asn.rows as int),
        ),
        Expr::Selector(s) => if asn.sel_on(s as int, row) {
            1
        } else {
            0
        },
        Expr::Negated(e1) => neg_mod(eval_expr(*e1, asn, row)),
        Expr::Sum(a, b) => add_mod(eval_expr(*a, asn, row), eval_expr(*b, asn, row)),
        Expr::Product(a, b) => mul_mod(eval_expr(*a, asn, row), eval_expr(*b, asn, row)),
    }
}

/// Evaluates an expression on one row of a witness assignment.
pub fn eval(e: &Expr, asn: &Assignment, row: usize) -> (r: Felt)
    requires
        asn.wf(),
        e.wf(asn.spec_num_cols(), asn.spec_num_sels()),
        row < asn.rows,
    ensures
        r.wf(),
        r@ == eval_expr(*e, *asn, row as int),
    decreases *e,
{
    match e {
        Expr::Constant(f) => *f,
        Expr::Advice { col, rot } => {
            let wrapped: usize = if *rot < 0 {
                if row == 0 {
                    asn.rows - 1
                } else {
                    row - 1
                }
            } else {
                row
            };
            asn.advice_at(*col, wrapped)
        },
        Expr::Selector(s) => {
            if asn.selector_at(*s, row) {
                Felt::one()
            } else {
                Felt::zero()
            }
        },
        Expr::Negated(e1) => eval(&**e1, asn, row).neg(),
        Expr::Sum(a, b) => eval(&**a, asn, row).add(eval(&**b, asn, row)),
        Expr::Product(a, b) => eval(&**a, asn, row).mul(eval(&**b, asn, row)),
    }
}

} // verus!
