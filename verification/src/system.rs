//! The constraint-system arena.
//!
//! One [`System`] owns every resource a circuit allocates: committed
//! (advice) columns, selector columns, gates, lookup arguments, and the
//! contents of lookup-table columns. Columns and selectors are plain
//! indices into the arena; a [`ColHandle`] describes a block of equal-width
//! committed columns and can produce symbolic cell expressions over them.

use vstd::prelude::*;
use crate::expr::Expr;
use crate::expr::eval_expr;
use crate::felt::Felt;
use crate::witness::Assignment;

verus! {

/// A handle on a block of equal-height committed columns.
#[derive(Clone, Copy, Debug, PartialEq, Eq, Structural)]
pub enum ColHandle {
    /// Not yet bound to storage.
    Empty,
    /// A placeholder handle used for circuit-size estimation: it reports a
    /// shape but owns no columns.
    Dummy { num_cols: usize, col_size: usize },
    /// `num_cols` committed columns of height `col_size`, occupying the
    /// arena column indices `first .. first + num_cols`.
    Advice { first: usize, num_cols: usize, col_size: usize },
}

impl ColHandle {
    /// Shape and index arithmetic stay in range.
    pub open spec fn wf(self) -> bool {
        match self {
            ColHandle::Empty => true,
            ColHandle::Dummy { num_cols, col_size } => col_size >= 1,
            ColHandle::Advice { first, num_cols, col_size } => col_size >= 1 && first + num_cols
                <= usize::MAX,
        }
    }

    /// How many columns the handle reports.
    pub open spec fn spec_num_cols(self) -> nat {
        match self {
            ColHandle::Empty => 0,
            ColHandle::Dummy { num_cols, .. } => num_cols as nat,
            ColHandle::Advice { num_cols, .. } => num_cols as nat,
        }
    }

    /// How many rows each column of the handle holds.
    pub open spec fn spec_col_size(self) -> nat {
        match self {
            ColHandle::Empty => 0,
            ColHandle::Dummy { col_size, .. } => col_size as nat,
            ColHandle::Advice { col_size, .. } => col_size as nat,
        }
    }

    /// The arena index of the handle's `i`-th column.
    pub open spec fn spec_col(self, i: int) -> int
        recommends
            self is Advice,
            0 <= i < self.spec_num_cols(),
    {
        match self {
            ColHandle::Advice { first, .. } => first + i,
            _ => 0,
        }
    }

    /// The handle owns storage inside the arena of `sys`.
    pub open spec fn in_sys(self, sys: System) -> bool {
        match self {
            ColHandle::Advice { first, num_cols, .. } => first + num_cols <= sys.num_advice,
            _ => true,
        }
    }

    /// How many columns the handle reports.
    pub fn num_cols(&self) -> (n: usize)
        ensures
            n == self.spec_num_cols(),
    {
        match self {
            ColHandle::Empty => 0,
            ColHandle::Dummy { num_cols, .. } => *num_cols,
            ColHandle::Advice { num_cols, .. } => *num_cols,
        }
    }

    /// How many rows each column of the handle holds.
    pub fn col_size(&self) -> (n: usize)
        ensures
            n == self.spec_col_size(),
    {
        match self {
            ColHandle::Empty => 0,
            ColHandle::Dummy { col_size, .. } => *col_size,
            ColHandle::Advice { col_size, .. } => *col_size,
        }
    }

    /// Whether the handle owns committed storage.
    pub fn is_advice(&self) -> (b: bool)
        ensures
            b == (self is Advice),
    {
        match self {
            ColHandle::Advice { .. } => true,
            _ => false,
        }
    }

    /// The arena index of the handle's `i`-th column.
    pub fn col_at(&self, i: usize) -> (c: usize)
        requires
            self.wf(),
            self is Advice,
            i < self.spec_num_cols(),
        ensures
            c == self.spec_col(i as int),
    {
        match self {
            ColHandle::Advice { first, .. } => *first + i,
            _ => 0,
        }
    }

    /// A placeholder handle for circuit-size estimation.
    pub fn dummy(col_size: usize) -> (r: ColHandle)
        requires
            col_size >= 1,
        ensures
            r == (ColHandle::Dummy { num_cols: 1usize, col_size }),
    {
        ColHandle::Dummy { num_cols: 1, col_size }
    }

    /// Symbolic cell expressions over a row range: for a flat cell offset
    /// that addresses the start of a column, one expression per requested
    /// row, querying that column at successive rotations.
    pub fn query_rng(&self, rotation: i64, idx_offset: usize, rng: usize) -> (r: Vec<Expr>)
        requires
            self.wf(),
            self is Advice,
            1 <= rng,
            -1 <= rotation as int,
            rotation as int + rng <= 1,
            (idx_offset as int / self.spec_col_size() as int) < self.spec_num_cols(),
        ensures
            r@.len() == rng,
            forall|k: int|
                0 <= k < rng ==> r@[k] == (Expr::Advice {
                    col: (self.spec_col(idx_offset as int / self.spec_col_size() as int)) as usize,
                    rot: (rotation as int + k) as i64,
                }),
    {
        let col_size = self.col_size();
        let col_index = idx_offset / col_size;
        let col = match self {
            ColHandle::Advice { first, .. } => *first + col_index,
            _ => 0,
        };
        let mut r: Vec<Expr> = Vec::new();
        let mut k: usize = 0;
        while k < rng
            invariant
                k <= rng,
                rng >= 1,
                -1 <= rotation as int,
                rotation as int + rng <= 1,
                col == (self.spec_col(idx_offset as int / self.spec_col_size() as int)) as usize,
                r@.len() == k,
                forall|j: int|
                    0 <= j < k ==> r@[j] == (Expr::Advice {
                        col,
                        rot: (rotation as int + j) as i64,
                    }),
            decreases rng - k,
        {
            r.push(Expr::Advice { col, rot: rotation + k as i64 });
            k += 1;
        }
        r
    }
}

/// A polynomial constraint, activated by a selector: wherever the selector
/// is on, the polynomial must evaluate to zero.
pub struct Gate {
    /// The selector gating the constraint.
    pub selector: usize,
    /// The constrained polynomial.
    pub poly: Expr,
}

/// A lookup argument: on every row, the tuple of expression values must
/// occur as a row of the referenced table columns.
pub struct LookupArg {
    /// Each entry pairs an expression with the arena index of the table
    /// column its value must be found in.
    pub pairs: Vec<(Expr, usize)>,
}

impl LookupArg {
    /// The argument references existing table columns through well-formed
    /// expressions, and is not empty.
    pub open spec fn wf(self, sys: System) -> bool {
        &&& self.pairs@.len() >= 1
        &&& forall|j: int|
            0 <= j < self.pairs@.len() ==> {
                &&& (#[trigger] self.pairs@[j]).0.wf(
                    sys.num_advice as nat,
                    sys.num_selectors as nat,
                )
                &&& self.pairs@[j].1 < sys.table_cols@.len()
            }
    }
}

/// The arena owning every circuit resource.
pub struct System {
    /// Committed columns allocated so far.
    pub num_advice: usize,
    /// Selector columns allocated so far.
    pub num_selectors: usize,
    /// All registered gates.
    pub gates: Vec<Gate>,
    /// All registered lookup arguments.
    pub lookups: Vec<LookupArg>,
    /// Contents of each lookup-table column.
    pub table_cols: Vec<Vec<Felt>>,
}

impl System {
    /// Every registered resource points inside the arena and every stored
    /// table cell is reduced.
    pub open spec fn wf(self) -> bool {
        &&& forall|i: int|
            0 <= i < self.gates@.len() ==> {
                &&& (#[trigger] self.gates@[i]).selector < self.num_selectors
                &&& self.gates@[i].poly.wf(self.num_advice as nat, self.num_selectors as nat)
            }
        &&& forall|i: int|
            0 <= i < self.lookups@.len() ==> (#[trigger] self.lookups@[i]).wf(self)
        &&& forall|c: int, r: int|
            0 <= c < self.table_cols@.len() && 0 <= r < self.table_cols@[c]@.len()
                ==> (#[trigger] self.table_cols@[c]@[r]).wf()
    }

    /// An assignment shaped for this arena.
    pub open spec fn compat(self, asn: Assignment) -> bool {
        asn.spec_num_cols() == self.num_advice && asn.spec_num_sels() == self.num_selectors
    }

    /// A fresh, empty arena.
    pub fn new() -> (r: System)
        ensures
            r.wf(),
            r.num_advice == 0,
            r.num_selectors == 0,
            r.gates@.len() == 0,
            r.lookups@.len() == 0,
            r.table_cols@.len() == 0,
    {
        System {
            num_advice: 0,
            num_selectors: 0,
            gates: Vec::new(),
            lookups: Vec::new(),
            table_cols: Vec::new(),
        }
    }

    /// Allocates a block of committed columns and hands back its handle.
    pub fn advice_block(&mut self, num_cols: usize, col_size: usize) -> (r: ColHandle)
        requires
            old(self).wf(),
            col_size >= 1,
            old(self).num_advice + num_cols <= usize::MAX,
        ensures
            final(self).wf(),
            r == (ColHandle::Advice { first: old(self).num_advice, num_cols, col_size }),
            r.wf(),
            r.in_sys(*final(self)),
            final(self).num_advice == old(self).num_advice + num_cols,
            final(self).num_selectors == old(self).num_selectors,
            final(self).gates == old(self).gates,
            final(self).lookups == old(self).lookups,
            final(self).table_cols == old(self).table_cols,
    {
        let first = self.num_advice;
        self.num_advice = self.num_advice + num_cols;
        proof {
            lemma_wf_extend(*old(self), *self);
        }
        ColHandle::Advice { first, num_cols, col_size }
    }

    /// Allocates a fresh selector column.
    pub fn selector(&mut self) -> (s: usize)
        requires
            old(self).wf(),
            old(self).num_selectors < usize::MAX,
        ensures
            final(self).wf(),
            s == old(self).num_selectors,
            final(self).num_selectors == old(self).num_selectors + 1,
            final(self).num_advice == old(self).num_advice,
            final(self).gates == old(self).gates,
            final(self).lookups == old(self).lookups,
            final(self).table_cols == old(self).table_cols,
    {
        let s = self.num_selectors;
        self.num_selectors = self.num_selectors + 1;
        proof {
            lemma_wf_extend(*old(self), *self);
        }
        s
    }

    /// Allocates a fresh, empty lookup-table column.
    pub fn table_column(&mut self) -> (c: usize)
        requires
            old(self).wf(),
            old(self).table_cols@.len() < usize::MAX,
        ensures
            final(self).wf(),
            c == old(self).table_cols@.len(),
            final(self).table_cols@.len() == old(self).table_cols@.len() + 1,
            final(self).table_cols@[c as int]@.len() == 0,
            forall|j: int|
                0 <= j < old(self).table_cols@.len()
                    ==> #[trigger] final(self).table_cols@[j] == old(self).table_cols@[j],
            final(self).num_advice == old(self).num_advice,
            final(self).num_selectors == old(self).num_selectors,
            final(self).gates == old(self).gates,
            final(self).lookups == old(self).lookups,
    {
        let c = self.table_cols.len();
        self.table_cols.push(Vec::new());
        proof {
            lemma_wf_extend(*old(self), *self);
        }
        c
    }

    /// Registers a gate.
    pub fn create_gate(&mut self, selector: usize, poly: Expr)
        requires
            old(self).wf(),
            selector < old(self).num_selectors,
            poly.wf(old(self).num_advice as nat, old(self).num_selectors as nat),
        ensures
            final(self).wf(),
            final(self).gates@ == old(self).gates@.push(Gate { selector, poly }),
            final(self).num_advice == old(self).num_advice,
            final(self).num_selectors == old(self).num_selectors,
            final(self).lookups == old(self).lookups,
            final(self).table_cols == old(self).table_cols,
    {
        self.gates.push(Gate { selector, poly });
        proof {
            assert forall|i: int| 0 <= i < self.gates@.len() implies {
                &&& (#[trigger] self.gates@[i]).selector < self.num_selectors
                &&& self.gates@[i].poly.wf(self.num_advice as nat, self.num_selectors as nat)
            } by {
                if i < self.gates@.len() - 1 {
                    assert(old(self).wf());
                    assert(self.gates@[i] == old(self).gates@[i]);
                }
            }
        }
    }

    /// Registers a lookup argument.
    pub fn add_lookup(&mut self, pairs: Vec<(Expr, usize)>)
        requires
            old(self).wf(),
            (LookupArg { pairs }).wf(*old(self)),
        ensures
            final(self).wf(),
            final(self).lookups@ == old(self).lookups@.push(LookupArg { pairs }),
            final(self).num_advice == old(self).num_advice,
            final(self).num_selectors == old(self).num_selectors,
            final(self).gates == old(self).gates,
            final(self).table_cols == old(self).table_cols,
    {
        self.lookups.push(LookupArg { pairs });
        proof {
            assert forall|i: int| 0 <= i < self.lookups@.len() implies (
            #[trigger] self.lookups@[i]).wf(*self) by {
                if i < self.lookups@.len() - 1 {
                    assert(old(self).wf());
                    assert(self.lookups@[i] == old(self).lookups@[i]);
                    assert(self.lookups@[i].wf(*old(self)));
                }
            }
        }
    }

    /// How many cells one lookup-table column holds.
    pub fn table_col_len(&self, col: usize) -> (n: usize)
        requires
            col < self.table_cols@.len(),
        ensures
            n == self.table_cols@[col as int]@.len(),
    {
        self.table_cols[col].len()
    }

    /// Reads one cell of a lookup-table column.
    pub fn table_cell(&self, col: usize, row: usize) -> (r: Felt)
        requires
            col < self.table_cols@.len(),
            row < self.table_cols@[col as int]@.len(),
        ensures
            r == self.table_cols@[col as int]@[row as int],
    {
        self.table_cols[col][row]
    }

    /// Appends one cell to a lookup-table column.
    pub fn table_push(&mut self, col: usize, v: Felt)
        requires
            old(self).wf(),
            col < old(self).table_cols@.len(),
            old(self).table_cols@[col as int]@.len() < usize::MAX,
            v.wf(),
        ensures
            final(self).wf(),
            final(self).table_cols@.len() == old(self).table_cols@.len(),
            final(self).table_cols@[col as int]@ == old(self).table_cols@[col as int]@.push(v),
            forall|j: int|
                0 <= j < old(self).table_cols@.len() && j != col
                    ==> #[trigger] final(self).table_cols@[j] == old(self).table_cols@[j],
            final(self).num_advice == old(self).num_advice,
            final(self).num_selectors == old(self).num_selectors,
            final(self).gates == old(self).gates,
            final(self).lookups == old(self).lookups,
    {
        self.table_cols[col].push(v);
        proof {
            assert forall|c: int, r: int|
                0 <= c < self.table_cols@.len() && 0 <= r < self.table_cols@[c]@.len() implies (
            #[trigger] self.table_cols@[c]@[r]).wf() by {
                assert(old(self).wf());
                if c != col || r < old(self).table_cols@[col as int]@.len() {
                    assert(self.table_cols@[c]@[r] == old(self).table_cols@[c]@[r]);
                }
            }
            assert forall|i: int| 0 <= i < self.lookups@.len() implies (
            #[trigger] self.lookups@[i]).wf(*self) by {
                assert(self.lookups@[i].wf(*old(self)));
            }
        }
    }
}

/// Growing the arena preserves well-formedness: nothing registered so far
/// can fall out of range when more resources are allocated.
pub proof fn lemma_wf_extend(s1: System, s2: System)
    requires
        s1.wf(),
        s2.num_advice >= s1.num_advice,
        s2.num_selectors >= s1.num_selectors,
        s2.gates == s1.gates,
        s2.lookups == s1.lookups,
        s2.table_cols@.len() >= s1.table_cols@.len(),
        forall|j: int|
            0 <= j < s1.table_cols@.len() ==> #[trigger] s2.table_cols@[j] == s1.table_cols@[j],
        forall|c: int, r: int|
            s1.table_cols@.len() <= c < s2.table_cols@.len() && 0 <= r < s2.table_cols@[c]@.len()
                ==> (#[trigger] s2.table_cols@[c]@[r]).wf(),
    ensures
        s2.wf(),
{
    assert forall|i: int| 0 <= i < s2.gates@.len() implies {
        &&& (#[trigger] s2.gates@[i]).selector < s2.num_selectors
        &&& s2.gates@[i].poly.wf(s2.num_advice as nat, s2.num_selectors as nat)
    } by {
        assert(s1.gates@[i].selector < s1.num_selectors);
        assert(s1.gates@[i].poly.wf(s1.num_advice as nat, s1.num_selectors as nat));
        crate::expr::lemma_expr_wf_mono(
            s2.gates@[i].poly,
            s1.num_advice as nat,
            s1.num_selectors as nat,
            s2.num_advice as nat,
            s2.num_selectors as nat,
        );
    }
    assert forall|i: int| 0 <= i < s2.lookups@.len() implies (#[trigger] s2.lookups@[i]).wf(
        s2,
    ) by {
        assert(s1.lookups@[i].wf(s1));
        assert forall|j: int| 0 <= j < s2.lookups@[i].pairs@.len() implies {
            &&& (#[trigger] s2.lookups@[i].pairs@[j]).0.wf(
                s2.num_advice as nat,
                s2.num_selectors as nat,
            )
            &&& s2.lookups@[i].pairs@[j].1 < s2.table_cols@.len()
        } by {
            assert(s1.lookups@[i].pairs@[j].0.wf(s1.num_advice as nat, s1.num_selectors as nat));
            crate::expr::lemma_expr_wf_mono(
                s2.lookups@[i].pairs@[j].0,
                s1.num_advice as nat,
                s1.num_selectors as nat,
                s2.num_advice as nat,
                s2.num_selectors as nat,
            );
        }
    }
    assert forall|c: int, r: int|
        0 <= c < s2.table_cols@.len() && 0 <= r < s2.table_cols@[c]@.len() implies (
    #[trigger] s2.table_cols@[c]@[r]).wf() by {
        if c < s1.table_cols@.len() {
            assert(s2.table_cols@[c] == s1.table_cols@[c]);
            assert(s1.table_cols@[c]@[r].wf());
        }
    }
}

/// One gate holds on one row: if its selector is active there, its
/// polynomial evaluates to zero.
pub open spec fn gate_holds(g: Gate, asn: Assignment, row: int) -> bool {
    asn.sel_on(g.selector as int, row) ==> eval_expr(g.poly, asn, row) == 0
}

/// Table row `t` matches one lookup argument on one row of the witness:
/// every paired expression evaluates to that table row's cell in its
/// column.
pub open spec fn lookup_matches(la: LookupArg, sys: System, asn: Assignment, row: int, t: int) -> bool {
    forall|j: int|
        0 <= j < la.pairs@.len() ==> t < sys.table_cols@[(#[trigger] la.pairs@[j]).1 as int]@.len()
            && eval_expr(la.pairs@[j].0, asn, row) == sys.table_cols@[la.pairs@[j].1 as int]@[t]@
}

/// One lookup argument holds on one row: some table row matches the value
/// of every paired expression.
pub open spec fn lookup_holds(la: LookupArg, sys: System, asn: Assignment, row: int) -> bool {
    exists|t: int| 0 <= t && #[trigger] lookup_matches(la, sys, asn, row, t)
}

/// The whole circuit is satisfied by an assignment: every gate and every
/// lookup argument holds on every row.
pub open spec fn satisfied(sys: System, asn: Assignment) -> bool {
    &&& forall|i: int, row: int|
        0 <= i < sys.gates@.len() && 0 <= row < asn.rows ==> #[trigger] gate_holds(
            sys.gates@[i],
            asn,
            row,
        )
    &&& forall|i: int, row: int|
        0 <= i < sys.lookups@.len() && 0 <= row < asn.rows ==> #[trigger] lookup_holds(
            sys.lookups@[i],
            sys,
            asn,
            row,
        )
}

} // verus!
