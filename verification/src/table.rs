//! Lookup tables.
//!
//! A table enumerates every legal (input, output) pair of one nonlinear
//! identity over its signed bit-width domain. When the domain outgrows a
//! single column, it is split into component column pairs, filled in
//! increasing order of the signed input. A table may share its domain
//! columns with an earlier table of the same range, and its cells are
//! written exactly once: the assigned flag flips false to true and is
//! never cleared.

use vstd::prelude::*;
use vstd::arithmetic::div_mod::{
    lemma_fundamental_div_mod,
    lemma_mod_bound,
};
use vstd::arithmetic::mul::lemma_mul_inequality;
use vstd::arithmetic::power2::{
    lemma2_to64,
    lemma_pow2_strictly_increases,
    lemma_pow2_unfold,
    pow2,
};
use crate::chip::CircuitError;
use crate::felt::{embed_signed, Felt};
use crate::nl::LookupOp;
use crate::system::System;

verus! {

/// The largest supported signed bit width of a table domain, and the
/// largest supported log2 of the column height.
pub const MAX_TABLE_BITS: usize = 24;

/// The smallest value of a signed `bits`-wide domain.
pub open spec fn table_lo(bits: nat) -> int
    recommends
        bits >= 1,
{
    -(pow2((bits - 1) as nat) as int)
}

/// How many values a signed `bits`-wide domain enumerates.
pub open spec fn table_total(bits: nat) -> int {
    pow2(bits) as int
}

/// How many rows one table column offers.
pub open spec fn table_rows_per(logrows: nat) -> int {
    pow2(logrows) as int
}

/// How many component column pairs a table of this shape needs: the
/// domain size divided by the column height, rounded up.
pub open spec fn spec_num_components(bits: nat, logrows: nat) -> int {
    (table_total(bits) + table_rows_per(logrows) - 1) / table_rows_per(logrows)
}

/// How many rows component `c` of a table of this shape holds: a full
/// column, except for the remainder in the last component.
pub open spec fn chunk_len(bits: nat, logrows: nat, c: int) -> int {
    if table_total(bits) - c * table_rows_per(logrows) < table_rows_per(logrows) {
        table_total(bits) - c * table_rows_per(logrows)
    } else {
        table_rows_per(logrows)
    }
}

/// The signed domain value enumerated at row `r` of component `c`.
pub open spec fn domain_value(bits: nat, logrows: nat, c: int, r: int) -> int {
    table_lo(bits) + c * table_rows_per(logrows) + r
}

/// Rounding up to full columns covers the domain exactly: the last
/// component starts inside the domain and the components together reach
/// its end.
pub proof fn lemma_components_cover(bits: nat, logrows: nat)
    requires
        1 <= bits,
        1 <= logrows,
    ensures
        spec_num_components(bits, logrows) >= 1,
        (spec_num_components(bits, logrows) - 1) * table_rows_per(logrows) < table_total(bits),
        table_total(bits) <= spec_num_components(bits, logrows) * table_rows_per(logrows),
{
    let total = table_total(bits);
    let rp = table_rows_per(logrows);
    let nc = spec_num_components(bits, logrows);
    vstd::arithmetic::power2::lemma_pow2_pos(bits);
    vstd::arithmetic::power2::lemma_pow2_pos(logrows);
    lemma_fundamental_div_mod(total + rp - 1, rp);
    lemma_mod_bound(total + rp - 1, rp);
    let rem = (total + rp - 1) % rp;
    assert(total + rp - 1 == rp * nc + rem);
    assert(total == rp * nc + rem - rp + 1);
    assert(rp * nc == nc * rp) by (nonlinear_arith);
    assert((nc - 1) * rp == nc * rp - rp) by (nonlinear_arith);
    assert(rp * nc >= total);
    assert(nc >= 1) by (nonlinear_arith)
        requires
            rp >= 1,
            total >= 1,
            rp * nc >= total,
    ;
}

/// 2 to a small power.
pub fn pow2_usize(k: usize) -> (r: usize)
    requires
        k <= MAX_TABLE_BITS,
    ensures
        r == pow2(k as nat),
        1 <= r <= 0x100_0000,
{
    proof {
        lemma2_to64();
    }
    let mut i: usize = 0;
    let mut p: usize = 1;
    while i < k
        invariant
            i <= k <= MAX_TABLE_BITS,
            p == pow2(i as nat),
            p <= 0x100_0000,
        decreases k - i,
    {
        proof {
            lemma_pow2_unfold((i + 1) as nat);
            if i + 1 < 24 {
                lemma_pow2_strictly_increases((i + 1) as nat, 24);
            }
            lemma2_to64();
        }
        p = p * 2;
        i = i + 1;
    }
    p
}

/// One lookup table: the deduplicated (domain, codomain) column pairs
/// enumerating a nonlinear identity over its bit-width range.
pub struct Table {
    /// The identity the table enumerates.
    pub nonlinearity: LookupOp,
    /// Signed bit width of the domain.
    pub bits: usize,
    /// Log2 of the height of each table column.
    pub logrows: usize,
    /// Arena indices of the domain columns, one per component.
    pub table_inputs: Vec<usize>,
    /// Arena indices of the codomain columns, one per component.
    pub table_outputs: Vec<usize>,
    /// Whether the table's cells have been written. Write-once.
    pub is_assigned: bool,
}

impl Table {
    /// How many component column pairs the table has.
    pub open spec fn spec_ncomp(self) -> int {
        spec_num_components(self.bits as nat, self.logrows as nat)
    }

    /// The table's shape is supported, its component columns exist in the
    /// arena, each run of columns is consecutive, and domain and codomain
    /// columns do not overlap.
    pub open spec fn wf(self, sys: System) -> bool {
        &&& 1 <= self.bits <= MAX_TABLE_BITS
        &&& 1 <= self.logrows <= MAX_TABLE_BITS
        &&& self.table_inputs@.len() == self.spec_ncomp()
        &&& self.table_outputs@.len() == self.spec_ncomp()
        &&& forall|c: int|
            0 <= c < self.spec_ncomp() ==> #[trigger] self.table_inputs@[c] == self.table_inputs@[0]
                + c
        &&& forall|c: int|
            0 <= c < self.spec_ncomp() ==> #[trigger] self.table_outputs@[c]
                == self.table_outputs@[0] + c
        &&& self.spec_ncomp() >= 1 ==> self.table_inputs@[0] + self.spec_ncomp()
            <= sys.table_cols@.len()
        &&& self.spec_ncomp() >= 1 ==> self.table_outputs@[0] + self.spec_ncomp()
            <= sys.table_cols@.len()
        &&& self.spec_ncomp() >= 1 ==> (self.table_inputs@[0] + self.spec_ncomp()
            <= self.table_outputs@[0] || self.table_outputs@[0] + self.spec_ncomp()
            <= self.table_inputs@[0])
    }

    /// The arena holds the table's domain cells: component `c` enumerates
    /// its slice of the signed range in increasing order.
    pub open spec fn domain_ok(self, sys: System) -> bool {
        forall|c: int, r: int|
            0 <= c < self.spec_ncomp() && 0 <= r < chunk_len(
                self.bits as nat,
                self.logrows as nat,
                c,
            ) ==> #[trigger] sys.table_cols@[self.table_inputs@[c] as int]@[r]@ == embed_signed(
                domain_value(self.bits as nat, self.logrows as nat, c, r),
            )
    }

    /// The arena holds the table's codomain cells: component `c` holds the
    /// identity's value at each enumerated input of its slice.
    pub open spec fn codomain_ok(self, sys: System) -> bool {
        forall|c: int, r: int|
            0 <= c < self.spec_ncomp() && 0 <= r < chunk_len(
                self.bits as nat,
                self.logrows as nat,
                c,
            ) ==> #[trigger] sys.table_cols@[self.table_outputs@[c] as int]@[r]@
                == self.nonlinearity.spec_eval(
                domain_value(self.bits as nat, self.logrows as nat, c, r),
            )
    }

    /// The table's columns have exactly their enumerated heights.
    pub open spec fn lens_ok(self, sys: System) -> bool {
        forall|c: int|
            0 <= c < self.spec_ncomp() ==> #[trigger] sys.table_cols@[self.table_inputs@[c] as int]@.len()
                == chunk_len(self.bits as nat, self.logrows as nat, c)
                && sys.table_cols@[self.table_outputs@[c] as int]@.len() == chunk_len(
                self.bits as nat,
                self.logrows as nat,
                c,
            )
    }

    /// The populated table: every component pair enumerates its slice of
    /// the domain together with the identity's value at each input.
    pub open spec fn contents_ok(self, sys: System) -> bool {
        self.lens_ok(sys) && self.domain_ok(sys) && self.codomain_ok(sys)
    }

    /// The table's codomain columns hold nothing yet.
    pub open spec fn outputs_empty(self, sys: System) -> bool {
        forall|c: int|
            0 <= c < self.spec_ncomp() ==> sys.table_cols@[(
            #[trigger] self.table_outputs@[c]) as int]@.len() == 0
    }

    /// The table's domain columns hold nothing yet.
    pub open spec fn inputs_empty(self, sys: System) -> bool {
        forall|c: int|
            0 <= c < self.spec_ncomp() ==> sys.table_cols@[(
            #[trigger] self.table_inputs@[c]) as int]@.len() == 0
    }

    /// The table's domain columns hold the whole enumeration.
    pub open spec fn domain_full(self, sys: System) -> bool {
        self.domain_ok(sys) && forall|c: int|
            0 <= c < self.spec_ncomp() ==> sys.table_cols@[(
            #[trigger] self.table_inputs@[c]) as int]@.len() == chunk_len(
                self.bits as nat,
                self.logrows as nat,
                c,
            )
    }

    /// Builds a table for one identity: fresh codomain columns, and either
    /// the domain columns of an earlier table of the same shape, or fresh
    /// ones.
    pub fn configure(
        sys: &mut System,
        bits: usize,
        logrows: usize,
        nl: &LookupOp,
        shared: Option<&Table>,
    ) -> (t: Table)
        requires
            old(sys).wf(),
            1 <= bits <= MAX_TABLE_BITS,
            1 <= logrows <= MAX_TABLE_BITS,
            old(sys).table_cols@.len() + 2 * spec_num_components(bits as nat, logrows as nat)
                <= usize::MAX,
            shared matches Some(s) ==> s.wf(*old(sys)),
        ensures
            final(sys).wf(),
            t.wf(*final(sys)),
            t.nonlinearity == *nl,
            t.bits == bits,
            t.logrows == logrows,
            !t.is_assigned,
            // Domain sharing: an earlier table of the same shape donates
            // its domain columns; any other shape gets fresh ones.
            match shared {
                Some(s) => if s.bits == bits && s.logrows == logrows {
                    t.table_inputs@ == s.table_inputs@
                } else {
                    fresh_run(t.table_inputs@, old(sys).table_cols@.len() as int, t.spec_ncomp())
                },
                None => fresh_run(t.table_inputs@, old(sys).table_cols@.len() as int, t.spec_ncomp()),
            },
            fresh_run(
                t.table_outputs@,
                final(sys).table_cols@.len() - t.spec_ncomp(),
                t.spec_ncomp(),
            ),
            // The arena only grew by fresh, empty columns: at least the
            // codomain run is new.
            final(sys).table_cols@.len() >= old(sys).table_cols@.len() + spec_num_components(
                bits as nat,
                logrows as nat,
            ),
            forall|j: int|
                0 <= j < old(sys).table_cols@.len() ==> #[trigger] final(sys).table_cols@[j] == old(
                    sys,
                ).table_cols@[j],
            forall|j: int|
                old(sys).table_cols@.len() <= j < final(sys).table_cols@.len()
                    ==> (#[trigger] final(sys).table_cols@[j])@.len() == 0,
            final(sys).num_advice == old(sys).num_advice,
            final(sys).num_selectors == old(sys).num_selectors,
            final(sys).gates == old(sys).gates,
            final(sys).lookups == old(sys).lookups,
    {
        proof {
            lemma_components_cover(bits as nat, logrows as nat);
        }
        let total = pow2_usize(bits);
        let rows_per = pow2_usize(logrows);
        let ncomp = (total + rows_per - 1) / rows_per;
        proof {
            assert(ncomp == spec_num_components(bits as nat, logrows as nat));
        }
        let reuse = match shared {
            Some(s) => s.bits == bits && s.logrows == logrows,
            None => false,
        };
        let table_inputs: Vec<usize> = if reuse {
            match shared {
                Some(s) => clone_indices(&s.table_inputs),
                None => Vec::new(),
            }
        } else {
            alloc_run(sys, ncomp)
        };
        let table_outputs: Vec<usize> = alloc_run(sys, ncomp);
        Table {
            nonlinearity: *nl,
            bits,
            logrows,
            table_inputs,
            table_outputs,
            is_assigned: false,
        }
    }

    /// Writes the table's cells: every component's slice of the signed
    /// domain in increasing order, paired with the identity's value there.
    /// A table whose domain columns were donated by an earlier, already
    /// populated table skips the domain writes. Each table is populated at
    /// most once: a second call fails without touching the arena.
    pub fn layout(&mut self, sys: &mut System, populate_domain: bool) -> (r: Result<
        (),
        CircuitError,
    >)
        requires
            old(sys).wf(),
            old(self).wf(*old(sys)),
            !old(self).is_assigned ==> emptiness(*old(self), *old(sys), populate_domain),
            !old(self).is_assigned && !populate_domain ==> old(self).domain_ok(*old(sys)) && forall|
                c: int,
            |
                0 <= c < old(self).spec_ncomp()
                    ==> #[trigger] old(sys).table_cols@[old(self).table_inputs@[c] as int]@.len()
                    == chunk_len(old(self).bits as nat, old(self).logrows as nat, c),
        ensures
            final(self).wf(*final(sys)),
            final(sys).wf(),
            match r {
                Ok(()) => {
                    &&& !old(self).is_assigned
                    &&& *final(self) == (Table { is_assigned: true, ..*old(self) })
                    &&& final(self).contents_ok(*final(sys))
                    &&& untouched(*old(self), *old(sys), *final(sys), populate_domain)
                },
                Err(e) => {
                    &&& e == CircuitError::TableAlreadyAssigned
                    &&& old(self).is_assigned
                    &&& *final(self) == *old(self)
                    &&& *final(sys) == *old(sys)
                },
            },
            final(sys).num_advice == old(sys).num_advice,
            final(sys).num_selectors == old(sys).num_selectors,
            final(sys).gates == old(sys).gates,
            final(sys).lookups == old(sys).lookups,
            final(sys).table_cols@.len() == old(sys).table_cols@.len(),
    {
        if self.is_assigned {
            return Err(CircuitError::TableAlreadyAssigned);
        }
        proof {
            lemma_components_cover(self.bits as nat, self.logrows as nat);
        }
        let total = pow2_usize(self.bits);
        let rows_per = pow2_usize(self.logrows);
        let half = pow2_usize(self.bits - 1);
        let lo: i64 = -(half as i64);
        proof {
            lemma_pow2_unfold(self.bits as nat);
            assert(2 * pow2((self.bits - 1) as nat) == total);
            assert(lo as int == table_lo(self.bits as nat));
        }
        let ncomp = self.table_inputs.len();
        let ghost gbits = self.bits as nat;
        let ghost glogrows = self.logrows as nat;
        let ghost sys0 = *sys;
        let mut c: usize = 0;
        let mut done: usize = 0;
        while c < ncomp
            invariant
                c <= ncomp,
                sys.wf(),
                self.wf(*sys),
                self.wf(sys0),
                *self == (Table { is_assigned: old(self).is_assigned, ..*old(self) }),
                !self.is_assigned,
                ncomp == self.spec_ncomp(),
                gbits == self.bits as nat,
                glogrows == self.logrows as nat,
                total == table_total(gbits),
                rows_per == table_rows_per(glogrows),
                lo as int == table_lo(gbits),
                total <= 0x100_0000,
                rows_per >= 1,
                lo as int >= -0x100_0000,
                (ncomp - 1) * rows_per < total,
                c < ncomp ==> done == c * rows_per,
                done <= total,
                // Finished components hold their slice.
                forall|c2: int, r2: int|
                    0 <= c2 < c && 0 <= r2 < chunk_len(gbits, glogrows, c2)
                        ==> #[trigger] sys.table_cols@[self.table_inputs@[c2] as int]@[r2]@
                        == embed_signed(domain_value(gbits, glogrows, c2, r2)),
                forall|c2: int, r2: int|
                    0 <= c2 < c && 0 <= r2 < chunk_len(gbits, glogrows, c2)
                        ==> #[trigger] sys.table_cols@[self.table_outputs@[c2] as int]@[r2]@
                        == self.nonlinearity.spec_eval(domain_value(gbits, glogrows, c2, r2)),
                forall|c2: int|
                    0 <= c2 < c ==> #[trigger] sys.table_cols@[self.table_inputs@[c2] as int]@.len()
                        == chunk_len(gbits, glogrows, c2),
                forall|c2: int|
                    0 <= c2 < c ==> #[trigger] sys.table_cols@[self.table_outputs@[c2] as int]@.len()
                        == chunk_len(gbits, glogrows, c2),
                // Pending codomain components are still empty; pending
                // domain components are empty or, when donated, full.
                forall|c2: int|
                    c <= c2 < ncomp ==> (#[trigger] sys.table_cols@[self.table_outputs@[c2] as int]@.len()
                        == 0),
                populate_domain ==> forall|c2: int|
                    c <= c2 < ncomp ==> (#[trigger] sys.table_cols@[self.table_inputs@[c2] as int]@.len()
                        == 0),
                !populate_domain ==> forall|c2: int, r2: int|
                    0 <= c2 < ncomp && 0 <= r2 < chunk_len(gbits, glogrows, c2)
                        ==> #[trigger] sys.table_cols@[self.table_inputs@[c2] as int]@[r2]@
                        == embed_signed(domain_value(gbits, glogrows, c2, r2)),
                !populate_domain ==> forall|c2: int|
                    0 <= c2 < ncomp ==> #[trigger] sys.table_cols@[self.table_inputs@[c2] as int]@.len()
                        == chunk_len(gbits, glogrows, c2),
                // Any column outside the table is untouched.
                untouched(*self, sys0, *sys, populate_domain),
                sys.table_cols@.len() == sys0.table_cols@.len(),
                sys.num_advice == sys0.num_advice,
                sys.num_selectors == sys0.num_selectors,
                sys.gates == sys0.gates,
                sys.lookups == sys0.lookups,
            decreases ncomp - c,
        {
            proof {
                lemma_mul_inequality(c as int, ncomp - 1, rows_per as int);
                assert((ncomp - 1) * rows_per < total);
            }
            let remaining = total - done;
            let clen = if remaining < rows_per {
                remaining
            } else {
                rows_per
            };
            proof {
                assert(clen == chunk_len(gbits, glogrows, c as int));
            }
            let in_col = self.table_inputs[c];
            let out_col = self.table_outputs[c];
            let mut r: usize = 0;
            while r < clen
                invariant
                    r <= clen,
                    sys.wf(),
                    self.wf(*sys),
                    self.wf(sys0),
                    *self == (Table { is_assigned: old(self).is_assigned, ..*old(self) }),
                    !self.is_assigned,
                    c < ncomp,
                    ncomp == self.spec_ncomp(),
                    gbits == self.bits as nat,
                    glogrows == self.logrows as nat,
                    total == table_total(gbits),
                    rows_per == table_rows_per(glogrows),
                    lo as int == table_lo(gbits),
                    total <= 0x100_0000,
                    rows_per >= 1,
                    lo as int >= -0x100_0000,
                    (ncomp - 1) * rows_per < total,
                    done == c * rows_per,
                    done + clen <= total,
                    clen == chunk_len(gbits, glogrows, c as int),
                    in_col == self.table_inputs@[c as int],
                    out_col == self.table_outputs@[c as int],
                    forall|c2: int, r2: int|
                        0 <= c2 < c && 0 <= r2 < chunk_len(gbits, glogrows, c2)
                            ==> #[trigger] sys.table_cols@[self.table_inputs@[c2] as int]@[r2]@
                            == embed_signed(domain_value(gbits, glogrows, c2, r2)),
                    forall|c2: int, r2: int|
                        0 <= c2 < c && 0 <= r2 < chunk_len(gbits, glogrows, c2)
                            ==> #[trigger] sys.table_cols@[self.table_outputs@[c2] as int]@[r2]@
                            == self.nonlinearity.spec_eval(domain_value(gbits, glogrows, c2, r2)),
                    forall|c2: int|
                        0 <= c2 < c ==> #[trigger] sys.table_cols@[self.table_inputs@[c2] as int]@.len()
                            == chunk_len(gbits, glogrows, c2),
                    forall|c2: int|
                        0 <= c2 < c ==> #[trigger] sys.table_cols@[self.table_outputs@[c2] as int]@.len()
                            == chunk_len(gbits, glogrows, c2),
                    // The current component is filled up to row r.
                    sys.table_cols@[out_col as int]@.len() == r,
                    forall|r2: int|
                        0 <= r2 < r ==> #[trigger] sys.table_cols@[out_col as int]@[r2]@
                            == self.nonlinearity.spec_eval(domain_value(gbits, glogrows, c as int, r2)),
                    populate_domain ==> sys.table_cols@[in_col as int]@.len() == r,
                    populate_domain ==> forall|r2: int|
                        0 <= r2 < r ==> #[trigger] sys.table_cols@[in_col as int]@[r2]@
                            == embed_signed(domain_value(gbits, glogrows, c as int, r2)),
                    forall|c2: int|
                        c < c2 < ncomp ==> (
                        #[trigger] sys.table_cols@[self.table_outputs@[c2] as int]@.len() == 0),
                    populate_domain ==> forall|c2: int|
                        c < c2 < ncomp ==> (
                        #[trigger] sys.table_cols@[self.table_inputs@[c2] as int]@.len() == 0),
                    !populate_domain ==> forall|c2: int, r2: int|
                        0 <= c2 < ncomp && 0 <= r2 < chunk_len(gbits, glogrows, c2)
                            ==> #[trigger] sys.table_cols@[self.table_inputs@[c2] as int]@[r2]@
                            == embed_signed(domain_value(gbits, glogrows, c2, r2)),
                    !populate_domain ==> forall|c2: int|
                        0 <= c2 < ncomp ==> #[trigger] sys.table_cols@[self.table_inputs@[c2] as int]@.len()
                            == chunk_len(gbits, glogrows, c2),
                    untouched(*self, sys0, *sys, populate_domain),
                    sys.table_cols@.len() == sys0.table_cols@.len(),
                    sys.num_advice == sys0.num_advice,
                    sys.num_selectors == sys0.num_selectors,
                    sys.gates == sys0.gates,
                    sys.lookups == sys0.lookups,
                decreases clen - r,
            {
                let v: i64 = lo + (done + r) as i64;
                proof {
                    assert(v as int == domain_value(gbits, glogrows, c as int, r as int));
                }
                if populate_domain {
                    sys.table_push(in_col, Felt::from_i64(v));
                }
                sys.table_push(out_col, self.nonlinearity.eval_i64(v));
                r = r + 1;
            }
            proof {
                assert((c + 1) * rows_per == c * rows_per + rows_per) by (nonlinear_arith);
                assert forall|c2: int| 0 <= c2 < c + 1 implies #[trigger] sys.table_cols@[self.table_inputs@[c2] as int]@.len()
                    == chunk_len(gbits, glogrows, c2) by {
                    if c2 == c as int {
                        assert(in_col == self.table_inputs@[c as int]);
                        assert(clen == chunk_len(gbits, glogrows, c2));
                        assert(sys.table_cols@[in_col as int]@.len() == clen);
                    }
                }
                assert forall|c2: int| 0 <= c2 < c + 1 implies #[trigger] sys.table_cols@[self.table_outputs@[c2] as int]@.len()
                    == chunk_len(gbits, glogrows, c2) by {
                    if c2 == c as int {
                        assert(out_col == self.table_outputs@[c as int]);
                        assert(clen == chunk_len(gbits, glogrows, c2));
                        assert(sys.table_cols@[out_col as int]@.len() == clen);
                    }
                }
                if c + 1 < ncomp {
                    // Only a full column leaves room for another component.
                    if clen < rows_per {
                        lemma_mul_inequality(c + 1, ncomp - 1, rows_per as int);
                        assert(false);
                    }
                }
            }
            done = done + clen;
            c = c + 1;
        }
        self.is_assigned = true;
        Ok(())
    }
}

/// A table that has been populated keeps the full enumeration; one that
/// has not been populated has written nothing to its codomain columns,
/// and its domain columns are either still untouched or were already
/// filled through an earlier table they are shared with.
pub open spec fn table_state_ok(t: Table, sys: System) -> bool {
    if t.is_assigned {
        t.contents_ok(sys)
    } else {
        t.outputs_empty(sys) && (t.inputs_empty(sys) || t.domain_full(sys))
    }
}

/// A table's population state only depends on its own columns, so it
/// survives the arena gaining fresh columns elsewhere.
pub proof fn lemma_state_frame(t: Table, s1: System, s2: System)
    requires
        table_state_ok(t, s1),
        t.wf(s1),
        s2.table_cols@.len() >= s1.table_cols@.len(),
        forall|j: int|
            0 <= j < s1.table_cols@.len() ==> #[trigger] s2.table_cols@[j] == s1.table_cols@[j],
    ensures
        table_state_ok(t, s2),
{
    assert forall|c: int| 0 <= c < t.spec_ncomp() implies s2.table_cols@[(
    #[trigger] t.table_inputs@[c]) as int] == s1.table_cols@[t.table_inputs@[c] as int]
        && s2.table_cols@[t.table_outputs@[c] as int] == s1.table_cols@[t.table_outputs@[c] as int] by {
        assert(t.table_inputs@[c] == t.table_inputs@[0] + c);
        assert(t.table_outputs@[c] == t.table_outputs@[0] + c);
    }
}

/// A table's population state is a statement about its own columns
/// alone: it survives any change that leaves them as they are.
pub proof fn lemma_state_own_cols(t: Table, s1: System, s2: System)
    requires
        table_state_ok(t, s1),
        t.wf(s1),
        s2.table_cols@.len() >= s1.table_cols@.len(),
        forall|c: int|
            0 <= c < t.spec_ncomp() ==> #[trigger] s2.table_cols@[t.table_inputs@[c] as int]
                == s1.table_cols@[t.table_inputs@[c] as int],
        forall|c: int|
            0 <= c < t.spec_ncomp() ==> #[trigger] s2.table_cols@[t.table_outputs@[c] as int]
                == s1.table_cols@[t.table_outputs@[c] as int],
    ensures
        table_state_ok(t, s2),
{
    let gbits = t.bits as nat;
    let glogrows = t.logrows as nat;
    if t.is_assigned {
        assert forall|c: int, r: int|
            0 <= c < t.spec_ncomp() && 0 <= r < chunk_len(gbits, glogrows, c) implies
            #[trigger] s2.table_cols@[t.table_inputs@[c] as int]@[r]@ == embed_signed(
            domain_value(gbits, glogrows, c, r),
        ) by {
            assert(s2.table_cols@[t.table_inputs@[c] as int]
                == s1.table_cols@[t.table_inputs@[c] as int]);
            assert(s1.table_cols@[t.table_inputs@[c] as int]@[r]@ == embed_signed(
                domain_value(gbits, glogrows, c, r),
            ));
        }
        assert forall|c: int, r: int|
            0 <= c < t.spec_ncomp() && 0 <= r < chunk_len(gbits, glogrows, c) implies
            #[trigger] s2.table_cols@[t.table_outputs@[c] as int]@[r]@ == t.nonlinearity.spec_eval(
            domain_value(gbits, glogrows, c, r),
        ) by {
            assert(s2.table_cols@[t.table_outputs@[c] as int]
                == s1.table_cols@[t.table_outputs@[c] as int]);
            assert(s1.table_cols@[t.table_outputs@[c] as int]@[r]@ == t.nonlinearity.spec_eval(
                domain_value(gbits, glogrows, c, r),
            ));
        }
        assert forall|c: int| 0 <= c < t.spec_ncomp() implies #[trigger] s2.table_cols@[t.table_inputs@[c] as int]@.len()
            == chunk_len(gbits, glogrows, c) && s2.table_cols@[t.table_outputs@[c] as int]@.len()
            == chunk_len(gbits, glogrows, c) by {
            assert(s2.table_cols@[t.table_inputs@[c] as int]
                == s1.table_cols@[t.table_inputs@[c] as int]);
            assert(s2.table_cols@[t.table_outputs@[c] as int]
                == s1.table_cols@[t.table_outputs@[c] as int]);
            assert(s1.table_cols@[t.table_inputs@[c] as int]@.len() == chunk_len(
                gbits,
                glogrows,
                c,
            ));
        }
        assert(t.contents_ok(s2));
    } else {
        assert forall|c: int| 0 <= c < t.spec_ncomp() implies s2.table_cols@[(
        #[trigger] t.table_outputs@[c]) as int]@.len() == 0 by {
            assert(s2.table_cols@[t.table_outputs@[c] as int]
                == s1.table_cols@[t.table_outputs@[c] as int]);
        }
        assert(t.outputs_empty(s2));
        if t.inputs_empty(s1) {
            assert forall|c: int| 0 <= c < t.spec_ncomp() implies s2.table_cols@[(
            #[trigger] t.table_inputs@[c]) as int]@.len() == 0 by {
                assert(s2.table_cols@[t.table_inputs@[c] as int]
                    == s1.table_cols@[t.table_inputs@[c] as int]);
            }
            assert(t.inputs_empty(s2));
        } else {
            assert(t.domain_full(s1));
            assert forall|c: int, r: int|
                0 <= c < t.spec_ncomp() && 0 <= r < chunk_len(gbits, glogrows, c) implies
                #[trigger] s2.table_cols@[t.table_inputs@[c] as int]@[r]@ == embed_signed(
                domain_value(gbits, glogrows, c, r),
            ) by {
                assert(s2.table_cols@[t.table_inputs@[c] as int]
                    == s1.table_cols@[t.table_inputs@[c] as int]);
                assert(s1.table_cols@[t.table_inputs@[c] as int]@[r]@ == embed_signed(
                    domain_value(gbits, glogrows, c, r),
                ));
            }
            assert forall|c: int| 0 <= c < t.spec_ncomp() implies #[trigger] s2.table_cols@[t.table_inputs@[c] as int]@.len()
                == chunk_len(gbits, glogrows, c) by {
                assert(s2.table_cols@[t.table_inputs@[c] as int]
                    == s1.table_cols@[t.table_inputs@[c] as int]);
            }
            assert(t.domain_full(s2));
        }
    }
}

/// A table donated the domain columns of another of the same shape: the
/// filled domain carries over verbatim.
pub proof fn lemma_domain_donated(donor: Table, t: Table, sys: System)
    requires
        donor.domain_ok(sys),
        forall|c: int|
            0 <= c < donor.spec_ncomp() ==> sys.table_cols@[(
            #[trigger] donor.table_inputs@[c]) as int]@.len() == chunk_len(
                donor.bits as nat,
                donor.logrows as nat,
                c,
            ),
        t.table_inputs@ == donor.table_inputs@,
        t.bits == donor.bits,
        t.logrows == donor.logrows,
    ensures
        t.domain_full(sys),
{
    assert(t.spec_ncomp() == donor.spec_ncomp());
    assert forall|c: int, r: int|
        0 <= c < t.spec_ncomp() && 0 <= r < chunk_len(
            t.bits as nat,
            t.logrows as nat,
            c,
        ) implies #[trigger] sys.table_cols@[t.table_inputs@[c] as int]@[r]@ == embed_signed(
        domain_value(t.bits as nat, t.logrows as nat, c, r),
    ) by {
        assert(t.table_inputs@[c] == donor.table_inputs@[c]);
        assert(sys.table_cols@[donor.table_inputs@[c] as int]@[r]@ == embed_signed(
            domain_value(donor.bits as nat, donor.logrows as nat, c, r),
        ));
    }
    assert forall|c: int| 0 <= c < t.spec_ncomp() implies sys.table_cols@[(
    #[trigger] t.table_inputs@[c]) as int]@.len() == chunk_len(
        t.bits as nat,
        t.logrows as nat,
        c,
    ) by {
        assert(t.table_inputs@[c] == donor.table_inputs@[c]);
    }
}

/// Two runs of column indices that do not overlap.
pub open spec fn ranges_disjoint(a0: int, an: int, b0: int, bn: int) -> bool {
    a0 + an <= b0 || b0 + bn <= a0
}

/// How two distinct registered tables may relate: their codomain columns
/// never overlap anything of the other, and their domain columns are
/// either the very same run, donated between tables of the same shape, or
/// disjoint.
pub open spec fn tables_compat(t1: Table, t2: Table) -> bool {
    &&& ranges_disjoint(
        t1.table_outputs@[0] as int,
        t1.spec_ncomp(),
        t2.table_outputs@[0] as int,
        t2.spec_ncomp(),
    )
    &&& ranges_disjoint(
        t1.table_inputs@[0] as int,
        t1.spec_ncomp(),
        t2.table_outputs@[0] as int,
        t2.spec_ncomp(),
    )
    &&& ((t1.table_inputs@ == t2.table_inputs@ && t1.bits == t2.bits && t1.logrows == t2.logrows)
        || ranges_disjoint(
        t1.table_inputs@[0] as int,
        t1.spec_ncomp(),
        t2.table_inputs@[0] as int,
        t2.spec_ncomp(),
    ))
}

/// A run of `n` consecutive fresh column indices starting at `start`.
pub open spec fn fresh_run(ids: Seq<usize>, start: int, n: int) -> bool {
    ids.len() == n && forall|c: int| 0 <= c < n ==> #[trigger] ids[c] == start + c
}

/// Before population, the table's own codomain columns are empty, and its
/// domain columns too when it is to write them.
pub open spec fn emptiness(t: Table, sys: System, populate_domain: bool) -> bool {
    &&& forall|c: int|
        0 <= c < t.spec_ncomp() ==> (#[trigger] sys.table_cols@[t.table_outputs@[c] as int]@.len()
            == 0)
    &&& populate_domain ==> forall|c: int|
        0 <= c < t.spec_ncomp() ==> (#[trigger] sys.table_cols@[t.table_inputs@[c] as int]@.len()
            == 0)
}

/// Population only writes the table's own columns: every other column of
/// the arena, and the donated domain columns when they are skipped, keep
/// their contents.
pub open spec fn untouched(t: Table, sys1: System, sys2: System, populate_domain: bool) -> bool {
    forall|j: int|
        0 <= j < sys1.table_cols@.len() && (forall|c: int|
            0 <= c < t.spec_ncomp() ==> t.table_outputs@[c] != j && (populate_domain
                ==> t.table_inputs@[c] != j)) ==> #[trigger] sys2.table_cols@[j]
            == sys1.table_cols@[j]
}

/// Clones a vector of column indices.
fn clone_indices(v: &Vec<usize>) -> (r: Vec<usize>)
    ensures
        r@ == v@,
{
    let mut r: Vec<usize> = Vec::new();
    let mut i: usize = 0;
    while i < v.len()
        invariant
            i <= v@.len(),
            r@ == v@.subrange(0, i as int),
        decreases v@.len() - i,
    {
        r.push(v[i]);
        i = i + 1;
    }
    proof {
        assert(r@ =~= v@);
    }
    r
}

/// Allocates `n` fresh, empty table columns and returns their indices.
fn alloc_run(sys: &mut System, n: usize) -> (r: Vec<usize>)
    requires
        old(sys).wf(),
        old(sys).table_cols@.len() + n <= usize::MAX,
    ensures
        final(sys).wf(),
        fresh_run(r@, old(sys).table_cols@.len() as int, n as int),
        final(sys).table_cols@.len() == old(sys).table_cols@.len() + n,
        forall|j: int|
            0 <= j < old(sys).table_cols@.len() ==> #[trigger] final(sys).table_cols@[j] == old(
                sys,
            ).table_cols@[j],
        forall|j: int|
            old(sys).table_cols@.len() <= j < final(sys).table_cols@.len()
                ==> (#[trigger] final(sys).table_cols@[j])@.len() == 0,
        final(sys).num_advice == old(sys).num_advice,
        final(sys).num_selectors == old(sys).num_selectors,
        final(sys).gates == old(sys).gates,
        final(sys).lookups == old(sys).lookups,
{
    let mut r: Vec<usize> = Vec::new();
    let mut i: usize = 0;
    while i < n
        invariant
            i <= n,
            sys.wf(),
            old(sys).table_cols@.len() + n <= usize::MAX,
            r@.len() == i,
            sys.table_cols@.len() == old(sys).table_cols@.len() + i,
            forall|c: int| 0 <= c < i ==> #[trigger] r@[c] == old(sys).table_cols@.len() + c,
            forall|j: int|
                0 <= j < old(sys).table_cols@.len() ==> #[trigger] sys.table_cols@[j] == old(
                    sys,
                ).table_cols@[j],
            forall|j: int|
                old(sys).table_cols@.len() <= j < sys.table_cols@.len()
                    ==> (#[trigger] sys.table_cols@[j])@.len() == 0,
            sys.num_advice == old(sys).num_advice,
            sys.num_selectors == old(sys).num_selectors,
            sys.gates == old(sys).gates,
            sys.lookups == old(sys).lookups,
        decreases n - i,
    {
        let c = sys.table_column();
        r.push(c);
        i = i + 1;
    }
    r
}

} // verus!
