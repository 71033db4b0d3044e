//! The configuration aggregate and its witness-assignment engine.
//!
//! [`BaseConfig`] owns the column handles, the selector maps, the table
//! registry and the check-mode flag for the lifetime of one circuit. It is
//! built once by gate configuration, extended by lookup configuration
//! (idempotent per identity), then drives table population and
//! per-operation witness assignment, with an optional consistency check
//! between a claimed output and a pure-value recomputation.

use vstd::prelude::*;
use vstd::string::StringSliceAdditionalSpecFns;
use vstd::arithmetic::div_mod::lemma_div_multiples_vanish;
use crate::base::{base_op_at, catalog_at, BaseOp, NUM_BASE_OPS};
use crate::expr::{eval_expr, wrap_row, Expr};
use crate::felt::{mul_mod, sub_mod, Felt};
use crate::system::{ColHandle, System};
use crate::witness::Assignment;

verus! {

/// A terminal circuit failure: a malformed or internally inconsistent
/// circuit cannot safely proceed, so none of these is retried.
#[derive(Clone, Debug, PartialEq, Eq)]
pub enum CircuitError {
    /// Shape mismatch in circuit construction or layout.
    DimMismatch,
    /// A lookup table could not be wired against the given handles.
    LookupInstantiation,
    /// A lookup table was already assigned when population began.
    TableAlreadyAssigned,
    /// The requested operation has no layout path.
    UnsupportedOp,
    /// The claimed output of an operation differed from its pure-value
    /// recomputation during a real witness pass in safe mode.
    ConsistencyFailure,
}

impl CircuitError {
    /// A short human-readable description of the failure.
    pub open spec fn spec_description(self) -> Seq<char> {
        match self {
            CircuitError::DimMismatch => "dimension mismatch in circuit construction"@,
            CircuitError::LookupInstantiation => "failed to instantiate lookup tables"@,
            CircuitError::TableAlreadyAssigned => "attempting to initialize an already instantiated lookup table"@,
            CircuitError::UnsupportedOp => "unsupported operation in graph"@,
            CircuitError::ConsistencyFailure => "claimed output does not match recomputed value"@,
        }
    }

    /// A short human-readable description of the failure.
    pub fn as_str(&self) -> (r: &'static str)
        ensures
            r@ == self.spec_description(),
    {
        match self {
            CircuitError::DimMismatch => "dimension mismatch in circuit construction",
            CircuitError::LookupInstantiation => "failed to instantiate lookup tables",
            CircuitError::TableAlreadyAssigned => "attempting to initialize an already instantiated lookup table",
            CircuitError::UnsupportedOp => "unsupported operation in graph",
            CircuitError::ConsistencyFailure => "claimed output does not match recomputed value",
        }
    }
}

/// Whether witness assignment re-checks each claimed output against a
/// pure-value recomputation.
#[allow(non_camel_case_types)]
#[derive(Clone, Copy, Debug, PartialEq, Eq, Hash, PartialOrd, Ord, Structural)]
pub enum CheckMode {
    /// Recompute and compare during every real witness pass.
    SAFE,
    /// Trust claimed outputs.
    UNSAFE,
}

impl Default for CheckMode {
    fn default() -> (r: CheckMode)
        ensures
            r == CheckMode::SAFE,
    {
        CheckMode::SAFE
    }
}

/// ASCII lowercasing of one byte.
pub open spec fn lower_byte(b: u8) -> u8 {
    if 65 <= b <= 90 {
        (b + 32) as u8
    } else {
        b
    }
}

/// ASCII lowercasing of a byte string.
pub open spec fn lower_bytes(s: Seq<u8>) -> Seq<u8> {
    s.map_values(|b: u8| lower_byte(b))
}

/// The byte spelling of the safe mode.
pub open spec fn safe_word() -> Seq<u8> {
    seq![115u8, 97u8, 102u8, 101u8]
}

/// The byte spelling of the unsafe mode.
pub open spec fn unsafe_word() -> Seq<u8> {
    seq![117u8, 110u8, 115u8, 97u8, 102u8, 101u8]
}

impl CheckMode {
    /// Parses a mode name, ignoring ASCII case: `"safe"` and `"unsafe"`
    /// in any capitalization are accepted, anything else is rejected.
    pub fn parse(s: &str) -> (r: Option<CheckMode>)
        ensures
            r == Some(CheckMode::SAFE) <==> lower_bytes(s.spec_bytes()) == safe_word(),
            r == Some(CheckMode::UNSAFE) <==> lower_bytes(s.spec_bytes()) == unsafe_word(),
            r is None <==> (lower_bytes(s.spec_bytes()) != safe_word() && lower_bytes(
                s.spec_bytes(),
            ) != unsafe_word()),
    {
        let b = s.as_bytes();
        proof {
            assert(lower_bytes(s.spec_bytes()).len() == s.spec_bytes().len());
        }
        if b.len() == 4 {
            let ok = lower_at(b, 0) == 115 && lower_at(b, 1) == 97 && lower_at(b, 2) == 102
                && lower_at(b, 3) == 101;
            if ok {
                proof {
                    assert(lower_bytes(s.spec_bytes()) =~= safe_word());
                }
                Some(CheckMode::SAFE)
            } else {
                proof {
                    assert(lower_bytes(s.spec_bytes()) != safe_word());
                    assert(lower_bytes(s.spec_bytes()).len() != unsafe_word().len());
                }
                None
            }
        } else if b.len() == 6 {
            let ok = lower_at(b, 0) == 117 && lower_at(b, 1) == 110 && lower_at(b, 2) == 115
                && lower_at(b, 3) == 97 && lower_at(b, 4) == 102 && lower_at(b, 5) == 101;
            if ok {
                proof {
                    assert(lower_bytes(s.spec_bytes()) =~= unsafe_word());
                }
                Some(CheckMode::UNSAFE)
            } else {
                proof {
                    assert(lower_bytes(s.spec_bytes()) != unsafe_word());
                    assert(lower_bytes(s.spec_bytes()).len() != safe_word().len());
                }
                None
            }
        } else {
            proof {
                assert(lower_bytes(s.spec_bytes()).len() != safe_word().len());
                assert(lower_bytes(s.spec_bytes()).len() != unsafe_word().len());
            }
            None
        }
    }

    /// The mode's canonical lower-case name.
    pub open spec fn spec_name(self) -> Seq<char> {
        match self {
            CheckMode::SAFE => "safe"@,
            CheckMode::UNSAFE => "unsafe"@,
        }
    }

    /// The mode's canonical lower-case name.
    pub fn as_str(&self) -> (r: &'static str)
        ensures
            r@ == self.spec_name(),
    {
        match self {
            CheckMode::SAFE => "safe",
            CheckMode::UNSAFE => "unsafe",
        }
    }
}

/// Reads one byte of a string's UTF-8 spelling, lowercased.
fn lower_at(b: &[u8], i: usize) -> (r: u8)
    requires
        i < b@.len(),
    ensures
        r == lower_byte(b@[i as int]),
{
    let x = b[i];
    if x >= 65 && x <= 90 {
        x + 32
    } else {
        x
    }
}

/// What one primitive's gate asserts to be zero, on one row of a
/// witness: the result slot of the output region minus the primitive's
/// formula, or the direct assertion of a comparison primitive. `in0`,
/// `in1` and `outc` are the arena indices of the columns it reads.
pub open spec fn gate_value(
    op: BaseOp,
    in0: int,
    in1: int,
    outc: int,
    asn: Assignment,
    row: int,
) -> int {
    let b = asn.aval(in1, row);
    let a = if op.spec_num_inputs() == 2 {
        asn.aval(in0, row)
    } else {
        0
    };
    let slot = asn.aval(outc, row);
    let m = if op.spec_accumulates() {
        asn.aval(outc, wrap_row(row, -1, asn.rows as int))
    } else {
        slot
    };
    match op {
        BaseOp::IsBoolean => mul_mod(b, sub_mod(b, 1)),
        BaseOp::IsZero => b,
        _ => sub_mod(slot, op.spec_f(a, b, m)),
    }
}

/// The selector map gate configuration builds is injective in both
/// directions: no two entries share a (primitive, column) key, and no two
/// share a selector — the key space structurally rules out a duplicate
/// gate per (primitive, column) pair.
pub proof fn lemma_selector_map_injective(entries: Seq<SelEntry>, base: int, w: int)
    requires
        w >= 0,
        0 <= base,
        base + NUM_BASE_OPS * w <= usize::MAX,
        entries.len() == NUM_BASE_OPS * w,
        forall|k: int|
            0 <= k < entries.len() ==> #[trigger] entries[k] == (SelEntry {
                op: catalog_at(k % (NUM_BASE_OPS as int)),
                col: (k / (NUM_BASE_OPS as int)) as usize,
                sel: (base + k) as usize,
            }),
    ensures
        forall|k1: int, k2: int|
            #![trigger entries[k1], entries[k2]]
            0 <= k1 < entries.len() && 0 <= k2 < entries.len() && k1 != k2 ==> entries[k1].sel
                != entries[k2].sel && !(entries[k1].op == entries[k2].op && entries[k1].col
                == entries[k2].col),
{
    assert forall|k1: int, k2: int|
        #![trigger entries[k1], entries[k2]]
        0 <= k1 < entries.len() && 0 <= k2 < entries.len() && k1 != k2 implies entries[k1].sel
        != entries[k2].sel && !(entries[k1].op == entries[k2].op && entries[k1].col
        == entries[k2].col) by {
        let n = NUM_BASE_OPS as int;
        vstd::arithmetic::div_mod::lemma_fundamental_div_mod(k1, n);
        vstd::arithmetic::div_mod::lemma_fundamental_div_mod(k2, n);
        vstd::arithmetic::div_mod::lemma_mod_bound(k1, n);
        vstd::arithmetic::div_mod::lemma_mod_bound(k2, n);
        if entries[k1].op == entries[k2].op && entries[k1].col == entries[k2].col {
            assert(catalog_at(k1 % n) == catalog_at(k2 % n));
            assert(k1 % n == k2 % n);
            assert(k1 / n == k2 / n);
            assert(k1 == n * (k1 / n) + k1 % n);
            assert(k2 == n * (k2 / n) + k2 % n);
            assert(false);
        }
    }
}

/// The boolean gate accepts every committed zero and one: on any witness
/// whose constrained cell holds 0 or 1, the value `q * (q - 1)` that the
/// gate asserts to be zero indeed vanishes. A committed 2 instead gives
/// `2 * 1 == 2`, violating the constraint.
pub proof fn lemma_boolean_gate_accepts(
    in0: int,
    in1: int,
    outc: int,
    asn: Assignment,
    row: int,
)
    requires
        asn.aval(in1, row) == 0 || asn.aval(in1, row) == 1,
    ensures
        gate_value(BaseOp::IsBoolean, in0, in1, outc, asn, row) == 0,
{
    let m = crate::felt::MODULUS as int;
    let b = asn.aval(in1, row);
    vstd::arithmetic::div_mod::lemma_small_mod(0nat, crate::felt::MODULUS as nat);
    vstd::arithmetic::div_mod::lemma_mod_self_0(m);
    if b == 0 {
        assert(0 * crate::felt::neg_mod(1) == 0) by (nonlinear_arith);
        assert(crate::felt::sub_mod(0, 1) == (m - 1) % m);
        assert(0 * ((m - 1) % m) == 0) by (nonlinear_arith);
    } else {
        assert(crate::felt::sub_mod(1, 1) == m % m);
        assert(1 * 0 == 0) by (nonlinear_arith);
    }
}

/// The polynomial evaluates, on every witness tall enough and on every
/// row, to exactly what the primitive's gate asserts.
pub open spec fn poly_matches(poly: Expr, op: BaseOp, in0: int, in1: int, outc: int) -> bool {
    forall|asn: Assignment, row: int|
        asn.wf() && 0 <= row < asn.rows && 0 <= in0 < asn.spec_num_cols() && 0 <= in1
            < asn.spec_num_cols() && 0 <= outc < asn.spec_num_cols()
            ==> #[trigger] eval_expr(poly, asn, row) == gate_value(op, in0, in1, outc, asn, row)
}

/// Builds the constraint polynomial of one primitive over one column: the
/// inputs are queried at the current row, the output region per the
/// primitive's offset descriptor, and the result slot must equal the
/// primitive's formula.
fn build_gate_poly(
    op: &BaseOp,
    col: usize,
    in0: &ColHandle,
    in1: &ColHandle,
    outh: &ColHandle,
) -> (poly: Expr)
    requires
        in0.wf() && in0 is Advice,
        in1.wf() && in1 is Advice,
        outh.wf() && outh is Advice,
        col < outh.spec_num_cols(),
        in0.spec_num_cols() == outh.spec_num_cols(),
        in1.spec_num_cols() == outh.spec_num_cols(),
        in0.spec_col_size() == outh.spec_col_size(),
        in1.spec_col_size() == outh.spec_col_size(),
        (col as int) * (outh.spec_col_size() as int) <= usize::MAX,
    ensures
        forall|nc: nat, ns: nat|
            in0.spec_col(col as int) < nc && in1.spec_col(col as int) < nc && outh.spec_col(
                col as int,
            ) < nc ==> #[trigger] poly.wf(nc, ns),
        poly_matches(
            poly,
            *op,
            in0.spec_col(col as int),
            in1.spec_col(col as int),
            outh.spec_col(col as int),
        ),
{
    let cs = outh.col_size();
    proof {
        assert((col as int) * (cs as int) == (cs as int) * (col as int)) by (nonlinear_arith);
        lemma_div_multiples_vanish(col as int, cs as int);
    }
    let idx = col * cs;
    let ghost c0 = in0.spec_col(col as int);
    let ghost c1 = in1.spec_col(col as int);
    let ghost co = outh.spec_col(col as int);
    // The two input slots at the current row; an arity-1 primitive reads
    // only the second, the first collapsing to a zero constant.
    let q1 = pop_one(in1.query_rng(0, idx, 1));
    let ghost gq1 = q1;
    let q0 = if op.num_inputs() == 2 {
        pop_one(in0.query_rng(0, idx, 1))
    } else {
        Expr::Constant(Felt::zero())
    };
    let ghost gq0 = q0;
    let poly = match op {
        BaseOp::IsBoolean => {
            let q1b = pop_one(in1.query_rng(0, idx, 1));
            e_prod(q1, e_sum(q1b, e_neg(Expr::Constant(Felt::one()))))
        },
        BaseOp::IsZero => q1,
        _ => {
            let (rot, rng) = op.query_offset_rng();
            let mut outs = outh.query_rng(rot, idx, rng);
            let slot = pop_one_of(&mut outs, op.constraint_idx());
            let ghost gslot = slot;
            let m = if op.accumulates_exec() {
                pop_one_of(&mut outs, 0)
            } else {
                pop_one(outh.query_rng(0, idx, 1))
            };
            let ghost gm = m;
            let res = match op {
                BaseOp::Add => e_sum(q0, q1),
                BaseOp::Sub => e_sum(q0, e_neg(q1)),
                BaseOp::Mult => e_prod(q0, q1),
                BaseOp::Dot => e_sum(e_prod(q0, q1), m),
                BaseOp::Sum => e_sum(q1, m),
                BaseOp::CumProd => e_prod(q1, m),
                BaseOp::Neg => e_neg(q1),
                _ => q1,
            };
            proof {
                assert(gslot == (Expr::Advice { col: co as usize, rot: 0i64 }));
                if op.spec_accumulates() {
                    assert(gm == (Expr::Advice { col: co as usize, rot: -1i64 }));
                } else {
                    assert(gm == (Expr::Advice { col: co as usize, rot: 0i64 }));
                }
            }
            e_sum(slot, e_neg(res))
        },
    };
    proof {
        assert forall|asn: Assignment, row: int|
            asn.wf() && 0 <= row < asn.rows && 0 <= c0 < asn.spec_num_cols() && 0 <= c1
                < asn.spec_num_cols() && 0 <= co < asn.spec_num_cols() implies #[trigger] eval_expr(
            poly,
            asn,
            row,
        ) == gate_value(*op, c0, c1, co, asn, row) by {
            let n = asn.rows as int;
            assert(wrap_row(row, 0, n) == row);
            assert(eval_expr(gq1, asn, row) == asn.aval(c1, row));
            if op.spec_num_inputs() == 2 {
                assert(eval_expr(gq0, asn, row) == asn.aval(c0, row));
            } else {
                assert(eval_expr(gq0, asn, row) == 0);
            }
            assert(eval_expr(
                Expr::Advice { col: co as usize, rot: 0i64 },
                asn,
                row,
            ) == asn.aval(co, row));
            assert(eval_expr(
                Expr::Advice { col: co as usize, rot: -1i64 },
                asn,
                row,
            ) == asn.aval(co, wrap_row(row, -1, n)));
        }
    }
    poly
}

/// A sum node, together with what it evaluates to.
fn e_sum(a: Expr, b: Expr) -> (r: Expr)
    ensures
        forall|nc: nat, ns: nat| a.wf(nc, ns) && b.wf(nc, ns) ==> #[trigger] r.wf(nc, ns),
        forall|asn: Assignment, row: int| #[trigger]
            eval_expr(r, asn, row) == crate::felt::add_mod(
                eval_expr(a, asn, row),
                eval_expr(b, asn, row),
            ),
{
    Expr::Sum(Box::new(a), Box::new(b))
}

/// A product node, together with what it evaluates to.
fn e_prod(a: Expr, b: Expr) -> (r: Expr)
    ensures
        forall|nc: nat, ns: nat| a.wf(nc, ns) && b.wf(nc, ns) ==> #[trigger] r.wf(nc, ns),
        forall|asn: Assignment, row: int| #[trigger]
            eval_expr(r, asn, row) == mul_mod(eval_expr(a, asn, row), eval_expr(b, asn, row)),
{
    Expr::Product(Box::new(a), Box::new(b))
}

/// A negation node, together with what it evaluates to.
fn e_neg(a: Expr) -> (r: Expr)
    ensures
        forall|nc: nat, ns: nat| a.wf(nc, ns) ==> #[trigger] r.wf(nc, ns),
        forall|asn: Assignment, row: int| #[trigger]
            eval_expr(r, asn, row) == crate::felt::neg_mod(eval_expr(a, asn, row)),
{
    Expr::Negated(Box::new(a))
}

/// One allocated primitive selector: the key (operation, column) maps to
/// an arena selector index. The key space guarantees no duplicate gate
/// per (operation, column) pair.
#[derive(Clone, Copy, Debug, PartialEq, Eq, Structural)]
pub struct SelEntry {
    /// The primitive the selector gates.
    pub op: BaseOp,
    /// The column the selector gates.
    pub col: usize,
    /// The arena index of the selector.
    pub sel: usize,
}

/// One allocated lookup gating selector, keyed by (identity, column).
#[derive(Clone, Copy, Debug, PartialEq, Eq, Structural)]
pub struct LookupSelEntry {
    /// The nonlinear identity the selector gates.
    pub op: crate::nl::LookupOp,
    /// The column the selector gates.
    pub col: usize,
    /// The arena index of the aggregate selector.
    pub sel: usize,
}

/// One registered lookup table, keyed by its identity.
pub struct TableEntry {
    /// The identity.
    pub op: crate::nl::LookupOp,
    /// Its table.
    pub table: crate::table::Table,
}

/// The configuration aggregate: every column handle, selector, and table
/// of one circuit, plus the consistency-check mode.
pub struct BaseConfig {
    /// The two input column handles of the arithmetic gates.
    pub inputs: Vec<ColHandle>,
    /// The handle reserved for lookup inputs, bound on the first
    /// successful lookup configuration.
    pub lookup_input: ColHandle,
    /// The output column handle of the arithmetic gates.
    pub output: ColHandle,
    /// The handle reserved for lookup outputs, bound on the first
    /// successful lookup configuration.
    pub lookup_output: ColHandle,
    /// One selector per (primitive, column) pair.
    pub selectors: Vec<SelEntry>,
    /// One aggregate selector per (identity, column) pair.
    pub lookup_selectors: Vec<LookupSelEntry>,
    /// The table registry: one table per registered identity.
    pub tables: Vec<TableEntry>,
    /// Whether witness layout re-checks claimed outputs.
    pub check_mode: CheckMode,
}

impl BaseConfig {
    /// The registry already holds a table for this identity.
    pub open spec fn tables_contain(self, op: crate::nl::LookupOp) -> bool {
        exists|i: int| 0 <= i < self.tables@.len() && (#[trigger] self.tables@[i]).op == op
    }

    /// A placeholder configuration for circuit-cost estimation: dummy
    /// handles of the given height, no selectors, no tables.
    pub fn dummy(col_size: usize) -> (cfg: BaseConfig)
        requires
            col_size >= 1,
        ensures
            cfg.inputs@.len() == 2,
            cfg.inputs@[0] == (ColHandle::Dummy { num_cols: 1usize, col_size }),
            cfg.inputs@[1] == (ColHandle::Dummy { num_cols: 1usize, col_size }),
            cfg.lookup_input == (ColHandle::Dummy { num_cols: 1usize, col_size }),
            cfg.output == (ColHandle::Dummy { num_cols: 1usize, col_size }),
            cfg.lookup_output == (ColHandle::Dummy { num_cols: 1usize, col_size }),
            cfg.selectors@.len() == 0,
            cfg.lookup_selectors@.len() == 0,
            cfg.tables@.len() == 0,
            cfg.check_mode == CheckMode::SAFE,
    {
        let mut inputs: Vec<ColHandle> = Vec::new();
        inputs.push(ColHandle::dummy(col_size));
        inputs.push(ColHandle::dummy(col_size));
        BaseConfig {
            inputs,
            lookup_input: ColHandle::dummy(col_size),
            output: ColHandle::dummy(col_size),
            lookup_output: ColHandle::dummy(col_size),
            selectors: Vec::new(),
            lookup_selectors: Vec::new(),
            tables: Vec::new(),
            check_mode: CheckMode::SAFE,
        }
    }

    /// Compiles the whole primitive catalog against a pair of input
    /// handles and an output handle: exactly one selector and one gate per
    /// (primitive, column) pair, so `NUM_BASE_OPS * W` of each for output
    /// width `W`. All three handles must report the same column count and
    /// height; a mismatch is a malformed circuit topology, rejected at
    /// compile time.
    #[verifier::loop_isolation(false)]
    pub fn configure(
        sys: &mut System,
        inputs: &[ColHandle],
        output: &ColHandle,
        check_mode: CheckMode,
    ) -> (cfg: BaseConfig)
        requires
            old(sys).wf(),
            inputs@.len() == 2,
            inputs@[0].wf() && inputs@[0] is Advice && inputs@[0].in_sys(*old(sys)),
            inputs@[1].wf() && inputs@[1] is Advice && inputs@[1].in_sys(*old(sys)),
            output.wf() && *output is Advice && output.in_sys(*old(sys)),
            inputs@[0].spec_num_cols() == output.spec_num_cols(),
            inputs@[1].spec_num_cols() == output.spec_num_cols(),
            inputs@[0].spec_col_size() == output.spec_col_size(),
            inputs@[1].spec_col_size() == output.spec_col_size(),
            (output.spec_num_cols() as int) * (output.spec_col_size() as int) <= usize::MAX,
            old(sys).num_selectors + NUM_BASE_OPS * output.spec_num_cols() <= usize::MAX,
        ensures
            final(sys).wf(),
            cfg.inputs@ =~= inputs@,
            cfg.output == *output,
            cfg.lookup_input is Empty,
            cfg.lookup_output is Empty,
            cfg.tables@.len() == 0,
            cfg.lookup_selectors@.len() == 0,
            cfg.check_mode == check_mode,
            // Exactly one selector per (primitive, column) pair, in
            // catalog order within each column, with consecutive fresh
            // arena indices.
            cfg.selectors@.len() == NUM_BASE_OPS * output.spec_num_cols(),
            forall|k: int|
                0 <= k < cfg.selectors@.len() ==> #[trigger] cfg.selectors@[k] == (SelEntry {
                    op: catalog_at(k % (NUM_BASE_OPS as int)),
                    col: (k / (NUM_BASE_OPS as int)) as usize,
                    sel: (old(sys).num_selectors + k) as usize,
                }),
            final(sys).num_selectors == old(sys).num_selectors + NUM_BASE_OPS
                * output.spec_num_cols(),
            // Exactly one gate per selector, asserting the primitive's
            // formula on its column.
            final(sys).gates@.len() == old(sys).gates@.len() + NUM_BASE_OPS
                * output.spec_num_cols(),
            forall|k: int|
                0 <= k < NUM_BASE_OPS * output.spec_num_cols()
                    ==> (#[trigger] final(sys).gates@[old(sys).gates@.len() + k]).selector
                    == old(sys).num_selectors + k,
            forall|k: int|
                0 <= k < NUM_BASE_OPS * output.spec_num_cols() ==> poly_matches(
                    (#[trigger] final(sys).gates@[old(sys).gates@.len() + k]).poly,
                    catalog_at(k % (NUM_BASE_OPS as int)),
                    inputs@[0].spec_col(k / (NUM_BASE_OPS as int)),
                    inputs@[1].spec_col(k / (NUM_BASE_OPS as int)),
                    output.spec_col(k / (NUM_BASE_OPS as int)),
                ),
            forall|k: int|
                0 <= k < old(sys).gates@.len()
                    ==> #[trigger] final(sys).gates@[k] == old(sys).gates@[k],
            final(sys).num_advice == old(sys).num_advice,
            final(sys).lookups == old(sys).lookups,
            final(sys).table_cols == old(sys).table_cols,
    {
        let ghost base = sys.num_selectors as int;
        let ghost g0 = sys.gates@.len() as int;
        let w = output.num_cols();
        let in0 = &inputs[0];
        let in1 = &inputs[1];
        let mut selectors: Vec<SelEntry> = Vec::new();
        let mut col: usize = 0;
        while col < w
            invariant
                col <= w,
                w == output.spec_num_cols(),
                sys.wf(),
                inputs@.len() == 2,
                inputs@[0].wf() && inputs@[0] is Advice && inputs@[0].in_sys(*sys),
                inputs@[1].wf() && inputs@[1] is Advice && inputs@[1].in_sys(*sys),
                output.wf() && *output is Advice && output.in_sys(*sys),
                in0 == &inputs@[0],
                in1 == &inputs@[1],
                inputs@[0].spec_num_cols() == output.spec_num_cols(),
                inputs@[1].spec_num_cols() == output.spec_num_cols(),
                inputs@[0].spec_col_size() == output.spec_col_size(),
                inputs@[1].spec_col_size() == output.spec_col_size(),
                (output.spec_num_cols() as int) * (output.spec_col_size() as int) <= usize::MAX,
                base + NUM_BASE_OPS * w <= usize::MAX,
                selectors@.len() == NUM_BASE_OPS * col,
                sys.num_selectors == base + NUM_BASE_OPS * col,
                sys.gates@.len() == g0 + NUM_BASE_OPS * col,
                forall|k: int|
                    0 <= k < selectors@.len() ==> #[trigger] selectors@[k] == (SelEntry {
                        op: catalog_at(k % (NUM_BASE_OPS as int)),
                        col: (k / (NUM_BASE_OPS as int)) as usize,
                        sel: (base + k) as usize,
                    }),
                forall|k: int|
                    0 <= k < NUM_BASE_OPS * col ==> (#[trigger] sys.gates@[g0 + k]).selector == base
                        + k,
                forall|k: int|
                    0 <= k < NUM_BASE_OPS * col ==> poly_matches(
                        (#[trigger] sys.gates@[g0 + k]).poly,
                        catalog_at(k % (NUM_BASE_OPS as int)),
                        inputs@[0].spec_col(k / (NUM_BASE_OPS as int)),
                        inputs@[1].spec_col(k / (NUM_BASE_OPS as int)),
                        output.spec_col(k / (NUM_BASE_OPS as int)),
                    ),
                forall|k: int| 0 <= k < g0 ==> #[trigger] sys.gates@[k] == old(sys).gates@[k],
                sys.num_advice == old(sys).num_advice,
                sys.lookups == old(sys).lookups,
                sys.table_cols == old(sys).table_cols,
            decreases w - col,
        {
            proof {
                assert((col as int) * (output.spec_col_size() as int) <= usize::MAX)
                    by (nonlinear_arith)
                    requires
                        0 <= col < w,
                        0 <= output.spec_col_size(),
                        (w as int) * (output.spec_col_size() as int) <= usize::MAX,
                ;
                assert(NUM_BASE_OPS * (col + 1) == NUM_BASE_OPS * col + NUM_BASE_OPS)
                    by (nonlinear_arith);
                assert(NUM_BASE_OPS * (col + 1) <= NUM_BASE_OPS * w) by (nonlinear_arith)
                    requires
                        0 <= col < w,
                ;
            }
            let mut j: usize = 0;
            while j < NUM_BASE_OPS
                invariant
                    j <= NUM_BASE_OPS,
                    col < w,
                    w == output.spec_num_cols(),
                    sys.wf(),
                    inputs@.len() == 2,
                    inputs@[0].wf() && inputs@[0] is Advice && inputs@[0].in_sys(*sys),
                    inputs@[1].wf() && inputs@[1] is Advice && inputs@[1].in_sys(*sys),
                    output.wf() && *output is Advice && output.in_sys(*sys),
                    in0 == &inputs@[0],
                    in1 == &inputs@[1],
                    inputs@[0].spec_num_cols() == output.spec_num_cols(),
                    inputs@[1].spec_num_cols() == output.spec_num_cols(),
                    inputs@[0].spec_col_size() == output.spec_col_size(),
                    inputs@[1].spec_col_size() == output.spec_col_size(),
                    (col as int) * (output.spec_col_size() as int) <= usize::MAX,
                    base + NUM_BASE_OPS * w <= usize::MAX,
                    NUM_BASE_OPS * col + NUM_BASE_OPS <= NUM_BASE_OPS * w,
                    selectors@.len() == NUM_BASE_OPS * col + j,
                    sys.num_selectors == base + NUM_BASE_OPS * col + j,
                    sys.gates@.len() == g0 + NUM_BASE_OPS * col + j,
                    forall|k: int|
                        0 <= k < selectors@.len() ==> #[trigger] selectors@[k] == (SelEntry {
                            op: catalog_at(k % (NUM_BASE_OPS as int)),
                            col: (k / (NUM_BASE_OPS as int)) as usize,
                            sel: (base + k) as usize,
                        }),
                    forall|k: int|
                        0 <= k < NUM_BASE_OPS * col + j ==> (#[trigger] sys.gates@[g0 + k]).selector
                            == base + k,
                    forall|k: int|
                        0 <= k < NUM_BASE_OPS * col + j ==> poly_matches(
                            (#[trigger] sys.gates@[g0 + k]).poly,
                            catalog_at(k % (NUM_BASE_OPS as int)),
                            inputs@[0].spec_col(k / (NUM_BASE_OPS as int)),
                            inputs@[1].spec_col(k / (NUM_BASE_OPS as int)),
                            output.spec_col(k / (NUM_BASE_OPS as int)),
                        ),
                    forall|k: int| 0 <= k < g0 ==> #[trigger] sys.gates@[k] == old(sys).gates@[k],
                    sys.num_advice == old(sys).num_advice,
                    sys.lookups == old(sys).lookups,
                    sys.table_cols == old(sys).table_cols,
                decreases NUM_BASE_OPS - j,
            {
                let ghost sys_pre = *sys;
                let op = base_op_at(j);
                let s = sys.selector();
                let poly = build_gate_poly(&op, col, in0, in1, output);
                let ghost gpoly = poly;
                sys.create_gate(s, poly);
                selectors.push(SelEntry { op, col, sel: s });
                proof {
                    let k: int = NUM_BASE_OPS * col + j;
                    assert(k == (col as int) * (NUM_BASE_OPS as int) + j);
                    vstd::arithmetic::div_mod::lemma_fundamental_div_mod_converse_mod(
                        k,
                        NUM_BASE_OPS as int,
                        col as int,
                        j as int,
                    );
                    vstd::arithmetic::div_mod::lemma_fundamental_div_mod_converse_div(
                        k,
                        NUM_BASE_OPS as int,
                        col as int,
                        j as int,
                    );
                    assert(sys.gates@.len() == g0 + k + 1);
                    assert(sys.gates@ == sys_pre.gates@.push(
                        crate::system::Gate { selector: s, poly: gpoly },
                    ));
                    assert(sys_pre.gates@.len() == g0 + k);
                    let ghost newg = crate::system::Gate { selector: s, poly: gpoly };
                    assert forall|k2: int| 0 <= k2 < NUM_BASE_OPS * col + j implies
                        #[trigger] sys.gates@[g0 + k2] == sys_pre.gates@[g0 + k2] by {
                        vstd::seq::axiom_seq_push_index_different::<crate::system::Gate>(
                            sys_pre.gates@,
                            newg,
                            g0 + k2,
                        );
                        assert(sys.gates@[g0 + k2] == sys_pre.gates@.push(newg)[g0 + k2]);
                    }
                    assert(sys.gates@[g0 + k] == (crate::system::Gate { selector: s, poly: gpoly }));
                    assert(selectors@[k] == (SelEntry { op, col, sel: s }));
                    assert forall|k2: int| 0 <= k2 < NUM_BASE_OPS * col + j + 1 implies (
                    #[trigger] sys.gates@[g0 + k2]).selector == base + k2 by {
                        if k2 == k {
                            assert(sys.gates@[g0 + k2].selector == s);
                        } else {
                            assert(sys.gates@[g0 + k2] == sys_pre.gates@[g0 + k2]);
                        }
                    }
                    assert forall|k2: int| 0 <= k2 < NUM_BASE_OPS * col + j + 1 implies poly_matches(
                        (#[trigger] sys.gates@[g0 + k2]).poly,
                        catalog_at(k2 % (NUM_BASE_OPS as int)),
                        inputs@[0].spec_col(k2 / (NUM_BASE_OPS as int)),
                        inputs@[1].spec_col(k2 / (NUM_BASE_OPS as int)),
                        output.spec_col(k2 / (NUM_BASE_OPS as int)),
                    ) by {
                        if k2 != k {
                            assert(sys.gates@[g0 + k2] == sys_pre.gates@[g0 + k2]);
                        }
                        if k2 == k {
                            assert(sys.gates@[g0 + k2].poly == gpoly);
                            assert(catalog_at(k2 % (NUM_BASE_OPS as int)) == op);
                            assert(poly_matches(
                                gpoly,
                                op,
                                inputs@[0].spec_col(col as int),
                                inputs@[1].spec_col(col as int),
                                output.spec_col(col as int),
                            ));
                        }
                    }
                    assert forall|k2: int| 0 <= k2 < NUM_BASE_OPS * col + j + 1 implies
                        #[trigger] selectors@[k2] == (SelEntry {
                            op: catalog_at(k2 % (NUM_BASE_OPS as int)),
                            col: (k2 / (NUM_BASE_OPS as int)) as usize,
                            sel: (base + k2) as usize,
                        }) by {
                        if k2 == k {
                            assert(selectors@[k2] == (SelEntry { op, col, sel: s }));
                        }
                    }
                }
                j = j + 1;
            }
            col = col + 1;
        }
        let mut cfg_inputs: Vec<ColHandle> = Vec::new();
        cfg_inputs.push(*in0);
        cfg_inputs.push(*in1);
        BaseConfig {
            inputs: cfg_inputs,
            lookup_input: ColHandle::Empty,
            output: *output,
            lookup_output: ColHandle::Empty,
            selectors,
            lookup_selectors: Vec::new(),
            tables: Vec::new(),
            check_mode,
        }
    }
}

/// A lookup argument wired for one column of the lookup-input handle: one
/// gated (input, output) pair per component table. On every row, each
/// input entry contributes the column's cell where its flag is active and
/// the default input elsewhere, and likewise each output entry.
pub open spec fn lookup_wired(
    la: crate::system::LookupArg,
    t: crate::table::Table,
    in_col: int,
    out_col: int,
    qbase: int,
    d_in: int,
    d_out: int,
) -> bool {
    let nc = t.spec_ncomp();
    &&& la.pairs@.len() == 2 * nc
    &&& forall|p: int| 0 <= p < nc ==> (#[trigger] la.pairs@[p]).1 == t.table_inputs@[p]
    &&& forall|p: int| nc <= p < 2 * nc ==> (#[trigger] la.pairs@[p]).1 == t.table_outputs@[p - nc]
    &&& forall|p: int, asn: Assignment, row: int|
        0 <= p < nc && asn.wf() && 0 <= row < asn.rows && in_col < asn.spec_num_cols()
            ==> #[trigger] eval_expr(la.pairs@[p].0, asn, row) == (if asn.sel_on(qbase + p, row) {
            asn.aval(in_col, row)
        } else {
            d_in
        })
    &&& forall|p: int, asn: Assignment, row: int|
        nc <= p < 2 * nc && asn.wf() && 0 <= row < asn.rows && out_col < asn.spec_num_cols()
            ==> #[trigger] eval_expr(la.pairs@[p].0, asn, row) == (if asn.sel_on(
            qbase + (p - nc),
            row,
        ) {
            asn.aval(out_col, row)
        } else {
            d_out
        })
}

/// The auxiliary gate of one lookup column: its polynomial is the product
/// of the column's component gating flags, one where all are active and
/// zero elsewhere. (This asserts the conjunction of the flags, as the
/// engine has always done; it is kept as observed.)
pub open spec fn conj_gate_ok(g: crate::system::Gate, qbase: int, nc: int, agg: int) -> bool {
    &&& g.selector == agg
    &&& forall|asn: Assignment, row: int| #[trigger]
        eval_expr(g.poly, asn, row) == (if (forall|i: int|
            0 <= i < nc ==> #[trigger] asn.sel_on(qbase + i, row)) {
            1int
        } else {
            0int
        })
}

/// What a gated lookup cell contributes mod the field prime: the gating
/// flag times the cell plus the complement times the default.
pub proof fn lemma_gated_eval(sv: int, a: int, d: int)
    requires
        sv == 0 || sv == 1,
        0 <= a < crate::felt::MODULUS,
        0 <= d < crate::felt::MODULUS,
    ensures
        crate::felt::add_mod(
            mul_mod(sv, a),
            mul_mod(crate::felt::add_mod(1, crate::felt::neg_mod(sv)), d),
        ) == if sv == 1 {
            a
        } else {
            d
        },
{
    let m = crate::felt::MODULUS as int;
    vstd::arithmetic::div_mod::lemma_small_mod(a as nat, crate::felt::MODULUS as nat);
    vstd::arithmetic::div_mod::lemma_small_mod(d as nat, crate::felt::MODULUS as nat);
    vstd::arithmetic::div_mod::lemma_small_mod(0nat, crate::felt::MODULUS as nat);
    vstd::arithmetic::div_mod::lemma_small_mod(1nat, crate::felt::MODULUS as nat);
    vstd::arithmetic::div_mod::lemma_mod_self_0(m);
    assert(1 * a == a) by (nonlinear_arith);
    assert(1 * d == d) by (nonlinear_arith);
    assert(0 * a == 0) by (nonlinear_arith);
    assert(0 * d == 0) by (nonlinear_arith);
    if sv == 1 {
        assert(mul_mod(sv, a) == a);
        assert(crate::felt::add_mod(1, crate::felt::neg_mod(sv)) == m % m);
        assert(mul_mod(0, d) == 0);
        assert(crate::felt::add_mod(a, 0) == a);
    } else {
        assert(mul_mod(sv, a) == 0);
        assert(crate::felt::add_mod(1, crate::felt::neg_mod(sv)) == 1);
        assert(mul_mod(1, d) == d);
        assert(crate::felt::add_mod(0, d) == d);
    }
}

/// One gated cell of a lookup argument: where the flag is active the
/// committed cell itself, elsewhere the fixed default.
fn gated_expr(sel: usize, col: usize, dflt: Felt) -> (e: Expr)
    requires
        dflt.wf(),
    ensures
        forall|nc: nat, ns: nat| col < nc && sel < ns ==> #[trigger] e.wf(nc, ns),
        forall|asn: Assignment, row: int|
            asn.wf() && 0 <= row < asn.rows && col < asn.spec_num_cols()
                ==> #[trigger] eval_expr(e, asn, row) == (if asn.sel_on(sel as int, row) {
                asn.aval(col as int, row)
            } else {
                dflt@
            }),
{
    let e = e_sum(
        e_prod(Expr::Selector(sel), Expr::Advice { col, rot: 0 }),
        e_prod(
            e_sum(Expr::Constant(Felt::one()), e_neg(Expr::Selector(sel))),
            Expr::Constant(dflt),
        ),
    );
    proof {
        assert forall|asn: Assignment, row: int|
            asn.wf() && 0 <= row < asn.rows && col < asn.spec_num_cols() implies #[trigger] eval_expr(
            e,
            asn,
            row,
        ) == (if asn.sel_on(sel as int, row) {
            asn.aval(col as int, row)
        } else {
            dflt@
        }) by {
            let sv = eval_expr(Expr::Selector(sel), asn, row);
            let a = eval_expr(Expr::Advice { col, rot: 0i64 }, asn, row);
            assert(wrap_row(row, 0, asn.rows as int) == row);
            assert(a == asn.aval(col as int, row));
            assert(0 <= a < crate::felt::MODULUS);
            lemma_gated_eval(sv, a, dflt@);
        }
    }
    e
}

/// The conjunction of a run of gating flags: one where every flag is
/// active on the row, zero elsewhere.
fn conj_expr(sels: &Vec<usize>) -> (e: Expr)
    ensures
        forall|nc: nat, ns: nat|
            (forall|i: int| 0 <= i < sels@.len() ==> #[trigger] sels@[i] < ns) ==> #[trigger] e.wf(
                nc,
                ns,
            ),
        forall|asn: Assignment, row: int| #[trigger]
            eval_expr(e, asn, row) == (if (forall|i: int|
                0 <= i < sels@.len() ==> asn.sel_on(#[trigger] sels@[i] as int, row)) {
                1int
            } else {
                0int
            }),
{
    let mut e = Expr::Constant(Felt::one());
    let mut k: usize = 0;
    proof {
        vstd::arithmetic::div_mod::lemma_small_mod(1nat, crate::felt::MODULUS as nat);
        vstd::arithmetic::div_mod::lemma_small_mod(0nat, crate::felt::MODULUS as nat);
    }
    while k < sels.len()
        invariant
            k <= sels@.len(),
            forall|nc: nat, ns: nat|
                (forall|i: int| 0 <= i < k ==> #[trigger] sels@[i] < ns) ==> #[trigger] e.wf(
                    nc,
                    ns,
                ),
            forall|asn: Assignment, row: int| #[trigger]
                eval_expr(e, asn, row) == (if (forall|i: int|
                    0 <= i < k ==> asn.sel_on(#[trigger] sels@[i] as int, row)) {
                    1int
                } else {
                    0int
                }),
        decreases sels@.len() - k,
    {
        let ghost eprev = e;
        e = e_prod(e, Expr::Selector(sels[k]));
        proof {
            vstd::arithmetic::div_mod::lemma_small_mod(1nat, crate::felt::MODULUS as nat);
            assert forall|asn: Assignment, row: int| #[trigger]
                eval_expr(e, asn, row) == (if (forall|i: int|
                    0 <= i < k + 1 ==> asn.sel_on(#[trigger] sels@[i] as int, row)) {
                    1int
                } else {
                    0int
                }) by {
                let pv = eval_expr(eprev, asn, row);
                let sv = eval_expr(Expr::Selector(sels@[k as int]), asn, row);
                assert(eval_expr(e, asn, row) == mul_mod(pv, sv));
                if pv == 1 && sv == 1 {
                    assert(mul_mod(1, 1) == 1int % (crate::felt::MODULUS as int));
                    assert(eval_expr(e, asn, row) == 1);
                    assert(forall|i: int|
                        0 <= i < k + 1 ==> asn.sel_on(#[trigger] sels@[i] as int, row));
                } else {
                    assert(mul_mod(pv, sv) == 0) by {
                        assert(pv * sv == 0) by (nonlinear_arith)
                            requires
                                (pv == 0 || pv == 1) && (sv == 0 || sv == 1) && !(pv == 1 && sv
                                    == 1),
                        ;
                    }
                    if pv != 1 {
                        let ghost iw = choose|i: int|
                            0 <= i < k && !asn.sel_on(#[trigger] sels@[i] as int, row);
                        assert(0 <= iw < k + 1 && !asn.sel_on(sels@[iw] as int, row));
                    } else {
                        assert(!asn.sel_on(sels@[k as int] as int, row));
                    }
                }
            }
        }
        k = k + 1;
    }
    e
}

/// Takes the single expression a one-row query produced.
fn pop_one(v: Vec<Expr>) -> (e: Expr)
    requires
        v@.len() == 1,
    ensures
        e == v@[0],
{
    let mut v = v;
    match v.pop() {
        Some(e) => e,
        None => Expr::Constant(Felt { v: 0 }),
    }
}

/// Removes and returns the expression at one index of a query result.
fn pop_one_of(v: &mut Vec<Expr>, i: usize) -> (e: Expr)
    requires
        i < old(v)@.len(),
    ensures
        e == old(v)@[i as int],
        final(v)@ == old(v)@.remove(i as int),
{
    v.remove(i)
}

/// A freshly configured table is compatible with every table registered
/// before it: its codomain columns are fresh, and its domain columns are
/// either fresh too or donated by the registry's first table.
proof fn lemma_compat_new(
    told: crate::table::Table,
    tnew: crate::table::Table,
    sys_old: System,
    tables: Seq<TableEntry>,
    k: int,
)
    requires
        0 <= k < tables.len(),
        tables[k].table == told,
        told.wf(sys_old),
        tables[0].table.wf(sys_old),
        k != 0 ==> crate::table::tables_compat(told, tables[0].table) && crate::table::tables_compat(
            tables[0].table,
            told,
        ),
        tnew.table_inputs@.len() == tnew.spec_ncomp(),
        tnew.table_outputs@.len() == tnew.spec_ncomp(),
        tnew.spec_ncomp() >= 1,
        told.spec_ncomp() >= 1,
        tnew.table_outputs@[0] as int >= sys_old.table_cols@.len(),
        (tnew.table_inputs@[0] as int >= sys_old.table_cols@.len()) || (tnew.table_inputs@
            == tables[0].table.table_inputs@ && tnew.bits == tables[0].table.bits && tnew.logrows
            == tables[0].table.logrows),
    ensures
        crate::table::tables_compat(told, tnew),
        crate::table::tables_compat(tnew, told),
{
    let t0 = tables[0].table;
    assert(told.table_inputs@[0] + told.spec_ncomp() <= sys_old.table_cols@.len());
    assert(told.table_outputs@[0] + told.spec_ncomp() <= sys_old.table_cols@.len());
    if !(tnew.table_inputs@[0] as int >= sys_old.table_cols@.len()) {
        assert(t0.table_inputs@[0] + t0.spec_ncomp() <= sys_old.table_cols@.len());
        assert(tnew.spec_ncomp() == t0.spec_ncomp());
        if k == 0 {
            assert(told == t0);
        }
    }
}

impl BaseConfig {
    /// All registered tables are well formed, uniquely keyed by their
    /// identity, and relate pairwise by domain sharing or disjointness.
    pub open spec fn tables_wf(self, sys: System) -> bool {
        &&& forall|i: int|
            0 <= i < self.tables@.len() ==> {
                &&& (#[trigger] self.tables@[i]).table.wf(sys)
                &&& self.tables@[i].op == self.tables@[i].table.nonlinearity
            }
        &&& forall|i: int, j: int|
            #![trigger self.tables@[i], self.tables@[j]]
            0 <= i < self.tables@.len() && 0 <= j < self.tables@.len() && i != j ==> {
                &&& self.tables@[i].op != self.tables@[j].op
                &&& crate::table::tables_compat(self.tables@[i].table, self.tables@[j].table)
            }
    }

    /// Every registered table is either fully populated or untouched but
    /// for a possibly donated, already filled domain.
    pub open spec fn tables_state_ok(self, sys: System) -> bool {
        forall|i: int|
            0 <= i < self.tables@.len() ==> crate::table::table_state_ok(
                (#[trigger] self.tables@[i]).table,
                sys,
            )
    }

    /// Looks the identity up in the table registry.
    fn contains_table(&self, nl: &crate::nl::LookupOp) -> (b: bool)
        ensures
            b == self.tables_contain(*nl),
    {
        let mut i: usize = 0;
        while i < self.tables.len()
            invariant
                i <= self.tables@.len(),
                forall|k: int| 0 <= k < i ==> (#[trigger] self.tables@[k]).op != *nl,
            decreases self.tables@.len() - i,
        {
            if self.tables[i].op == *nl {
                assert(self.tables@[i as int].op == *nl);
                return true;
            }
            i = i + 1;
        }
        false
    }

    /// Wires one nonlinear identity into the circuit against an input and
    /// an output handle. A second call for an identity that already has a
    /// table is a no-op; a handle without committed storage is a fatal
    /// instantiation failure. Otherwise the identity's table is built —
    /// reusing the domain columns of an earlier table of the same shape —
    /// and, for every column of the input handle, one gating flag per
    /// component is allocated, a lookup argument over all gated component
    /// pairs is registered together with the auxiliary all-flags gate, and
    /// the shared lookup handles are bound if still unbound.
    #[verifier::loop_isolation(false)]
    pub fn configure_lookup(
        &mut self,
        sys: &mut System,
        input: &ColHandle,
        output: &ColHandle,
        bits: usize,
        logrows: usize,
        nl: &crate::nl::LookupOp,
    ) -> (r: Result<(), CircuitError>)
        requires
            old(sys).wf(),
            old(self).tables_wf(*old(sys)),
            old(self).tables_state_ok(*old(sys)),
            input.wf() && input.in_sys(*old(sys)),
            output.wf() && output.in_sys(*old(sys)),
            input.spec_num_cols() == output.spec_num_cols(),
            1 <= bits <= crate::table::MAX_TABLE_BITS,
            1 <= logrows <= crate::table::MAX_TABLE_BITS,
            old(sys).table_cols@.len() + 2 * crate::table::spec_num_components(
                bits as nat,
                logrows as nat,
            ) <= usize::MAX,
            old(sys).num_selectors + input.spec_num_cols() * (crate::table::spec_num_components(
                bits as nat,
                logrows as nat,
            ) + 1) <= usize::MAX,
        ensures
            final(sys).wf(),
            final(self).tables_wf(*final(sys)),
            final(self).tables_state_ok(*final(sys)),
            // Idempotence: an identity that already has a table leaves
            // everything untouched.
            old(self).tables_contain(*nl) ==> r is Ok && *final(self) == *old(self) && *final(sys)
                == *old(sys),
            // A handle without committed storage cannot be wired.
            !old(self).tables_contain(*nl) && !(input is Advice && output is Advice) ==> r
                == Err::<(), CircuitError>(CircuitError::LookupInstantiation) && *final(self)
                == *old(self) && *final(sys) == *old(sys),
            // Success: the identity gets a table, per-column wiring, and
            // the shared lookup handles are bound if they were not.
            !old(self).tables_contain(*nl) && input is Advice && output is Advice ==> {
                let t = final(self).tables@[old(self).tables@.len() as int].table;
                let nc = crate::table::spec_num_components(bits as nat, logrows as nat);
                let w = input.spec_num_cols() as int;
                let selbase = old(sys).num_selectors as int;
                &&& r is Ok
                &&& final(self).tables@.len() == old(self).tables@.len() + 1
                &&& forall|i: int|
                    0 <= i < old(self).tables@.len() ==> #[trigger] final(self).tables@[i] == old(
                        self,
                    ).tables@[i]
                &&& final(self).tables@[old(self).tables@.len() as int].op == *nl
                &&& t.nonlinearity == *nl
                &&& t.bits == bits
                &&& t.logrows == logrows
                &&& !t.is_assigned
                // Domain sharing: a compatible earlier table donates its
                // domain columns.
                &&& (old(self).tables@.len() > 0 && old(self).tables@[0].table.bits == bits && old(
                    self,
                ).tables@[0].table.logrows == logrows ==> t.table_inputs@ == old(
                    self,
                ).tables@[0].table.table_inputs@)
                &&& final(self).lookup_selectors@.len() == old(self).lookup_selectors@.len() + w
                &&& forall|i: int|
                    0 <= i < old(self).lookup_selectors@.len()
                        ==> #[trigger] final(self).lookup_selectors@[i] == old(
                        self,
                    ).lookup_selectors@[i]
                &&& forall|x: int|
                    0 <= x < w ==> #[trigger] final(self).lookup_selectors@[old(
                        self,
                    ).lookup_selectors@.len() + x] == (LookupSelEntry {
                        op: *nl,
                        col: x as usize,
                        sel: (selbase + x * (nc + 1) + nc) as usize,
                    })
                &&& final(sys).lookups@.len() == old(sys).lookups@.len() + w
                &&& forall|i: int|
                    0 <= i < old(sys).lookups@.len() ==> #[trigger] final(sys).lookups@[i] == old(
                        sys,
                    ).lookups@[i]
                &&& forall|x: int|
                    0 <= x < w ==> lookup_wired(
                        #[trigger] final(sys).lookups@[old(sys).lookups@.len() + x],
                        t,
                        input.spec_col(x),
                        output.spec_col(x),
                        selbase + x * (nc + 1),
                        0,
                        nl.spec_eval(0),
                    )
                &&& final(sys).gates@.len() == old(sys).gates@.len() + w
                &&& forall|i: int|
                    0 <= i < old(sys).gates@.len() ==> #[trigger] final(sys).gates@[i] == old(
                        sys,
                    ).gates@[i]
                &&& forall|x: int|
                    0 <= x < w ==> conj_gate_ok(
                        #[trigger] final(sys).gates@[old(sys).gates@.len() + x],
                        selbase + x * (nc + 1),
                        nc,
                        selbase + x * (nc + 1) + nc,
                    )
                &&& final(sys).num_selectors == selbase + w * (nc + 1)
                &&& final(self).lookup_input == (if old(self).lookup_input is Empty {
                    *input
                } else {
                    old(self).lookup_input
                })
                &&& final(self).lookup_output == (if old(self).lookup_output is Empty {
                    *output
                } else {
                    old(self).lookup_output
                })
                &&& final(self).inputs == old(self).inputs
                &&& final(self).output == old(self).output
                &&& final(self).selectors == old(self).selectors
                &&& final(self).check_mode == old(self).check_mode
                &&& final(sys).num_advice == old(sys).num_advice
                &&& final(sys).table_cols@.len() >= old(sys).table_cols@.len()
                &&& forall|j: int|
                    0 <= j < old(sys).table_cols@.len() ==> #[trigger] final(sys).table_cols@[j]
                        == old(sys).table_cols@[j]
            },
    {
        if self.contains_table(nl) {
            return Ok(());
        }
        if !(input.is_advice() && output.is_advice()) {
            return Err(CircuitError::LookupInstantiation);
        }
        proof {
            crate::table::lemma_components_cover(bits as nat, logrows as nat);
        }
        let shared: Option<&crate::table::Table> = if self.tables.len() > 0 {
            Some(&self.tables[0].table)
        } else {
            None
        };
        let table = crate::table::Table::configure(sys, bits, logrows, nl, shared);
        let ghost sys1 = *sys;
        let ncomp = table.table_inputs.len();
        let w = input.num_cols();
        let ghost selbase = sys.num_selectors as int;
        let ghost l0 = sys.lookups@.len() as int;
        let ghost lg0 = sys.gates@.len() as int;
        let ghost ls0 = self.lookup_selectors@.len() as int;
        let (dx, dy) = nl.default_pair();
        let mut x: usize = 0;
        while x < w
            invariant
                x <= w,
                sys.wf(),
                table.wf(*sys),
                sys.num_selectors == selbase + x * (ncomp + 1),
                sys.lookups@.len() == l0 + x,
                sys.gates@.len() == lg0 + x,
                self.lookup_selectors@.len() == ls0 + x,
                forall|i: int| 0 <= i < l0 ==> #[trigger] sys.lookups@[i] == sys1.lookups@[i],
                forall|i: int| 0 <= i < lg0 ==> #[trigger] sys.gates@[i] == sys1.gates@[i],
                forall|i: int|
                    0 <= i < ls0 ==> #[trigger] self.lookup_selectors@[i] == old(
                        self,
                    ).lookup_selectors@[i],
                forall|x2: int|
                    0 <= x2 < x ==> lookup_wired(
                        #[trigger] sys.lookups@[l0 + x2],
                        table,
                        input.spec_col(x2),
                        output.spec_col(x2),
                        selbase + x2 * (ncomp + 1),
                        0,
                        nl.spec_eval(0),
                    ),
                forall|x2: int|
                    0 <= x2 < x ==> conj_gate_ok(
                        #[trigger] sys.gates@[lg0 + x2],
                        selbase + x2 * (ncomp + 1),
                        ncomp as int,
                        selbase + x2 * (ncomp + 1) + ncomp,
                    ),
                forall|x2: int|
                    0 <= x2 < x ==> #[trigger] self.lookup_selectors@[ls0 + x2] == (LookupSelEntry {
                        op: *nl,
                        col: x2 as usize,
                        sel: (selbase + x2 * (ncomp + 1) + ncomp) as usize,
                    }),
                sys.num_advice == sys1.num_advice,
                sys.table_cols == sys1.table_cols,
                self.tables == old(self).tables,
                self.inputs == old(self).inputs,
                self.output == old(self).output,
                self.selectors == old(self).selectors,
                self.lookup_input == old(self).lookup_input,
                self.lookup_output == old(self).lookup_output,
                self.check_mode == old(self).check_mode,
            decreases w - x,
        {
            proof {
                assert((x + 1) * (ncomp + 1) == x * (ncomp + 1) + (ncomp + 1)) by (nonlinear_arith);
                assert((x + 1) * (ncomp + 1) <= w * (ncomp + 1)) by (nonlinear_arith)
                    requires
                        0 <= x < w,
                        0 <= ncomp,
                ;
            }
            let ghost sys_x = *sys;
            let mut qlookups: Vec<usize> = Vec::new();
            let mut i: usize = 0;
            while i < ncomp
                invariant
                    i <= ncomp,
                    qlookups@.len() == i,
                    forall|k: int|
                        0 <= k < i ==> #[trigger] qlookups@[k] == selbase + x * (ncomp + 1) + k,
                    sys.num_selectors == selbase + x * (ncomp + 1) + i,
                    sys.wf(),
                    sys.lookups == sys_x.lookups,
                    sys.gates == sys_x.gates,
                    sys.table_cols == sys_x.table_cols,
                    sys.num_advice == sys_x.num_advice,
                decreases ncomp - i,
            {
                let q = sys.selector();
                qlookups.push(q);
                i = i + 1;
            }
            let in_colid = input.col_at(x);
            let out_colid = output.col_at(x);
            let mut pairs: Vec<(Expr, usize)> = Vec::new();
            let mut i: usize = 0;
            while i < ncomp
                invariant
                    i <= ncomp,
                    pairs@.len() == i,
                    forall|p: int| 0 <= p < i ==> (#[trigger] pairs@[p]).1 == table.table_inputs@[p],
                    forall|p: int, asn: Assignment, row: int|
                        0 <= p < i && asn.wf() && 0 <= row < asn.rows && in_colid
                            < asn.spec_num_cols() ==> #[trigger] eval_expr(pairs@[p].0, asn, row)
                            == (if asn.sel_on(selbase + x * (ncomp + 1) + p, row) {
                            asn.aval(in_colid as int, row)
                        } else {
                            0int
                        }),
                    forall|p: int, nc2: nat, ns2: nat|
                        0 <= p < i && in_colid < nc2 && selbase + x * (ncomp + 1) + p < ns2
                            ==> #[trigger] pairs@[p].0.wf(nc2, ns2),
                decreases ncomp - i,
            {
                let e = gated_expr(qlookups[i], in_colid, dx);
                pairs.push((e, table.table_inputs[i]));
                i = i + 1;
            }
            let mut i: usize = 0;
            while i < ncomp
                invariant
                    i <= ncomp,
                    pairs@.len() == ncomp + i,
                    forall|p: int| 0 <= p < ncomp ==> (#[trigger] pairs@[p]).1 == table.table_inputs@[p],
                    forall|p: int, asn: Assignment, row: int|
                        0 <= p < ncomp && asn.wf() && 0 <= row < asn.rows && in_colid
                            < asn.spec_num_cols() ==> #[trigger] eval_expr(pairs@[p].0, asn, row)
                            == (if asn.sel_on(selbase + x * (ncomp + 1) + p, row) {
                            asn.aval(in_colid as int, row)
                        } else {
                            0int
                        }),
                    forall|p: int, nc2: nat, ns2: nat|
                        0 <= p < ncomp && in_colid < nc2 && selbase + x * (ncomp + 1) + p < ns2
                            ==> #[trigger] pairs@[p].0.wf(nc2, ns2),
                    forall|p: int|
                        ncomp <= p < ncomp + i ==> (#[trigger] pairs@[p]).1
                            == table.table_outputs@[p - ncomp],
                    forall|p: int, asn: Assignment, row: int|
                        ncomp <= p < ncomp + i && asn.wf() && 0 <= row < asn.rows && out_colid
                            < asn.spec_num_cols() ==> #[trigger] eval_expr(pairs@[p].0, asn, row)
                            == (if asn.sel_on(selbase + x * (ncomp + 1) + (p - ncomp), row) {
                            asn.aval(out_colid as int, row)
                        } else {
                            nl.spec_eval(0)
                        }),
                    forall|p: int, nc2: nat, ns2: nat|
                        ncomp <= p < ncomp + i && out_colid < nc2 && selbase + x * (ncomp + 1) + (p
                            - ncomp) < ns2 ==> #[trigger] pairs@[p].0.wf(nc2, ns2),
                decreases ncomp - i,
            {
                let e = gated_expr(qlookups[i], out_colid, dy);
                pairs.push((e, table.table_outputs[i]));
                i = i + 1;
            }
            let ghost gpairs = pairs;
            proof {
                assert forall|j: int|
                    0 <= j < pairs@.len() implies {
                    &&& (#[trigger] pairs@[j]).0.wf(sys.num_advice as nat, sys.num_selectors as nat)
                    &&& pairs@[j].1 < sys.table_cols@.len()
                } by {
                    if j < ncomp {
                        assert(pairs@[j].1 == table.table_inputs@[j]);
                        assert(table.table_inputs@[j] == table.table_inputs@[0] + j);
                        assert(pairs@[j].0.wf(sys.num_advice as nat, sys.num_selectors as nat));
                    } else {
                        assert(pairs@[j].1 == table.table_outputs@[j - ncomp]);
                        assert(table.table_outputs@[j - ncomp] == table.table_outputs@[0] + (j
                            - ncomp));
                        assert(pairs@[j].0.wf(sys.num_advice as nat, sys.num_selectors as nat));
                    }
                }
            }
            sys.add_lookup(pairs);
            let poly = conj_expr(&qlookups);
            let ghost gpoly = poly;
            let agg = sys.selector();
            sys.create_gate(agg, poly);
            self.lookup_selectors.push(LookupSelEntry { op: *nl, col: x, sel: agg });
            proof {
                let qb = selbase + x * (ncomp + 1);
                // The freshly registered lookup argument is wired for this
                // column.
                assert(sys.lookups@[l0 + x as int] == (crate::system::LookupArg { pairs: gpairs }));
                assert forall|p: int, asn: Assignment, row: int|
                    0 <= p < ncomp && asn.wf() && 0 <= row < asn.rows && input.spec_col(x as int)
                        < asn.spec_num_cols() implies #[trigger] eval_expr(gpairs@[p].0, asn, row)
                    == (if asn.sel_on(qb + p, row) {
                    asn.aval(input.spec_col(x as int), row)
                } else {
                    0int
                }) by {}
                // The auxiliary gate asserts the conjunction of the flags.
                assert forall|asn: Assignment, row: int| #[trigger]
                    eval_expr(gpoly, asn, row) == (if (forall|k: int|
                        0 <= k < ncomp ==> #[trigger] asn.sel_on(qb + k, row)) {
                        1int
                    } else {
                        0int
                    }) by {
                    if (forall|k: int| 0 <= k < ncomp ==> #[trigger] asn.sel_on(qb + k, row)) {
                        assert forall|k: int| 0 <= k < qlookups@.len() implies asn.sel_on(
                            #[trigger] qlookups@[k] as int,
                            row,
                        ) by {
                            assert(qlookups@[k] == qb + k);
                        }
                    } else {
                        let ghost kw = choose|k: int| 0 <= k < ncomp && !(#[trigger] asn.sel_on(qb + k, row));
                        assert(qlookups@[kw] == qb + kw);
                        assert(!asn.sel_on(qlookups@[kw] as int, row));
                    }
                }
                assert(conj_gate_ok(sys.gates@[lg0 + x as int], qb, ncomp as int, qb + ncomp));
                assert(lookup_wired(
                    sys.lookups@[l0 + x as int],
                    table,
                    input.spec_col(x as int),
                    output.spec_col(x as int),
                    qb,
                    0,
                    nl.spec_eval(0),
                ));
                // Everything registered before this column is untouched.
                assert forall|i2: int| 0 <= i2 < l0 + x implies #[trigger] sys.lookups@[i2]
                    == sys_x.lookups@[i2] by {
                    vstd::seq::axiom_seq_push_index_different::<crate::system::LookupArg>(
                        sys_x.lookups@,
                        crate::system::LookupArg { pairs: gpairs },
                        i2,
                    );
                }
                assert forall|i2: int| 0 <= i2 < lg0 + x implies #[trigger] sys.gates@[i2]
                    == sys_x.gates@[i2] by {
                    vstd::seq::axiom_seq_push_index_different::<crate::system::Gate>(
                        sys_x.gates@,
                        crate::system::Gate { selector: agg, poly: gpoly },
                        i2,
                    );
                }
            }
            x = x + 1;
        }
        let ghost old_tables = self.tables@;
        self.tables.push(TableEntry { op: *nl, table });
        if matches!(self.lookup_input, ColHandle::Empty) {
            self.lookup_input = *input;
        }
        if matches!(self.lookup_output, ColHandle::Empty) {
            self.lookup_output = *output;
        }
        proof {
            let nt = self.tables@[old_tables.len() as int];
            assert(nt.table == table);
            // The new entry is well formed, compatible with every earlier
            // table, and untouched.
            // Pairwise: the new table's codomain columns are fresh, and
            // its domain columns are either donated by the first table or
            // fresh too.
            assert forall|i: int, j: int|
                #![trigger self.tables@[i], self.tables@[j]]
                0 <= i < self.tables@.len() && 0 <= j < self.tables@.len() && i != j implies {
                &&& self.tables@[i].op != self.tables@[j].op
                &&& crate::table::tables_compat(self.tables@[i].table, self.tables@[j].table)
            } by {
                if i < old_tables.len() && j < old_tables.len() {
                    assert(old(self).tables@[i] == self.tables@[i]);
                    assert(old(self).tables@[j] == self.tables@[j]);
                } else {
                    let k: int = if i < old_tables.len() { i } else { j };
                    assert(self.tables@[k] == old(self).tables@[k]);
                    let told = old(self).tables@[k].table;
                    assert(told.wf(*old(sys)));
                    crate::table::lemma_components_cover(told.bits as nat, told.logrows as nat);
                    assert(old(self).tables@[0].table.wf(*old(sys)));
                    lemma_compat_new(told, table, *old(sys), old(self).tables@, k);
                }
            }
            assert forall|i: int| 0 <= i < self.tables@.len() implies crate::table::table_state_ok(
                (#[trigger] self.tables@[i]).table,
                *sys,
            ) by {
                if i < old_tables.len() {
                    assert(self.tables@[i] == old(self).tables@[i]);
                    assert(crate::table::table_state_ok(self.tables@[i].table, *old(sys)));
                    crate::table::lemma_state_frame(self.tables@[i].table, *old(sys), *sys);
                } else {
                    assert(self.tables@[i].table == table);
                    assert forall|c: int| 0 <= c < table.spec_ncomp() implies sys.table_cols@[(
                    #[trigger] table.table_outputs@[c]) as int]@.len() == 0 by {
                        assert(table.table_outputs@[c] == sys1.table_cols@.len()
                            - table.spec_ncomp() + c);
                        assert(table.table_outputs@[c] >= old(sys).table_cols@.len());
                    }
                    assert(table.outputs_empty(*sys));
                    if old(self).tables@.len() > 0 && old(self).tables@[0].table.bits == bits
                        && old(self).tables@[0].table.logrows == logrows {
                        let donor = old(self).tables@[0].table;
                        assert(table.table_inputs@ == donor.table_inputs@);
                        assert(crate::table::table_state_ok(donor, *old(sys)));
                        assert(!donor.is_assigned || donor.contents_ok(*old(sys)));
                        crate::table::lemma_state_frame(donor, *old(sys), *sys);
                        if donor.is_assigned {
                            assert(donor.contents_ok(*sys));
                            crate::table::lemma_domain_donated(donor, table, *sys);
                        } else {
                            if donor.inputs_empty(*sys) {
                                assert forall|c: int| 0 <= c < table.spec_ncomp() implies
                                    sys.table_cols@[(
                                #[trigger] table.table_inputs@[c]) as int]@.len() == 0 by {
                                    assert(table.table_inputs@[c] == donor.table_inputs@[c]);
                                }
                                assert(table.inputs_empty(*sys));
                            } else {
                                assert(donor.domain_full(*sys));
                                crate::table::lemma_domain_donated(donor, table, *sys);
                            }
                        }
                    } else {
                        assert forall|c: int| 0 <= c < table.spec_ncomp() implies sys.table_cols@[(
                        #[trigger] table.table_inputs@[c]) as int]@.len() == 0 by {
                            assert(table.table_inputs@[c] == old(sys).table_cols@.len() + c);
                        }
                        assert(table.inputs_empty(*sys));
                    }
                }
            }
        }
        Ok(())
    }

    /// Populates every registered, not-yet-assigned table: domain cells
    /// with the identity's whole signed range in increasing order and
    /// codomain cells with the function's value there, except that a
    /// table whose domain columns were already filled by an earlier table
    /// only writes its codomain. Must run before any layout that depends
    /// on a lookup. Idempotent: once every table is assigned, a second
    /// call performs no writes.
    #[verifier::loop_isolation(false)]
    pub fn layout_tables(&mut self, sys: &mut System) -> (r: Result<(), CircuitError>)
        requires
            old(sys).wf(),
            old(self).tables_wf(*old(sys)),
            old(self).tables_state_ok(*old(sys)),
        ensures
            r is Ok,
            final(sys).wf(),
            final(self).tables_wf(*final(sys)),
            final(self).tables_state_ok(*final(sys)),
            final(self).tables@.len() == old(self).tables@.len(),
            // Every table ends populated: its columns enumerate its
            // identity over the whole signed domain.
            forall|k: int|
                0 <= k < old(self).tables@.len() ==> #[trigger] final(self).tables@[k] == (TableEntry {
                    op: old(self).tables@[k].op,
                    table: crate::table::Table {
                        is_assigned: true,
                        ..old(self).tables@[k].table
                    },
                }),
            forall|k: int|
                0 <= k < final(self).tables@.len()
                    ==> (#[trigger] final(self).tables@[k]).table.contents_ok(*final(sys)),
            // A call after every table is assigned changes nothing.
            (forall|k: int|
                0 <= k < old(self).tables@.len()
                    ==> (#[trigger] old(self).tables@[k]).table.is_assigned)
                ==> final(self).tables@ == old(self).tables@ && *final(sys) == *old(sys),
            final(self).inputs == old(self).inputs,
            final(self).output == old(self).output,
            final(self).lookup_input == old(self).lookup_input,
            final(self).lookup_output == old(self).lookup_output,
            final(self).selectors == old(self).selectors,
            final(self).lookup_selectors == old(self).lookup_selectors,
            final(self).check_mode == old(self).check_mode,
            final(sys).num_advice == old(sys).num_advice,
            final(sys).num_selectors == old(sys).num_selectors,
            final(sys).gates == old(sys).gates,
            final(sys).lookups == old(sys).lookups,
            final(sys).table_cols@.len() == old(sys).table_cols@.len(),
    {
        let ghost sys0 = *sys;
        let n = self.tables.len();
        let mut i: usize = 0;
        while i < n
            invariant
                i <= n,
                n == self.tables@.len(),
                n == old(self).tables@.len(),
                sys.wf(),
                self.tables_wf(*sys),
                self.tables_state_ok(*sys),
                forall|k: int|
                    0 <= k < i ==> #[trigger] self.tables@[k] == (TableEntry {
                        op: old(self).tables@[k].op,
                        table: crate::table::Table {
                            is_assigned: true,
                            ..old(self).tables@[k].table
                        },
                    }),
                forall|k: int|
                    0 <= k < i ==> (#[trigger] self.tables@[k]).table.contents_ok(*sys),
                forall|k: int| i <= k < n ==> #[trigger] self.tables@[k] == old(self).tables@[k],
                (forall|k: int|
                    0 <= k < n ==> (#[trigger] old(self).tables@[k]).table.is_assigned) ==> *sys
                    == sys0 && self.tables@ =~= old(self).tables@,
                sys.num_advice == sys0.num_advice,
                sys.num_selectors == sys0.num_selectors,
                sys.gates == sys0.gates,
                sys.lookups == sys0.lookups,
                sys.table_cols@.len() == sys0.table_cols@.len(),
                self.inputs == old(self).inputs,
                self.output == old(self).output,
                self.lookup_input == old(self).lookup_input,
                self.lookup_output == old(self).lookup_output,
                self.selectors == old(self).selectors,
                self.lookup_selectors == old(self).lookup_selectors,
                self.check_mode == old(self).check_mode,
            decreases n - i,
        {
            let ghost pre_tables = self.tables@;
            let ghost sys_pre = *sys;
            let mut entry = self.tables.remove(i);
            let ghost t_pre = entry.table;
            proof {
                crate::table::lemma_components_cover(
                    entry.table.bits as nat,
                    entry.table.logrows as nat,
                );
            }
            if !entry.table.is_assigned {
                let populate = sys.table_col_len(entry.table.table_inputs[0]) == 0;
                proof {
                    vstd::arithmetic::power2::lemma_pow2_pos(t_pre.bits as nat);
                    vstd::arithmetic::power2::lemma_pow2_pos(t_pre.logrows as nat);
                    assert(0 * crate::table::table_rows_per(t_pre.logrows as nat) == 0)
                        by (nonlinear_arith);
                    assert(crate::table::chunk_len(t_pre.bits as nat, t_pre.logrows as nat, 0)
                        >= 1);
                    if !populate {
                        assert(!t_pre.inputs_empty(*sys));
                        assert(t_pre.domain_full(*sys));
                    } else {
                        assert(!t_pre.domain_full(*sys));
                        assert(t_pre.inputs_empty(*sys));
                    }
                }
                let res = entry.table.layout(sys, populate);
                proof {
                    assert(res is Ok);
                    assert(entry.table == (crate::table::Table { is_assigned: true, ..t_pre }));
                    // Every other table's columns were untouched, or —
                    // when they share the domain just written — now hold
                    // the same filled domain.
                    assert forall|k: int|
                        0 <= k < pre_tables.len() && k != i implies crate::table::table_state_ok(
                        (#[trigger] pre_tables[k]).table,
                        *sys,
                    ) by {
                        let tk = pre_tables[k].table;
                        assert(crate::table::tables_compat(tk, t_pre));
                        assert(crate::table::tables_compat(t_pre, tk));
                        assert(crate::table::table_state_ok(tk, sys_pre));
                        crate::table::lemma_components_cover(tk.bits as nat, tk.logrows as nat);
                        vstd::arithmetic::power2::lemma_pow2_pos(tk.bits as nat);
                        vstd::arithmetic::power2::lemma_pow2_pos(tk.logrows as nat);
                        assert(0 * crate::table::table_rows_per(tk.logrows as nat) == 0)
                            by (nonlinear_arith);
                        lemma_state_after_layout(tk, t_pre, sys_pre, *sys, populate);
                    }
                }
            } else {
                proof {
                    assert(t_pre.contents_ok(*sys));
                }
            }
            let ghost entry_now = entry;
            self.tables.insert(i, entry);
            proof {
                assert(self.tables@ =~= pre_tables.update(i as int, entry_now));
                if forall|k: int|
                    0 <= k < n ==> (#[trigger] old(self).tables@[k]).table.is_assigned {
                    assert(old(self).tables@[i as int].table.is_assigned);
                    assert(t_pre.is_assigned);
                    assert(entry_now == pre_tables[i as int]);
                    assert(self.tables@ =~= pre_tables);
                    assert(self.tables@ =~= old(self).tables@);
                }
                assert forall|k: int|
                    0 <= k < n implies crate::table::table_state_ok(
                    (#[trigger] self.tables@[k]).table,
                    *sys,
                ) by {
                    if k == i {
                        assert(self.tables@[k].table == entry_now.table);
                    } else {
                        assert(self.tables@[k].table == pre_tables[k].table);
                        if t_pre.is_assigned {
                            assert(*sys == sys_pre);
                            assert(crate::table::table_state_ok(pre_tables[k].table, sys_pre));
                        }
                    }
                }
                assert forall|k: int, k2: int|
                    #![trigger self.tables@[k], self.tables@[k2]]
                    0 <= k < n && 0 <= k2 < n && k != k2 implies {
                    &&& self.tables@[k].op != self.tables@[k2].op
                    &&& crate::table::tables_compat(self.tables@[k].table, self.tables@[k2].table)
                } by {
                    assert(pre_tables[k].op == self.tables@[k].op);
                    assert(pre_tables[k2].op == self.tables@[k2].op);
                    lemma_compat_flag(pre_tables[k].table, pre_tables[k2].table, self.tables@[k].table, self.tables@[k2].table);
                }
            }
            i = i + 1;
        }
        Ok(())
    }
}

/// Compatibility of two tables ignores the assigned flag.
proof fn lemma_compat_flag(
    a: crate::table::Table,
    b: crate::table::Table,
    a2: crate::table::Table,
    b2: crate::table::Table,
)
    requires
        crate::table::tables_compat(a, b),
        a2 == (crate::table::Table { is_assigned: a2.is_assigned, ..a }),
        b2 == (crate::table::Table { is_assigned: b2.is_assigned, ..b }),
    ensures
        crate::table::tables_compat(a2, b2),
{
}

/// What one table's population does to another registered table: columns
/// disjoint from the written ones keep their contents, and a shared,
/// just-written domain leaves the other table with a filled domain.
proof fn lemma_state_after_layout(
    tk: crate::table::Table,
    t: crate::table::Table,
    s1: System,
    s2: System,
    populate: bool,
)
    requires
        crate::table::table_state_ok(tk, s1),
        tk.wf(s1),
        t.wf(s1),
        tk.spec_ncomp() >= 1,
        t.spec_ncomp() >= 1,
        crate::table::chunk_len(tk.bits as nat, tk.logrows as nat, 0) >= 1,
        crate::table::tables_compat(tk, t),
        crate::table::tables_compat(t, tk),
        crate::table::untouched(t, s1, s2, populate),
        s2.table_cols@.len() == s1.table_cols@.len(),
        (crate::table::Table { is_assigned: true, ..t }).contents_ok(s2),
        populate ==> t.inputs_empty(s1),
    ensures
        crate::table::table_state_ok(tk, s2),
{
    let tdone = crate::table::Table { is_assigned: true, ..t };
    // tk's own codomain columns are disjoint from everything t wrote.
    assert forall|c: int| 0 <= c < tk.spec_ncomp() implies s2.table_cols@[(
    #[trigger] tk.table_outputs@[c]) as int] == s1.table_cols@[tk.table_outputs@[c] as int] by {
        assert(tk.table_outputs@[c] == tk.table_outputs@[0] + c);
        assert forall|c2: int| 0 <= c2 < t.spec_ncomp() implies t.table_outputs@[c2]
            != tk.table_outputs@[0] + c && (populate ==> t.table_inputs@[c2]
            != tk.table_outputs@[0] + c) by {
            assert(t.table_outputs@[c2] == t.table_outputs@[0] + c2);
            assert(t.table_inputs@[c2] == t.table_inputs@[0] + c2);
        }
    }
    if tk.table_inputs@ == t.table_inputs@ && tk.bits == t.bits && tk.logrows == t.logrows {
        // Shared domain: after population it holds the enumeration.
        assert(tdone.domain_ok(s2) && tdone.lens_ok(s2));
        crate::table::lemma_domain_donated(tdone, tk, s2);
        assert(tk.domain_full(s2));
        if tk.is_assigned {
            if populate {
                // An assigned table's domain is full, yet the shared
                // domain was empty before this population.
                assert(s1.table_cols@[tk.table_inputs@[0] as int]@.len() == crate::table::chunk_len(
                    tk.bits as nat,
                    tk.logrows as nat,
                    0,
                ));
                assert(s1.table_cols@[t.table_inputs@[0] as int]@.len() == 0);
                assert(tk.table_inputs@[0] == t.table_inputs@[0]);
                assert(false);
            } else {
                // Without a domain write, tk's own columns are untouched.
                assert forall|c: int| 0 <= c < tk.spec_ncomp() implies s2.table_cols@[(
                #[trigger] tk.table_inputs@[c]) as int] == s1.table_cols@[tk.table_inputs@[c] as int] by {
                    assert(tk.table_inputs@[c] == tk.table_inputs@[0] + c);
                    assert forall|c2: int| 0 <= c2 < t.spec_ncomp() implies t.table_outputs@[c2]
                        != tk.table_inputs@[0] + c by {
                        assert(t.table_outputs@[c2] == t.table_outputs@[0] + c2);
                    }
                }
                crate::table::lemma_state_own_cols(tk, s1, s2);
            }
        } else {
            // Unwritten codomain columns stay empty; the donated domain
            // is now full.
            assert forall|c: int| 0 <= c < tk.spec_ncomp() implies s2.table_cols@[(
            #[trigger] tk.table_outputs@[c]) as int]@.len() == 0 by {
                assert(s2.table_cols@[tk.table_outputs@[c] as int]
                    == s1.table_cols@[tk.table_outputs@[c] as int]);
            }
            assert(tk.outputs_empty(s2));
        }
    } else {
        // Disjoint domains: nothing of tk was written.
        assert forall|c: int| 0 <= c < tk.spec_ncomp() implies s2.table_cols@[(
        #[trigger] tk.table_inputs@[c]) as int] == s1.table_cols@[tk.table_inputs@[c] as int] by {
            assert(tk.table_inputs@[c] == tk.table_inputs@[0] + c);
            assert forall|c2: int| 0 <= c2 < t.spec_ncomp() implies t.table_outputs@[c2]
                != tk.table_inputs@[0] + c && (populate ==> t.table_inputs@[c2]
                != tk.table_inputs@[0] + c) by {
                assert(t.table_outputs@[c2] == t.table_outputs@[0] + c2);
                assert(t.table_inputs@[c2] == t.table_inputs@[0] + c2);
            }
        }
        crate::table::lemma_state_own_cols(tk, s1, s2);
    }
}

} // verus!
