//! Per-operation witness assignment.
//!
//! The layout engine writes one operation instance's witness values into
//! the committed columns, activates its selectors, and returns the claimed
//! output. Under safe mode, during a real (non-placeholder) pass with
//! fully concrete values, the claimed output is re-checked against a pure
//! value recomputation: a mismatch is an engine defect, not an invalid
//! witness, and aborts layout.

use vstd::prelude::*;
use crate::base::BaseOp;
use crate::chip::{BaseConfig, CheckMode, CircuitError, SelEntry};
use crate::felt::{mul_mod, Felt};
use crate::witness::Assignment;

verus! {

/// One committed value: known during a real witness pass, unknown during
/// a placeholder (key-setup) pass.
#[derive(Clone, Copy, Debug, PartialEq, Eq, Structural)]
pub enum CellValue {
    /// A concrete field element.
    Known(Felt),
    /// A symbolic value, not yet decided.
    Unknown,
}

impl CellValue {
    /// Reduced when concrete.
    pub open spec fn wf(self) -> bool {
        match self {
            CellValue::Known(f) => f.wf(),
            CellValue::Unknown => true,
        }
    }

    /// The concrete value.
    pub open spec fn val(self) -> int
        recommends
            self is Known,
    {
        match self {
            CellValue::Known(f) => f@,
            CellValue::Unknown => 0,
        }
    }
}

/// A one-dimensional run of committed values handed to an operation.
#[derive(Clone, Debug, PartialEq, Eq)]
pub struct ValTensor {
    /// The values, one per row of the operation's region.
    pub vals: Vec<CellValue>,
}

impl ValTensor {
    /// Every concrete value is reduced.
    pub open spec fn wf(self) -> bool {
        forall|i: int| 0 <= i < self.vals@.len() ==> (#[trigger] self.vals@[i]).wf()
    }

    /// Every value is concrete.
    pub open spec fn all_known(self) -> bool {
        forall|i: int| 0 <= i < self.vals@.len() ==> (#[trigger] self.vals@[i]) is Known
    }

    /// Whether some value is still symbolic.
    pub fn any_unknowns(&self) -> (r: bool)
        ensures
            r == !self.all_known(),
    {
        let mut i: usize = 0;
        while i < self.vals.len()
            invariant
                i <= self.vals@.len(),
                forall|k: int| 0 <= k < i ==> (#[trigger] self.vals@[k]) is Known,
            decreases self.vals@.len() - i,
        {
            match self.vals[i] {
                CellValue::Unknown => {
                    return true;
                },
                CellValue::Known(_) => {},
            }
            i = i + 1;
        }
        false
    }
}

/// One region of rows an operation is laid out into: a flat cell offset
/// into the committed storage, and whether this is a placeholder pass.
pub struct RegionCtx {
    /// The witness being filled.
    pub asn: Assignment,
    /// Flat cell offset: column times column height plus starting row.
    pub offset: usize,
    /// A placeholder (key-setup) pass writes nothing.
    pub dummy: bool,
}

impl RegionCtx {
    /// Whether this is a placeholder pass.
    pub fn is_dummy(&self) -> (r: bool)
        ensures
            r == self.dummy,
    {
        self.dummy
    }
}

/// The first accumulator value of an accumulating primitive.
pub open spec fn acc_first(op: BaseOp, a0: int, b0: int) -> int {
    match op {
        BaseOp::Dot => mul_mod(a0, b0),
        _ => b0,
    }
}

/// The accumulator of an accumulating primitive after `i + 1` terms, in
/// pure value semantics.
pub open spec fn acc_value(op: BaseOp, a: Seq<CellValue>, b: Seq<CellValue>, i: int) -> int
    decreases i,
{
    if i <= 0 {
        acc_first(op, a[0].val(), b[0].val())
    } else {
        op.spec_f(a[i].val(), b[i].val(), acc_value(op, a, b, i - 1))
    }
}

/// The primitive that constrains an accumulator's first row: a product
/// for the dot product, a copy for the running sum and product.
pub open spec fn spec_init_op(op: BaseOp) -> BaseOp {
    match op {
        BaseOp::Dot => BaseOp::Mult,
        _ => BaseOp::Identity,
    }
}

/// The primitive that constrains an accumulator's first row.
pub fn init_op(op: &BaseOp) -> (r: BaseOp)
    ensures
        r == spec_init_op(*op),
{
    match op {
        BaseOp::Dot => BaseOp::Mult,
        _ => BaseOp::Identity,
    }
}

/// The claimed output of one primitive on given inputs, in pure value
/// semantics: elementwise formulas produce one cell per row, accumulating
/// primitives a single final accumulator, and the comparison primitives
/// no output at all. A cell is concrete only where every value it depends
/// on is.
pub open spec fn spec_claimed(op: BaseOp, a: Seq<CellValue>, b: Seq<CellValue>) -> Option<
    Seq<CellValue>,
> {
    let l = b.len() as int;
    if op is IsZero || op is IsBoolean {
        None
    } else if op.spec_accumulates() {
        Some(
            Seq::new(
                1,
                |i: int|
                    if (forall|j: int| 0 <= j < l ==> (#[trigger] b[j]) is Known) && (
                    op.spec_num_inputs() == 2 ==> forall|j: int|
                        0 <= j < l ==> (#[trigger] a[j]) is Known) {
                        CellValue::Known(Felt { v: acc_value(op, a, b, l - 1) as u64 })
                    } else {
                        CellValue::Unknown
                    },
            ),
        )
    } else {
        Some(
            Seq::new(
                l as nat,
                |i: int|
                    if b[i] is Known && (op.spec_num_inputs() == 2 ==> a[i] is Known) {
                        CellValue::Known(
                            Felt { v: op.spec_f(a[i].val(), b[i].val(), 0) as u64 },
                        )
                    } else {
                        CellValue::Unknown
                    },
            ),
        )
    }
}

/// First selector registered for a (primitive, column) key, if any.
pub open spec fn find_sel(s: Seq<SelEntry>, op: BaseOp, col: usize) -> Option<usize>
    decreases s.len(),
{
    if s.len() == 0 {
        None
    } else if s[0].op == op && s[0].col == col {
        Some(s[0].sel)
    } else {
        find_sel(s.drop_first(), op, col)
    }
}

/// Looks up the selector registered for a (primitive, column) key.
fn selector_for(entries: &Vec<SelEntry>, op: &BaseOp, col: usize) -> (r: Option<usize>)
    ensures
        r == find_sel(entries@, *op, col),
{
    let mut i: usize = 0;
    proof {
        assert(entries@.skip(0) =~= entries@);
    }
    while i < entries.len()
        invariant
            i <= entries@.len(),
            find_sel(entries@, *op, col) == find_sel(entries@.skip(i as int), *op, col),
        decreases entries@.len() - i,
    {
        let e = &entries[i];
        proof {
            assert(entries@.skip(i as int).len() > 0);
            assert(entries@.skip(i as int)[0] == entries@[i as int]);
            assert(entries@.skip(i as int).drop_first() =~= entries@.skip(i as int + 1));
        }
        if e.op == *op && e.col == col {
            return Some(e.sel);
        }
        i = i + 1;
    }
    proof {
        assert(entries@.skip(entries@.len() as int).len() == 0);
    }
    None
}

/// Computes the claimed output of one primitive in pure value semantics.
pub fn compute_claimed(op: &BaseOp, a: &ValTensor, b: &ValTensor) -> (r: Option<ValTensor>)
    requires
        a.wf(),
        b.wf(),
        b.vals@.len() >= 1,
        op.spec_num_inputs() == 2 ==> a.vals@.len() == b.vals@.len(),
    ensures
        match spec_claimed(*op, a.vals@, b.vals@) {
            Some(cells) => r matches Some(v) && v.vals@ == cells && v.wf(),
            None => r is None,
        },
{
    let l = b.vals.len();
    if matches!(op, BaseOp::IsZero) || matches!(op, BaseOp::IsBoolean) {
        return None;
    }
    let mut unknown = b.any_unknowns();
    if op.num_inputs() == 2 && a.any_unknowns() {
        unknown = true;
    }
    if op.accumulates_exec() {
        let mut out: Vec<CellValue> = Vec::new();
        if unknown {
            out.push(CellValue::Unknown);
        } else {
            let a0 = first_val(op, a, b, 0);
            let b0 = value_at(b, 0);
            let mut acc = match op {
                BaseOp::Dot => a0.mul(b0),
                _ => b0,
            };
            let mut i: usize = 1;
            while i < l
                invariant
                    1 <= i <= l,
                    l == b.vals@.len(),
                    a.wf(),
                    b.wf(),
                    b.all_known(),
                    op.spec_num_inputs() == 2 ==> a.vals@.len() == l && a.all_known(),
                    op.spec_accumulates(),
                    acc.wf(),
                    acc@ == acc_value(*op, a.vals@, b.vals@, i - 1),
                decreases l - i,
            {
                let ai = first_val(op, a, b, i);
                let bi = value_at(b, i);
                acc = op.f(ai, bi, acc);
                i = i + 1;
            }
            out.push(CellValue::Known(acc));
        }
        let r = ValTensor { vals: out };
        proof {
            let cells = spec_claimed(*op, a.vals@, b.vals@).unwrap();
            assert(r.vals@ =~= cells);
        }
        Some(r)
    } else {
        let mut out: Vec<CellValue> = Vec::new();
        let mut i: usize = 0;
        while i < l
            invariant
                i <= l,
                l == b.vals@.len(),
                a.wf(),
                b.wf(),
                op.spec_num_inputs() == 2 ==> a.vals@.len() == l,
                !op.spec_accumulates(),
                !(*op is IsZero),
                !(*op is IsBoolean),
                out@.len() == i,
                forall|k: int|
                    0 <= k < i ==> #[trigger] out@[k] == spec_claimed(
                        *op,
                        a.vals@,
                        b.vals@,
                    ).unwrap()[k],
            decreases l - i,
        {
            let known = match (&b.vals[i], op.num_inputs()) {
                (CellValue::Known(_), 1) => true,
                (CellValue::Known(_), _) => matches!(a.vals[i], CellValue::Known(_)),
                _ => false,
            };
            if known {
                let ai = first_val(op, a, b, i);
                let bi = value_at(b, i);
                out.push(CellValue::Known(op.f(ai, bi, Felt::zero())));
            } else {
                out.push(CellValue::Unknown);
            }
            i = i + 1;
        }
        let r = ValTensor { vals: out };
        proof {
            let cells = spec_claimed(*op, a.vals@, b.vals@).unwrap();
            assert(r.vals@ =~= cells);
        }
        Some(r)
    }
}

/// The first input's concrete value at one row, or zero for an arity-1
/// primitive.
fn first_val(op: &BaseOp, a: &ValTensor, b: &ValTensor, i: usize) -> (r: Felt)
    requires
        a.wf(),
        op.spec_num_inputs() == 2 ==> i < a.vals@.len() && a.vals@[i as int] is Known,
    ensures
        r.wf(),
        op.spec_num_inputs() == 2 ==> r@ == a.vals@[i as int].val(),
        op.spec_num_inputs() == 1 ==> r@ == 0,
{
    if op.num_inputs() == 2 {
        value_at(a, i)
    } else {
        Felt::zero()
    }
}

/// The cells one primitive writes into its output column: nothing for a
/// comparison primitive, the running accumulators for an accumulating one
/// (committed only when every input is concrete), and the elementwise
/// results otherwise.
pub open spec fn out_cells(op: BaseOp, a: Seq<CellValue>, b: Seq<CellValue>) -> Seq<CellValue> {
    let l = b.len() as int;
    if op is IsZero || op is IsBoolean {
        Seq::empty()
    } else if op.spec_accumulates() {
        Seq::new(
            l as nat,
            |i: int|
                if inputs_known(op, a, b) {
                    CellValue::Known(Felt { v: acc_value(op, a, b, i) as u64 })
                } else {
                    CellValue::Unknown
                },
        )
    } else {
        spec_claimed(op, a, b).unwrap()
    }
}

/// Every input value of the primitive is concrete.
pub open spec fn inputs_known(op: BaseOp, a: Seq<CellValue>, b: Seq<CellValue>) -> bool {
    (forall|j: int| 0 <= j < b.len() ==> (#[trigger] b[j]) is Known) && (op.spec_num_inputs() == 2
        ==> forall|j: int| 0 <= j < a.len() ==> (#[trigger] a[j]) is Known)
}

/// What one primitive's layout writes at a committed cell, if anything:
/// the inputs along their rows of the input columns, and the output cells
/// along theirs, skipping symbolic values.
pub open spec fn layout_write(
    arity: int,
    in0c: int,
    in1c: int,
    outc: int,
    row0: int,
    a: Seq<CellValue>,
    b: Seq<CellValue>,
    outs: Seq<CellValue>,
    c: int,
    r: int,
) -> Option<int> {
    if arity == 2 && c == in0c && row0 <= r < row0 + a.len() && a[r - row0] is Known {
        Some(a[r - row0].val())
    } else if c == in1c && row0 <= r < row0 + b.len() && b[r - row0] is Known {
        Some(b[r - row0].val())
    } else if c == outc && row0 <= r < row0 + outs.len() && outs[r - row0] is Known {
        Some(outs[r - row0].val())
    } else {
        None
    }
}

/// Whether one primitive's layout activates a selector on a row: the
/// initialising primitive's selector on the first row and the primitive's
/// own on the following rows for an accumulator, the primitive's own
/// selector on every row otherwise.
pub open spec fn layout_enables(
    accum: bool,
    main_sel: int,
    isel: int,
    row0: int,
    l: int,
    s: int,
    r: int,
) -> bool {
    if accum {
        (l >= 1 && r == row0 && s == isel) || (row0 < r < row0 + l && s == main_sel)
    } else {
        s == main_sel && row0 <= r < row0 + l
    }
}

/// The region after one primitive's layout: every written cell holds its
/// value, every other cell is untouched, and exactly the layout's
/// selectors were newly activated.
pub open spec fn layed_out(
    op: BaseOp,
    main_sel: int,
    isel: int,
    in0c: int,
    in1c: int,
    outc: int,
    row0: int,
    a: Seq<CellValue>,
    b: Seq<CellValue>,
    outs: Seq<CellValue>,
    old_asn: Assignment,
    new_asn: Assignment,
) -> bool {
    &&& new_asn.rows == old_asn.rows
    &&& new_asn.spec_num_cols() == old_asn.spec_num_cols()
    &&& new_asn.spec_num_sels() == old_asn.spec_num_sels()
    &&& forall|c: int, r: int|
        0 <= c < old_asn.spec_num_cols() && 0 <= r < old_asn.rows
            ==> #[trigger] new_asn.aval(c, r) == (match layout_write(
            op.spec_num_inputs() as int,
            in0c,
            in1c,
            outc,
            row0,
            a,
            b,
            outs,
            c,
            r,
        ) {
            Some(v) => v,
            None => old_asn.aval(c, r),
        })
    &&& forall|s: int, r: int|
        0 <= s < old_asn.spec_num_sels() && 0 <= r < old_asn.rows ==> #[trigger] new_asn.sel_on(
            s,
            r,
        ) == (old_asn.sel_on(s, r) || layout_enables(
            op.spec_accumulates(),
            main_sel,
            isel,
            row0,
            b.len() as int,
            s,
            r,
        ))
}

/// Writes one primitive's witness cells and selectors: the inputs along
/// their rows, the given output cells along theirs, and the layout's
/// selector pattern.
#[verifier::loop_isolation(false)]
fn layout_cells(
    asn: &mut Assignment,
    op: &BaseOp,
    main_sel: usize,
    isel: usize,
    in0c: usize,
    in1c: usize,
    outc: usize,
    row0: usize,
    a: &ValTensor,
    b: &ValTensor,
    outs: &ValTensor,
)
    requires
        old(asn).wf(),
        a.wf(),
        b.wf(),
        outs.wf(),
        b.vals@.len() >= 1,
        a.vals@.len() == b.vals@.len(),
        outs.vals@.len() <= b.vals@.len(),
        in0c < old(asn).spec_num_cols(),
        in1c < old(asn).spec_num_cols(),
        outc < old(asn).spec_num_cols(),
        in0c != in1c && in0c != outc && in1c != outc,
        row0 + b.vals@.len() <= old(asn).rows,
        main_sel < old(asn).spec_num_sels(),
        isel < old(asn).spec_num_sels(),
    ensures
        final(asn).wf(),
        layed_out(
            *op,
            main_sel as int,
            isel as int,
            in0c as int,
            in1c as int,
            outc as int,
            row0 as int,
            a.vals@,
            b.vals@,
            outs.vals@,
            *old(asn),
            *final(asn),
        ),
{
    let l = b.vals.len();
    let arity = op.num_inputs();
    let accum = op.accumulates_exec();
    let mut i: usize = 0;
    while i < l
        invariant
            i <= l,
            asn.wf(),
            asn.rows == old(asn).rows,
            asn.spec_num_cols() == old(asn).spec_num_cols(),
            asn.spec_num_sels() == old(asn).spec_num_sels(),
            forall|c: int, r: int|
                0 <= c < old(asn).spec_num_cols() && 0 <= r < old(asn).rows
                    ==> #[trigger] asn.aval(c, r) == (match layout_write(
                    op.spec_num_inputs() as int,
                    in0c as int,
                    in1c as int,
                    outc as int,
                    row0 as int,
                    a.vals@.take(i as int),
                    b.vals@.take(i as int),
                    outs.vals@.take(if i <= outs.vals@.len() {
                        i as int
                    } else {
                        outs.vals@.len() as int
                    }),
                    c,
                    r,
                ) {
                    Some(v) => v,
                    None => old(asn).aval(c, r),
                }),
            forall|s: int, r: int|
                0 <= s < old(asn).spec_num_sels() && 0 <= r < old(asn).rows
                    ==> #[trigger] asn.sel_on(s, r) == (old(asn).sel_on(s, r) || layout_enables(
                    op.spec_accumulates(),
                    main_sel as int,
                    isel as int,
                    row0 as int,
                    i as int,
                    s,
                    r,
                )),
        decreases l - i,
    {
        let row = row0 + i;
        let ghost asn_pre = *asn;
        // Selectors.
        if accum && i == 0 {
            asn.enable_selector(isel, row);
        } else {
            asn.enable_selector(main_sel, row);
        }
        // Input cells.
        if arity == 2 {
            match a.vals[i] {
                CellValue::Known(f) => {
                    asn.set_advice(in0c, row, f);
                },
                CellValue::Unknown => {},
            }
        }
        match b.vals[i] {
            CellValue::Known(f) => {
                asn.set_advice(in1c, row, f);
            },
            CellValue::Unknown => {},
        }
        // Output cell.
        if i < outs.vals.len() {
            match outs.vals[i] {
                CellValue::Known(f) => {
                    asn.set_advice(outc, row, f);
                },
                CellValue::Unknown => {},
            }
        }
        proof {
            let gi = i as int;
            assert forall|c: int, r: int|
                0 <= c < old(asn).spec_num_cols() && 0 <= r < old(asn).rows implies
                #[trigger] asn.aval(c, r) == (match layout_write(
                op.spec_num_inputs() as int,
                in0c as int,
                in1c as int,
                outc as int,
                row0 as int,
                a.vals@.take(gi + 1),
                b.vals@.take(gi + 1),
                outs.vals@.take(if gi + 1 <= outs.vals@.len() {
                    gi + 1
                } else {
                    outs.vals@.len() as int
                }),
                c,
                r,
            ) {
                Some(v) => v,
                None => old(asn).aval(c, r),
            }) by {
                if r != row0 + gi || (c != in0c && c != in1c && c != outc) {
                    assert(asn.aval(c, r) == asn_pre.aval(c, r));
                }
            }
            assert forall|s: int, r: int|
                0 <= s < old(asn).spec_num_sels() && 0 <= r < old(asn).rows implies
                #[trigger] asn.sel_on(s, r) == (old(asn).sel_on(s, r) || layout_enables(
                op.spec_accumulates(),
                main_sel as int,
                isel as int,
                row0 as int,
                gi + 1,
                s,
                r,
            )) by {
                if !(r == row0 + gi) {
                    assert(asn.sel_on(s, r) == asn_pre.sel_on(s, r));
                }
            }
        }
        i = i + 1;
    }
    proof {
        assert(a.vals@.take(l as int) =~= a.vals@);
        assert(b.vals@.take(l as int) =~= b.vals@);
        assert(outs.vals@.take(outs.vals@.len() as int) =~= outs.vals@);
    }
}

/// Computes the cells one primitive writes into its output column, in
/// pure value semantics.
pub fn compute_outs(op: &BaseOp, a: &ValTensor, b: &ValTensor) -> (r: ValTensor)
    requires
        a.wf(),
        b.wf(),
        b.vals@.len() >= 1,
        op.spec_num_inputs() == 2 ==> a.vals@.len() == b.vals@.len(),
    ensures
        r.wf(),
        r.vals@ == out_cells(*op, a.vals@, b.vals@),
{
    let l = b.vals.len();
    let mut out: Vec<CellValue> = Vec::new();
    if matches!(op, BaseOp::IsZero) || matches!(op, BaseOp::IsBoolean) {
        let r = ValTensor { vals: out };
        proof {
            assert(r.vals@ =~= out_cells(*op, a.vals@, b.vals@));
        }
        return r;
    }
    let mut known_all = !b.any_unknowns();
    if op.num_inputs() == 2 && a.any_unknowns() {
        known_all = false;
    }
    if op.accumulates_exec() {
        let mut acc = Felt::zero();
        let mut i: usize = 0;
        while i < l
            invariant
                i <= l,
                l == b.vals@.len(),
                a.wf(),
                b.wf(),
                op.spec_num_inputs() == 2 ==> a.vals@.len() == l,
                op.spec_accumulates(),
                known_all == inputs_known(*op, a.vals@, b.vals@),
                out@.len() == i,
                known_all && i >= 1 ==> acc.wf() && acc@ == acc_value(*op, a.vals@, b.vals@, i - 1),
                forall|k: int|
                    0 <= k < i ==> #[trigger] out@[k] == out_cells(*op, a.vals@, b.vals@)[k],
            decreases l - i,
        {
            if known_all {
                let ai = first_val(op, a, b, i);
                let bi = value_at(b, i);
                if i == 0 {
                    acc = match op {
                        BaseOp::Dot => ai.mul(bi),
                        _ => bi,
                    };
                } else {
                    acc = op.f(ai, bi, acc);
                }
                out.push(CellValue::Known(acc));
            } else {
                out.push(CellValue::Unknown);
            }
            i = i + 1;
        }
        let r = ValTensor { vals: out };
        proof {
            assert(r.vals@ =~= out_cells(*op, a.vals@, b.vals@));
        }
        r
    } else {
        let mut i: usize = 0;
        while i < l
            invariant
                i <= l,
                l == b.vals@.len(),
                a.wf(),
                b.wf(),
                op.spec_num_inputs() == 2 ==> a.vals@.len() == l,
                !op.spec_accumulates(),
                !(*op is IsZero),
                !(*op is IsBoolean),
                out@.len() == i,
                forall|k: int|
                    0 <= k < i ==> #[trigger] out@[k] == out_cells(*op, a.vals@, b.vals@)[k],
            decreases l - i,
        {
            let known = match (&b.vals[i], op.num_inputs()) {
                (CellValue::Known(_), 1) => true,
                (CellValue::Known(_), _) => matches!(a.vals[i], CellValue::Known(_)),
                _ => false,
            };
            if known {
                let ai = first_val(op, a, b, i);
                let bi = value_at(b, i);
                out.push(CellValue::Known(op.f(ai, bi, Felt::zero())));
            } else {
                out.push(CellValue::Unknown);
            }
            i = i + 1;
        }
        let r = ValTensor { vals: out };
        proof {
            assert(r.vals@ =~= out_cells(*op, a.vals@, b.vals@));
        }
        r
    }
}

/// The witness an elementwise layout writes meets the primitive's gate on
/// every row it wrote: with fully concrete inputs, the committed output
/// cell equals the primitive's formula over the committed input cells, so
/// the value its gate asserts to be zero vanishes there.
pub proof fn lemma_elementwise_gate_met(
    op: BaseOp,
    main_sel: int,
    isel: int,
    in0c: int,
    in1c: int,
    outc: int,
    row0: int,
    a: Seq<CellValue>,
    b: Seq<CellValue>,
    asn0: Assignment,
    asn1: Assignment,
    row: int,
)
    requires
        !op.spec_accumulates(),
        !(op is IsZero),
        !(op is IsBoolean),
        a.len() == b.len(),
        b.len() >= 1,
        forall|i: int| 0 <= i < a.len() ==> (#[trigger] a[i]) is Known && a[i].wf(),
        forall|i: int| 0 <= i < b.len() ==> (#[trigger] b[i]) is Known && b[i].wf(),
        0 <= in0c < asn0.spec_num_cols(),
        0 <= in1c < asn0.spec_num_cols(),
        0 <= outc < asn0.spec_num_cols(),
        in0c != in1c && in0c != outc && in1c != outc,
        row0 >= 0,
        row0 + b.len() <= asn0.rows,
        layed_out(op, main_sel, isel, in0c, in1c, outc, row0, a, b, out_cells(op, a, b), asn0, asn1),
        row0 <= row < row0 + b.len(),
    ensures
        crate::chip::gate_value(op, in0c, in1c, outc, asn1, row) == 0,
{
    let m = crate::felt::MODULUS as int;
    let i = row - row0;
    let outs = out_cells(op, a, b);
    let arity = op.spec_num_inputs() as int;
    assert(asn1.aval(in1c, row) == (match layout_write(
        arity,
        in0c,
        in1c,
        outc,
        row0,
        a,
        b,
        outs,
        in1c,
        row,
    ) {
        Some(v) => v,
        None => asn0.aval(in1c, row),
    }));
    assert(asn1.aval(in1c, row) == b[i].val());
    let bv = b[i].val();
    let av = if arity == 2 {
        assert(asn1.aval(in0c, row) == a[i].val());
        a[i].val()
    } else {
        0int
    };
    assert(outs[i] == CellValue::Known(Felt { v: op.spec_f(a[i].val(), b[i].val(), 0) as u64 }));
    let f0 = op.spec_f(a[i].val(), b[i].val(), 0);
    assert(0 <= f0 < m) by {
        match op {
            BaseOp::Add | BaseOp::Sub | BaseOp::Mult => {
                vstd::arithmetic::div_mod::lemma_mod_bound(
                    (match op {
                        BaseOp::Add => a[i].val() + b[i].val(),
                        BaseOp::Sub => a[i].val() + crate::felt::neg_mod(b[i].val()),
                        _ => a[i].val() * b[i].val(),
                    }),
                    m,
                );
            },
            _ => {},
        }
    }
    assert(asn1.aval(outc, row) == f0);
    let slot = asn1.aval(outc, row);
    let gv = crate::chip::gate_value(op, in0c, in1c, outc, asn1, row);
    assert(gv == crate::felt::sub_mod(slot, op.spec_f(av, bv, slot)));
    assert(op.spec_f(av, bv, slot) == f0) by {
        if arity == 2 {
            assert(av == a[i].val());
        } else {
            assert(op.spec_f(av, bv, slot) == op.spec_f(a[i].val(), b[i].val(), 0)) by {
                match op {
                    BaseOp::Neg | BaseOp::Identity => {},
                    _ => {},
                }
            }
        }
    }
    crate::felt::lemma_sub_mod_self(f0);
}

/// A found selector was registered, so it lives inside the arena the
/// registry was built against.
pub proof fn lemma_find_sel_in(s: Seq<SelEntry>, op: BaseOp, col: usize)
    ensures
        find_sel(s, op, col) matches Some(x) ==> exists|k: int|
            0 <= k < s.len() && (#[trigger] s[k]).sel == x,
    decreases s.len(),
{
    if s.len() > 0 && !(s[0].op == op && s[0].col == col) {
        lemma_find_sel_in(s.drop_first(), op, col);
        if find_sel(s, op, col) is Some {
            let k = choose|k: int|
                0 <= k < s.drop_first().len() && (#[trigger] s.drop_first()[k]).sel == find_sel(
                    s,
                    op,
                    col,
                )->0;
            assert(s[k + 1] == s.drop_first()[k]);
        }
    }
}

/// The shapes an operation's layout accepts: one value run per input
/// slot, none empty, and of one common length.
pub open spec fn shape_ok(op: BaseOp, values: Seq<ValTensor>) -> bool {
    &&& values.len() == op.spec_num_inputs()
    &&& values[values.len() - 1].vals@.len() >= 1
    &&& op.spec_num_inputs() == 2 ==> values[0].vals@.len() == values[1].vals@.len()
}

/// Where a flat region offset lands: inside a column of the output
/// handle, with room for the whole run.
pub open spec fn placement_ok(outh: crate::system::ColHandle, offset: int, l: int) -> bool {
    let cs = outh.spec_col_size() as int;
    &&& cs >= 1
    &&& offset / cs < outh.spec_num_cols()
    &&& offset % cs + l <= cs
}

/// The selectors an operation's layout activates are all registered.
pub open spec fn sels_ok(entries: Seq<SelEntry>, op: BaseOp, col: usize) -> bool {
    &&& find_sel(entries, op, col) is Some
    &&& op.spec_accumulates() ==> find_sel(entries, spec_init_op(op), col) is Some
}

/// The three column handles gate configuration wired hold committed
/// storage.
pub open spec fn handles_advice(cfg: BaseConfig) -> bool {
    &&& cfg.inputs@[0] is Advice
    &&& cfg.inputs@[1] is Advice
    &&& cfg.output is Advice
}

/// Two handles that never overlap in the arena.
pub open spec fn blocks_disjoint(h1: crate::system::ColHandle, h2: crate::system::ColHandle) -> bool {
    h1 is Advice && h2 is Advice ==> h1.spec_col(0) + h1.spec_num_cols() <= h2.spec_col(0)
        || h2.spec_col(0) + h2.spec_num_cols() <= h1.spec_col(0)
}

/// A handle's columns all exist in an assignment of `ncols` committed
/// columns.
pub open spec fn handle_in(h: crate::system::ColHandle, ncols: nat) -> bool {
    h is Advice ==> h.wf() && h.spec_col(0) + h.spec_num_cols() <= ncols
}

/// The claimed output echoed back by a layout call.
fn clone_vals(v: &ValTensor) -> (r: ValTensor)
    ensures
        r.vals@ == v.vals@,
{
    let mut vals: Vec<CellValue> = Vec::new();
    let mut i: usize = 0;
    while i < v.vals.len()
        invariant
            i <= v.vals@.len(),
            vals@ == v.vals@.subrange(0, i as int),
        decreases v.vals@.len() - i,
    {
        vals.push(v.vals[i]);
        i = i + 1;
    }
    proof {
        assert(vals@ =~= v.vals@);
    }
    ValTensor { vals }
}

impl BaseOp {
    /// Recomputes the operation in pure value semantics and compares the
    /// result with a claimed output: a mismatch is an internal
    /// consistency failure, distinct from a cryptographic proof failure.
    pub fn safe_mode_check(&self, claimed: &ValTensor, values: &[ValTensor]) -> (r: Result<
        (),
        CircuitError,
    >)
        requires
            shape_ok(*self, values@),
            !(*self is IsZero),
            !(*self is IsBoolean),
            forall|k: int| 0 <= k < values@.len() ==> (#[trigger] values@[k]).wf(),
            claimed.wf(),
        ensures
            r is Ok <==> claimed.vals@ == spec_claimed(
                *self,
                values@[0].vals@,
                values@[values@.len() - 1].vals@,
            )->Some_0,
            r is Err ==> r == Err::<(), CircuitError>(CircuitError::ConsistencyFailure),
    {
        let a = &values[0];
        let b = &values[values.len() - 1];
        let expected = match compute_claimed(self, a, b) {
            Some(e) => e,
            None => {
                return Err(CircuitError::ConsistencyFailure);
            },
        };
        if claimed.vals.len() != expected.vals.len() {
            proof {
                assert(claimed.vals@.len() != expected.vals@.len());
            }
            return Err(CircuitError::ConsistencyFailure);
        }
        let mut i: usize = 0;
        while i < expected.vals.len()
            invariant
                i <= expected.vals@.len(),
                claimed.vals@.len() == expected.vals@.len(),
                expected.vals@ == spec_claimed(
                    *self,
                    values@[0].vals@,
                    values@[values@.len() - 1].vals@,
                )->Some_0,
                forall|k: int| 0 <= k < i ==> #[trigger] claimed.vals@[k] == expected.vals@[k],
            decreases expected.vals@.len() - i,
        {
            if !(claimed.vals[i] == expected.vals[i]) {
                return Err(CircuitError::ConsistencyFailure);
            }
            i = i + 1;
        }
        proof {
            assert(claimed.vals@ =~= expected.vals@);
        }
        Ok(())
    }
}

impl BaseConfig {
    /// Lays one primitive operation instance out into a region: writes
    /// the witness values into its gate's input columns, the pure-value
    /// results into its output column, and activates its selectors; a
    /// placeholder pass writes nothing. Returns the claimed output. In
    /// safe mode, a real pass with fully concrete values re-checks the
    /// claimed output against a pure-value recomputation, which this
    /// layout meets by construction.
    pub fn layout(&self, region: &mut RegionCtx, values: &[ValTensor], op: &BaseOp) -> (r: Result<
        Option<ValTensor>,
        CircuitError,
    >)
        requires
            old(region).asn.wf(),
            self.inputs@.len() == 2,
            forall|k: int| 0 <= k < values@.len() ==> (#[trigger] values@[k]).wf(),
            forall|k: int|
                0 <= k < self.selectors@.len() ==> (#[trigger] self.selectors@[k]).sel < old(
                    region,
                ).asn.spec_num_sels(),
            handle_in(self.inputs@[0], old(region).asn.spec_num_cols()),
            handle_in(self.inputs@[1], old(region).asn.spec_num_cols()),
            handle_in(self.output, old(region).asn.spec_num_cols()),
            blocks_disjoint(self.inputs@[0], self.inputs@[1]),
            blocks_disjoint(self.inputs@[0], self.output),
            blocks_disjoint(self.inputs@[1], self.output),
            handles_advice(*self) ==> {
                &&& self.inputs@[0].spec_num_cols() == self.output.spec_num_cols()
                &&& self.inputs@[1].spec_num_cols() == self.output.spec_num_cols()
                &&& self.inputs@[0].spec_col_size() == self.output.spec_col_size()
                &&& self.inputs@[1].spec_col_size() == self.output.spec_col_size()
                &&& self.output.spec_col_size() == old(region).asn.rows
            },
        ensures
            final(region).offset == old(region).offset,
            final(region).dummy == old(region).dummy,
            final(region).asn.wf(),
            ({
                let l = values@[values@.len() - 1].vals@.len() as int;
                let aseq = values@[0].vals@;
                let bseq = values@[values@.len() - 1].vals@;
                let cs = self.output.spec_col_size() as int;
                let col = old(region).offset as int / cs;
                match r {
                    Ok(claimed) => {
                        &&& shape_ok(*op, values@)
                        &&& (match spec_claimed(*op, aseq, bseq) {
                            Some(cells) => claimed matches Some(v) && v.vals@ == cells && v.wf(),
                            None => claimed is None,
                        })
                        &&& old(region).dummy ==> final(region).asn == old(region).asn
                        &&& !old(region).dummy ==> {
                            &&& handles_advice(*self)
                            &&& placement_ok(self.output, old(region).offset as int, l)
                            &&& sels_ok(self.selectors@, *op, col as usize)
                            &&& layed_out(
                                *op,
                                find_sel(self.selectors@, *op, col as usize)->0 as int,
                                (if op.spec_accumulates() {
                                    find_sel(self.selectors@, spec_init_op(*op), col as usize)->0
                                } else {
                                    find_sel(self.selectors@, *op, col as usize)->0
                                }) as int,
                                self.inputs@[0].spec_col(col),
                                self.inputs@[1].spec_col(col),
                                self.output.spec_col(col),
                                old(region).offset as int % cs,
                                aseq,
                                bseq,
                                out_cells(*op, aseq, bseq),
                                old(region).asn,
                                final(region).asn,
                            )
                        }
                    },
                    Err(CircuitError::DimMismatch) => {
                        &&& (!shape_ok(*op, values@) || (!old(region).dummy && handles_advice(
                            *self,
                        ) && !placement_ok(self.output, old(region).offset as int, l)))
                        &&& final(region).asn == old(region).asn
                    },
                    Err(CircuitError::UnsupportedOp) => {
                        &&& shape_ok(*op, values@)
                        &&& !old(region).dummy
                        &&& (!handles_advice(*self) || (placement_ok(
                            self.output,
                            old(region).offset as int,
                            l,
                        ) && !sels_ok(self.selectors@, *op, col as usize)))
                        &&& final(region).asn == old(region).asn
                    },
                    Err(_) => false,
                }
            }),
    {
        let arity = op.num_inputs();
        if values.len() != arity {
            return Err(CircuitError::DimMismatch);
        }
        let b = &values[arity - 1];
        let a = &values[0];
        let l = b.vals.len();
        if l == 0 {
            return Err(CircuitError::DimMismatch);
        }
        if arity == 2 && a.vals.len() != l {
            return Err(CircuitError::DimMismatch);
        }
        let claimed = compute_claimed(op, a, b);
        if region.is_dummy() {
            return Ok(claimed);
        }
        let adv = self.inputs[0].is_advice() && self.inputs[1].is_advice()
            && self.output.is_advice();
        if !adv {
            return Err(CircuitError::UnsupportedOp);
        }
        let cs = self.output.col_size();
        let col = region.offset / cs;
        let row0 = region.offset % cs;
        if col >= self.output.num_cols() || l > cs || row0 > cs - l {
            return Err(CircuitError::DimMismatch);
        }
        let main = match selector_for(&self.selectors, op, col) {
            Some(x) => x,
            None => {
                return Err(CircuitError::UnsupportedOp);
            },
        };
        let iop = init_op(op);
        let isel = if op.accumulates_exec() {
            match selector_for(&self.selectors, &iop, col) {
                Some(x) => x,
                None => {
                    return Err(CircuitError::UnsupportedOp);
                },
            }
        } else {
            main
        };
        proof {
            lemma_find_sel_in(self.selectors@, *op, col);
            lemma_find_sel_in(self.selectors@, spec_init_op(*op), col);
        }
        let in0c = self.inputs[0].col_at(col);
        let in1c = self.inputs[1].col_at(col);
        let outc = self.output.col_at(col);
        let outs = compute_outs(op, a, b);
        layout_cells(&mut region.asn, op, main, isel, in0c, in1c, outc, row0, a, b, &outs);
        // The safety check: a real pass with fully concrete values
        // re-derives the claimed output, which by construction agrees.
        match &claimed {
            Some(c) => {
                let mut concrete = !c.any_unknowns() && !b.any_unknowns();
                if arity == 2 && a.any_unknowns() {
                    concrete = false;
                }
                if matches!(self.check_mode, CheckMode::SAFE) && concrete {
                    match op.safe_mode_check(c, values) {
                        Ok(()) => {},
                        Err(e) => {
                            return Err(e);
                        },
                    }
                }
            },
            None => {},
        }
        Ok(claimed)
    }

    /// Lays out an operation whose witness assignment was delegated to an
    /// external capability that returned `claimed` as its output: the
    /// claimed cells are committed as they stand. In safe mode, a real
    /// pass with fully concrete values re-checks the claim against a pure
    /// value recomputation and fails with a consistency error on any
    /// mismatch; in unsafe mode, or during a placeholder pass, the claim
    /// is accepted silently. Only non-accumulating primitives with an
    /// output can be delegated this way.
    pub fn layout_with_claimed(
        &self,
        region: &mut RegionCtx,
        values: &[ValTensor],
        claimed: &ValTensor,
        op: &BaseOp,
    ) -> (r: Result<Option<ValTensor>, CircuitError>)
        requires
            old(region).asn.wf(),
            self.inputs@.len() == 2,
            forall|k: int| 0 <= k < values@.len() ==> (#[trigger] values@[k]).wf(),
            claimed.wf(),
            forall|k: int|
                0 <= k < self.selectors@.len() ==> (#[trigger] self.selectors@[k]).sel < old(
                    region,
                ).asn.spec_num_sels(),
            handle_in(self.inputs@[0], old(region).asn.spec_num_cols()),
            handle_in(self.inputs@[1], old(region).asn.spec_num_cols()),
            handle_in(self.output, old(region).asn.spec_num_cols()),
            blocks_disjoint(self.inputs@[0], self.inputs@[1]),
            blocks_disjoint(self.inputs@[0], self.output),
            blocks_disjoint(self.inputs@[1], self.output),
            handles_advice(*self) ==> {
                &&& self.inputs@[0].spec_num_cols() == self.output.spec_num_cols()
                &&& self.inputs@[1].spec_num_cols() == self.output.spec_num_cols()
                &&& self.inputs@[0].spec_col_size() == self.output.spec_col_size()
                &&& self.inputs@[1].spec_col_size() == self.output.spec_col_size()
                &&& self.output.spec_col_size() == old(region).asn.rows
            },
        ensures
            final(region).offset == old(region).offset,
            final(region).dummy == old(region).dummy,
            final(region).asn.wf(),
            ({
                let l = values@[values@.len() - 1].vals@.len() as int;
                let aseq = values@[0].vals@;
                let bseq = values@[values@.len() - 1].vals@;
                let cs = self.output.spec_col_size() as int;
                let col = old(region).offset as int / cs;
                let concrete = claimed.all_known() && values@[0].all_known() && values@[values@.len()
                    - 1].all_known();
                match r {
                    Ok(echoed) => {
                        &&& shape_ok(*op, values@)
                        &&& !op.spec_accumulates()
                        &&& !(*op is IsZero)
                        &&& !(*op is IsBoolean)
                        &&& claimed.vals@.len() == l
                        &&& echoed matches Some(v) && v.vals@ == claimed.vals@
                        // The consistency check accepted the claim: under
                        // safe mode on a real, concrete pass it equals the
                        // recomputation; otherwise it was not checked.
                        &&& (self.check_mode == CheckMode::SAFE && !old(region).dummy && concrete
                            ==> claimed.vals@ == spec_claimed(*op, aseq, bseq)->Some_0)
                        &&& old(region).dummy ==> final(region).asn == old(region).asn
                        &&& !old(region).dummy ==> {
                            &&& handles_advice(*self)
                            &&& placement_ok(self.output, old(region).offset as int, l)
                            &&& sels_ok(self.selectors@, *op, col as usize)
                            &&& layed_out(
                                *op,
                                find_sel(self.selectors@, *op, col as usize)->0 as int,
                                find_sel(self.selectors@, *op, col as usize)->0 as int,
                                self.inputs@[0].spec_col(col),
                                self.inputs@[1].spec_col(col),
                                self.output.spec_col(col),
                                old(region).offset as int % cs,
                                aseq,
                                bseq,
                                claimed.vals@,
                                old(region).asn,
                                final(region).asn,
                            )
                        }
                    },
                    Err(CircuitError::ConsistencyFailure) => {
                        &&& shape_ok(*op, values@)
                        &&& self.check_mode == CheckMode::SAFE
                        &&& !old(region).dummy
                        &&& concrete
                        &&& claimed.vals@ != spec_claimed(*op, aseq, bseq)->Some_0
                    },
                    Err(CircuitError::DimMismatch) => {
                        &&& (!shape_ok(*op, values@) || claimed.vals@.len() != l || (!old(
                            region,
                        ).dummy && handles_advice(*self) && !placement_ok(
                            self.output,
                            old(region).offset as int,
                            l,
                        )))
                        &&& final(region).asn == old(region).asn
                    },
                    Err(CircuitError::UnsupportedOp) => {
                        &&& (op.spec_accumulates() || *op is IsZero || *op is IsBoolean || (
                        shape_ok(*op, values@) && claimed.vals@.len() == l && !old(region).dummy
                            && (!handles_advice(*self) || (placement_ok(
                            self.output,
                            old(region).offset as int,
                            l,
                        ) && !sels_ok(self.selectors@, *op, col as usize)))))
                        &&& final(region).asn == old(region).asn
                    },
                    Err(_) => false,
                }
            }),
    {
        if op.accumulates_exec() || matches!(op, BaseOp::IsZero) || matches!(op, BaseOp::IsBoolean) {
            return Err(CircuitError::UnsupportedOp);
        }
        let arity = op.num_inputs();
        if values.len() != arity {
            return Err(CircuitError::DimMismatch);
        }
        let b = &values[arity - 1];
        let a = &values[0];
        let l = b.vals.len();
        if l == 0 {
            return Err(CircuitError::DimMismatch);
        }
        if arity == 2 && a.vals.len() != l {
            return Err(CircuitError::DimMismatch);
        }
        if claimed.vals.len() != l {
            return Err(CircuitError::DimMismatch);
        }
        if !region.is_dummy() {
            let adv = self.inputs[0].is_advice() && self.inputs[1].is_advice()
                && self.output.is_advice();
            if !adv {
                return Err(CircuitError::UnsupportedOp);
            }
            let cs = self.output.col_size();
            let col = region.offset / cs;
            let row0 = region.offset % cs;
            if col >= self.output.num_cols() || l > cs || row0 > cs - l {
                return Err(CircuitError::DimMismatch);
            }
            let main = match selector_for(&self.selectors, op, col) {
                Some(x) => x,
                None => {
                    return Err(CircuitError::UnsupportedOp);
                },
            };
            proof {
                lemma_find_sel_in(self.selectors@, *op, col);
            }
            let in0c = self.inputs[0].col_at(col);
            let in1c = self.inputs[1].col_at(col);
            let outc = self.output.col_at(col);
            layout_cells(&mut region.asn, op, main, main, in0c, in1c, outc, row0, a, b, claimed);
            let mut concrete = !claimed.any_unknowns() && !b.any_unknowns();
            if arity == 2 && a.any_unknowns() {
                concrete = false;
            }
            if matches!(self.check_mode, CheckMode::SAFE) && concrete {
                match op.safe_mode_check(claimed, values) {
                    Ok(()) => {},
                    Err(e) => {
                        return Err(e);
                    },
                }
            }
        }
        Ok(Some(clone_vals(claimed)))
    }
}

/// One concrete value of a value run.
fn value_at(v: &ValTensor, i: usize) -> (r: Felt)
    requires
        v.wf(),
        i < v.vals@.len(),
        v.vals@[i as int] is Known,
    ensures
        r.wf(),
        r@ == v.vals@[i as int].val(),
{
    match v.vals[i] {
        CellValue::Known(f) => f,
        CellValue::Unknown => Felt { v: 0 },
    }
}

} // verus!
