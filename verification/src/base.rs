//! The closed catalog of primitive arithmetic operations.
//!
//! Each primitive carries an arity, an algebraic formula over the field, a
//! row-range/offset descriptor for the output region it constrains, and the
//! index of the result slot within that region. The comparison primitives
//! (`IsZero`, `IsBoolean`) assert directly on the second input instead of
//! constraining an output region.

use vstd::prelude::*;
use crate::felt::{Felt, add_mod, sub_mod, mul_mod, neg_mod, MODULUS};

verus! {

/// One primitive arithmetic operation of the fixed catalog.
#[derive(Clone, Copy, Debug, PartialEq, Eq, Hash, Structural)]
pub enum BaseOp {
    /// Elementwise sum of the two inputs.
    Add,
    /// Elementwise difference of the two inputs.
    Sub,
    /// Running dot product: the slot extends the previous accumulator by
    /// the product of the two inputs.
    Dot,
    /// Running product of the second input.
    CumProd,
    /// Running sum of the second input.
    Sum,
    /// Negation of the second input.
    Neg,
    /// Elementwise product of the two inputs.
    Mult,
    /// Asserts that the second input is zero.
    IsZero,
    /// Copies the second input.
    Identity,
    /// Asserts that the second input is boolean (`q * (q - 1) == 0`).
    IsBoolean,
}

/// How many primitives the catalog holds.
pub const NUM_BASE_OPS: usize = 10;

/// The catalog in its canonical order: the order in which gate
/// configuration allocates one selector and one gate per column.
pub open spec fn catalog_at(j: int) -> BaseOp {
    if j == 0 {
        BaseOp::Add
    } else if j == 1 {
        BaseOp::Sub
    } else if j == 2 {
        BaseOp::Dot
    } else if j == 3 {
        BaseOp::CumProd
    } else if j == 4 {
        BaseOp::Sum
    } else if j == 5 {
        BaseOp::Neg
    } else if j == 6 {
        BaseOp::Mult
    } else if j == 7 {
        BaseOp::IsZero
    } else if j == 8 {
        BaseOp::Identity
    } else {
        BaseOp::IsBoolean
    }
}

/// Fetches the catalog entry at a position, in canonical order.
pub fn base_op_at(j: usize) -> (op: BaseOp)
    requires
        j < NUM_BASE_OPS,
    ensures
        op == catalog_at(j as int),
{
    if j == 0 {
        BaseOp::Add
    } else if j == 1 {
        BaseOp::Sub
    } else if j == 2 {
        BaseOp::Dot
    } else if j == 3 {
        BaseOp::CumProd
    } else if j == 4 {
        BaseOp::Sum
    } else if j == 5 {
        BaseOp::Neg
    } else if j == 6 {
        BaseOp::Mult
    } else if j == 7 {
        BaseOp::IsZero
    } else if j == 8 {
        BaseOp::Identity
    } else {
        BaseOp::IsBoolean
    }
}

impl BaseOp {
    /// Arity of the primitive: 1 or 2. An arity-1 primitive reads only the
    /// second input slot.
    pub open spec fn spec_num_inputs(self) -> nat {
        match self {
            BaseOp::Add => 2,
            BaseOp::Sub => 2,
            BaseOp::Dot => 2,
            BaseOp::Mult => 2,
            BaseOp::CumProd => 1,
            BaseOp::Sum => 1,
            BaseOp::Neg => 1,
            BaseOp::IsZero => 1,
            BaseOp::Identity => 1,
            BaseOp::IsBoolean => 1,
        }
    }

    /// Arity of the primitive.
    pub fn num_inputs(&self) -> (n: usize)
        ensures
            n == self.spec_num_inputs(),
    {
        match self {
            BaseOp::Add | BaseOp::Sub | BaseOp::Dot | BaseOp::Mult => 2,
            _ => 1,
        }
    }

    /// Whether the primitive accumulates down rows: its formula reads the
    /// previous row of the output region.
    pub open spec fn spec_accumulates(self) -> bool {
        match self {
            BaseOp::Dot | BaseOp::Sum | BaseOp::CumProd => true,
            _ => false,
        }
    }

    /// Whether the primitive accumulates down rows.
    pub fn accumulates_exec(&self) -> (r: bool)
        ensures
            r == self.spec_accumulates(),
    {
        match self {
            BaseOp::Dot | BaseOp::Sum | BaseOp::CumProd => true,
            _ => false,
        }
    }

    /// Rotation offset and row count of the output region a gate queries:
    /// an accumulating primitive queries the previous and the current row,
    /// any other exactly the current row.
    pub open spec fn spec_query_offset_rng(self) -> (int, nat) {
        if self.spec_accumulates() {
            (-1, 2)
        } else {
            (0, 1)
        }
    }

    /// Rotation offset and row count of the queried output region.
    pub fn query_offset_rng(&self) -> (r: (i64, usize))
        ensures
            r.0 as int == self.spec_query_offset_rng().0,
            r.1 as nat == self.spec_query_offset_rng().1,
    {
        match self {
            BaseOp::Dot | BaseOp::Sum | BaseOp::CumProd => (-1, 2),
            _ => (0, 1),
        }
    }

    /// Index of the result slot within the queried output region.
    pub open spec fn spec_constraint_idx(self) -> nat {
        if self.spec_accumulates() {
            1
        } else {
            0
        }
    }

    /// Index of the result slot within the queried output region.
    pub fn constraint_idx(&self) -> (i: usize)
        ensures
            i as nat == self.spec_constraint_idx(),
    {
        match self {
            BaseOp::Dot | BaseOp::Sum | BaseOp::CumProd => 1,
            _ => 0,
        }
    }

    /// The primitive's formula over reduced residues: `a` and `b` are the
    /// two input slots and `m` the first slot of the queried output region
    /// (the previous accumulator for an accumulating primitive). The
    /// comparison primitives bypass the formula path; for them this is the
    /// value their gate asserts to be zero.
    pub open spec fn spec_f(self, a: int, b: int, m: int) -> int {
        match self {
            BaseOp::Add => add_mod(a, b),
            BaseOp::Sub => sub_mod(a, b),
            BaseOp::Mult => mul_mod(a, b),
            BaseOp::Dot => add_mod(mul_mod(a, b), m),
            BaseOp::Sum => add_mod(b, m),
            BaseOp::CumProd => mul_mod(b, m),
            BaseOp::Neg => neg_mod(b),
            BaseOp::Identity => b,
            BaseOp::IsZero => b,
            BaseOp::IsBoolean => mul_mod(b, sub_mod(b, 1)),
        }
    }

    /// The primitive's formula in pure value semantics.
    pub fn f(&self, a: Felt, b: Felt, m: Felt) -> (r: Felt)
        requires
            a.wf(),
            b.wf(),
            m.wf(),
        ensures
            r.wf(),
            r@ == self.spec_f(a@, b@, m@),
    {
        match self {
            BaseOp::Add => a.add(b),
            BaseOp::Sub => a.sub(b),
            BaseOp::Mult => a.mul(b),
            BaseOp::Dot => a.mul(b).add(m),
            BaseOp::Sum => b.add(m),
            BaseOp::CumProd => b.mul(m),
            BaseOp::Neg => b.neg(),
            BaseOp::Identity => b,
            BaseOp::IsZero => b,
            BaseOp::IsBoolean => b.mul(b.sub(Felt::one())),
        }
    }

    /// A short human-readable name for the primitive.
    pub open spec fn spec_name(self) -> Seq<char> {
        match self {
            BaseOp::Add => "add"@,
            BaseOp::Sub => "sub"@,
            BaseOp::Dot => "dot"@,
            BaseOp::CumProd => "cumprod"@,
            BaseOp::Sum => "sum"@,
            BaseOp::Neg => "neg"@,
            BaseOp::Mult => "mult"@,
            BaseOp::IsZero => "iszero"@,
            BaseOp::Identity => "identity"@,
            BaseOp::IsBoolean => "isboolean"@,
        }
    }

    /// A short human-readable name for the primitive.
    pub fn as_str(&self) -> (r: &'static str)
        ensures
            r@ == self.spec_name(),
    {
        match self {
            BaseOp::Add => "add",
            BaseOp::Sub => "sub",
            BaseOp::Dot => "dot",
            BaseOp::CumProd => "cumprod",
            BaseOp::Sum => "sum",
            BaseOp::Neg => "neg",
            BaseOp::Mult => "mult",
            BaseOp::IsZero => "iszero",
            BaseOp::Identity => "identity",
            BaseOp::IsBoolean => "isboolean",
        }
    }
}

} // verus!
