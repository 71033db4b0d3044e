//! Nonlinear-operation identities.
//!
//! A nonlinear operation enters the circuit through a lookup table, keyed
//! by its identity: a hashable, totally ordered value naming one concrete
//! function over the signed quantized domain. The engine only ever selects
//! among a closed set of identities; the two given here stand for the
//! wider catalog the surrounding system registers.

use vstd::prelude::*;
use crate::felt::{Felt, MODULUS};

verus! {

/// The identity of one nonlinear operation.
#[derive(Clone, Copy, Debug, PartialEq, Eq, Hash, PartialOrd, Ord, Structural)]
pub enum LookupOp {
    /// Rectifier: negative inputs map to zero.
    ReLU,
    /// Absolute value.
    Abs,
}

impl LookupOp {
    /// The function the identity names, over signed quantized integers.
    /// Both catalog entries return a nonnegative value, which is also the
    /// value's field embedding.
    pub open spec fn spec_eval(self, x: int) -> int {
        match self {
            LookupOp::ReLU => if x < 0 {
                0
            } else {
                x
            },
            LookupOp::Abs => if x < 0 {
                -x
            } else {
                x
            },
        }
    }

    /// Evaluates the identity's function, returning the field embedding of
    /// the result.
    pub fn eval_i64(&self, x: i64) -> (r: Felt)
        ensures
            r.wf(),
            r@ == self.spec_eval(x as int),
    {
        match self {
            LookupOp::ReLU => {
                if x < 0 {
                    Felt::zero()
                } else {
                    Felt::from_i64(x)
                }
            },
            LookupOp::Abs => {
                if x < 0 {
                    let mag: u64 = (-(x as i128)) as u64;
                    Felt { v: mag }
                } else {
                    Felt::from_i64(x)
                }
            },
        }
    }

    /// The (input, output) pair a gated-off lookup row falls back to:
    /// a zero input and the function's value at zero.
    pub fn default_pair(&self) -> (r: (Felt, Felt))
        ensures
            r.0.wf(),
            r.0@ == 0,
            r.1.wf(),
            r.1@ == self.spec_eval(0),
    {
        (Felt::zero(), self.eval_i64(0))
    }

    /// A short human-readable name for the identity.
    pub open spec fn spec_name(self) -> Seq<char> {
        match self {
            LookupOp::ReLU => "relu"@,
            LookupOp::Abs => "abs"@,
        }
    }

    /// A short human-readable name for the identity.
    pub fn as_str(&self) -> (r: &'static str)
        ensures
            r@ == self.spec_name(),
    {
        match self {
            LookupOp::ReLU => "relu",
            LookupOp::Abs => "abs",
        }
    }
}

/// One nonlinear function over the signed quantized domain, as a
/// capability a column-filling circuit can be instantiated with.
pub trait Nonlinearity {
    /// The function in pure integer semantics, as a field residue.
    spec fn spec_nonlinearity(x: int) -> int;

    /// Evaluates the function on one quantized input.
    fn nonlinearity(x: i32) -> (r: Felt)
        ensures
            r.wf(),
            r@ == Self::spec_nonlinearity(x as int),
    ;
}

/// The rectifier nonlinearity.
pub struct ReLu {}

impl Nonlinearity for ReLu {
    open spec fn spec_nonlinearity(x: int) -> int {
        if x < 0 {
            0
        } else {
            x
        }
    }

    fn nonlinearity(x: i32) -> (r: Felt) {
        if x < 0 {
            Felt::zero()
        } else {
            Felt::from_i64(x as i64)
        }
    }
}

/// The rectifier of the identity catalog computes the same function as the
/// standalone [`ReLu`] capability.
pub proof fn lemma_relu_agrees(x: int)
    ensures
        LookupOp::ReLU.spec_eval(x) == <ReLu as Nonlinearity>::spec_nonlinearity(x),
{
}

} // verus!
