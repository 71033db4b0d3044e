use zkcircuit::base::BaseOp;
use zkcircuit::chip::CheckMode;
use zkcircuit::felt::{Felt, MODULUS};
use zkcircuit::nl::{LookupOp, Nonlinearity, ReLu};

#[test]
fn test_felt_embedding() {
    assert_eq!(Felt::from_u64(7).v, 7);
    assert_eq!(Felt::from_i64(5).v, 5);
    assert_eq!(Felt::from_i64(0).v, 0);
    assert_eq!(Felt::from_i64(-1).v, MODULUS - 1);
    assert_eq!(Felt::from_i64(-128).v, MODULUS - 128);
}

#[test]
fn test_felt_arithmetic() {
    let a = Felt::from_u64(7);
    let b = Felt::from_u64(5);
    assert_eq!(a.add(b).v, 12);
    assert_eq!(a.sub(b).v, 2);
    assert_eq!(b.sub(a).v, MODULUS - 2);
    assert_eq!(a.mul(b).v, 35);
    assert_eq!(a.neg().v, MODULUS - 7);
    assert_eq!(Felt::zero().neg().v, 0);
    // Wrap-around: (MODULUS - 1) + 2 == 1.
    let m1 = Felt::from_i64(-1);
    assert_eq!(m1.add(Felt::from_u64(2)).v, 1);
}

#[test]
fn test_base_op_formulas() {
    let a = Felt::from_u64(3);
    let b = Felt::from_u64(4);
    let m = Felt::from_u64(10);
    assert_eq!(BaseOp::Add.f(a, b, m).v, 7);
    assert_eq!(BaseOp::Sub.f(a, b, m).v, MODULUS - 1);
    assert_eq!(BaseOp::Mult.f(a, b, m).v, 12);
    assert_eq!(BaseOp::Dot.f(a, b, m).v, 22);
    assert_eq!(BaseOp::Sum.f(a, b, m).v, 14);
    assert_eq!(BaseOp::CumProd.f(a, b, m).v, 40);
    assert_eq!(BaseOp::Neg.f(a, b, m).v, MODULUS - 4);
    assert_eq!(BaseOp::Identity.f(a, b, m).v, 4);
}

#[test]
fn test_base_op_descriptors() {
    assert_eq!(BaseOp::Add.num_inputs(), 2);
    assert_eq!(BaseOp::Sum.num_inputs(), 1);
    assert_eq!(BaseOp::Dot.query_offset_rng(), (-1, 2));
    assert_eq!(BaseOp::Add.query_offset_rng(), (0, 1));
    assert_eq!(BaseOp::Dot.constraint_idx(), 1);
    assert_eq!(BaseOp::Add.constraint_idx(), 0);
    assert_eq!(BaseOp::Add.as_str(), "add");
    assert_eq!(BaseOp::IsBoolean.as_str(), "isboolean");
}

#[test]
fn test_check_mode_parse() {
    assert_eq!(CheckMode::parse("safe"), Some(CheckMode::SAFE));
    assert_eq!(CheckMode::parse("SAFE"), Some(CheckMode::SAFE));
    assert_eq!(CheckMode::parse("SaFe"), Some(CheckMode::SAFE));
    assert_eq!(CheckMode::parse("unsafe"), Some(CheckMode::UNSAFE));
    assert_eq!(CheckMode::parse("UNSAFE"), Some(CheckMode::UNSAFE));
    assert_eq!(CheckMode::parse("bogus"), None);
    assert_eq!(CheckMode::parse(""), None);
    assert_eq!(CheckMode::default(), CheckMode::SAFE);
    assert_eq!(CheckMode::SAFE.as_str(), "safe");
    assert_eq!(CheckMode::UNSAFE.as_str(), "unsafe");
}

#[test]
fn test_relu_nonlinearity() {
    assert_eq!(ReLu::nonlinearity(-3).v, 0);
    assert_eq!(ReLu::nonlinearity(0).v, 0);
    assert_eq!(ReLu::nonlinearity(5).v, 5);
}

#[test]
fn test_lookup_op_eval() {
    assert_eq!(LookupOp::ReLU.eval_i64(-7).v, 0);
    assert_eq!(LookupOp::ReLU.eval_i64(7).v, 7);
    assert_eq!(LookupOp::Abs.eval_i64(-7).v, 7);
    assert_eq!(LookupOp::Abs.eval_i64(7).v, 7);
    let (dx, dy) = LookupOp::ReLU.default_pair();
    assert_eq!(dx.v, 0);
    assert_eq!(dy.v, 0);
    assert_eq!(LookupOp::ReLU.as_str(), "relu");
    assert_eq!(LookupOp::Abs.as_str(), "abs");
}
