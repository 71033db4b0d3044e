use zkcircuit::base::BaseOp;
use zkcircuit::checker::check;
use zkcircuit::chip::{BaseConfig, CheckMode, CircuitError};
use zkcircuit::felt::{Felt, MODULUS};
use zkcircuit::layout::{CellValue, RegionCtx, ValTensor};
use zkcircuit::nl::LookupOp;
use zkcircuit::system::{ColHandle, System};
use zkcircuit::witness::Assignment;

fn known(vals: &[u64]) -> ValTensor {
    ValTensor {
        vals: vals.iter().map(|v| CellValue::Known(Felt::from_u64(*v))).collect(),
    }
}

fn gate_setup(cs: usize, w: usize, mode: CheckMode) -> (System, BaseConfig) {
    let mut sys = System::new();
    let in0 = sys.advice_block(w, cs);
    let in1 = sys.advice_block(w, cs);
    let out = sys.advice_block(w, cs);
    let inputs = vec![in0, in1];
    let cfg = BaseConfig::configure(&mut sys, &inputs, &out, mode);
    (sys, cfg)
}

#[test]
fn test_configure_counts() {
    // For any valid equal width, configuration produces exactly one
    // selector and one gate per (primitive, column) pair.
    let (sys, cfg) = gate_setup(8, 2, CheckMode::SAFE);
    assert_eq!(cfg.selectors.len(), 20);
    assert_eq!(sys.gates.len(), 20);
    assert_eq!(sys.num_selectors, 20);
    // No duplicate (primitive, column) key.
    for i in 0..cfg.selectors.len() {
        for j in 0..i {
            let a = &cfg.selectors[i];
            let b = &cfg.selectors[j];
            assert!(!(a.op == b.op && a.col == b.col));
            assert_ne!(a.sel, b.sel);
        }
    }
}

#[test]
fn test_lookup_idempotent() {
    // A second configuration of the same identity is a no-op.
    let (mut sys, mut cfg) = gate_setup(512, 1, CheckMode::SAFE);
    let lin = sys.advice_block(1, 512);
    let lout = sys.advice_block(1, 512);
    let r1 = cfg.configure_lookup(&mut sys, &lin, &lout, 8, 9, &LookupOp::ReLU);
    assert!(r1.is_ok());
    let tables_before = cfg.tables.len();
    let sels_before = cfg.lookup_selectors.len();
    let lookups_before = sys.lookups.len();
    let selcount_before = sys.num_selectors;
    let r2 = cfg.configure_lookup(&mut sys, &lin, &lout, 8, 9, &LookupOp::ReLU);
    assert!(r2.is_ok());
    assert_eq!(cfg.tables.len(), tables_before);
    assert_eq!(cfg.lookup_selectors.len(), sels_before);
    assert_eq!(sys.lookups.len(), lookups_before);
    assert_eq!(sys.num_selectors, selcount_before);
}

#[test]
fn test_lookup_bad_handle() {
    let (mut sys, mut cfg) = gate_setup(512, 1, CheckMode::SAFE);
    let lout = sys.advice_block(1, 512);
    let r = cfg.configure_lookup(&mut sys, &ColHandle::Empty, &lout, 8, 9, &LookupOp::ReLU);
    assert_eq!(r, Err(CircuitError::LookupInstantiation));
}

#[test]
fn test_domain_sharing() {
    // Two distinct identities of compatible range share domain columns,
    // so their domain cells are identical column contents.
    let (mut sys, mut cfg) = gate_setup(512, 1, CheckMode::SAFE);
    let lin = sys.advice_block(1, 512);
    let lout = sys.advice_block(1, 512);
    cfg.configure_lookup(&mut sys, &lin, &lout, 8, 9, &LookupOp::ReLU).unwrap();
    cfg.configure_lookup(&mut sys, &lin, &lout, 8, 9, &LookupOp::Abs).unwrap();
    assert_eq!(cfg.tables.len(), 2);
    assert_eq!(cfg.tables[0].table.table_inputs, cfg.tables[1].table.table_inputs);
    assert_ne!(cfg.tables[0].table.table_outputs, cfg.tables[1].table.table_outputs);
    cfg.layout_tables(&mut sys).unwrap();
    // Domain enumerates -128..128 in increasing order; at -5 the
    // rectifier gives 0 and the absolute value 5.
    let in_col = cfg.tables[0].table.table_inputs[0];
    let relu_col = cfg.tables[0].table.table_outputs[0];
    let abs_col = cfg.tables[1].table.table_outputs[0];
    let row: usize = 123; // -128 + 123 == -5
    assert_eq!(sys.table_cell(in_col, row).v, MODULUS - 5);
    assert_eq!(sys.table_cell(relu_col, row).v, 0);
    assert_eq!(sys.table_cell(abs_col, row).v, 5);
    // A second population pass performs no writes.
    let len_before = sys.table_cols.len();
    cfg.layout_tables(&mut sys).unwrap();
    assert_eq!(sys.table_cols.len(), len_before);
    assert_eq!(sys.table_cell(in_col, row).v, MODULUS - 5);
}

#[test]
fn test_table_round_trip() {
    // Every enumerated input equals the table's own recomputation of the
    // identity at that input, over the whole 8-bit signed domain.
    let (mut sys, mut cfg) = gate_setup(512, 1, CheckMode::SAFE);
    let lin = sys.advice_block(1, 512);
    let lout = sys.advice_block(1, 512);
    cfg.configure_lookup(&mut sys, &lin, &lout, 8, 9, &LookupOp::ReLU).unwrap();
    cfg.layout_tables(&mut sys).unwrap();
    let in_col = cfg.tables[0].table.table_inputs[0];
    let out_col = cfg.tables[0].table.table_outputs[0];
    for row in 0..256usize {
        let v: i64 = -128 + row as i64;
        let expected_in = if v >= 0 { v as u64 } else { MODULUS - (-v) as u64 };
        let expected_out = if v >= 0 { v as u64 } else { 0 };
        assert_eq!(sys.table_cell(in_col, row).v, expected_in);
        assert_eq!(sys.table_cell(out_col, row).v, expected_out);
    }
}

#[test]
fn test_safe_mode_add() {
    // Add(2, 3) with claimed output 6 must raise a consistency failure in
    // safe mode and pass silently in unsafe mode.
    let (sys, cfg) = gate_setup(8, 1, CheckMode::SAFE);
    let mut region = RegionCtx {
        asn: Assignment::new(sys.num_advice, sys.num_selectors, 8),
        offset: 0,
        dummy: false,
    };
    let values = vec![known(&[2]), known(&[3])];
    let r = cfg.layout_with_claimed(&mut region, &values, &known(&[6]), &BaseOp::Add);
    assert_eq!(r, Err(CircuitError::ConsistencyFailure));
    let r = cfg.layout_with_claimed(&mut region, &values, &known(&[5]), &BaseOp::Add);
    assert!(r.is_ok());

    let (sys2, cfg2) = gate_setup(8, 1, CheckMode::UNSAFE);
    let mut region2 = RegionCtx {
        asn: Assignment::new(sys2.num_advice, sys2.num_selectors, 8),
        offset: 0,
        dummy: false,
    };
    let r = cfg2.layout_with_claimed(&mut region2, &values, &known(&[6]), &BaseOp::Add);
    assert!(r.is_ok());
}

#[test]
fn test_boolean_gate() {
    // IsBoolean on a committed 2 violates its gate; 0 and 1 satisfy it.
    for (value, expect) in [(2u64, false), (0, true), (1, true)] {
        let (sys, cfg) = gate_setup(8, 1, CheckMode::SAFE);
        let mut region = RegionCtx {
            asn: Assignment::new(sys.num_advice, sys.num_selectors, 8),
            offset: 0,
            dummy: false,
        };
        let r = cfg.layout(&mut region, &vec![known(&[value])], &BaseOp::IsBoolean);
        assert!(r.is_ok());
        assert_eq!(check(&sys, &region.asn), expect);
    }
}

#[test]
fn test_is_zero_gate() {
    for (value, expect) in [(0u64, true), (7, false)] {
        let (sys, cfg) = gate_setup(8, 1, CheckMode::SAFE);
        let mut region = RegionCtx {
            asn: Assignment::new(sys.num_advice, sys.num_selectors, 8),
            offset: 0,
            dummy: false,
        };
        let r = cfg.layout(&mut region, &vec![known(&[value])], &BaseOp::IsZero);
        assert!(r.is_ok());
        assert_eq!(check(&sys, &region.asn), expect);
    }
}

#[test]
fn test_dot_product_end_to_end() {
    // [1,2,3,4] . [4,3,2,1] == 20, laid out via the primitive path with a
    // fully known witness; the safety check passes and the laid-out
    // witness satisfies every gate.
    let (sys, cfg) = gate_setup(16, 1, CheckMode::SAFE);
    let mut region = RegionCtx {
        asn: Assignment::new(sys.num_advice, sys.num_selectors, 16),
        offset: 0,
        dummy: false,
    };
    let values = vec![known(&[1, 2, 3, 4]), known(&[4, 3, 2, 1])];
    let r = cfg.layout(&mut region, &values, &BaseOp::Dot).unwrap();
    let claimed = r.expect("dot product returns a claimed output");
    assert_eq!(claimed.vals.len(), 1);
    assert_eq!(claimed.vals[0], CellValue::Known(Felt { v: 20 }));
    assert!(check(&sys, &region.asn));
}

#[test]
fn test_elementwise_ops() {
    for (op, a, b, expect) in [
        (BaseOp::Add, 7u64, 5u64, 12u64),
        (BaseOp::Sub, 7, 5, 2),
        (BaseOp::Mult, 7, 5, 35),
    ] {
        let (sys, cfg) = gate_setup(8, 1, CheckMode::SAFE);
        let mut region = RegionCtx {
            asn: Assignment::new(sys.num_advice, sys.num_selectors, 8),
            offset: 0,
            dummy: false,
        };
        let values = vec![known(&[a]), known(&[b])];
        let r = cfg.layout(&mut region, &values, &op).unwrap().unwrap();
        assert_eq!(r.vals[0], CellValue::Known(Felt { v: expect }));
        assert!(check(&sys, &region.asn));
    }
}

#[test]
fn test_sum_and_cumprod() {
    for (op, expect) in [(BaseOp::Sum, 10u64), (BaseOp::CumProd, 24u64)] {
        let (sys, cfg) = gate_setup(16, 1, CheckMode::SAFE);
        let mut region = RegionCtx {
            asn: Assignment::new(sys.num_advice, sys.num_selectors, 16),
            offset: 0,
            dummy: false,
        };
        let values = vec![known(&[1, 2, 3, 4])];
        let r = cfg.layout(&mut region, &values, &op).unwrap().unwrap();
        assert_eq!(r.vals[0], CellValue::Known(Felt { v: expect }));
        assert!(check(&sys, &region.asn));
    }
}

#[test]
fn test_layout_dim_mismatch() {
    let (sys, cfg) = gate_setup(8, 1, CheckMode::SAFE);
    let mut region = RegionCtx {
        asn: Assignment::new(sys.num_advice, sys.num_selectors, 8),
        offset: 0,
        dummy: false,
    };
    // An arity-2 primitive given one input run.
    let r = cfg.layout(&mut region, &vec![known(&[2])], &BaseOp::Add);
    assert_eq!(r, Err(CircuitError::DimMismatch));
    // Unequal input lengths.
    let r = cfg.layout(&mut region, &vec![known(&[2]), known(&[3, 4])], &BaseOp::Add);
    assert_eq!(r, Err(CircuitError::DimMismatch));
}

#[test]
fn test_layout_unsupported() {
    // A configuration without gate selectors has no layout path.
    let cfg = BaseConfig::dummy(8);
    let mut region = RegionCtx {
        asn: Assignment::new(4, 4, 8),
        offset: 0,
        dummy: false,
    };
    let values = vec![known(&[2]), known(&[3])];
    let r = cfg.layout(&mut region, &values, &BaseOp::Add);
    assert_eq!(r, Err(CircuitError::UnsupportedOp));
    // The externally-claimed path does not accept an accumulating
    // primitive.
    let (sys, cfg) = gate_setup(8, 1, CheckMode::SAFE);
    let mut region = RegionCtx {
        asn: Assignment::new(sys.num_advice, sys.num_selectors, 8),
        offset: 0,
        dummy: false,
    };
    let r = cfg.layout_with_claimed(&mut region, &values, &known(&[6]), &BaseOp::Dot);
    assert_eq!(r, Err(CircuitError::UnsupportedOp));
}

#[test]
fn test_dummy_pass_writes_nothing() {
    let (sys, cfg) = gate_setup(8, 1, CheckMode::SAFE);
    let mut region = RegionCtx {
        asn: Assignment::new(sys.num_advice, sys.num_selectors, 8),
        offset: 0,
        dummy: true,
    };
    let values = vec![known(&[2]), known(&[3])];
    let r = cfg.layout(&mut region, &values, &BaseOp::Add).unwrap().unwrap();
    assert_eq!(r.vals[0], CellValue::Known(Felt { v: 5 }));
    for c in 0..3usize {
        for row in 0..8usize {
            assert_eq!(region.asn.advice_at(c, row).v, 0);
        }
    }
}

#[test]
fn test_table_already_assigned() {
    let mut sys = System::new();
    let mut t = zkcircuit::table::Table::configure(&mut sys, 8, 9, &LookupOp::ReLU, None);
    assert!(t.layout(&mut sys, true).is_ok());
    assert_eq!(t.layout(&mut sys, true), Err(CircuitError::TableAlreadyAssigned));
}

#[test]
fn test_relunl() {
    // A length-4 rectifier circuit over an 8-bit domain with 2^9 rows:
    // committed inputs [1, 2, 3, 4] and outputs equal to them satisfy the
    // lookup argument.
    let k: usize = 9;
    let rows = 1usize << k;
    let (mut sys, mut cfg) = gate_setup(rows, 1, CheckMode::SAFE);
    let lin = sys.advice_block(1, rows);
    let lout = sys.advice_block(1, rows);
    cfg.configure_lookup(&mut sys, &lin, &lout, 8, k, &LookupOp::ReLU).unwrap();
    cfg.layout_tables(&mut sys).unwrap();
    let mut asn = Assignment::new(sys.num_advice, sys.num_selectors, rows);
    let in_col = match lin {
        ColHandle::Advice { first, .. } => first,
        _ => unreachable!(),
    };
    let out_col = match lout {
        ColHandle::Advice { first, .. } => first,
        _ => unreachable!(),
    };
    // One gating flag per component table; a single component here. Its
    // selector is the first allocated after gate configuration.
    let qlookup: usize = 10; // ten primitive selectors for one column came first
    for (row, v) in [1u64, 2, 3, 4].iter().enumerate() {
        asn.set_advice(in_col, row, Felt::from_u64(*v));
        asn.set_advice(out_col, row, Felt::from_u64(*v));
        asn.enable_selector(qlookup, row);
    }
    assert!(check(&sys, &asn));
    // A committed pair outside the table fails: the rectifier never maps
    // 3 to 7.
    asn.set_advice(out_col, 2, Felt::from_u64(7));
    assert!(!check(&sys, &asn));
}
