use base_lib::smt::SmtProver;
use base_lib::temporal::{EventStep, OrderConstraint, SequenceContract};

fn sample_contract() -> SequenceContract {
    SequenceContract {
        name: "dma_xfer".into(),
        steps: vec![
            EventStep { event_type: "mmio_write".into(), address: Some(0xa9bf0000), value: Some(1), tolerance_ns: 50 },
            EventStep { event_type: "dma_start".into(), address: None, value: None, tolerance_ns: 200 },
            EventStep { event_type: "dma_complete".into(), address: None, value: None, tolerance_ns: 200 },
            EventStep { event_type: "irq".into(), address: Some(16), value: None, tolerance_ns: 100 },
        ],
        max_total_ns: 5000,
        max_step_ns: 3000,
        order: OrderConstraint::Strict,
    }
}

#[test]
fn test_contract_to_smt() {
    let contract = sample_contract();
    let smt = SmtProver::contract_to_smt(&contract);
    assert!(smt.contains("declare-const"));
    assert!(smt.contains("t0"));
    assert!(smt.contains("t3"));
    assert!(smt.contains("check-sat"));
    assert!(smt.contains("get-model"));
}

#[test]
fn test_smt_order_constraints() {
    let contract = sample_contract();
    let smt = SmtProver::contract_to_smt(&contract);
    assert!(smt.contains("(< t0 t1)"));
    assert!(smt.contains("(< t2 t3)"));
}

#[test]
fn test_smt_latency_constraints() {
    let contract = sample_contract();
    let smt = SmtProver::contract_to_smt(&contract);
    assert!(smt.contains("5000"));
    assert!(smt.contains("3000"));
}

#[test]
fn test_prove_symbolic() {
    let contract = sample_contract();
    let result = SmtProver::prove(&contract);
    assert!(result.proved);
    assert!(result.smt_lib.contains("dma_xfer"));
}

#[test]
fn test_prove_all() {
    let report = SmtProver::prove_all(&[sample_contract()]);
    assert_eq!(report.contracts_proved, 1);
    assert!(report.all_satisfied);
}

#[test]
fn test_deadlock_free() {
    let result = SmtProver::deadlock_free(&[sample_contract()]);
    assert!(result.proved);
    assert!(result.contract.contains("deadlock"));
}

#[test]
fn test_smt_partial_order() {
    let contract = SequenceContract {
        name: "partial".into(),
        steps: vec![EventStep { event_type: "write".into(), address: None, value: None, tolerance_ns: 0 }],
        max_total_ns: 1000,
        max_step_ns: 0,
        order: OrderConstraint::Relaxed,
    };
    let smt = SmtProver::contract_to_smt(&contract);
    assert!(smt.contains("check-sat"));
}

#[test]
fn smt_text_is_exact_for_a_two_step_contract() {
    let c = SequenceContract {
        name: "c".into(),
        steps: vec![
            EventStep { event_type: "a".into(), address: None, value: None, tolerance_ns: 0 },
            EventStep { event_type: "b".into(), address: None, value: None, tolerance_ns: 0 },
        ],
        max_total_ns: 70,
        max_step_ns: 40,
        order: OrderConstraint::Strict,
    };
    assert_eq!(
        SmtProver::contract_to_smt(&c),
        "; B.A.S.E. Temporal Contract Proof\n; Contract: c\n; Steps: 2\n\n\
         (declare-const t0 Int)\n(declare-const t1 Int)\n\n(assert (= t0 0))\n\
         (assert (< t0 t1))\n(assert (<= (- t1 t0) 40))\n(assert (<= (- t1 t0) 70))\n\
         \n(check-sat)\n(get-model)\n"
    );
}

#[test]
fn relaxed_unbounded_contract_has_no_constraints() {
    let c = SequenceContract {
        name: "r".into(),
        steps: vec![EventStep { event_type: "a".into(), address: None, value: None, tolerance_ns: 0 }; 3],
        max_total_ns: 0,
        max_step_ns: 0,
        order: OrderConstraint::Relaxed,
    };
    let smt = SmtProver::contract_to_smt(&c);
    assert!(!smt.contains("(assert (<"));
    assert!(smt.contains("(declare-const t2 Int)"));
}

#[test]
fn deadlock_obligation_covers_each_ordered_pair() {
    let mut other = sample_contract();
    other.name = "other".into();
    other.steps.truncate(2);
    let r = SmtProver::deadlock_free(&[sample_contract(), other]);
    assert!(r.smt_lib.contains("(assert (not (and (< t0_0 t1_1) (< t1_0 t0_3)))\n"));
    assert!(r.smt_lib.contains("(assert (not (and (< t1_0 t0_3) (< t0_0 t1_1)))\n"));
    assert_eq!(r.smt_lib.matches("(assert").count(), 2);
    assert!(r.model.is_none());
}

#[test]
fn prove_all_of_nothing_is_vacuously_satisfied() {
    let report = SmtProver::prove_all(&[]);
    assert_eq!(report.contracts_proved, 0);
    assert!(report.all_satisfied);
    assert!(report.results.is_empty());
}
