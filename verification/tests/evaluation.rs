use indexer_fees::collector::CollectedCostModels;
use indexer_fees::evaluator::{
    fee_for, EvalStep, Evaluation, Evaluator, Fee, FeeResult, INFINITY_BITS,
};
use indexer_fees::record::CostModelRecord;
use indexer_fees::sorted_map::SortedMap;

fn amount(value: f64) -> Evaluation {
    Evaluation::Amount(Fee::from_bits(value.to_bits()))
}

fn models(entries: &[(&str, Option<(&str, Option<&str>)>)]) -> CollectedCostModels {
    let mut map: CollectedCostModels = SortedMap::new();
    for (key, entry) in entries {
        let record = entry.map(|(program, variables)| {
            CostModelRecord::new(program.to_string(), variables.map(|v| v.to_string()))
        });
        map.insert(key.to_string(), record);
    }
    map
}

/// Runs an evaluation in which each program comes out as `price` says.
fn run(collected: CollectedCostModels, price: &dyn Fn(&str, &str) -> Evaluation) -> FeeResult {
    let mut evaluator = Evaluator::new(collected);
    loop {
        match evaluator.advance() {
            EvalStep::Evaluate { program, bindings } => {
                assert!(!evaluator.is_finished());
                evaluator.record(price(&program, &bindings));
            }
            EvalStep::Settled => {}
            EvalStep::Finished => break,
        }
    }
    assert!(evaluator.is_finished());
    evaluator.finish()
}

fn quotes(fees: &FeeResult) -> Vec<(String, Option<f64>)> {
    fees.entries()
        .iter()
        .map(|e| (e.key.clone(), e.value.map(|fee| f64::from_bits(fee.to_bits()))))
        .collect()
}

#[test]
fn zero_fee_is_the_double_zero() {
    assert_eq!(Fee::zero().to_bits(), 0.0f64.to_bits());
    assert_eq!(Fee::zero(), Fee::from_bits(0));
    assert_eq!(f64::from_bits(Fee::zero().to_bits()), 0.0);
    assert!(f64::from_bits(Fee::zero().to_bits()).is_sign_positive());
}

#[test]
fn fee_keeps_its_bits() {
    for value in [0.5f64, 1.0, 1e18, f64::MAX, f64::MIN_POSITIVE] {
        assert_eq!(f64::from_bits(Fee::from_bits(value.to_bits()).to_bits()), value);
    }
}

#[test]
fn no_record_is_free() {
    assert_eq!(fee_for(&None, None), Some(Fee::zero()));
    assert_eq!(fee_for(&None, Some(Evaluation::CompileFailed)), Some(Fee::zero()));
    assert_eq!(fee_for(&None, Some(amount(3.0))), Some(Fee::zero()));
}

#[test]
fn record_is_quoted_by_its_evaluation() {
    let entry = Some(CostModelRecord::new("default => 3;".to_string(), None));
    assert_eq!(fee_for(&entry, Some(amount(3.0))), Some(Fee::from_bits(3.0f64.to_bits())));
    assert_eq!(fee_for(&entry, Some(amount(0.0))), Some(Fee::zero()));
    assert_eq!(fee_for(&entry, Some(Evaluation::CompileFailed)), None);
    assert_eq!(fee_for(&entry, Some(Evaluation::EvaluationFailed)), None);
    assert_eq!(fee_for(&entry, Some(Evaluation::Unrepresentable)), None);
    assert_eq!(fee_for(&entry, None), None);
}

#[test]
fn only_finite_amounts_that_are_not_negative_are_fees() {
    let entry = Some(CostModelRecord::new("default => 3;".to_string(), None));
    for value in [f64::INFINITY, f64::NEG_INFINITY, f64::NAN, -1.0, -0.0] {
        assert!(!Fee::from_bits(value.to_bits()).holds_amount());
        assert_eq!(fee_for(&entry, Some(amount(value))), None);
    }
    for value in [0.0, f64::MIN_POSITIVE, 0.5, 5e17, f64::MAX] {
        assert!(Fee::from_bits(value.to_bits()).holds_amount());
        assert_eq!(
            fee_for(&entry, Some(amount(value))),
            Some(Fee::from_bits(value.to_bits()))
        );
    }
    assert_eq!(INFINITY_BITS, f64::INFINITY.to_bits());
    assert_eq!(INFINITY_BITS - 1, f64::MAX.to_bits());
    assert!(Fee::from_bits(0x7FEF_FFFF_FFFF_FFFF).holds_amount());
    assert!(!Fee::from_bits(0x7FF0_0000_0000_0000).holds_amount());
}

#[test]
fn infinite_amount_leaves_the_fee_undetermined() {
    let collected = models(&[
        ("http://a.example/", Some(("default => 1;", None))),
        ("http://b.example/", Some(("default => 2;", None))),
    ]);
    let fees = run(collected, &|program, _| {
        if program == "default => 1;" {
            amount(f64::INFINITY)
        } else {
            amount(2.0)
        }
    });
    assert_eq!(
        quotes(&fees),
        vec![
            ("http://a.example/".to_string(), None),
            ("http://b.example/".to_string(), Some(2.0))
        ]
    );
}

#[test]
fn nothing_collected_nothing_to_price() {
    let mut evaluator = Evaluator::new(SortedMap::new());
    assert!(evaluator.is_finished());
    assert!(matches!(evaluator.advance(), EvalStep::Finished));
    assert_eq!(evaluator.finish().len(), 0);
}

#[test]
fn program_and_bindings_are_handed_out() {
    let collected = models(&[
        ("http://a.example/", Some(("default => 1;", Some("{\"k\": 2}")))),
        ("http://b.example/", Some(("default => 2;", None))),
    ]);
    let mut evaluator = Evaluator::new(collected);
    match evaluator.advance() {
        EvalStep::Evaluate { program, bindings } => {
            assert_eq!(program, "default => 1;");
            assert_eq!(bindings, "{\"k\": 2}");
        }
        other => panic!("unexpected step {:?}", other),
    }
    // Nothing changes until the outcome is recorded.
    assert!(matches!(evaluator.advance(), EvalStep::Evaluate { .. }));
    evaluator.record(amount(1.0));
    match evaluator.advance() {
        EvalStep::Evaluate { program, bindings } => {
            assert_eq!(program, "default => 2;");
            assert_eq!(bindings, "");
        }
        other => panic!("unexpected step {:?}", other),
    }
    evaluator.record(amount(2.0));
    assert!(matches!(evaluator.advance(), EvalStep::Finished));
    assert_eq!(
        quotes(&evaluator.finish()),
        vec![
            ("http://a.example/".to_string(), Some(1.0)),
            ("http://b.example/".to_string(), Some(2.0))
        ]
    );
}

#[test]
fn fees_have_the_keys_of_the_models_in_order() {
    let collected = models(&[
        ("http://d.example/", None),
        ("http://b.example/", Some(("default => 1;", None))),
        ("http://a.example/", Some(("broken", None))),
        ("http://c.example/", None),
    ]);
    let keys: Vec<String> = collected.entries().iter().map(|e| e.key.clone()).collect();
    let fees = run(collected, &|program, _| {
        if program == "broken" {
            Evaluation::CompileFailed
        } else {
            amount(1.0)
        }
    });
    assert_eq!(fees.len(), 4);
    let fee_keys: Vec<String> = fees.entries().iter().map(|e| e.key.clone()).collect();
    assert_eq!(fee_keys, keys);
    assert_eq!(
        quotes(&fees),
        vec![
            ("http://a.example/".to_string(), None),
            ("http://b.example/".to_string(), Some(1.0)),
            ("http://c.example/".to_string(), Some(0.0)),
            ("http://d.example/".to_string(), Some(0.0)),
        ]
    );
}

#[test]
fn endpoint_without_record_is_never_priced() {
    let collected = models(&[("http://a.example/", None), ("http://b.example/", None)]);
    let fees = run(collected, &|_, _| panic!("nothing to price"));
    assert_eq!(
        quotes(&fees),
        vec![
            ("http://a.example/".to_string(), Some(0.0)),
            ("http://b.example/".to_string(), Some(0.0))
        ]
    );
    assert_eq!(fees.get("http://a.example/"), Some(&Some(Fee::zero())));
}

#[test]
fn failures_leave_the_fee_undetermined() {
    let collected = models(&[
        ("http://a.example/", Some(("does not compile", None))),
        ("http://b.example/", Some(("does not evaluate", None))),
        ("http://c.example/", Some(("too large", None))),
        ("http://d.example/", Some(("default => 4;", None))),
    ]);
    let fees = run(collected, &|program, _| match program {
        "does not compile" => Evaluation::CompileFailed,
        "does not evaluate" => Evaluation::EvaluationFailed,
        "too large" => Evaluation::Unrepresentable,
        _ => amount(4.0),
    });
    assert_eq!(
        quotes(&fees),
        vec![
            ("http://a.example/".to_string(), None),
            ("http://b.example/".to_string(), None),
            ("http://c.example/".to_string(), None),
            ("http://d.example/".to_string(), Some(4.0)),
        ]
    );
}

#[test]
fn same_input_same_fees() {
    let build = || {
        models(&[
            ("http://b.example/", Some(("default => 0.25;", Some("{}")))),
            ("http://a.example/", None),
            ("http://c.example/", Some(("broken", None))),
        ])
    };
    let price = |program: &str, _: &str| {
        if program == "broken" {
            Evaluation::CompileFailed
        } else {
            amount(0.25)
        }
    };
    let first = run(build(), &price);
    let second = run(build(), &price);
    assert_eq!(
        first.entries().iter().map(|e| (e.key.clone(), e.value)).collect::<Vec<_>>(),
        second.entries().iter().map(|e| (e.key.clone(), e.value)).collect::<Vec<_>>()
    );
    assert_eq!(
        quotes(&first),
        vec![
            ("http://a.example/".to_string(), Some(0.0)),
            ("http://b.example/".to_string(), Some(0.25)),
            ("http://c.example/".to_string(), None),
        ]
    );
}

#[test]
fn missing_record_is_free_and_present_record_is_priced() {
    // One endpoint timed out while the cost models were collected and has no
    // record; the other declared `default => 0.5;`.
    let collected =
        models(&[("A", None), ("B", Some(("default => 0.5;", None)))]);
    let fees = run(collected, &|program, bindings| {
        assert_eq!(program, "default => 0.5;");
        assert_eq!(bindings, "");
        amount(0.5)
    });
    assert_eq!(
        quotes(&fees),
        vec![("A".to_string(), Some(0.0)), ("B".to_string(), Some(0.5))]
    );
}
