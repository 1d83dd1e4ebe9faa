use grand_product_bench::batch::{build_batch, try_build_batch};
use grand_product_bench::element::BigNumber;

#[test]
fn build_batch_returns_one_circuit_per_slot() {
    let batch = build_batch(5, 3, 8);
    assert_eq!(batch.len(), 5);
    for circuit in &batch {
        let sizes: Vec<usize> = circuit.layers.iter().map(|l| l.len()).collect();
        assert_eq!(sizes, vec![8, 4, 2]);
        for layer in &circuit.layers {
            for e in layer {
                assert_eq!(*e, BigNumber::one());
            }
        }
    }
}

#[test]
fn every_circuit_of_a_batch_reduces_to_the_same_value() {
    let batch = build_batch(5, 3, 8);
    let summaries: Vec<BigNumber> = batch.iter().map(|c| c.xor_layers()).collect();
    assert_eq!(summaries.len(), 5);
    for s in &summaries {
        assert_eq!(*s, BigNumber::one());
    }
}

#[test]
fn try_build_batch_checks_the_configuration_first() {
    let good = try_build_batch(3, 2, 4);
    assert!(good.is_some());
    assert_eq!(good.unwrap().len(), 3);
    assert!(try_build_batch(3, 2, 5).is_none());
    assert!(try_build_batch(3, 3, 4).is_none());
}

#[test]
fn an_empty_batch_is_allowed() {
    let batch = build_batch(0, 2, 4);
    assert!(batch.is_empty());
}
