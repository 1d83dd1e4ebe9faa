use grand_product_bench::circuit::{is_valid_config, GrandProductCircuit};
use grand_product_bench::element::BigNumber;

#[test]
fn build_has_halving_layer_sizes() {
    let c = GrandProductCircuit::new(3, 8);
    let sizes: Vec<usize> = c.layers.iter().map(|l| l.len()).collect();
    assert_eq!(sizes, vec![8, 4, 2]);
}

#[test]
fn build_fills_every_slot_with_one() {
    let c = GrandProductCircuit::new(4, 16);
    assert_eq!(c.layers.len(), 4);
    for (i, layer) in c.layers.iter().enumerate() {
        assert_eq!(layer.len(), 16 >> i);
        for e in layer {
            assert_eq!(*e, BigNumber::one());
        }
    }
}

#[test]
fn build_of_a_single_leaf_has_no_layers() {
    let c = GrandProductCircuit::new(0, 1);
    assert_eq!(c.layers.len(), 0);
    assert_eq!(c.xor_layers(), BigNumber::one());
}

#[test]
fn try_new_accepts_exactly_the_powers_of_two() {
    assert!(GrandProductCircuit::try_new(0, 1).is_some());
    assert!(GrandProductCircuit::try_new(3, 8).is_some());
    assert!(GrandProductCircuit::try_new(10, 1024).is_some());
}

#[test]
fn try_new_rejects_a_mismatched_height() {
    assert!(GrandProductCircuit::try_new(2, 8).is_none());
    assert!(GrandProductCircuit::try_new(4, 8).is_none());
}

#[test]
fn try_new_rejects_a_leaf_count_that_is_no_power_of_two() {
    assert!(GrandProductCircuit::try_new(3, 12).is_none());
    assert!(GrandProductCircuit::try_new(0, 0).is_none());
    assert!(GrandProductCircuit::try_new(1, 3).is_none());
}

#[test]
fn is_valid_config_matches_the_power_of_two_rule() {
    assert!(is_valid_config(0, 1));
    assert!(is_valid_config(3, 8));
    assert!(is_valid_config(24, 1 << 24));
    assert!(!is_valid_config(3, 7));
    assert!(!is_valid_config(2, 8));
    assert!(!is_valid_config(64, 0));
}

#[test]
fn reduce_of_a_built_circuit_is_one() {
    // height 3 holds 8 + 4 + 2 = 14 elements; with the starting accumulator
    // that is an even number of ones, so they all cancel.
    let c = GrandProductCircuit::new(3, 8);
    let total: usize = c.layers.iter().map(|l| l.len()).sum();
    assert_eq!(total, 2 * 8 - 2);
    assert_eq!(c.xor_layers(), BigNumber::one());
}

#[test]
fn reduce_of_an_odd_count_of_ones_is_zero() {
    let c = GrandProductCircuit {
        layers: vec![vec![BigNumber::one(), BigNumber::one(), BigNumber::one()]],
    };
    assert_eq!(c.xor_layers(), BigNumber::new([0, 0, 0, 0]));
}

#[test]
fn reduce_ignores_how_elements_are_arranged() {
    let a = BigNumber::new([1, 2, 3, 4]);
    let b = BigNumber::new([10, 20, 30, 40]);
    let c = BigNumber::new([7, 7, 7, 7]);
    let one_layer = GrandProductCircuit { layers: vec![vec![a, b, c]] };
    let shuffled = GrandProductCircuit { layers: vec![vec![c], vec![b, a]] };
    assert_eq!(one_layer.xor_layers(), shuffled.xor_layers());
}
