use grand_product_bench::element::BigNumber;

#[test]
fn new_keeps_the_words() {
    let e = BigNumber::new([5, 6, 7, 8]);
    assert_eq!(e.number, [5, 6, 7, 8]);
}

#[test]
fn one_is_all_ones() {
    assert_eq!(BigNumber::one().number, [1, 1, 1, 1]);
}

#[test]
fn xor_into_combines_word_wise() {
    let a = BigNumber::new([1, 2, 3, 4]);
    let b = BigNumber::new([4, 3, 2, 1]);
    let r = a.xor_into(&b);
    assert_eq!(r.number, [5, 1, 1, 5]);
    assert_eq!(a.number, [1, 2, 3, 4]);
    assert_eq!(b.number, [4, 3, 2, 1]);
}

#[test]
fn xor_into_is_commutative() {
    let a = BigNumber::new([0xdead, 0xbeef, 17, u64::MAX]);
    let b = BigNumber::random();
    assert_eq!(a.xor_into(&b), b.xor_into(&a));
}

#[test]
fn xor_into_is_associative() {
    let a = BigNumber::random();
    let b = BigNumber::new([9, 99, 999, 9999]);
    let c = BigNumber::random();
    assert_eq!(a.xor_into(&b).xor_into(&c), a.xor_into(&b.xor_into(&c)));
}

#[test]
fn xor_into_self_is_zero() {
    let x = BigNumber::random();
    assert_eq!(x.xor_into(&x).number, [0, 0, 0, 0]);
    let y = BigNumber::new([u64::MAX, 0, 1, 42]);
    assert_eq!(y.xor_into(&y).number, [0, 0, 0, 0]);
}
