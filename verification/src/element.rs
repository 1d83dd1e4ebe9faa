//! The fixed-width 256-bit element type and its exclusive-or combination.

use rand::Rng;
use vstd::prelude::*;

verus! {

/// The all-ones element `{1, 1, 1, 1}`, the canonical fill value.
pub open spec fn one_words() -> Seq<u64> {
    seq![1u64, 1u64, 1u64, 1u64]
}

/// The all-zero element, reached only by combining a value with itself.
pub open spec fn zero_words() -> Seq<u64> {
    seq![0u64, 0u64, 0u64, 0u64]
}

/// Word-wise exclusive-or of two four-word values.
pub open spec fn xor_words(a: Seq<u64>, b: Seq<u64>) -> Seq<u64> {
    Seq::new(4, |i: int| a[i] ^ b[i])
}

/// A 256-bit value held as four 64-bit words. Exclusive-or is its only
/// defined operation; there is no modulus and no canonical range.
#[derive(Clone, Copy, PartialEq, Eq, Debug)]
pub struct BigNumber {
    pub number: [u64; 4],
}

impl View for BigNumber {
    type V = Seq<u64>;

    open spec fn view(&self) -> Seq<u64> {
        self.number@
    }
}

impl BigNumber {
    /// Wraps four raw words; always succeeds.
    pub fn new(number: [u64; 4]) -> (r: BigNumber)
        ensures
            r@ == number@,
    {
        BigNumber { number }
    }

    /// The canonical "one" value `{1, 1, 1, 1}`.
    pub fn one() -> (r: BigNumber)
        ensures
            r@ == one_words(),
    {
        let r = BigNumber { number: [1u64, 1u64, 1u64, 1u64] };
        proof {
            assert(r@ =~= one_words());
        }
        r
    }

    /// Draws a fresh element of four uniformly distributed 64-bit words from
    /// the process-level random source. No determinism or seeding contract
    /// is given, so nothing is promised of the value.
    pub fn random() -> (r: BigNumber) {
        BigNumber { number: random_words() }
    }

    /// Combines two elements word-wise with exclusive-or, yielding a new
    /// element; neither input is changed.
    pub fn xor_into(&self, other: &BigNumber) -> (r: BigNumber)
        ensures
            r@ == xor_words(self@, other@),
    {
        let r = BigNumber {
            number: [
                self.number[0] ^ other.number[0],
                self.number[1] ^ other.number[1],
                self.number[2] ^ other.number[2],
                self.number[3] ^ other.number[3],
            ],
        };
        proof {
            assert(r@ =~= xor_words(self@, other@));
        }
        r
    }
}

/// Relies on `rand::thread_rng` and `Rng::gen::<u64>`: four independent
/// draws from the process-level random source. The words depend on that
/// source's state, so nothing is stated of them.
#[verifier::external_body]
fn random_words() -> (r: [u64; 4]) {
    let mut rng = rand::thread_rng();
    [rng.gen(), rng.gen(), rng.gen(), rng.gen()]
}

/// Law: exclusive-or combination is commutative.
pub proof fn lemma_xor_words_commutative(a: Seq<u64>, b: Seq<u64>)
    ensures
        xor_words(a, b) == xor_words(b, a),
{
    assert forall|i: int| 0 <= i < 4 implies xor_words(a, b)[i] == xor_words(b, a)[i] by {
        let x = a[i];
        let y = b[i];
        assert(x ^ y == y ^ x) by (bit_vector);
    }
    assert(xor_words(a, b) =~= xor_words(b, a));
}

/// Law: exclusive-or combination is associative.
pub proof fn lemma_xor_words_associative(a: Seq<u64>, b: Seq<u64>, c: Seq<u64>)
    ensures
        xor_words(xor_words(a, b), c) == xor_words(a, xor_words(b, c)),
{
    assert forall|i: int|
        0 <= i < 4 implies xor_words(xor_words(a, b), c)[i] == xor_words(a, xor_words(b, c))[i] by {
        let x = a[i];
        let y = b[i];
        let z = c[i];
        assert((x ^ y) ^ z == x ^ (y ^ z)) by (bit_vector);
    }
    assert(xor_words(xor_words(a, b), c) =~= xor_words(a, xor_words(b, c)));
}

/// Law: combining any element with itself yields the all-zero element.
pub proof fn lemma_xor_words_self_inverse(a: Seq<u64>)
    ensures
        xor_words(a, a) == zero_words(),
{
    assert forall|i: int| 0 <= i < 4 implies xor_words(a, a)[i] == zero_words()[i] by {
        let x = a[i];
        assert(x ^ x == 0u64) by (bit_vector);
    }
    assert(xor_words(a, a) =~= zero_words());
}

/// Combining with the same value twice gives back the original four-word
/// value: exclusive-or undoes itself.
pub proof fn lemma_xor_words_cancel(a: Seq<u64>, b: Seq<u64>)
    requires
        a.len() == 4,
    ensures
        xor_words(xor_words(a, b), b) == a,
{
    assert forall|i: int| 0 <= i < 4 implies xor_words(xor_words(a, b), b)[i] == a[i] by {
        let x = a[i];
        let y = b[i];
        assert((x ^ y) ^ y == x) by (bit_vector);
    }
    assert(xor_words(xor_words(a, b), b) =~= a);
}

} // verus!
