//! The layered circuit: a power-of-two binary-tree shape whose layers halve
//! in size, built in one pass and reduced by an exclusive-or fold.

use crate::element::{
    lemma_xor_words_associative, lemma_xor_words_cancel, lemma_xor_words_commutative, one_words,
    xor_words, BigNumber,
};
use vstd::arithmetic::div_mod::{lemma_div_denominator, lemma_mod_multiples_basic};
use vstd::arithmetic::power2::{
    lemma2_to64, lemma_pow2_pos, lemma_pow2_strictly_increases, lemma_pow2_subtracts,
    lemma_pow2_unfold, pow2,
};
use vstd::prelude::*;
use vstd::seq_lib::{commutative_foldl, lemma_fold_left_permutation};

verus! {

/// A `(height, leaf_count)` pair names a well-formed tree exactly when the
/// leaf count is two to the height.
pub open spec fn valid_config(height: nat, leaf_count: nat) -> bool {
    leaf_count == pow2(height)
}

/// The fold operator of the reduction: absorb one element into the
/// accumulator by word-wise exclusive-or.
pub open spec fn xor_step() -> spec_fn(Seq<u64>, BigNumber) -> Seq<u64> {
    |acc: Seq<u64>, e: BigNumber| xor_words(acc, e@)
}

/// An owned sequence of layers; layer `i` holds the elements of one
/// horizontal slice of the tree, half as many as layer `i - 1`.
pub struct GrandProductCircuit {
    pub layers: Vec<Vec<BigNumber>>,
}

impl GrandProductCircuit {
    /// The layers as a sequence of element sequences.
    pub open spec fn layers_view(self) -> Seq<Seq<BigNumber>> {
        self.layers@.map_values(|l: Vec<BigNumber>| l@)
    }

    /// Every element of the circuit, layer after layer, in traversal order.
    pub open spec fn flat_elems(self) -> Seq<BigNumber> {
        self.layers_view().flatten()
    }

    /// There are exactly `height` layers and layer `i` holds exactly
    /// `leaf_count / 2^i` elements.
    pub open spec fn has_shape(self, height: nat, leaf_count: nat) -> bool {
        &&& self.layers@.len() == height
        &&& forall|i: int|
            0 <= i < height ==> #[trigger] self.layers@[i]@.len() == leaf_count / pow2(i as nat)
    }

    /// Every element of every layer is the canonical one.
    pub open spec fn all_ones(self) -> bool {
        forall|i: int, j: int|
            0 <= i < self.layers@.len() && 0 <= j < self.layers@[i]@.len()
                ==> #[trigger] self.layers@[i]@[j]@ == one_words()
    }

    /// What construction guarantees: the power-of-two layer shape, with every
    /// slot filled by the canonical one.
    pub open spec fn is_built(self, height: nat, leaf_count: nat) -> bool {
        self.has_shape(height, leaf_count) && self.all_ones()
    }

    /// What `xor_layers` computes: the left fold of exclusive-or over every
    /// element in traversal order, starting from the canonical one.
    pub open spec fn reduce_spec(self) -> Seq<u64> {
        self.flat_elems().fold_left(one_words(), xor_step())
    }

    /// Builds the circuit for a valid configuration: `height` layers, the
    /// first holding `leaf_count` canonical-one elements, each further layer
    /// half as many as the one before it.
    pub fn new(height: usize, leaf_count: usize) -> (r: GrandProductCircuit)
        requires
            valid_config(height as nat, leaf_count as nat),
        ensures
            r.is_built(height as nat, leaf_count as nat),
    {
        let mut layers: Vec<Vec<BigNumber>> = Vec::new();
        let mut size: usize = leaf_count;
        let mut li: usize = 0;
        proof {
            lemma2_to64();
        }
        while li < height
            invariant
                li <= height,
                layers@.len() == li,
                size as nat == leaf_count as nat / pow2(li as nat),
                forall|i: int|
                    0 <= i < li ==> #[trigger] layers@[i]@.len() == leaf_count as nat / pow2(
                        i as nat,
                    ),
                forall|i: int, j: int|
                    0 <= i < li && 0 <= j < layers@[i]@.len() ==> #[trigger] layers@[i]@[j]@
                        == one_words(),
            decreases height - li,
        {
            let mut layer: Vec<BigNumber> = Vec::new();
            let mut j: usize = 0;
            while j < size
                invariant
                    j <= size,
                    layer@.len() == j,
                    forall|k: int| 0 <= k < j ==> #[trigger] layer@[k]@ == one_words(),
                decreases size - j,
            {
                layer.push(BigNumber::one());
                j += 1;
            }
            layers.push(layer);
            proof {
                lemma_pow2_pos(li as nat);
                lemma_pow2_unfold(li as nat + 1);
                lemma_div_denominator(leaf_count as int, pow2(li as nat) as int, 2);
            }
            size = size / 2;
            li += 1;
        }
        GrandProductCircuit { layers }
    }

    /// Validates a configuration and builds the circuit only when it is
    /// well-formed: returns `Some` exactly when `leaf_count == 2^height`,
    /// and `None` otherwise, so that a bad pair can never yield a malformed
    /// structure.
    pub fn try_new(height: usize, leaf_count: usize) -> (r: Option<GrandProductCircuit>)
        ensures
            r is Some <==> valid_config(height as nat, leaf_count as nat),
            match r {
                Some(c) => c.is_built(height as nat, leaf_count as nat),
                None => true,
            },
    {
        if is_valid_config(height, leaf_count) {
            Some(GrandProductCircuit::new(height, leaf_count))
        } else {
            None
        }
    }

    /// Folds every element of the circuit into one summary element with
    /// exclusive-or, starting from the canonical one, layer after layer and
    /// element after element within each layer.
    pub fn xor_layers(&self) -> (r: BigNumber)
        ensures
            r@ == self.reduce_spec(),
    {
        let ghost lv = self.layers_view();
        let mut acc = BigNumber::one();
        proof {
            assert(lv.take(0).flatten() =~= Seq::<BigNumber>::empty());
            assert(Seq::<BigNumber>::empty().fold_left(one_words(), xor_step()) == one_words());
        }
        let mut li: usize = 0;
        while li < self.layers.len()
            invariant
                li <= self.layers@.len(),
                lv == self.layers_view(),
                acc@ == lv.take(li as int).flatten().fold_left(one_words(), xor_step()),
            decreases self.layers@.len() - li,
        {
            let layer: &Vec<BigNumber> = &self.layers[li];
            let ghost l = lv[li as int];
            let ghost pre = lv.take(li as int).flatten();
            proof {
                assert(layer@ == l);
                assert((pre + l.take(0)) =~= pre);
            }
            let mut j: usize = 0;
            while j < layer.len()
                invariant
                    j <= layer@.len(),
                    layer@ == l,
                    acc@ == (pre + l.take(j as int)).fold_left(one_words(), xor_step()),
                decreases layer@.len() - j,
            {
                let ghost acc0 = acc@;
                acc = acc.xor_into(&layer[j]);
                proof {
                    let s = pre + l.take(j as int);
                    assert(s.push(l[j as int]).drop_last() =~= s);
                    assert(s.push(l[j as int]).fold_left(one_words(), xor_step()) == xor_step()(
                        s.fold_left(one_words(), xor_step()),
                        l[j as int],
                    ));
                    assert((pre + l.take(j as int + 1)) =~= s.push(l[j as int]));
                    assert(acc@ == xor_step()(acc0, l[j as int]));
                }
                j += 1;
            }
            proof {
                assert(l.take(l.len() as int) =~= l);
                assert(lv.take(li as int + 1) =~= lv.take(li as int).push(l));
                lv.take(li as int).lemma_flatten_push(l);
            }
            li += 1;
        }
        proof {
            assert(lv.take(lv.len() as int) =~= lv);
        }
        acc
    }
}

/// Law: the fold operator of the reduction commutes, so folding the same
/// elements in any order gives the same accumulator.
pub proof fn lemma_xor_step_commutative()
    ensures
        commutative_foldl(xor_step()),
{
    let f = xor_step();
    assert forall|x: BigNumber, y: BigNumber, v: Seq<u64>| #[trigger] f(f(v, x), y) == f(
        f(v, y),
        x,
    ) by {
        lemma_xor_words_associative(v, x@, y@);
        lemma_xor_words_commutative(x@, y@);
        lemma_xor_words_associative(v, y@, x@);
    }
}

/// Law: the reduction is invariant to traversal order — two circuits that
/// hold the same elements, however arranged across layers, reduce to the
/// same summary value.
pub proof fn lemma_reduce_order_invariant(c1: GrandProductCircuit, c2: GrandProductCircuit)
    requires
        c1.flat_elems().to_multiset() == c2.flat_elems().to_multiset(),
    ensures
        c1.reduce_spec() == c2.reduce_spec(),
{
    lemma_xor_step_commutative();
    lemma_fold_left_permutation(c1.flat_elems(), c2.flat_elems(), xor_step(), one_words());
}

/// Law: a circuit of the power-of-two shape holds exactly
/// `2 * leaf_count - 2` elements in total: the sum of the geometric halving
/// series over its layers.
pub proof fn lemma_total_elements(c: GrandProductCircuit, height: nat, leaf_count: nat)
    requires
        valid_config(height, leaf_count),
        c.has_shape(height, leaf_count),
    ensures
        c.flat_elems().len() == 2 * leaf_count - 2,
{
    lemma_flatten_len_shape(c.layers_view(), height, leaf_count);
}

/// Law: for a valid configuration no layer is empty — layer `i` holds
/// `2^(height - i)` elements, which is at least two, since the layer below
/// the root (`i == height - 1`) still holds a pair.
pub proof fn lemma_no_empty_layer(c: GrandProductCircuit, height: nat, leaf_count: nat)
    requires
        valid_config(height, leaf_count),
        c.has_shape(height, leaf_count),
    ensures
        forall|i: int|
            0 <= i < height ==> #[trigger] c.layers@[i]@.len() == pow2((height - i) as nat),
        forall|i: int| 0 <= i < height ==> #[trigger] c.layers@[i]@.len() >= 2,
{
    lemma2_to64();
    assert forall|i: int|
        0 <= i < height implies #[trigger] c.layers@[i]@.len() == pow2((height - i) as nat)
        && c.layers@[i]@.len() >= 2 by {
        lemma_pow2_subtracts(i as nat, height);
        if height - i > 1 {
            lemma_pow2_strictly_increases(1, (height - i) as nat);
        }
    }
}

/// Law: folding any number of canonical-one elements into a four-word
/// accumulator leaves the accumulator unchanged when their count is even,
/// and flips it by one exclusive-or when their count is odd.
pub proof fn lemma_fold_ones_parity(acc: Seq<u64>, s: Seq<BigNumber>)
    requires
        acc.len() == 4,
        forall|k: int| 0 <= k < s.len() ==> #[trigger] s[k]@ == one_words(),
    ensures
        s.fold_left(acc, xor_step()) == (if s.len() % 2 == 0 {
            acc
        } else {
            xor_words(acc, one_words())
        }),
    decreases s.len(),
{
    if s.len() > 0 {
        let s0 = s.drop_last();
        assert(forall|k: int| 0 <= k < s0.len() ==> #[trigger] s0[k]@ == s[k]@);
        lemma_fold_ones_parity(acc, s0);
        assert(s.fold_left(acc, xor_step()) == xor_step()(s0.fold_left(acc, xor_step()), s.last()));
        assert(s.last()@ == one_words());
        if s.len() % 2 == 0 {
            lemma_xor_words_cancel(acc, one_words());
        }
    }
}

/// Law: a freshly built circuit always reduces to the canonical one. It
/// holds `2 * leaf_count - 2` elements — an even number — all equal to one,
/// and an even count of ones cancels out of the accumulator.
pub proof fn lemma_reduce_built_is_one(c: GrandProductCircuit, height: nat, leaf_count: nat)
    requires
        valid_config(height, leaf_count),
        c.is_built(height, leaf_count),
    ensures
        c.reduce_spec() == one_words(),
{
    lemma_total_elements(c, height, leaf_count);
    lemma_pow2_pos(height);
    let lv = c.layers_view();
    assert forall|i: int, j: int|
        0 <= i < lv.len() && 0 <= j < lv[i].len() implies #[trigger] lv[i][j]@ == one_words() by {
        assert(lv[i] == c.layers@[i]@);
    }
    lemma_flatten_all_ones(lv);
    lemma_mod_multiples_basic(leaf_count - 1, 2);
    assert(c.flat_elems().len() % 2 == 0);
    lemma_fold_ones_parity(one_words(), c.flat_elems());
}

/// The total length of a sequence of layers of the halving shape: each layer
/// is half the one before it, so the lengths sum to twice the first minus
/// two.
proof fn lemma_flatten_len_shape(ls: Seq<Seq<BigNumber>>, height: nat, leaf_count: nat)
    requires
        leaf_count == pow2(height),
        ls.len() == height,
        forall|i: int| 0 <= i < height ==> #[trigger] ls[i].len() == leaf_count / pow2(i as nat),
    ensures
        ls.flatten().len() == 2 * leaf_count - 2,
    decreases height,
{
    lemma2_to64();
    if height == 0 {
        assert(ls.flatten() =~= Seq::<BigNumber>::empty());
    } else {
        let rest = ls.drop_first();
        lemma_pow2_unfold(height);
        assert forall|i: int|
            0 <= i < height - 1 implies #[trigger] rest[i].len() == (leaf_count / 2) / pow2(
            i as nat,
        ) by {
            assert(rest[i] == ls[i + 1]);
            lemma_pow2_pos(i as nat);
            lemma_pow2_unfold(i as nat + 1);
            lemma_div_denominator(leaf_count as int, 2, pow2(i as nat) as int);
        }
        lemma_flatten_len_shape(rest, (height - 1) as nat, leaf_count / 2);
        assert(ls.flatten() == ls.first() + rest.flatten());
        assert(ls.first().len() == leaf_count / pow2(0));
    }
}

/// Every element of the concatenation of all-ones layers is itself one.
proof fn lemma_flatten_all_ones(ls: Seq<Seq<BigNumber>>)
    requires
        forall|i: int, j: int|
            0 <= i < ls.len() && 0 <= j < ls[i].len() ==> #[trigger] ls[i][j]@ == one_words(),
    ensures
        forall|k: int| 0 <= k < ls.flatten().len() ==> #[trigger] ls.flatten()[k]@ == one_words(),
    decreases ls.len(),
{
    if ls.len() > 0 {
        let rest = ls.drop_first();
        assert forall|i: int, j: int|
            0 <= i < rest.len() && 0 <= j < rest[i].len() implies #[trigger] rest[i][j]@
            == one_words() by {
            assert(rest[i] == ls[i + 1]);
        }
        lemma_flatten_all_ones(rest);
        assert(ls.flatten() == ls.first() + rest.flatten());
        assert forall|k: int| 0 <= k < ls.flatten().len() implies #[trigger] ls.flatten()[k]@
            == one_words() by {
            if k < ls.first().len() {
                assert(ls.flatten()[k] == ls[0][k]);
            } else {
                assert(ls.flatten()[k] == rest.flatten()[k - ls.first().len()]);
            }
        }
    }
}

/// Checks a configuration: true exactly when `leaf_count` is two to the
/// `height`, the shape every constructor demands.
pub fn is_valid_config(height: usize, leaf_count: usize) -> (r: bool)
    ensures
        r == valid_config(height as nat, leaf_count as nat),
{
    match checked_pow2(height) {
        Some(p) => p == leaf_count,
        None => false,
    }
}

/// Computes `2^height` when it fits in `usize`, and reports the overflow
/// otherwise (in which case no `usize` leaf count can match it).
fn checked_pow2(height: usize) -> (r: Option<usize>)
    ensures
        match r {
            Some(p) => p as nat == pow2(height as nat),
            None => pow2(height as nat) > usize::MAX,
        },
{
    let mut p: usize = 1;
    let mut i: usize = 0;
    proof {
        lemma2_to64();
    }
    while i < height
        invariant
            i <= height,
            p as nat == pow2(i as nat),
        decreases height - i,
    {
        if p > usize::MAX / 2 {
            proof {
                lemma_pow2_unfold(i as nat + 1);
                if i as nat + 1 < height as nat {
                    lemma_pow2_strictly_increases(i as nat + 1, height as nat);
                }
            }
            return None;
        }
        proof {
            lemma_pow2_unfold(i as nat + 1);
        }
        p = p * 2;
        i += 1;
    }
    Some(p)
}

} // verus!
