//! Parallel construction of a batch of independent circuits: the fan-out
//! runs on a worker pool, the fan-in keeps the results in slot order.

use crate::circuit::{is_valid_config, valid_config, GrandProductCircuit};
use rayon::iter::{IntoParallelIterator, ParallelIterator};
use vstd::prelude::*;

verus! {

/// Relies on rayon's `into_par_iter` / `map` / `collect` over
/// `0..batch_size`: the parallel map runs one call of the verified
/// `GrandProductCircuit::new` per slot, and collecting an indexed parallel
/// iterator into a `Vec` keeps the results in slot order. Each circuit's
/// shape is proved by `new`'s own contract; only the fan-out and the
/// index-stable fan-in are taken from rayon.
#[verifier::external_body]
fn build_batch_parallel(batch_size: usize, height: usize, leaf_count: usize) -> (r: Vec<
    GrandProductCircuit,
>)
    requires
        valid_config(height as nat, leaf_count as nat),
    ensures
        r@.len() == batch_size,
        forall|i: int|
            0 <= i < r@.len() ==> (#[trigger] r@[i]).is_built(height as nat, leaf_count as nat),
{
    (0..batch_size).into_par_iter().map(
        |_slot| GrandProductCircuit::new(height, leaf_count),
    ).collect()
}

/// Builds `batch_size` independent circuits, all with the same valid
/// configuration, dispatched across the host's worker pool; the circuit at
/// index `i` of the result is the one built for batch slot `i`, whatever
/// order the workers finished in.
pub fn build_batch(batch_size: usize, height: usize, leaf_count: usize) -> (r: Vec<
    GrandProductCircuit,
>)
    requires
        valid_config(height as nat, leaf_count as nat),
    ensures
        r@.len() == batch_size,
        forall|i: int|
            0 <= i < r@.len() ==> (#[trigger] r@[i]).is_built(height as nat, leaf_count as nat),
{
    build_batch_parallel(batch_size, height, leaf_count)
}

/// Validates the configuration first and builds the batch only when it is
/// well-formed: returns `Some` exactly when `leaf_count == 2^height`, and
/// `None` otherwise, so one bad configuration fails the whole batch up
/// front and no partial result ever escapes.
pub fn try_build_batch(batch_size: usize, height: usize, leaf_count: usize) -> (r: Option<
    Vec<GrandProductCircuit>,
>)
    ensures
        r is Some <==> valid_config(height as nat, leaf_count as nat),
        match r {
            Some(v) => v@.len() == batch_size && forall|i: int|
                0 <= i < v@.len() ==> (#[trigger] v@[i]).is_built(
                    height as nat,
                    leaf_count as nat,
                ),
            None => true,
        },
{
    if is_valid_config(height, leaf_count) {
        Some(build_batch(batch_size, height, leaf_count))
    } else {
        None
    }
}

} // verus!
