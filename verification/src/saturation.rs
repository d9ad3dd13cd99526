//! Facts about saturating a substitution.

use vstd::prelude::*;
use crate::term::TermV;
use crate::semantics::{spec_saturate, spec_saturate_ok, spec_saturated_map, spec_norm_applied};

verus! {

/// A map of the normalized applied terms is what saturation gives.
pub proof fn lemma_saturate_done(sv: Map<u64, TermV>, rv: Map<u64, TermV>, fuel: nat)
    requires
        fuel >= 1,
        forall|x: u64| rv.contains_key(x) <==> sv.contains_key(x),
        forall|x: u64| rv.contains_key(x) ==> spec_norm_applied(sv[x], sv, (fuel - 1) as nat) == Some(#[trigger] rv[x]),
    ensures
        spec_saturate(sv, fuel) == Some(rv),
{
    let f = (fuel - 1) as nat;
    reveal(spec_saturate);
    assert forall|k: u64| sv.contains_key(k) implies (#[trigger] spec_norm_applied(sv[k], sv, f)) is Some by {
        assert(spec_norm_applied(sv[k], sv, f) == Some(rv[k]));
    }
    assert(spec_saturate_ok(sv, f));
    assert(rv =~= spec_saturated_map(sv, f));
}

/// Saturation fails where one term cannot be normalized within the budget.
pub proof fn lemma_saturate_fails(sv: Map<u64, TermV>, k: u64, fuel: nat)
    requires
        fuel >= 1,
        sv.contains_key(k),
        spec_norm_applied(sv[k], sv, (fuel - 1) as nat) is None,
    ensures
        spec_saturate(sv, fuel) is None,
{
    reveal(spec_saturate);
    assert(!spec_saturate_ok(sv, (fuel - 1) as nat));
}

/// Saturation with no step left fails.
pub proof fn lemma_saturate_zero(sv: Map<u64, TermV>)
    ensures
        spec_saturate(sv, 0) is None,
{
    reveal(spec_saturate);
}

} // verus!
