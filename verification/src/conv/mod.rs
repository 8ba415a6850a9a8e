//! Convergence of derivations.

use vstd::prelude::*;

use crate::deriv::so::{SoModel, SyntacticObject};
use crate::deriv::{stages_view, Stage, StageModel};

verus! {

/// A derivation converges at an interface when its last stage has exactly one
/// object in its workspace, and that object is the result of a Transfer.
pub open spec fn converges_model(d: Seq<StageModel>) -> bool {
    &&& d.len() >= 1
    &&& d.last().w.len() == 1
    &&& exists|so: SoModel| #[trigger] d.last().w.contains(so) && so is Transfer
}

/// Whether the last stage's workspace is one transferred object.
fn last_is_single_transfer(deriv: &[Stage]) -> (r: bool)
    ensures
        r == converges_model(stages_view(deriv@)),
{
    let ghost sv = stages_view(deriv@);
    if deriv.len() == 0 {
        return false;
    }
    let stage = &deriv[deriv.len() - 1];
    assert(sv.last() == stage@);
    let w = &stage.w.0;
    w.lemma_listing();
    if w.len() != 1 {
        return false;
    }
    let first = w.get(0);
    let ghost x = w.listing()[0];
    assert(w.listing() =~= seq![x]);
    assert(w@.contains(x));
    assert forall|so: SoModel| #[trigger] w@.contains(so) implies so == x by {
        assert(w.listing().contains(so));
    }
    match first {
        SyntacticObject::Transfer { .. } => {
            assert(x is Transfer);
            true
        },
        _ => {
            assert(!(x is Transfer));
            false
        },
    }
}

/// Convergence at the conceptual-intentional interface.
pub fn converges_ci(deriv: &[Stage]) -> (r: bool)
    ensures
        r == converges_model(stages_view(deriv@)),
{
    last_is_single_transfer(deriv)
}

/// Convergence at the sensory-motor interface.
pub fn converges_sm(deriv: &[Stage]) -> (r: bool)
    ensures
        r == converges_model(stages_view(deriv@)),
{
    last_is_single_transfer(deriv)
}

/// Convergence at both interfaces.
pub fn converges(deriv: &[Stage]) -> (r: bool)
    ensures
        r == converges_model(stages_view(deriv@)),
{
    converges_ci(deriv) && converges_sm(deriv)
}

} // verus!
