//! The deterministic simulation that a session drives.
use vstd::prelude::*;
use crate::input::PlayerInputFrame;

verus! {

/// A deterministic simulation: its state and one tick of it. `advance` must
/// compute exactly `step`, so that the same inputs from the same state give
/// the same state on every machine.
pub trait Game {
    type State;

    /// The state after one tick with one input per player.
    spec fn step(s: Self::State, inputs: Seq<PlayerInputFrame>) -> Self::State;

    /// Runs one tick.
    fn advance(s: &Self::State, inputs: &Vec<PlayerInputFrame>) -> (r: Self::State)
        ensures
            r == Self::step(*s, inputs@),
    ;
}

/// The state after the first `n` ticks from `init`, tick `f` using
/// `inputs[f]`.
pub open spec fn run<G: Game>(
    init: G::State,
    inputs: Seq<Seq<PlayerInputFrame>>,
    n: nat,
) -> G::State
    decreases n,
{
    if n == 0 {
        init
    } else {
        G::step(run::<G>(init, inputs, (n - 1) as nat), inputs[n - 1])
    }
}

/// The state after `n` ticks depends only on the inputs of those ticks: two
/// runs from the same state with the same inputs for frames `0 .. n` reach
/// the same state at every frame up to `n`.
pub proof fn lemma_determinism<G: Game>(
    init: G::State,
    a: Seq<Seq<PlayerInputFrame>>,
    b: Seq<Seq<PlayerInputFrame>>,
    n: nat,
)
    requires
        forall|f: int| 0 <= f < n ==> a[f] == b[f],
    ensures
        forall|m: nat| m <= n ==> run::<G>(init, a, m) == run::<G>(init, b, m),
    decreases n,
{
    if n > 0 {
        lemma_determinism::<G>(init, a, b, (n - 1) as nat);
        assert forall|m: nat| m <= n implies run::<G>(init, a, m) == run::<G>(init, b, m) by {
            if m == n {
                assert(run::<G>(init, a, (n - 1) as nat) == run::<G>(init, b, (n - 1) as nat));
            }
        }
    }
}

} // verus!
