//! The simulation loop as a state machine that hands out one action at a
//! time: per step, the pairwise force sweep, then the integration of every
//! body in index order, then an observation point.
use vstd::prelude::*;

use crate::sweep::{is_pair_sweep, joins, lemma_each_pair_once, pair_count, unordered_pairs};

verus! {

/// One unit of work of a simulation step.
#[derive(Clone, Copy, Debug, PartialEq, Eq, Structural)]
pub enum Action {
    /// Accumulate the mutual force between bodies `i` and `j`, with `i < j`.
    Interact(usize, usize),
    /// Advance body `k` over one time step and clear its accumulated force.
    Advance(usize),
    /// The step is complete: the state may be sampled.
    Observe,
}

/// Where the current step stands.
#[derive(Clone, Copy, Debug, PartialEq, Eq, Structural)]
enum Phase {
    Sweep(usize),
    Advance(usize),
    Observe,
}

/// Number of actions in one step over `n` bodies whose sweep has
/// `pairs_len` pairs.
pub open spec fn step_len(pairs_len: nat, n: nat) -> nat {
    pairs_len + n + 1
}

/// The action at position `p` of a step over `n` bodies with sweep `pairs`.
pub open spec fn action_at(pairs: Seq<(usize, usize)>, n: nat, p: nat) -> Action {
    if p < pairs.len() {
        Action::Interact(pairs[p as int].0, pairs[p as int].1)
    } else if p < pairs.len() + n {
        Action::Advance((p - pairs.len()) as usize)
    } else {
        Action::Observe
    }
}

/// `a` is the interaction of the bodies `x` and `y`, in either orientation.
pub open spec fn interacts(a: Action, x: usize, y: usize) -> bool {
    match a {
        Action::Interact(i, j) => joins((i, j), x, y),
        _ => false,
    }
}

/// Within a step, no body interacts with itself, and every unordered pair of
/// distinct bodies `{x, y}` interacts exactly once, before any body advances.
pub proof fn lemma_step_interactions(pairs: Seq<(usize, usize)>, n: nat, x: usize, y: usize)
    requires
        is_pair_sweep(pairs, n),
        x != y,
        (x as nat) < n,
        (y as nat) < n,
    ensures
        forall|p: nat|
            #[trigger] action_at(pairs, n, p) is Interact ==> p < pairs.len() && action_at(
                pairs,
                n,
                p,
            )->Interact_0 < action_at(pairs, n, p)->Interact_1 && (action_at(
                pairs,
                n,
                p,
            )->Interact_1 as nat) < n,
        exists|p: nat| p < step_len(pairs.len(), n) && interacts(#[trigger] action_at(pairs, n, p), x, y),
        forall|p1: nat, p2: nat|
            interacts(#[trigger] action_at(pairs, n, p1), x, y) && interacts(
                #[trigger] action_at(pairs, n, p2),
                x,
                y,
            ) ==> p1 == p2,
{
    lemma_each_pair_once(pairs, n, x, y);
    let k = choose|k: int| 0 <= k < pairs.len() && joins(#[trigger] pairs[k], x, y);
    assert(interacts(action_at(pairs, n, k as nat), x, y));
    assert forall|p1: nat, p2: nat|
        interacts(#[trigger] action_at(pairs, n, p1), x, y) && interacts(
            #[trigger] action_at(pairs, n, p2),
            x,
            y,
        ) implies p1 == p2 by {
        assert(joins(pairs[p1 as int], x, y));
        assert(joins(pairs[p2 as int], x, y));
    }
}

/// Within a step, every body advances exactly once, in index order, after
/// all interactions, and the step closes with a single observation point.
pub proof fn lemma_step_advances(pairs: Seq<(usize, usize)>, bodies: usize)
    ensures
        forall|k: usize|
            k < bodies ==> #[trigger] action_at(pairs, bodies as nat, pairs.len() + k as nat)
                == Action::Advance(k),
        forall|p: nat|
            p < step_len(pairs.len(), bodies as nat) && (#[trigger] action_at(
                pairs,
                bodies as nat,
                p,
            )) is Advance ==> p == pairs.len() + action_at(pairs, bodies as nat, p)->Advance_0,
        forall|p: nat|
            p < step_len(pairs.len(), bodies as nat) && #[trigger] action_at(pairs, bodies as nat, p)
                == Action::Observe ==> p + 1 == step_len(pairs.len(), bodies as nat),
{
}

/// A run of a fixed number of steps over a fixed number of bodies.
pub struct Run {
    pairs: Vec<(usize, usize)>,
    bodies: usize,
    steps: u64,
    step: u64,
    phase: Phase,
}

impl Run {
    /// Number of bodies.
    pub closed spec fn bodies(self) -> nat {
        self.bodies as nat
    }

    /// Number of steps the run performs.
    pub closed spec fn steps(self) -> nat {
        self.steps as nat
    }

    /// Number of steps completed so far.
    pub closed spec fn step(self) -> nat {
        self.step as nat
    }

    /// The pair sweep that every step performs.
    pub closed spec fn pairs(self) -> Seq<(usize, usize)> {
        self.pairs@
    }

    /// Position of the next action within the current step.
    pub closed spec fn pos(self) -> nat {
        match self.phase {
            Phase::Sweep(k) => k as nat,
            Phase::Advance(k) => self.pairs@.len() + k as nat,
            Phase::Observe => self.pairs@.len() + self.bodies as nat,
        }
    }

    /// Every step has been handed out.
    pub open spec fn finished(self) -> bool {
        self.step() == self.steps()
    }

    /// The phase names an existing pair or body.
    pub closed spec fn phase_ok(self) -> bool {
        match self.phase {
            Phase::Sweep(k) => k < self.pairs@.len(),
            Phase::Advance(k) => k < self.bodies,
            Phase::Observe => true,
        }
    }

    /// Well-formedness: the stored sweep is the full pair sweep and the
    /// position lies within a step, at its start once the run is finished.
    pub open spec fn wf(self) -> bool {
        &&& is_pair_sweep(self.pairs(), self.bodies())
        &&& self.pairs().len() == pair_count(self.bodies())
        &&& self.step() <= self.steps()
        &&& self.pos() < step_len(self.pairs().len(), self.bodies())
        &&& self.finished() ==> self.pos() == 0
        &&& self.phase_ok()
    }

    /// The phase that opens a step.
    fn first_phase(pairs_len: usize, bodies: usize) -> (p: Phase)
        ensures
            match p {
                Phase::Sweep(k) => k == 0 && 0 < pairs_len,
                Phase::Advance(k) => k == 0 && pairs_len == 0 && 0 < bodies,
                Phase::Observe => pairs_len == 0 && bodies == 0,
            },
    {
        if pairs_len > 0 {
            Phase::Sweep(0)
        } else if bodies > 0 {
            Phase::Advance(0)
        } else {
            Phase::Observe
        }
    }

    /// A run of `steps` steps over `bodies` bodies, at its start.
    pub fn new(bodies: usize, steps: u64) -> (r: Run)
        ensures
            r.wf(),
            r.bodies() == bodies,
            r.steps() == steps,
            r.step() == 0,
            r.pos() == 0,
    {
        let pairs = unordered_pairs(bodies);
        let phase = Run::first_phase(pairs.len(), bodies);
        Run { pairs, bodies, steps, step: 0, phase }
    }

    /// The next action, or `None` once every step has been handed out.
    pub fn next(&mut self) -> (a: Option<Action>)
        requires
            old(self).wf(),
        ensures
            final(self).wf(),
            final(self).bodies() == old(self).bodies(),
            final(self).steps() == old(self).steps(),
            final(self).pairs() == old(self).pairs(),
            old(self).finished() ==> a is None && final(self).step() == old(self).step()
                && final(self).pos() == old(self).pos(),
            !old(self).finished() ==> a == Some(
                action_at(old(self).pairs(), old(self).bodies(), old(self).pos()),
            ),
            !old(self).finished() && old(self).pos() + 1 == step_len(
                old(self).pairs().len(),
                old(self).bodies(),
            ) ==> final(self).step() == old(self).step() + 1 && final(self).pos() == 0,
            !old(self).finished() && old(self).pos() + 1 < step_len(
                old(self).pairs().len(),
                old(self).bodies(),
            ) ==> final(self).step() == old(self).step() && final(self).pos() == old(self).pos()
                + 1,
    {
        if self.step == self.steps {
            return None;
        }
        match self.phase {
            Phase::Sweep(k) => {
                let (i, j) = self.pairs[k];
                self.phase = if k < self.pairs.len() - 1 {
                    Phase::Sweep(k + 1)
                } else if self.bodies > 0 {
                    Phase::Advance(0)
                } else {
                    Phase::Observe
                };
                Some(Action::Interact(i, j))
            },
            Phase::Advance(k) => {
                self.phase = if k < self.bodies - 1 {
                    Phase::Advance(k + 1)
                } else {
                    Phase::Observe
                };
                Some(Action::Advance(k))
            },
            Phase::Observe => {
                self.phase = Run::first_phase(self.pairs.len(), self.bodies);
                self.step = self.step + 1;
                Some(Action::Observe)
            },
        }
    }
}

} // verus!
