//! Running instances of state machines.

use vstd::prelude::*;

use crate::ast::{opt_view, views};
use crate::fsm::{
    find_fsm_named, fsm_def, registry_target, FsmEntryV, FsmId, FsmIdV, FsmRegistry, TickGuardV,
};
use crate::text::{opt_text, same};

verus! {

// ---------------------------------------------------------------------------
// Ticks
// ---------------------------------------------------------------------------

/// A guard to evaluate and the state to go to when it holds.
#[derive(Debug, PartialEq, Eq)]
pub struct TickCandidate {
    pub guard_fn: String,
    pub to: String,
}

/// View of [`TickCandidate`].
pub struct TickCandidateV {
    pub guard_fn: Seq<char>,
    pub to: Seq<char>,
}

impl View for TickCandidate {
    type V = TickCandidateV;

    open spec fn view(&self) -> TickCandidateV {
        TickCandidateV { guard_fn: self.guard_fn@, to: self.to@ }
    }
}

/// The guards that can be evaluated in the state `current`, in order.
pub open spec fn guards_from(s: Seq<TickGuardV>, current: Seq<char>) -> Seq<TickCandidateV>
    decreases s.len(),
{
    if s.len() == 0 {
        seq![]
    } else {
        let front = guards_from(s.drop_last(), current);
        match s.last().guard_fn {
            Some(guard_fn) => if s.last().from == current {
                front.push(TickCandidateV { guard_fn, to: s.last().to })
            } else {
                front
            },
            None => front,
        }
    }
}

/// The guards that a tick evaluates for a registered machine.
pub open spec fn candidates_of(s: Seq<FsmEntryV>, id: FsmIdV, current: Seq<char>) -> Seq<
    TickCandidateV,
> {
    match fsm_def(s, id) {
        Some(d) => guards_from(d.tick_guards, current),
        None => seq![],
    }
}

/// What the evaluation of a guard came to: `None` when there is no function
/// of that name, else the number that it returned.
pub open spec fn guard_fires(outcome: Option<i32>) -> bool {
    match outcome {
        Some(n) => n != 0,
        None => false,
    }
}

/// The first of the outcomes that fires.
pub open spec fn first_firing(outcomes: Seq<Option<i32>>) -> Option<int>
    decreases outcomes.len(),
{
    if outcomes.len() == 0 {
        None
    } else {
        match first_firing(outcomes.drop_last()) {
            Some(i) => Some(i),
            None => if guard_fires(outcomes.last()) {
                Some(outcomes.len() - 1)
            } else {
                None
            },
        }
    }
}

/// What a tick does next.
#[derive(Debug, PartialEq, Eq)]
pub enum TickStep {
    /// Evaluate the guard with this number.
    Evaluate(usize),
    /// Go to this state.
    Fire(String),
    /// Stay: no guard holds.
    Stay,
}

/// What a tick does after the guards so far came to `outcomes`: it goes to the
/// state of the first guard that fires, evaluates the next guard, or stays.
pub open spec fn is_tick_step(
    candidates: Seq<TickCandidateV>,
    outcomes: Seq<Option<i32>>,
    r: TickStep,
) -> bool {
    match first_firing(outcomes) {
        Some(i) => r matches TickStep::Fire(to) && to@ == candidates[i].to,
        None => if outcomes.len() < candidates.len() {
            r == TickStep::Evaluate(outcomes.len() as usize)
        } else {
            r == TickStep::Stay
        },
    }
}

/// The guards that a tick evaluates in the state `current` of a machine.
pub fn tick_candidates(registry: &FsmRegistry, id: &FsmId, current: &str) -> (r: Vec<
    TickCandidate,
>)
    requires
        registry.wf(),
    ensures
        views(r@) == candidates_of(registry@, id@, current@),
{
    let mut r: Vec<TickCandidate> = Vec::new();
    assert(views(r@) =~= Seq::<TickCandidateV>::empty());
    match registry.get(id) {
        Some(d) => {
            let ghost all = d@.tick_guards;
            assert(all.take(0) =~= Seq::<TickGuardV>::empty());
            for i in 0..d.tick_guards.len()
                invariant
                    all == d@.tick_guards,
                    views(r@) == guards_from(all.take(i as int), current@),
            {
                let g = &d.tick_guards[i];
                proof {
                    assert(all.take(i + 1).drop_last() =~= all.take(i as int));
                    assert(all[i as int] == g@);
                }
                match &g.guard_fn {
                    Some(guard_fn) => {
                        if same(&g.from, current) {
                            let c = TickCandidate { guard_fn: guard_fn.clone(), to: g.to.clone() };
                            assert(views(r@.push(c)) =~= views(r@).push(c@));
                            r.push(c);
                        }
                    },
                    None => {},
                }
            }
            assert(all.take(all.len() as int) =~= all);
        },
        None => {},
    }
    r
}

/// What a tick does after the guards so far came to `outcomes`: guards are
/// evaluated in order until one fires.
pub fn next_tick_step(candidates: &Vec<TickCandidate>, outcomes: &Vec<Option<i32>>) -> (r: TickStep)
    requires
        outcomes@.len() <= candidates@.len(),
    ensures
        is_tick_step(views(candidates@), outcomes@, r),
{
    let mut i: usize = 0;
    while i < outcomes.len()
        invariant
            i <= outcomes@.len(),
            outcomes@.len() <= candidates@.len(),
            first_firing(outcomes@.take(i as int)) is None,
        decreases outcomes@.len() - i,
    {
        proof {
            assert(outcomes@.take(i + 1).drop_last() =~= outcomes@.take(i as int));
        }
        let fires = match outcomes[i] {
            Some(n) => n != 0,
            None => false,
        };
        if fires {
            proof {
                first_firing_stable(outcomes@, i + 1);
            }
            return TickStep::Fire(candidates[i].to.clone());
        }
        i = i + 1;
    }
    assert(outcomes@.take(outcomes@.len() as int) =~= outcomes@);
    if i < candidates.len() {
        TickStep::Evaluate(i)
    } else {
        TickStep::Stay
    }
}

proof fn first_firing_stable(s: Seq<Option<i32>>, n: int)
    requires
        0 <= n <= s.len(),
        first_firing(s.take(n)) is Some,
    ensures
        first_firing(s) == first_firing(s.take(n)),
    decreases s.len() - n,
{
    if n < s.len() {
        assert(s.take(n + 1).drop_last() =~= s.take(n));
        first_firing_stable(s, n + 1);
    } else {
        assert(s.take(n) =~= s);
    }
}

/// A tick that evaluates guard after guard goes to the state of the first
/// guard that fires: every guard before it was evaluated and did not.
pub proof fn first_guard_wins(outcomes: Seq<Option<i32>>)
    ensures
        match first_firing(outcomes) {
            Some(i) => 0 <= i < outcomes.len() && guard_fires(outcomes[i]) && forall|j: int|
                0 <= j < i ==> !guard_fires(#[trigger] outcomes[j]),
            None => forall|j: int| 0 <= j < outcomes.len() ==> !guard_fires(
                #[trigger] outcomes[j],
            ),
        },
    decreases outcomes.len(),
{
    if outcomes.len() > 0 {
        let front = outcomes.drop_last();
        first_guard_wins(front);
        assert forall|j: int| 0 <= j < front.len() implies outcomes[j] == front[j] by {}
    }
}

// ---------------------------------------------------------------------------
// Instances
// ---------------------------------------------------------------------------

/// A machine that runs: which one it is and the state it is in.
#[derive(Debug, PartialEq, Eq)]
pub struct FsmInstance {
    pub id: FsmId,
    pub current: String,
}

/// View of [`FsmInstance`].
pub struct FsmInstanceV {
    pub id: FsmIdV,
    pub current: Seq<char>,
}

impl View for FsmInstance {
    type V = FsmInstanceV;

    open spec fn view(&self) -> FsmInstanceV {
        FsmInstanceV { id: self.id@, current: self.current@ }
    }
}

/// The initial state of a registered machine.
pub open spec fn initial_of(s: Seq<FsmEntryV>, id: FsmIdV) -> Option<Seq<char>> {
    match fsm_def(s, id) {
        Some(d) => d.initial,
        None => None,
    }
}

/// A new instance of the machine called `name`: there is one when the machine
/// is registered and has an initial state.
pub open spec fn instance_of(s: Seq<FsmEntryV>, module: Seq<char>, name: Seq<char>) -> Option<
    FsmInstanceV,
> {
    match find_fsm_named(s, module, name) {
        Some(id) => match initial_of(s, id) {
            Some(current) => Some(FsmInstanceV { id, current }),
            None => None,
        },
        None => None,
    }
}

/// The state after a step that leads to `next`, if anywhere.
pub open spec fn moved(i: FsmInstanceV, next: Option<Seq<char>>) -> FsmInstanceV {
    match next {
        Some(current) => FsmInstanceV { current, ..i },
        None => i,
    }
}

fn get_initial(registry: &FsmRegistry, id: &FsmId) -> (r: Option<String>)
    requires
        registry.wf(),
    ensures
        opt_text(r) == initial_of(registry@, id@),
{
    match registry.get(id) {
        Some(d) => match &d.initial {
            Some(s) => Some(s.clone()),
            None => None,
        },
        None => None,
    }
}

impl FsmInstance {
    /// An instance in the initial state of the machine called `fsm_name`.
    pub fn new(registry: &FsmRegistry, module: &str, fsm_name: &str) -> (r: Option<FsmInstance>)
        requires
            registry.wf(),
        ensures
            opt_view(r) == instance_of(registry@, module@, fsm_name@),
    {
        match registry.find_by_name(module, fsm_name) {
            Some(id) => match get_initial(registry, &id) {
                Some(current) => Some(FsmInstance { id, current }),
                None => None,
            },
            None => None,
        }
    }

    /// The name of the current state.
    pub fn current(&self) -> (r: String)
        ensures
            r@ == self@.current,
    {
        self.current.clone()
    }

    /// Step on an event. Says whether a transition was taken.
    pub fn dispatch_event(&mut self, registry: &FsmRegistry, event: &str) -> (fired: bool)
        requires
            registry.wf(),
        ensures
            final(self)@ == moved(
                old(self)@,
                registry_target(registry@, old(self)@.id, old(self)@.current, event@),
            ),
            fired == (registry_target(registry@, old(self)@.id, old(self)@.current, event@)
                is Some),
    {
        match registry.step_event(&self.id, self.current.as_str(), event) {
            Some(to) => {
                self.current = to;
                true
            },
            None => false,
        }
    }

    /// Take the step that a tick came to. Says whether a transition was taken.
    /// A tick that failed leaves the instance in its state, and its error is
    /// passed on.
    pub fn tick<E>(&mut self, next: Result<Option<String>, E>) -> (r: Result<bool, E>)
        ensures
            match next {
                Ok(to) => r == Ok::<bool, E>(to is Some) && final(self)@ == moved(
                    old(self)@,
                    opt_text(to),
                ),
                Err(e) => r == Err::<bool, E>(e) && *final(self) == *old(self),
            },
    {
        match next {
            Ok(Some(to)) => {
                self.current = to;
                Ok(true)
            },
            Ok(None) => Ok(false),
            Err(e) => Err(e),
        }
    }

    /// Go back to the initial state, if the machine still has one.
    pub fn reset(&mut self, registry: &FsmRegistry)
        requires
            registry.wf(),
        ensures
            final(self)@ == moved(old(self)@, initial_of(registry@, old(self)@.id)),
    {
        match get_initial(registry, &self.id) {
            Some(s) => {
                self.current = s;
            },
            None => {},
        }
    }
}

/// An instance that is reset is as it was when it was new, whatever it did in
/// between, as long as the registry is the same.
pub proof fn reset_restores_start(
    s: Seq<FsmEntryV>,
    module: Seq<char>,
    name: Seq<char>,
    current: Seq<char>,
)
    requires
        instance_of(s, module, name) is Some,
    ensures
        ({
            let start = instance_of(s, module, name)->0;
            let later = FsmInstanceV { current, ..start };
            moved(later, initial_of(s, later.id)) == start
        }),
{
}

} // verus!
