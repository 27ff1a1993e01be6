//! State machines: definitions, their registry, and running instances.

use vstd::prelude::*;

use crate::ast::{opt_view, views, TypeId};
use crate::text::{opt_text, same};

verus! {

// ---------------------------------------------------------------------------
// Definitions
// ---------------------------------------------------------------------------

/// Identity of a machine: the module it is declared in and the id of its
/// state enum.
#[derive(Debug, PartialEq, Eq, Hash)]
pub struct FsmId {
    pub module: String,
    pub type_id: TypeId,
}

/// A transition that a tick takes when its guard holds. `guard_fn` is the
/// symbol of the function that evaluates the guard.
#[derive(Debug, PartialEq, Eq)]
pub struct TickGuard {
    pub from: String,
    pub to: String,
    pub guard_fn: Option<String>,
}

/// A transition that an event takes: `on <from>.<event> -> <to>`. Actions are
/// numbered by whoever runs them.
#[derive(Debug, PartialEq, Eq)]
pub struct EventTransition {
    pub from: String,
    pub event: String,
    pub to: String,
    pub actions: Vec<u64>,
}

/// A machine: its initial state and its transitions in declaration order.
#[derive(Debug, PartialEq, Eq)]
pub struct FsmDefinition {
    pub initial: Option<String>,
    pub transitions: Vec<EventTransition>,
    pub tick_guards: Vec<TickGuard>,
    pub name: Option<String>,
}

/// View of [`FsmId`].
pub struct FsmIdV {
    pub module: Seq<char>,
    pub type_id: TypeId,
}

/// View of [`TickGuard`].
pub struct TickGuardV {
    pub from: Seq<char>,
    pub to: Seq<char>,
    pub guard_fn: Option<Seq<char>>,
}

/// View of [`EventTransition`].
pub struct EventTransitionV {
    pub from: Seq<char>,
    pub event: Seq<char>,
    pub to: Seq<char>,
    pub actions: Seq<u64>,
}

/// View of [`FsmDefinition`].
pub struct FsmDefinitionV {
    pub initial: Option<Seq<char>>,
    pub transitions: Seq<EventTransitionV>,
    pub tick_guards: Seq<TickGuardV>,
    pub name: Option<Seq<char>>,
}

impl View for FsmId {
    type V = FsmIdV;

    open spec fn view(&self) -> FsmIdV {
        FsmIdV { module: self.module@, type_id: self.type_id }
    }
}

impl View for TickGuard {
    type V = TickGuardV;

    open spec fn view(&self) -> TickGuardV {
        TickGuardV { from: self.from@, to: self.to@, guard_fn: opt_view(self.guard_fn) }
    }
}

impl View for EventTransition {
    type V = EventTransitionV;

    open spec fn view(&self) -> EventTransitionV {
        EventTransitionV {
            from: self.from@,
            event: self.event@,
            to: self.to@,
            actions: self.actions@,
        }
    }
}

impl View for FsmDefinition {
    type V = FsmDefinitionV;

    open spec fn view(&self) -> FsmDefinitionV {
        FsmDefinitionV {
            initial: opt_view(self.initial),
            transitions: views(self.transitions@),
            tick_guards: views(self.tick_guards@),
            name: opt_view(self.name),
        }
    }
}

/// A machine without a name, states or transitions.
pub open spec fn empty_fsm() -> FsmDefinitionV {
    FsmDefinitionV { initial: None, transitions: seq![], tick_guards: seq![], name: None }
}

impl Default for FsmDefinition {
    fn default() -> (d: FsmDefinition)
        ensures
            d@ == empty_fsm(),
    {
        let d = FsmDefinition {
            initial: None,
            transitions: Vec::new(),
            tick_guards: Vec::new(),
            name: None,
        };
        assert(d@.transitions =~= Seq::<EventTransitionV>::empty());
        assert(d@.tick_guards =~= Seq::<TickGuardV>::empty());
        d
    }
}

impl FsmId {
    pub fn copied(&self) -> (r: FsmId)
        ensures
            r@ == self@,
    {
        FsmId { module: self.module.clone(), type_id: self.type_id }
    }

    /// Whether two ids are the same.
    pub fn same_as(&self, other: &FsmId) -> (r: bool)
        ensures
            r == (self@ == other@),
    {
        self.type_id == other.type_id && self.module == other.module
    }
}

/// Where the first transition from `current` on `event` leads.
pub open spec fn event_target(
    s: Seq<EventTransitionV>,
    current: Seq<char>,
    event: Seq<char>,
) -> Option<Seq<char>>
    decreases s.len(),
{
    if s.len() == 0 {
        None
    } else {
        match event_target(s.drop_last(), current, event) {
            Some(to) => Some(to),
            None => if s.last().from == current && s.last().event == event {
                Some(s.last().to)
            } else {
                None
            },
        }
    }
}

proof fn event_target_stable(
    s: Seq<EventTransitionV>,
    n: int,
    current: Seq<char>,
    event: Seq<char>,
)
    requires
        0 <= n <= s.len(),
        event_target(s.take(n), current, event) is Some,
    ensures
        event_target(s, current, event) == event_target(s.take(n), current, event),
    decreases s.len() - n,
{
    if n < s.len() {
        assert(s.take(n + 1).drop_last() =~= s.take(n));
        event_target_stable(s, n + 1, current, event);
    } else {
        assert(s.take(n) =~= s);
    }
}

impl FsmDefinition {
    /// The state that `event` leads to from `current`. The first matching
    /// transition wins.
    pub fn step_event(&self, current: &str, event: &str) -> (r: Option<String>)
        ensures
            opt_text(r) == event_target(self@.transitions, current@, event@),
    {
        let ghost all = self@.transitions;
        let mut i: usize = 0;
        assert(all.take(0) =~= Seq::<EventTransitionV>::empty());
        while i < self.transitions.len()
            invariant
                i <= self.transitions@.len(),
                all == self@.transitions,
                event_target(all.take(i as int), current@, event@) is None,
            decreases self.transitions@.len() - i,
        {
            let t = &self.transitions[i];
            proof {
                assert(all.take(i + 1).drop_last() =~= all.take(i as int));
                assert(all[i as int] == t@);
            }
            if same(&t.from, current) && same(&t.event, event) {
                proof {
                    event_target_stable(all, i + 1, current@, event@);
                }
                return Some(t.to.clone());
            }
            i = i + 1;
        }
        assert(all.take(all.len() as int) =~= all);
        None
    }
}

/// A step on an event takes the transition that is declared first among those
/// from the current state on that event, and there is none exactly when no
/// transition matches.
pub proof fn first_transition_wins(
    s: Seq<EventTransitionV>,
    current: Seq<char>,
    event: Seq<char>,
)
    ensures
        match event_target(s, current, event) {
            Some(to) => exists|i: int|
                0 <= i < s.len() && (#[trigger] s[i]).from == current && s[i].event == event
                    && s[i].to == to && forall|j: int|
                    0 <= j < i ==> !((#[trigger] s[j]).from == current && s[j].event == event),
            None => forall|i: int|
                0 <= i < s.len() ==> !((#[trigger] s[i]).from == current && s[i].event == event),
        },
    decreases s.len(),
{
    if s.len() > 0 {
        let front = s.drop_last();
        first_transition_wins(front, current, event);
        match event_target(front, current, event) {
            Some(to) => {
                let i = choose|i: int|
                    0 <= i < front.len() && (#[trigger] front[i]).from == current && front[i].event
                        == event && front[i].to == to && forall|j: int|
                        0 <= j < i ==> !((#[trigger] front[j]).from == current && front[j].event
                            == event);
                assert(s[i] == front[i]);
                assert forall|j: int| 0 <= j < i implies !((#[trigger] s[j]).from == current
                    && s[j].event == event) by {
                    assert(s[j] == front[j]);
                }
            },
            None => {
                assert forall|j: int| 0 <= j < s.len() - 1 implies !((#[trigger] s[j]).from
                    == current && s[j].event == event) by {
                    assert(s[j] == front[j]);
                }
                if s.last().from == current && s.last().event == event {
                    assert(s[s.len() - 1].from == current);
                }
            },
        }
    }
}

// ---------------------------------------------------------------------------
// The registry
// ---------------------------------------------------------------------------

/// An entry of the registry.
pub struct FsmEntryV {
    pub id: FsmIdV,
    pub def: FsmDefinitionV,
}

/// The position of the entry for an id.
pub open spec fn find_fsm(s: Seq<FsmEntryV>, id: FsmIdV) -> Option<int>
    decreases s.len(),
{
    if s.len() == 0 {
        None
    } else {
        match find_fsm(s.drop_last(), id) {
            Some(i) => Some(i),
            None => if s.last().id == id {
                Some(s.len() - 1)
            } else {
                None
            },
        }
    }
}

/// The definition that is registered for an id.
pub open spec fn fsm_def(s: Seq<FsmEntryV>, id: FsmIdV) -> Option<FsmDefinitionV> {
    match find_fsm(s, id) {
        Some(i) => Some(s[i].def),
        None => None,
    }
}

/// The entries after the one for `id` was removed.
pub open spec fn removed(s: Seq<FsmEntryV>, id: FsmIdV) -> Seq<FsmEntryV> {
    match find_fsm(s, id) {
        Some(i) => s.remove(i),
        None => s,
    }
}

/// The entries after `def` was registered for `id`: it is the newest.
pub open spec fn upserted(s: Seq<FsmEntryV>, id: FsmIdV, def: FsmDefinitionV) -> Seq<FsmEntryV> {
    removed(s, id).push(FsmEntryV { id, def })
}

/// The entries after the definition for `id` was changed in its place.
pub open spec fn changed(s: Seq<FsmEntryV>, id: FsmIdV, def: FsmDefinitionV) -> Seq<FsmEntryV> {
    match find_fsm(s, id) {
        Some(i) => s.update(i, FsmEntryV { id, def }),
        None => s,
    }
}

/// No id is registered twice.
pub open spec fn distinct_ids(s: Seq<FsmEntryV>) -> bool {
    forall|i: int, j: int|
        0 <= i < s.len() && 0 <= j < s.len() && i != j ==> (#[trigger] s[i]).id != (
        #[trigger] s[j]).id
}

/// The id of the newest machine called `name` in a module.
pub open spec fn find_fsm_named(s: Seq<FsmEntryV>, module: Seq<char>, name: Seq<char>) -> Option<
    FsmIdV,
>
    decreases s.len(),
{
    if s.len() == 0 {
        None
    } else {
        if s.last().id.module == module && s.last().def.name == Some(name) {
            Some(s.last().id)
        } else {
            find_fsm_named(s.drop_last(), module, name)
        }
    }
}

/// The newest definition of a machine called `name`, in whichever module.
pub open spec fn def_named(s: Seq<FsmEntryV>, name: Seq<char>) -> Option<FsmDefinitionV>
    decreases s.len(),
{
    if s.len() == 0 {
        None
    } else {
        if s.last().def.name == Some(name) {
            Some(s.last().def)
        } else {
            def_named(s.drop_last(), name)
        }
    }
}

/// The registered machines, from the oldest to the newest.
#[derive(Debug)]
pub struct FsmRegistry {
    pub ids: Vec<FsmId>,
    pub defs: Vec<FsmDefinition>,
}

impl View for FsmRegistry {
    type V = Seq<FsmEntryV>;

    open spec fn view(&self) -> Seq<FsmEntryV> {
        Seq::new(self.ids@.len(), |i: int| FsmEntryV { id: self.ids@[i]@, def: self.defs@[i]@ })
    }
}

impl FsmRegistry {
    /// There is one definition for every id, and no id is there twice.
    pub open spec fn wf(&self) -> bool {
        self.ids@.len() == self.defs@.len() && distinct_ids(self@)
    }

    pub fn new() -> (r: FsmRegistry)
        ensures
            r.wf(),
            r@ == Seq::<FsmEntryV>::empty(),
    {
        let r = FsmRegistry { ids: Vec::new(), defs: Vec::new() };
        assert(r@ =~= Seq::<FsmEntryV>::empty());
        r
    }

    fn position(&self, id: &FsmId) -> (r: Option<usize>)
        ensures
            match r {
                Some(i) => i < self.ids@.len() && find_fsm(self@, id@) == Some(i as int),
                None => find_fsm(self@, id@) is None,
            },
    {
        let ghost all = self@;
        let mut found: Option<usize> = None;
        for i in 0..self.ids.len()
            invariant
                all == self@,
                match found {
                    Some(k) => k < self.ids@.len() && find_fsm(all.take(i as int), id@) == Some(
                        k as int,
                    ),
                    None => find_fsm(all.take(i as int), id@) is None,
                },
        {
            proof {
                assert(all.take(i + 1).drop_last() =~= all.take(i as int));
            }
            if found.is_none() && self.ids[i].same_as(id) {
                found = Some(i);
            }
        }
        assert(all.take(all.len() as int) =~= all);
        found
    }

    /// Register a definition; one for the same id goes.
    pub fn upsert(&mut self, id: FsmId, def: FsmDefinition)
        requires
            old(self).wf(),
        ensures
            final(self).wf(),
            final(self)@ == upserted(old(self)@, id@, def@),
    {
        let ghost before = self@;
        proof {
            upserting_keeps_ids_distinct(before, id@, def@);
        }
        let _replaced = self.remove(&id);
        self.ids.push(id);
        self.defs.push(def);
        assert(self@ =~= upserted(before, id@, def@));
    }

    pub fn get(&self, id: &FsmId) -> (r: Option<&FsmDefinition>)
        requires
            self.wf(),
        ensures
            match r {
                Some(d) => fsm_def(self@, id@) == Some(d@),
                None => fsm_def(self@, id@) is None,
            },
    {
        match self.position(id) {
            Some(i) => Some(&self.defs[i]),
            None => None,
        }
    }

    /// The definition for an id, to be changed in place.
    pub fn get_mut(&mut self, id: &FsmId) -> (r: Option<&mut FsmDefinition>)
        requires
            old(self).wf(),
        ensures
            final(self).wf(),
            match r {
                Some(d) => fsm_def(old(self)@, id@) == Some(d@) && final(self)@ == changed(
                    old(self)@,
                    id@,
                    final(d)@,
                ),
                None => fsm_def(old(self)@, id@) is None && final(self)@ == old(self)@,
            },
    {
        let ghost before = self@;
        match self.position(id) {
            Some(i) => {
                proof {
                    found_fsm(before, id@);
                    assert forall|t: Seq<FsmEntryV>|
                        t.len() == before.len() && (forall|k: int|
                            0 <= k < t.len() ==> (#[trigger] t[k]).id
                                == before[k].id) implies #[trigger] distinct_ids(t) by {}
                }
                let d = &mut self.defs[i];
                Some(d)
            },
            None => None,
        }
    }

    pub fn len(&self) -> (n: usize)
        requires
            self.wf(),
        ensures
            n == self@.len(),
    {
        self.ids.len()
    }

    pub fn is_empty(&self) -> (r: bool)
        requires
            self.wf(),
        ensures
            r == (self@.len() == 0),
    {
        self.ids.len() == 0
    }

    /// The entries, in order.
    pub fn iter(&self) -> (r: Vec<(&FsmId, &FsmDefinition)>)
        requires
            self.wf(),
        ensures
            r@.len() == self@.len(),
            forall|i: int|
                0 <= i < r@.len() ==> (#[trigger] r@[i]).0@ == self@[i].id && r@[i].1@
                    == self@[i].def,
    {
        let mut r: Vec<(&FsmId, &FsmDefinition)> = Vec::new();
        for i in 0..self.ids.len()
            invariant
                self.wf(),
                r@.len() == i,
                forall|k: int|
                    0 <= k < i ==> (#[trigger] r@[k]).0@ == self@[k].id && r@[k].1@ == self@[k].def,
        {
            r.push((&self.ids[i], &self.defs[i]));
        }
        r
    }

    /// Remove the entry for an id and return its definition.
    pub fn remove(&mut self, id: &FsmId) -> (r: Option<FsmDefinition>)
        requires
            old(self).wf(),
        ensures
            final(self).wf(),
            final(self)@ == removed(old(self)@, id@),
            opt_view(r) == fsm_def(old(self)@, id@),
    {
        let ghost before = self@;
        proof {
            removing_keeps_ids_distinct(before, id@);
        }
        match self.position(id) {
            Some(i) => {
                let _id = self.ids.remove(i);
                let d = self.defs.remove(i);
                assert(self@ =~= removed(before, id@));
                Some(d)
            },
            None => None,
        }
    }

    /// The id of the newest machine called `name` in a module.
    pub fn find_by_name(&self, module: &str, name: &str) -> (r: Option<FsmId>)
        requires
            self.wf(),
        ensures
            opt_view(r) == find_fsm_named(self@, module@, name@),
    {
        let ghost all = self@;
        let mut found: Option<FsmId> = None;
        for i in 0..self.ids.len()
            invariant
                self.wf(),
                all == self@,
                opt_view(found) == find_fsm_named(all.take(i as int), module@, name@),
        {
            proof {
                assert(all.take(i + 1).drop_last() =~= all.take(i as int));
                assert(all[i as int] == FsmEntryV {
                    id: self.ids@[i as int]@,
                    def: self.defs@[i as int]@,
                });
            }
            if same(&self.ids[i].module, module) {
                let named = match &self.defs[i].name {
                    Some(n) => same(n, name),
                    None => false,
                };
                if named {
                    found = Some(self.ids[i].copied());
                }
            }
        }
        assert(all.take(all.len() as int) =~= all);
        found
    }

    /// The newest definition of a machine called `name`.
    pub fn find_def(&self, name: &String) -> (r: Option<&FsmDefinition>)
        requires
            self.wf(),
        ensures
            match r {
                Some(d) => def_named(self@, name@) == Some(d@),
                None => def_named(self@, name@) is None,
            },
    {
        let ghost all = self@;
        let mut found: Option<usize> = None;
        for i in 0..self.defs.len()
            invariant
                self.wf(),
                all == self@,
                match found {
                    Some(k) => k < self.defs@.len() && def_named(all.take(i as int), name@)
                        == Some(self.defs@[k as int]@),
                    None => def_named(all.take(i as int), name@) is None,
                },
        {
            proof {
                assert(all.take(i + 1).drop_last() =~= all.take(i as int));
            }
            let named = match &self.defs[i].name {
                Some(n) => *n == *name,
                None => false,
            };
            if named {
                found = Some(i);
            }
        }
        assert(all.take(all.len() as int) =~= all);
        match found {
            Some(k) => Some(&self.defs[k]),
            None => None,
        }
    }

    /// Look a machine up and step it on an event.
    pub fn step_event(&self, id: &FsmId, current: &str, event: &str) -> (r: Option<String>)
        requires
            self.wf(),
        ensures
            opt_text(r) == registry_target(self@, id@, current@, event@),
    {
        match self.get(id) {
            Some(d) => d.step_event(current, event),
            None => None,
        }
    }
}

/// Where `event` leads from `current` on a registered machine.
pub open spec fn registry_target(
    s: Seq<FsmEntryV>,
    id: FsmIdV,
    current: Seq<char>,
    event: Seq<char>,
) -> Option<Seq<char>> {
    match fsm_def(s, id) {
        Some(d) => event_target(d.transitions, current, event),
        None => None,
    }
}

/// What `find_fsm` finds is the first entry with the id.
pub proof fn found_fsm(s: Seq<FsmEntryV>, id: FsmIdV)
    ensures
        match find_fsm(s, id) {
            Some(i) => 0 <= i < s.len() && s[i].id == id,
            None => forall|i: int| 0 <= i < s.len() ==> (#[trigger] s[i]).id != id,
        },
    decreases s.len(),
{
    if s.len() > 0 {
        found_fsm(s.drop_last(), id);
        if find_fsm(s, id) is None {
            assert forall|i: int| 0 <= i < s.len() implies (#[trigger] s[i]).id != id by {
                if i < s.len() - 1 {
                    assert(s[i] == s.drop_last()[i]);
                }
            }
        }
    }
}

/// The entry at a position is found under its id when ids are distinct.
proof fn finds_at(s: Seq<FsmEntryV>, i: int)
    requires
        distinct_ids(s),
        0 <= i < s.len(),
    ensures
        find_fsm(s, s[i].id) == Some(i),
{
    found_fsm(s, s[i].id);
}

/// Without its entry an id is not there.
proof fn removed_is_absent(s: Seq<FsmEntryV>, id: FsmIdV)
    requires
        distinct_ids(s),
    ensures
        forall|j: int| 0 <= j < removed(s, id).len() ==> (#[trigger] removed(s, id)[j]).id != id,
{
    found_fsm(s, id);
    let t = removed(s, id);
    match find_fsm(s, id) {
        Some(k) => {
            assert forall|j: int| 0 <= j < t.len() implies (#[trigger] t[j]).id != id by {
                let a: int = if j < k {
                    j
                } else {
                    j + 1
                };
                assert(t[j] == s[a]);
                assert(s[a].id != s[k].id);
            }
        },
        None => {},
    }
}

/// Registering keeps ids distinct.
pub proof fn upserting_keeps_ids_distinct(s: Seq<FsmEntryV>, id: FsmIdV, def: FsmDefinitionV)
    requires
        distinct_ids(s),
    ensures
        distinct_ids(upserted(s, id, def)),
{
    removing_keeps_ids_distinct(s, id);
    removed_is_absent(s, id);
}

/// Removing keeps ids distinct.
pub proof fn removing_keeps_ids_distinct(s: Seq<FsmEntryV>, id: FsmIdV)
    requires
        distinct_ids(s),
    ensures
        distinct_ids(removed(s, id)),
{
    found_fsm(s, id);
    let t = removed(s, id);
    match find_fsm(s, id) {
        Some(k) => {
            assert forall|i: int, j: int|
                0 <= i < t.len() && 0 <= j < t.len() && i != j implies (#[trigger] t[i]).id != (
            #[trigger] t[j]).id by {
                let a: int = if i < k {
                    i
                } else {
                    i + 1
                };
                let b: int = if j < k {
                    j
                } else {
                    j + 1
                };
                assert(t[i] == s[a] && t[j] == s[b]);
            }
        },
        None => {},
    }
}

proof fn same_lookup(s: Seq<FsmEntryV>, t: Seq<FsmEntryV>, id: FsmIdV)
    requires
        distinct_ids(s),
        distinct_ids(t),
        forall|i: int|
            0 <= i < s.len() && (#[trigger] s[i]).id == id ==> exists|j: int|
                0 <= j < t.len() && #[trigger] t[j] == s[i],
        forall|j: int|
            0 <= j < t.len() && (#[trigger] t[j]).id == id ==> exists|i: int|
                0 <= i < s.len() && #[trigger] s[i] == t[j],
    ensures
        fsm_def(s, id) == fsm_def(t, id),
{
    found_fsm(s, id);
    found_fsm(t, id);
    match find_fsm(s, id) {
        Some(i) => {
            let j = choose|j: int| 0 <= j < t.len() && #[trigger] t[j] == s[i];
            finds_at(t, j);
        },
        None => {
            if find_fsm(t, id) is Some {
                let j = find_fsm(t, id)->0;
                let i = choose|i: int| 0 <= i < s.len() && #[trigger] s[i] == t[j];
                assert(s[i].id == id);
            }
        },
    }
}

/// What was registered for an id is what is found for it, and the other ids
/// keep theirs.
pub proof fn upserted_is_found(s: Seq<FsmEntryV>, id: FsmIdV, def: FsmDefinitionV, other: FsmIdV)
    requires
        distinct_ids(s),
        other != id,
    ensures
        fsm_def(upserted(s, id, def), id) == Some(def),
        fsm_def(upserted(s, id, def), other) == fsm_def(s, other),
{
    let kept = removed(s, id);
    let t = upserted(s, id, def);
    upserting_keeps_ids_distinct(s, id, def);
    finds_at(t, kept.len() as int);
    removed_is_gone(s, id, other);
    assert(t.drop_last() =~= kept);
    found_fsm(kept, other);
}

/// What is found by name is the newest machine that has the name and is in the
/// module, and nothing is found only where there is none.
pub proof fn found_by_name(s: Seq<FsmEntryV>, module: Seq<char>, name: Seq<char>)
    ensures
        match find_fsm_named(s, module, name) {
            Some(id) => exists|i: int|
                0 <= i < s.len() && (#[trigger] s[i]).id == id && id.module == module
                    && s[i].def.name == Some(name) && forall|j: int|
                    i < j < s.len() ==> (#[trigger] s[j]).id.module != module || s[j].def.name
                        != Some(name),
            None => forall|i: int|
                0 <= i < s.len() ==> (#[trigger] s[i]).id.module != module || s[i].def.name
                    != Some(name),
        },
    decreases s.len(),
{
    if s.len() > 0 {
        let front = s.drop_last();
        if s.last().id.module == module && s.last().def.name == Some(name) {
            assert(s[s.len() - 1].id == s.last().id);
        } else {
            found_by_name(front, module, name);
            match find_fsm_named(front, module, name) {
                Some(id) => {
                    let i = choose|i: int|
                        0 <= i < front.len() && (#[trigger] front[i]).id == id
                            && front[i].def.name == Some(name) && forall|j: int|
                            i < j < front.len() ==> (#[trigger] front[j]).id.module != module
                                || front[j].def.name != Some(name);
                    assert forall|j: int| i < j < s.len() implies (#[trigger] s[j]).id.module
                        != module || s[j].def.name != Some(name) by {
                        if j < front.len() {
                            assert(s[j] == front[j]);
                        }
                    }
                    assert(s[i] == front[i]);
                },
                None => {
                    assert forall|i: int| 0 <= i < s.len() implies (#[trigger] s[i]).id.module
                        != module || s[i].def.name != Some(name) by {
                        if i < front.len() {
                            assert(s[i] == front[i]);
                        }
                    }
                },
            }
        }
    }
}

/// What is registered last under a name is what is found by that name.
pub proof fn newest_is_found(s: Seq<FsmEntryV>, id: FsmIdV, def: FsmDefinitionV, name: Seq<char>)
    requires
        def.name == Some(name),
    ensures
        find_fsm_named(upserted(s, id, def), id.module, name) == Some(id),
        def_named(upserted(s, id, def), name) == Some(def),
{
}

/// A removed id is no longer found, and the other ids keep their definitions.
pub proof fn removed_is_gone(s: Seq<FsmEntryV>, id: FsmIdV, other: FsmIdV)
    requires
        distinct_ids(s),
        other != id,
    ensures
        fsm_def(removed(s, id), id) is None,
        fsm_def(removed(s, id), other) == fsm_def(s, other),
{
    let t = removed(s, id);
    removing_keeps_ids_distinct(s, id);
    found_fsm(s, id);
    match find_fsm(s, id) {
        Some(k) => {
            found_fsm(t, id);
            removed_is_absent(s, id);
            assert forall|i: int|
                0 <= i < s.len() && (#[trigger] s[i]).id == other implies exists|j: int|
                0 <= j < t.len() && #[trigger] t[j] == s[i] by {
                let j: int = if i < k {
                    i
                } else {
                    i - 1
                };
                assert(t[j] == s[i]);
            }
            assert forall|j: int|
                0 <= j < t.len() && (#[trigger] t[j]).id == other implies exists|i: int|
                0 <= i < s.len() && #[trigger] s[i] == t[j] by {
                let i: int = if j < k {
                    j
                } else {
                    j + 1
                };
                assert(s[i] == t[j]);
            }
            same_lookup(s, t, other);
        },
        None => {},
    }
}

} // verus!
