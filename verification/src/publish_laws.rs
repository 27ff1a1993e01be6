//! What the runtime gets to know of state machines and components.

use vstd::prelude::*;

use crate::ast::PrimitiveType;
use crate::body_laws::{distinct_are_first_mentions, is_first_mentions};
use crate::component::{lookup, registered, registered_is_found, ComponentDefinitionV, PropDefV};
use crate::decls::find_method;
use crate::fsm::{def_named, EventTransitionV, FsmDefinitionV, FsmEntryV, TickGuardV};
use crate::machine_laws::{enum_called, first_enum, first_method};
use crate::model::{DeclKindV, DeclV, ParamV, TypeDefinitionV, TypeV};
use crate::plain::{kept_below, kept_below_selects, selects};
use crate::populate::find_enum;
use crate::publish::{
    components_published, decl_coded, decl_component, decls_coded, div_component, fsm_coded,
    guards_coded, has_class, index_of_found, state_code, text_component, transitions_coded,
    variant_names, view_props, with_event, with_layout_primitives, CodedFsmV, CodedGuardV,
    CodedTransitionV,
};
use crate::struct_laws::class_called;
use crate::text::distinct;
use crate::value_views::nominal_name;
use crate::view_laws::{is_named, last_entry_names};

verus! {

// ---------------------------------------------------------------------------
// Machines
// ---------------------------------------------------------------------------

/// Whether a code is that of a state: the position at which the state comes up
/// first.
pub open spec fn is_code(states: Seq<Seq<char>>, name: Seq<char>, c: u32) -> bool {
    c < states.len() && states[c as int] == name && forall|k: int|
        0 <= k < c ==> #[trigger] states[k] != name
}

/// Whether a transition is between two states of the machine.
pub open spec fn stays_inside(states: Seq<Seq<char>>, t: EventTransitionV) -> bool {
    states.contains(t.from) && states.contains(t.to)
}

/// The events of the transitions from states of the machine, in their order.
pub open spec fn events_heard(states: Seq<Seq<char>>, s: Seq<EventTransitionV>) -> Seq<Seq<char>>
    decreases s.len(),
{
    if s.len() == 0 {
        seq![]
    } else {
        let rest = events_heard(states, s.drop_last());
        if states.contains(s.last().from) {
            rest.push(s.last().event)
        } else {
            rest
        }
    }
}

/// Whether a coded transition stands for a transition.
pub open spec fn codes_transition(
    c: CodedTransitionV,
    t: EventTransitionV,
    states: Seq<Seq<char>>,
    events: Seq<Seq<char>>,
    offset: u32,
) -> bool {
    &&& is_code(states, t.from, c.from_code)
    &&& is_code(states, t.to, c.to_code)
    &&& offset <= c.event_code < offset + events.len()
    &&& events[c.event_code - offset] == t.event
    &&& c.actions == t.actions
}

/// Whether a coded guard stands for a guard.
pub open spec fn codes_guard(c: CodedGuardV, g: TickGuardV, states: Seq<Seq<char>>) -> bool {
    &&& is_code(states, g.from, c.from_code)
    &&& is_code(states, g.to, c.to_code)
    &&& g.guard_fn == Some(c.guard_symbol)
}

/// Whether a coded machine stands for a machine with some states. Transitions
/// and guards keep their order; those that leave the states are dropped.
pub open spec fn codes_machine(
    c: CodedFsmV,
    name: Seq<char>,
    states: Seq<Seq<char>>,
    def: FsmDefinitionV,
    offset: u32,
    moves: Seq<int>,
    ticks: Seq<int>,
) -> bool {
    &&& c.name == name
    &&& c.state_names == states
    &&& is_first_mentions(c.event_names, events_heard(states, def.transitions))
    &&& match def.initial {
        Some(s) => if states.contains(s) {
            is_code(states, s, c.initial_code)
        } else {
            c.initial_code == 0
        },
        None => c.initial_code == 0,
    }
    &&& selects(
        moves,
        def.transitions.len() as int,
        |k: int| stays_inside(states, def.transitions[k]),
    )
    &&& c.transitions.len() == moves.len()
    &&& forall|i: int|
        0 <= i < moves.len() ==> codes_transition(
            #[trigger] c.transitions[i],
            def.transitions[moves[i]],
            states,
            c.event_names,
            offset,
        )
    &&& selects(
        ticks,
        def.tick_guards.len() as int,
        |k: int| guards_inside(states, def.tick_guards[k]),
    )
    &&& c.tick_guards.len() == ticks.len()
    &&& forall|i: int|
        0 <= i < ticks.len() ==> codes_guard(
            #[trigger] c.tick_guards[i],
            def.tick_guards[ticks[i]],
            states,
        )
}

/// Whether a guard has a function and is between two states of the machine.
pub open spec fn guards_inside(states: Seq<Seq<char>>, g: TickGuardV) -> bool {
    g.guard_fn is Some && states.contains(g.from) && states.contains(g.to)
}

proof fn code_of(states: Seq<Seq<char>>, name: Seq<char>)
    requires
        states.len() <= u32::MAX,
    ensures
        state_code(states, name) is Some <==> states.contains(name),
        state_code(states, name) is Some ==> is_code(states, name, state_code(states, name)->0),
{
    index_of_found(states, name);
}

proof fn merging_event(events: Seq<Seq<char>>, heard: Seq<Seq<char>>, event: Seq<char>)
    requires
        events == distinct(heard),
    ensures
        with_event(events, event) == distinct(heard.push(event)),
        forall|x: Seq<char>| #[trigger] with_event(events, event).contains(x) <==> events.contains(
            x,
        ) || x == event,
{
    index_of_found(events, event);
    assert(heard.push(event).drop_last() =~= heard);
    let now = with_event(events, event);
    assert forall|x: Seq<char>| #[trigger] now.contains(x) <==> events.contains(x) || x == event by {
        if events.contains(x) {
            let k = choose|k: int| 0 <= k < events.len() && events[k] == x;
            assert(now[k] == x);
        }
        if x == event && !events.contains(x) {
            assert(now[events.len() as int] == x);
        }
        if now.contains(x) {
            let k = choose|k: int| 0 <= k < now.len() && now[k] == x;
            if k < events.len() {
                assert(events[k] == x);
            }
        }
    }
}

proof fn transitions_at(
    states: Seq<Seq<char>>,
    offset: u32,
    s: Seq<EventTransitionV>,
    n: nat,
)
    requires
        n <= s.len(),
        states.len() <= u32::MAX,
        offset + s.len() <= u32::MAX,
    ensures
        ({
            let at = kept_below(n, |k: int| stays_inside(states, s[k]));
            let out = transitions_coded(states, offset, s.take(n as int));
            &&& out.events == distinct(events_heard(states, s.take(n as int)))
            &&& out.events.len() <= n
            &&& out.transitions.len() == at.len()
            &&& forall|i: int|
                0 <= i < at.len() ==> codes_transition(
                    #[trigger] out.transitions[i],
                    s[at[i]],
                    states,
                    out.events,
                    offset,
                )
        }),
    decreases n,
{
    if n > 0 {
        let m = (n - 1) as nat;
        transitions_at(states, offset, s, m);
        assert(s.take(n as int).drop_last() =~= s.take(m as int));
        let t = s[m as int];
        assert(s.take(n as int).last() == t);
        code_of(states, t.from);
        code_of(states, t.to);
        let before = transitions_coded(states, offset, s.take(m as int));
        let now = transitions_coded(states, offset, s.take(n as int));
        let at0 = kept_below(m, |k: int| stays_inside(states, s[k]));
        let at = kept_below(n, |k: int| stays_inside(states, s[k]));
        merging_event(before.events, events_heard(states, s.take(m as int)), t.event);
        let events = with_event(before.events, t.event);
        index_of_found(events, t.event);
        assert(events.contains(t.event));
        assert forall|i: int| 0 <= i < at.len() implies codes_transition(
            #[trigger] now.transitions[i],
            s[at[i]],
            states,
            now.events,
            offset,
        ) by {
            if i < at0.len() {
                assert(now.transitions[i] == before.transitions[i]);
                let c = before.transitions[i];
                assert(codes_transition(c, s[at0[i]], states, before.events, offset));
                assert(now.events[c.event_code - offset] == before.events[c.event_code - offset]);
            }
        }
    } else {
        assert(s.take(0) =~= Seq::<EventTransitionV>::empty());
        assert(distinct(events_heard(states, s.take(0))) =~= Seq::<Seq<char>>::empty());
    }
}

proof fn guards_at(states: Seq<Seq<char>>, s: Seq<TickGuardV>, n: nat)
    requires
        n <= s.len(),
        states.len() <= u32::MAX,
    ensures
        ({
            let at = kept_below(n, |k: int| guards_inside(states, s[k]));
            let out = guards_coded(states, s.take(n as int));
            out.len() == at.len() && forall|i: int|
                0 <= i < at.len() ==> codes_guard(#[trigger] out[i], s[at[i]], states)
        }),
    decreases n,
{
    if n > 0 {
        let m = (n - 1) as nat;
        guards_at(states, s, m);
        assert(s.take(n as int).drop_last() =~= s.take(m as int));
        let g = s[m as int];
        assert(s.take(n as int).last() == g);
        code_of(states, g.from);
        code_of(states, g.to);
    }
}

/// A coded machine stands for its definition: states have the codes of their
/// places, events the codes of the order in which they come up, on from
/// `offset`, and codes read back as what they were made from.
pub proof fn machine_is_coded(
    name: Seq<char>,
    states: Seq<Seq<char>>,
    def: FsmDefinitionV,
    offset: u32,
) -> (r: (Seq<int>, Seq<int>))
    requires
        states.len() <= u32::MAX,
        offset + def.transitions.len() <= u32::MAX,
    ensures
        codes_machine(fsm_coded(name, states, def, offset), name, states, def, offset, r.0, r.1),
{
    let t = def.transitions;
    let g = def.tick_guards;
    transitions_at(states, offset, t, t.len());
    guards_at(states, g, g.len());
    assert(t.take(t.len() as int) =~= t);
    assert(g.take(g.len() as int) =~= g);
    let a = |k: int| stays_inside(states, t[k]);
    let b = |k: int| guards_inside(states, g[k]);
    kept_below_selects(t.len(), a);
    kept_below_selects(g.len(), b);
    distinct_are_first_mentions(events_heard(states, t));
    if def.initial is Some {
        code_of(states, def.initial->0);
    }
    (kept_below(t.len(), a), kept_below(g.len(), b))
}

/// Whether a definition is the newest that is registered under a name.
pub open spec fn is_newest(s: Seq<FsmEntryV>, name: Seq<char>, def: FsmDefinitionV) -> bool {
    exists|k: int|
        0 <= k < s.len() && (#[trigger] s[k]).def == def && def.name == Some(name) && forall|j: int|
            k < j < s.len() ==> (#[trigger] s[j]).def.name != Some(name)
}

proof fn newest(s: Seq<FsmEntryV>, name: Seq<char>)
    ensures
        match def_named(s, name) {
            Some(def) => is_newest(s, name, def),
            None => forall|k: int| 0 <= k < s.len() ==> (#[trigger] s[k]).def.name != Some(name),
        },
    decreases s.len(),
{
    if s.len() > 0 {
        let front = s.drop_last();
        assert(s[s.len() - 1] == s.last());
        if s.last().def.name != Some(name) {
            newest(front, name);
            match def_named(front, name) {
                Some(def) => {
                    let k = choose|k: int|
                        0 <= k < front.len() && (#[trigger] front[k]).def == def && def.name
                            == Some(name) && forall|j: int|
                            k < j < front.len() ==> (#[trigger] front[j]).def.name != Some(name);
                    assert(s[k] == front[k]);
                    assert forall|j: int| k < j < s.len() implies (#[trigger] s[j]).def.name
                        != Some(name) by {
                        if j < front.len() {
                            assert(s[j] == front[j]);
                        }
                    }
                },
                None => {
                    assert forall|k: int| 0 <= k < s.len() implies (#[trigger] s[k]).def.name
                        != Some(name) by {
                        if k < front.len() {
                            assert(s[k] == front[k]);
                        }
                    }
                },
            }
        }
    }
}

proof fn newest_is_it(s: Seq<FsmEntryV>, name: Seq<char>, def: FsmDefinitionV)
    ensures
        is_newest(s, name, def) <==> def_named(s, name) == Some(def),
{
    newest(s, name);
    if is_newest(s, name, def) {
        let k = choose|k: int|
            0 <= k < s.len() && (#[trigger] s[k]).def == def && def.name == Some(name) && forall|
                j: int,
            |
                k < j < s.len() ==> (#[trigger] s[j]).def.name != Some(name);
        match def_named(s, name) {
            Some(other) => {
                let q = choose|q: int|
                    0 <= q < s.len() && (#[trigger] s[q]).def == other && other.name == Some(name)
                        && forall|j: int|
                        q < j < s.len() ==> (#[trigger] s[j]).def.name != Some(name);
                assert(q == k);
            },
            None => {
                assert(s[k].def.name != Some(name));
            },
        }
    }
}

/// Whether names are the variants of the first enum of a name.
pub open spec fn are_states(all: Seq<DeclV>, name: Seq<char>, states: Seq<Seq<char>>) -> bool {
    exists|k: int|
        0 <= k < all.len() && enum_called(#[trigger] all[k], name) && (forall|j: int|
            0 <= j < k ==> !enum_called(#[trigger] all[j], name))
            && states.len() == all[k].kind->Enum_0.variants.len() && forall|i: int|
            0 <= i < states.len() ==> #[trigger] states[i]
                == all[k].kind->Enum_0.variants[i].name
}

/// Whether a declaration is the impl of a machine that has an enum of its
/// states and is registered.
pub open spec fn is_published(
    all: Seq<DeclV>,
    registry: Seq<FsmEntryV>,
    d: DeclV,
    states: Seq<Seq<char>>,
    def: FsmDefinitionV,
) -> bool {
    d.kind is Impl && are_states(all, d.kind->Impl_0.trait_name, states) && is_newest(
        registry,
        d.kind->Impl_0.trait_name,
        def,
    )
}

/// Whether a declaration is published as a machine.
pub open spec fn publishes(all: Seq<DeclV>, registry: Seq<FsmEntryV>, d: DeclV) -> bool {
    exists|states: Seq<Seq<char>>, def: FsmDefinitionV| #[trigger]
        is_published(all, registry, d, states, def)
}

proof fn publishing(all: Seq<DeclV>, registry: Seq<FsmEntryV>, offset: u32, d: DeclV)
    ensures
        publishes(all, registry, d) <==> decl_coded(all, registry, offset, d) is Some,
        forall|states: Seq<Seq<char>>, def: FsmDefinitionV| #[trigger]
            is_published(all, registry, d, states, def) ==> decl_coded(all, registry, offset, d)
                == Some(fsm_coded(d.kind->Impl_0.trait_name, states, def, offset)),
{
    match d.kind {
        DeclKindV::Impl(i) => {
            let name = i.trait_name;
            first_enum(all, name);
            newest(registry, name);
            match (find_enum(all, name), def_named(registry, name)) {
                (Some(k), Some(def)) => {
                    let states = variant_names(all[k].kind->Enum_0.variants);
                    assert(enum_called(all[k], name));
                    assert(are_states(all, name, states));
                    assert(is_published(all, registry, d, states, def));
                },
                _ => {},
            }
            assert forall|states: Seq<Seq<char>>, def: FsmDefinitionV| #[trigger]
                is_published(all, registry, d, states, def) implies decl_coded(
                all,
                registry,
                offset,
                d,
            ) == Some(fsm_coded(name, states, def, offset)) by {
                newest_is_it(registry, name, def);
                let k = choose|k: int|
                    0 <= k < all.len() && enum_called(#[trigger] all[k], name) && (forall|j: int|
                        0 <= j < k ==> !enum_called(#[trigger] all[j], name)) && states.len()
                        == all[k].kind->Enum_0.variants.len() && forall|i: int|
                        0 <= i < states.len() ==> #[trigger] states[i]
                            == all[k].kind->Enum_0.variants[i].name;
                assert(find_enum(all, name) == Some(k));
                assert(states =~= variant_names(all[k].kind->Enum_0.variants));
            }
        },
        _ => {},
    }
}

proof fn published_at(
    all: Seq<DeclV>,
    registry: Seq<FsmEntryV>,
    offset: u32,
    s: Seq<DeclV>,
    n: nat,
)
    requires
        n <= s.len(),
    ensures
        ({
            let at = kept_below(n, |i: int| publishes(all, registry, s[i]));
            let out = decls_coded(all, registry, offset, s.take(n as int));
            out.len() == at.len() && forall|m: int|
                0 <= m < at.len() ==> decl_coded(all, registry, offset, s[at[m]]) == Some(
                    #[trigger] out[m],
                )
        }),
    decreases n,
{
    if n > 0 {
        let m = (n - 1) as nat;
        published_at(all, registry, offset, s, m);
        publishing(all, registry, offset, s[m as int]);
        assert(s.take(n as int).drop_last() =~= s.take(m as int));
        assert(s.take(n as int).last() == s[m as int]);
    }
}

/// Every impl of a machine that has an enum of its states and is registered is
/// published, in the order of the declarations, as the machine that its newest
/// definition gives it.
pub proof fn machines_are_published(
    all: Seq<DeclV>,
    registry: Seq<FsmEntryV>,
    offset: u32,
) -> (at: Seq<int>)
    ensures
        selects(at, all.len() as int, |i: int| publishes(all, registry, all[i])),
        decls_coded(all, registry, offset, all).len() == at.len(),
        forall|m: int, states: Seq<Seq<char>>, def: FsmDefinitionV|
            0 <= m < at.len() && states.len() <= u32::MAX && offset + def.transitions.len()
                <= u32::MAX && #[trigger] is_published(all, registry, all[at[m]], states, def)
                ==> exists|moves: Seq<int>, ticks: Seq<int>| #[trigger]
                codes_machine(
                    decls_coded(all, registry, offset, all)[m],
                    all[at[m]].kind->Impl_0.trait_name,
                    states,
                    def,
                    offset,
                    moves,
                    ticks,
                ),
{
    let keep = |i: int| publishes(all, registry, all[i]);
    kept_below_selects(all.len(), keep);
    published_at(all, registry, offset, all, all.len());
    assert(all.take(all.len() as int) =~= all);
    let at = kept_below(all.len(), keep);
    let out = decls_coded(all, registry, offset, all);
    assert forall|m: int, states: Seq<Seq<char>>, def: FsmDefinitionV|
        0 <= m < at.len() && states.len() <= u32::MAX && offset + def.transitions.len() <= u32::MAX
            && #[trigger] is_published(all, registry, all[at[m]], states, def) implies exists|
        moves: Seq<int>,
        ticks: Seq<int>,
    | #[trigger]
        codes_machine(
            out[m],
            all[at[m]].kind->Impl_0.trait_name,
            states,
            def,
            offset,
            moves,
            ticks,
        ) by {
        publishing(all, registry, offset, all[at[m]]);
        let name = all[at[m]].kind->Impl_0.trait_name;
        let (moves, ticks) = machine_is_coded(name, states, def, offset);
        assert(out[m] == fsm_coded(name, states, def, offset));
    }
    at
}

// ---------------------------------------------------------------------------
// Components
// ---------------------------------------------------------------------------

/// Whether properties are the parameters of a view but for `self`.
pub open spec fn are_props(props: Seq<PropDefV>, params: Seq<ParamV>, at: Seq<int>) -> bool {
    &&& selects(at, params.len() as int, |k: int| !params[k].is_self)
    &&& props.len() == at.len()
    &&& forall|i: int|
        0 <= i < props.len() ==> (#[trigger] props[i]).name == params[at[i]].name && props[i].ty
            == params[at[i]].ty
}

/// Whether a program has a class of a name.
pub open spec fn class_exists(all: Seq<DeclV>, name: Seq<char>) -> bool {
    exists|i: int| 0 <= i < all.len() && class_called(#[trigger] all[i], name)
}

/// Whether a declaration defines the component `name`: it is an impl for the
/// class of that name, and its first method `view` is method `m`.
pub open spec fn defines_component(
    all: Seq<DeclV>,
    types: Seq<TypeDefinitionV>,
    d: DeclV,
    name: Seq<char>,
    m: int,
) -> bool {
    d.kind matches DeclKindV::Impl(i) && {
        &&& is_named(types, i.for_type, name)
        &&& class_exists(all, name)
        &&& 0 <= m < i.methods.len()
        &&& i.methods[m].name == "view"@
        &&& forall|j: int| 0 <= j < m ==> (#[trigger] i.methods[j]).name != "view"@
    }
}

/// Whether a definition is that of a component with the parameters of its view.
pub open spec fn is_component(
    c: ComponentDefinitionV,
    name: Seq<char>,
    params: Seq<ParamV>,
) -> bool {
    &&& c.name == name
    &&& c.view_symbol == name + "$view"@
    &&& exists|at: Seq<int>| #[trigger] are_props(c.props, params, at)
}

proof fn props_at(params: Seq<ParamV>, n: nat)
    requires
        n <= params.len(),
    ensures
        ({
            let at = kept_below(n, |k: int| !params[k].is_self);
            let out = view_props(params.take(n as int));
            out.len() == at.len() && forall|i: int|
                0 <= i < out.len() ==> (#[trigger] out[i]).name == params[at[i]].name && out[i].ty
                    == params[at[i]].ty
        }),
    decreases n,
{
    if n > 0 {
        let m = (n - 1) as nat;
        props_at(params, m);
        assert(params.take(n as int).drop_last() =~= params.take(m as int));
        assert(params.take(n as int).last() == params[m as int]);
    }
}

proof fn class_is(all: Seq<DeclV>, name: Seq<char>)
    ensures
        class_exists(all, name) <==> has_class(all, name),
{
    if class_exists(all, name) {
        let i = choose|i: int|
            0 <= i < all.len() && class_called(#[trigger] all[i], name);
        assert(all[i].kind is Class);
    }
    if has_class(all, name) {
        let i = choose|i: int|
            0 <= i < all.len() && ((#[trigger] all[i]).kind matches DeclKindV::Class(c) && c.name
                == name);
        assert(class_called(all[i], name));
    }
}

proof fn component_of(all: Seq<DeclV>, types: Seq<TypeDefinitionV>, d: DeclV)
    ensures
        forall|name: Seq<char>, m: int| #[trigger]
            defines_component(all, types, d, name, m) ==> decl_component(all, types, d) is Some
                && is_component(
                decl_component(all, types, d)->0,
                name,
                d.kind->Impl_0.methods[m].params,
            ),
        decl_component(all, types, d) is Some ==> exists|m: int| #[trigger]
            defines_component(all, types, d, decl_component(all, types, d)->0.name, m),
{
    match d.kind {
        DeclKindV::Impl(i) => {
            first_method(i.methods, "view"@);
            assert forall|name: Seq<char>, m: int| #[trigger]
                defines_component(all, types, d, name, m) implies decl_component(all, types, d)
                is Some && is_component(
                decl_component(all, types, d)->0,
                name,
                i.methods[m].params,
            ) by {
                last_entry_names(types, i.for_type, name);
                class_is(all, name);
                let found = find_method(i.methods, "view"@);
                let q = choose|q: int|
                    0 <= q < i.methods.len() && #[trigger] i.methods[q] == found->0
                        && found->0.name == "view"@ && forall|j: int|
                        0 <= j < q ==> (#[trigger] i.methods[j]).name != "view"@;
                assert(found is Some) by {
                    assert(i.methods[m].name == "view"@);
                }
                assert(q == m);
                let params = i.methods[m].params;
                props_at(params, params.len());
                assert(params.take(params.len() as int) =~= params);
                let keep = |k: int| !params[k].is_self;
                kept_below_selects(params.len(), keep);
                let c = decl_component(all, types, d)->0;
                assert(nominal_name(types, i.for_type) == Some(name));
                assert(decl_component(all, types, d) is Some);
                assert(c.props == view_props(params));
                assert(are_props(c.props, params, kept_below(params.len(), keep)));
            }
            match decl_component(all, types, d) {
                Some(c) => {
                    last_entry_names(types, i.for_type, c.name);
                    class_is(all, c.name);
                    let found = find_method(i.methods, "view"@);
                    let q = choose|q: int|
                        0 <= q < i.methods.len() && #[trigger] i.methods[q] == found->0
                            && found->0.name == "view"@ && forall|j: int|
                            0 <= j < q ==> (#[trigger] i.methods[j]).name != "view"@;
                    assert(defines_component(all, types, d, c.name, q));
                },
                None => {},
            }
        },
        _ => {},
    }
}

/// Whether a declaration defines a component of a name.
pub open spec fn defines_some(
    all: Seq<DeclV>,
    types: Seq<TypeDefinitionV>,
    d: DeclV,
    name: Seq<char>,
) -> bool {
    exists|m: int| #[trigger] defines_component(all, types, d, name, m)
}

/// A component is known as its last impl defines it: under its own name, by
/// the symbol `Name$view`, with the parameters of its view but for `self`. A
/// name that no impl defines is known as before.
pub proof fn components_are_published(
    all: Seq<DeclV>,
    types: Seq<TypeDefinitionV>,
    defs: Seq<ComponentDefinitionV>,
    s: Seq<DeclV>,
    name: Seq<char>,
)
    ensures
        ({
            let out = components_published(all, types, defs, s);
            &&& (forall|i: int| 0 <= i < s.len() ==> !defines_some(all, types, #[trigger] s[i], name))
                ==> lookup(out, name) == lookup(defs, name)
            &&& forall|i: int, m: int|
                0 <= i < s.len() && #[trigger] defines_component(all, types, s[i], name, m) && (
                forall|j: int|
                    i < j < s.len() ==> !defines_some(all, types, #[trigger] s[j], name))
                    ==> lookup(out, name) is Some && is_component(
                    lookup(out, name)->0,
                    name,
                    s[i].kind->Impl_0.methods[m].params,
                )
        }),
    decreases s.len(),
{
    if s.len() > 0 {
        let front = s.drop_last();
        let last = s.last();
        components_are_published(all, types, defs, front, name);
        component_of(all, types, last);
        let before = components_published(all, types, defs, front);
        let out = components_published(all, types, defs, s);
        assert(s[s.len() - 1] == last);
        assert forall|i: int| 0 <= i < front.len() implies s[i] == #[trigger] front[i] by {}
        match decl_component(all, types, last) {
            Some(d) => {
                let m = choose|m: int| #[trigger] defines_component(all, types, last, d.name, m);
                assert(defines_component(all, types, last, d.name, m));
                assert(defines_some(all, types, last, d.name));
                let free = d.name.push('x');
                assert(free.len() != d.name.len());
                registered_is_found(before, d, free);
                if name != d.name {
                    registered_is_found(before, d, name);
                    assert(!defines_some(all, types, last, name)) by {
                        if defines_some(all, types, last, name) {
                            let q = choose|q: int| #[trigger]
                                defines_component(all, types, last, name, q);
                        }
                    }
                }
            },
            None => {
                assert(!defines_some(all, types, last, name));
            },
        }
        if forall|i: int| 0 <= i < s.len() ==> !defines_some(all, types, #[trigger] s[i], name) {
            assert forall|i: int| 0 <= i < front.len() implies !defines_some(
                all,
                types,
                #[trigger] front[i],
                name,
            ) by {
                assert(s[i] == front[i]);
            }
            assert(!defines_some(all, types, last, name));
        }
        assert forall|i: int, m: int|
            0 <= i < s.len() && #[trigger] defines_component(all, types, s[i], name, m) && (forall|
                j: int,
            |
                i < j < s.len() ==> !defines_some(all, types, #[trigger] s[j], name)) implies lookup(
            out,
            name,
        ) is Some && is_component(
            lookup(out, name)->0,
            name,
            s[i].kind->Impl_0.methods[m].params,
        ) by {
            if i < front.len() {
                assert(!defines_some(all, types, s[s.len() - 1], name));
                assert(defines_component(all, types, front[i], name, m));
                assert forall|j: int| i < j < front.len() implies !defines_some(
                    all,
                    types,
                    #[trigger] front[j],
                    name,
                ) by {
                    assert(s[j] == front[j]);
                }
            }
        }
    }
}

/// The layout widgets are known: `Div` takes children, a style, a class and a
/// click handler, and `Text` its content. Other names are known as before.
pub proof fn layout_widgets_are_known(defs: Seq<ComponentDefinitionV>, other: Seq<char>)
    requires
        other != "Div"@,
        other != "Text"@,
    ensures
        ({
            let out = with_layout_primitives(defs);
            let handle = TypeV::Primitive(PrimitiveType::I64);
            let text = TypeV::Primitive(PrimitiveType::String);
            &&& lookup(out, "Div"@) == Some(
                ComponentDefinitionV {
                    name: "Div"@,
                    view_symbol: "$Blinc$"@ + "Div"@ + "$view"@,
                    props: seq![
                        PropDefV { name: "children"@, ty: handle },
                        PropDefV { name: "__style"@, ty: handle },
                        PropDefV { name: "class"@, ty: text },
                        PropDefV { name: "on_click"@, ty: handle },
                    ],
                },
            )
            &&& lookup(out, "Text"@) == Some(
                ComponentDefinitionV {
                    name: "Text"@,
                    view_symbol: "$Blinc$"@ + "Text"@ + "$view"@,
                    props: seq![PropDefV { name: "content"@, ty: text }],
                },
            )
            &&& lookup(out, other) == lookup(defs, other)
        }),
{
    reveal_strlit("$Blinc$");
    reveal_strlit("$view");
    reveal_strlit("Div");
    reveal_strlit("Text");
    reveal_strlit("$Blinc$Div$view");
    reveal_strlit("$Blinc$Text$view");
    assert("$Blinc$Div$view"@ =~= "$Blinc$"@ + "Div"@ + "$view"@);
    assert("$Blinc$Text$view"@ =~= "$Blinc$"@ + "Text"@ + "$view"@);
    assert("Div"@.len() != "Text"@.len());
    let div = div_component();
    let text = text_component();
    registered_is_found(defs, div, other);
    registered_is_found(registered(defs, div), text, other);
    registered_is_found(registered(defs, div), text, "Div"@);
}

} // verus!
