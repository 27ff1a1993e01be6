//! What a compiled program makes known to the runtime: its machines in coded
//! form, and its components.

use vstd::prelude::*;

use crate::ast::{
    views, Class, Decl, DeclKind, EnumDecl, Param, PrimitiveType, Program, Type, Variant,
};
use crate::component::{
    lookup, registered, registered_is_found, registering_again, ComponentDefinition,
    ComponentDefinitionV, ComponentRegistry, PropDef, PropDefV,
};
use crate::decls::{find_method, get_method};
use crate::fsm::{
    def_named, EventTransition, EventTransitionV, FsmDefinition, FsmDefinitionV, FsmEntryV,
    FsmRegistry, TickGuard, TickGuardV,
};
use crate::model::{DeclKindV, DeclV, ParamV, TypeDefinitionV, VariantV};
use crate::populate::{find_enum, get_enum};
use crate::shape::prim;
use crate::text::{concat, names_view};
use crate::value_views::{get_nominal_name, nominal_name};

verus! {

// ---------------------------------------------------------------------------
// Codes
// ---------------------------------------------------------------------------

/// The position of the first occurrence of a name.
pub open spec fn index_of(s: Seq<Seq<char>>, name: Seq<char>) -> Option<int>
    decreases s.len(),
{
    if s.len() == 0 {
        None
    } else {
        match index_of(s.drop_last(), name) {
            Some(i) => Some(i),
            None => if s.last() == name {
                Some(s.len() - 1)
            } else {
                None
            },
        }
    }
}

/// A position as a code.
pub open spec fn code(i: int) -> u32 {
    i as u32
}

/// The code of a state: its position among the states.
pub open spec fn state_code(states: Seq<Seq<char>>, name: Seq<char>) -> Option<u32> {
    match index_of(states, name) {
        Some(i) => Some(code(i)),
        None => None,
    }
}

/// The events with `name` among them: a new one goes to the end.
pub open spec fn with_event(events: Seq<Seq<char>>, name: Seq<char>) -> Seq<Seq<char>> {
    match index_of(events, name) {
        Some(_) => events,
        None => events.push(name),
    }
}

/// The code of an event: its position among the events, moved by `offset` to
/// keep clear of the codes of pointer events.
pub open spec fn event_code(events: Seq<Seq<char>>, name: Seq<char>, offset: u32) -> u32 {
    match index_of(with_event(events, name), name) {
        Some(i) => code(i).wrapping_add(offset),
        None => offset,
    }
}

fn position_of_name(v: &Vec<String>, name: &String) -> (r: Option<usize>)
    ensures
        match r {
            Some(i) => i < v@.len() && index_of(names_view(v@), name@) == Some(i as int),
            None => index_of(names_view(v@), name@) is None,
        },
{
    let ghost all = names_view(v@);
    let mut found: Option<usize> = None;
    for i in 0..v.len()
        invariant
            all == names_view(v@),
            match found {
                Some(k) => k < v@.len() && index_of(all.take(i as int), name@) == Some(k as int),
                None => index_of(all.take(i as int), name@) is None,
            },
    {
        proof {
            assert(all.take(i + 1).drop_last() =~= all.take(i as int));
        }
        if found.is_none() && v[i] == *name {
            found = Some(i);
        }
    }
    assert(all.take(all.len() as int) =~= all);
    found
}

fn get_state_code(states: &Vec<String>, name: &String) -> (r: Option<u32>)
    ensures
        r == state_code(names_view(states@), name@),
{
    match position_of_name(states, name) {
        Some(i) => Some(#[verifier::truncate] (i as u32)),
        None => None,
    }
}

fn take_event_code(events: &mut Vec<String>, name: &String, offset: u32) -> (r: u32)
    ensures
        names_view(final(events)@) == with_event(names_view(old(events)@), name@),
        r == event_code(names_view(old(events)@), name@, offset),
{
    let ghost before = names_view(events@);
    match position_of_name(events, name) {
        Some(i) => {
            let n: u32 = #[verifier::truncate] (i as u32);
            n.wrapping_add(offset)
        },
        None => {
            let i: usize = events.len();
            let owned = name.clone();
            events.push(owned);
            proof {
                assert(names_view(events@) =~= before.push(name@));
                assert(before.push(name@).drop_last() =~= before);
            }
            let n: u32 = #[verifier::truncate] (i as u32);
            n.wrapping_add(offset)
        },
    }
}

// ---------------------------------------------------------------------------
// Machines
// ---------------------------------------------------------------------------

#[derive(Debug, PartialEq, Eq)]
pub struct CodedTransition {
    pub from_code: u32,
    pub event_code: u32,
    pub to_code: u32,
    pub actions: Vec<u64>,
}

#[derive(Debug, PartialEq, Eq)]
pub struct CodedGuard {
    pub from_code: u32,
    pub to_code: u32,
    pub guard_symbol: String,
}

/// A machine with its states and events as codes.
#[derive(Debug, PartialEq, Eq)]
pub struct CodedFsm {
    pub name: String,
    pub initial_code: u32,
    pub state_names: Vec<String>,
    pub event_names: Vec<String>,
    pub transitions: Vec<CodedTransition>,
    pub tick_guards: Vec<CodedGuard>,
}

/// View of [`CodedTransition`].
pub struct CodedTransitionV {
    pub from_code: u32,
    pub event_code: u32,
    pub to_code: u32,
    pub actions: Seq<u64>,
}

/// View of [`CodedGuard`].
pub struct CodedGuardV {
    pub from_code: u32,
    pub to_code: u32,
    pub guard_symbol: Seq<char>,
}

/// View of [`CodedFsm`].
pub struct CodedFsmV {
    pub name: Seq<char>,
    pub initial_code: u32,
    pub state_names: Seq<Seq<char>>,
    pub event_names: Seq<Seq<char>>,
    pub transitions: Seq<CodedTransitionV>,
    pub tick_guards: Seq<CodedGuardV>,
}

impl View for CodedTransition {
    type V = CodedTransitionV;

    open spec fn view(&self) -> CodedTransitionV {
        CodedTransitionV {
            from_code: self.from_code,
            event_code: self.event_code,
            to_code: self.to_code,
            actions: self.actions@,
        }
    }
}

impl View for CodedGuard {
    type V = CodedGuardV;

    open spec fn view(&self) -> CodedGuardV {
        CodedGuardV {
            from_code: self.from_code,
            to_code: self.to_code,
            guard_symbol: self.guard_symbol@,
        }
    }
}

impl View for CodedFsm {
    type V = CodedFsmV;

    open spec fn view(&self) -> CodedFsmV {
        CodedFsmV {
            name: self.name@,
            initial_code: self.initial_code,
            state_names: names_view(self.state_names@),
            event_names: names_view(self.event_names@),
            transitions: views(self.transitions@),
            tick_guards: views(self.tick_guards@),
        }
    }
}

/// Coded transitions and the events that came up with them.
pub struct CodedTransitionsV {
    pub events: Seq<Seq<char>>,
    pub transitions: Seq<CodedTransitionV>,
}

/// The transitions between known states in coded form. Events are numbered in
/// the order in which they come up in transitions from a known state.
pub open spec fn transitions_coded(
    states: Seq<Seq<char>>,
    offset: u32,
    s: Seq<EventTransitionV>,
) -> CodedTransitionsV
    decreases s.len(),
{
    if s.len() == 0 {
        CodedTransitionsV { events: seq![], transitions: seq![] }
    } else {
        let front = transitions_coded(states, offset, s.drop_last());
        let t = s.last();
        match state_code(states, t.from) {
            Some(from_code) => {
                let events = with_event(front.events, t.event);
                match state_code(states, t.to) {
                    Some(to_code) => CodedTransitionsV {
                        events,
                        transitions: front.transitions.push(
                            CodedTransitionV {
                                from_code,
                                event_code: event_code(front.events, t.event, offset),
                                to_code,
                                actions: t.actions,
                            },
                        ),
                    },
                    None => CodedTransitionsV { events, ..front },
                }
            },
            None => front,
        }
    }
}

/// The guards between known states in coded form.
pub open spec fn guards_coded(states: Seq<Seq<char>>, s: Seq<TickGuardV>) -> Seq<CodedGuardV>
    decreases s.len(),
{
    if s.len() == 0 {
        seq![]
    } else {
        let front = guards_coded(states, s.drop_last());
        let g = s.last();
        match (g.guard_fn, state_code(states, g.from), state_code(states, g.to)) {
            (Some(guard_symbol), Some(from_code), Some(to_code)) => front.push(
                CodedGuardV { from_code, to_code, guard_symbol },
            ),
            _ => front,
        }
    }
}

pub open spec fn variant_names(s: Seq<VariantV>) -> Seq<Seq<char>> {
    Seq::new(s.len(), |i: int| s[i].name)
}

/// A machine with the states of its enum in coded form. Without a known
/// initial state it starts in the first.
pub open spec fn fsm_coded(
    name: Seq<char>,
    states: Seq<Seq<char>>,
    def: FsmDefinitionV,
    offset: u32,
) -> CodedFsmV {
    let coded = transitions_coded(states, offset, def.transitions);
    CodedFsmV {
        name,
        initial_code: match def.initial {
            Some(s) => match state_code(states, s) {
                Some(n) => n,
                None => 0,
            },
            None => 0,
        },
        state_names: states,
        event_names: coded.events,
        transitions: coded.transitions,
        tick_guards: guards_coded(states, def.tick_guards),
    }
}

/// The coded machine that a declaration stands for: an impl block whose trait
/// has both a state enum and a registered definition.
pub open spec fn decl_coded(
    all: Seq<DeclV>,
    registry: Seq<FsmEntryV>,
    offset: u32,
    d: DeclV,
) -> Option<CodedFsmV> {
    match d.kind {
        DeclKindV::Impl(i) => match (
            find_enum(all, i.trait_name),
            def_named(registry, i.trait_name),
        ) {
            (Some(k), Some(def)) => Some(
                fsm_coded(
                    i.trait_name,
                    variant_names(all[k].kind->Enum_0.variants),
                    def,
                    offset,
                ),
            ),
            _ => None,
        },
        _ => None,
    }
}

/// The coded machines of some declarations, in order.
pub open spec fn decls_coded(
    all: Seq<DeclV>,
    registry: Seq<FsmEntryV>,
    offset: u32,
    s: Seq<DeclV>,
) -> Seq<CodedFsmV>
    decreases s.len(),
{
    if s.len() == 0 {
        seq![]
    } else {
        let front = decls_coded(all, registry, offset, s.drop_last());
        match decl_coded(all, registry, offset, s.last()) {
            Some(f) => front.push(f),
            None => front,
        }
    }
}

fn code_transitions(
    states: &Vec<String>,
    offset: u32,
    v: &Vec<EventTransition>,
    events: &mut Vec<String>,
) -> (r: Vec<CodedTransition>)
    requires
        old(events)@.len() == 0,
    ensures
        views(r@) == transitions_coded(names_view(states@), offset, views(v@)).transitions,
        names_view(final(events)@) == transitions_coded(
            names_view(states@),
            offset,
            views(v@),
        ).events,
{
    let ghost all = views(v@);
    let ghost names = names_view(states@);
    let mut r: Vec<CodedTransition> = Vec::new();
    proof {
        assert(views(r@) =~= transitions_coded(names, offset, all.take(0)).transitions);
        assert(names_view(events@) =~= transitions_coded(names, offset, all.take(0)).events);
    }
    for i in 0..v.len()
        invariant
            all == views(v@),
            names == names_view(states@),
            views(r@) == transitions_coded(names, offset, all.take(i as int)).transitions,
            names_view(events@) == transitions_coded(names, offset, all.take(i as int)).events,
    {
        let t = &v[i];
        proof {
            assert(all.take(i + 1).drop_last() =~= all.take(i as int));
            assert(all[i as int] == t@);
        }
        match get_state_code(states, &t.from) {
            Some(from_code) => {
                let event_code = take_event_code(events, &t.event, offset);
                match get_state_code(states, &t.to) {
                    Some(to_code) => {
                        let actions = copy_actions(&t.actions);
                        let c = CodedTransition { from_code, event_code, to_code, actions };
                        assert(views(r@.push(c)) =~= views(r@).push(c@));
                        r.push(c);
                    },
                    None => {},
                }
            },
            None => {},
        }
    }
    assert(all.take(all.len() as int) =~= all);
    r
}

fn copy_actions(v: &Vec<u64>) -> (r: Vec<u64>)
    ensures
        r@ == v@,
{
    let mut r: Vec<u64> = Vec::new();
    for i in 0..v.len()
        invariant
            r@ == v@.take(i as int),
    {
        assert(v@.take(i + 1) =~= v@.take(i as int).push(v@[i as int]));
        r.push(v[i]);
    }
    assert(v@.take(v@.len() as int) =~= v@);
    r
}

fn code_guards(states: &Vec<String>, v: &Vec<TickGuard>) -> (r: Vec<CodedGuard>)
    ensures
        views(r@) == guards_coded(names_view(states@), views(v@)),
{
    let ghost all = views(v@);
    let ghost names = names_view(states@);
    let mut r: Vec<CodedGuard> = Vec::new();
    assert(views(r@) =~= guards_coded(names, all.take(0)));
    for i in 0..v.len()
        invariant
            all == views(v@),
            names == names_view(states@),
            views(r@) == guards_coded(names, all.take(i as int)),
    {
        let g = &v[i];
        proof {
            assert(all.take(i + 1).drop_last() =~= all.take(i as int));
            assert(all[i as int] == g@);
        }
        match &g.guard_fn {
            Some(symbol) => {
                match (get_state_code(states, &g.from), get_state_code(states, &g.to)) {
                    (Some(from_code), Some(to_code)) => {
                        let c = CodedGuard { from_code, to_code, guard_symbol: symbol.clone() };
                        assert(views(r@.push(c)) =~= views(r@).push(c@));
                        r.push(c);
                    },
                    _ => {},
                }
            },
            None => {},
        }
    }
    assert(all.take(all.len() as int) =~= all);
    r
}

fn copy_variant_names(v: &Vec<Variant>) -> (r: Vec<String>)
    ensures
        names_view(r@) == variant_names(views(v@)),
{
    let mut r: Vec<String> = Vec::new();
    for i in 0..v.len()
        invariant
            r@.len() == i,
            forall|k: int| 0 <= k < i ==> (#[trigger] r@[k])@ == v@[k]@.name,
    {
        r.push(v[i].name.clone());
    }
    assert(names_view(r@) =~= variant_names(views(v@)));
    r
}

fn code_fsm(name: &String, e: &EnumDecl, def: &FsmDefinition, offset: u32) -> (r: CodedFsm)
    ensures
        r@ == fsm_coded(name@, variant_names(e@.variants), def@, offset),
{
    let states = copy_variant_names(&e.variants);
    let mut events: Vec<String> = Vec::new();
    let transitions = code_transitions(&states, offset, &def.transitions, &mut events);
    let tick_guards = code_guards(&states, &def.tick_guards);
    let initial_code: u32 = match &def.initial {
        Some(s) => match get_state_code(&states, s) {
            Some(n) => n,
            None => 0,
        },
        None => 0,
    };
    CodedFsm {
        name: name.clone(),
        initial_code,
        state_names: states,
        event_names: events,
        transitions,
        tick_guards,
    }
}

/// The coded form of every machine of a program, for the runtime to register.
/// `offset` is where the runtime starts to number machine events.
pub fn publish_fsms_to_runtime_registry(
    program: &Program,
    registry: &FsmRegistry,
    offset: u32,
) -> (r: Vec<CodedFsm>)
    requires
        registry.wf(),
    ensures
        views(r@) == decls_coded(
            program@.declarations,
            registry@,
            offset,
            program@.declarations,
        ),
{
    let ghost all = program@.declarations;
    let mut r: Vec<CodedFsm> = Vec::new();
    assert(views(r@) =~= decls_coded(all, registry@, offset, all.take(0)));
    for i in 0..program.declarations.len()
        invariant
            registry.wf(),
            all == program@.declarations,
            views(r@) == decls_coded(all, registry@, offset, all.take(i as int)),
    {
        proof {
            assert(all.take(i + 1).drop_last() =~= all.take(i as int));
            assert(all[i as int] == program.declarations@[i as int]@);
        }
        match &program.declarations[i].kind {
            DeclKind::Impl(imp) => {
                match (
                    get_enum(&program.declarations, &imp.trait_name),
                    registry.find_def(&imp.trait_name),
                ) {
                    (Some(e), Some(def)) => {
                        let f = code_fsm(&imp.trait_name, e, def, offset);
                        assert(views(r@.push(f)) =~= views(r@).push(f@));
                        r.push(f);
                    },
                    _ => {},
                }
            },
            _ => {},
        }
    }
    assert(all.take(all.len() as int) =~= all);
    r
}

// ---------------------------------------------------------------------------
// Components
// ---------------------------------------------------------------------------

/// Whether some declarations hold a class called `name`.
pub open spec fn has_class(s: Seq<DeclV>, name: Seq<char>) -> bool {
    exists|i: int|
        0 <= i < s.len() && ((#[trigger] s[i]).kind matches DeclKindV::Class(c) && c.name == name)
}

/// The properties that the parameters of a view stand for.
pub open spec fn view_props(s: Seq<ParamV>) -> Seq<PropDefV>
    decreases s.len(),
{
    if s.len() == 0 {
        seq![]
    } else {
        let front = view_props(s.drop_last());
        if s.last().is_self {
            front
        } else {
            front.push(PropDefV { name: s.last().name, ty: s.last().ty })
        }
    }
}

/// The component that a declaration defines: an impl block for a class, with a
/// view.
pub open spec fn decl_component(
    all: Seq<DeclV>,
    types: Seq<TypeDefinitionV>,
    d: DeclV,
) -> Option<ComponentDefinitionV> {
    match d.kind {
        DeclKindV::Impl(i) => match nominal_name(types, i.for_type) {
            Some(name) => match find_method(i.methods, "view"@) {
                Some(m) => if has_class(all, name) {
                    Some(
                        ComponentDefinitionV {
                            name,
                            view_symbol: name + "$view"@,
                            props: view_props(m.params),
                        },
                    )
                } else {
                    None
                },
                None => None,
            },
            None => None,
        },
        _ => None,
    }
}

/// The known components after those of some declarations were registered.
pub open spec fn components_published(
    all: Seq<DeclV>,
    types: Seq<TypeDefinitionV>,
    defs: Seq<ComponentDefinitionV>,
    s: Seq<DeclV>,
) -> Seq<ComponentDefinitionV>
    decreases s.len(),
{
    if s.len() == 0 {
        defs
    } else {
        let front = components_published(all, types, defs, s.drop_last());
        match decl_component(all, types, s.last()) {
            Some(d) => registered(front, d),
            None => front,
        }
    }
}

fn holds_class(decls: &Vec<Decl>, name: &String) -> (r: bool)
    ensures
        r == has_class(views(decls@), name@),
{
    let ghost all = views(decls@);
    let mut i: usize = 0;
    while i < decls.len()
        invariant
            i <= decls@.len(),
            all == views(decls@),
            forall|k: int|
                0 <= k < i ==> !((#[trigger] all[k]).kind matches DeclKindV::Class(c) && c.name
                    == name@),
        decreases decls@.len() - i,
    {
        assert(all[i as int] == decls@[i as int]@);
        match &decls[i].kind {
            DeclKind::Class(c) => {
                if c.name == *name {
                    return true;
                }
            },
            _ => {},
        }
        i = i + 1;
    }
    false
}

fn collect_view_props(v: &Vec<Param>) -> (r: Vec<PropDef>)
    ensures
        views(r@) == view_props(views(v@)),
{
    let ghost all = views(v@);
    let mut r: Vec<PropDef> = Vec::new();
    assert(views(r@) =~= view_props(all.take(0)));
    for i in 0..v.len()
        invariant
            all == views(v@),
            views(r@) == view_props(all.take(i as int)),
    {
        let p = &v[i];
        proof {
            assert(all.take(i + 1).drop_last() =~= all.take(i as int));
            assert(all[i as int] == p@);
        }
        if !p.is_self {
            let d = PropDef { name: p.name.clone(), ty: p.ty.copied() };
            assert(views(r@.push(d)) =~= views(r@).push(d@));
            r.push(d);
        }
    }
    assert(all.take(all.len() as int) =~= all);
    r
}

/// Register every component that a program defines.
pub fn publish_components_to_runtime_registry(program: &Program, registry: &mut ComponentRegistry)
    ensures
        final(registry)@ == components_published(
            program@.declarations,
            program@.type_registry,
            old(registry)@,
            program@.declarations,
        ),
{
    let ghost all = program@.declarations;
    let ghost types = program@.type_registry;
    let ghost defs0 = registry@;
    assert(all.take(0) =~= Seq::<DeclV>::empty());
    for i in 0..program.declarations.len()
        invariant
            all == program@.declarations,
            types == program@.type_registry,
            registry@ == components_published(all, types, defs0, all.take(i as int)),
    {
        proof {
            assert(all.take(i + 1).drop_last() =~= all.take(i as int));
            assert(all[i as int] == program.declarations@[i as int]@);
        }
        match &program.declarations[i].kind {
            DeclKind::Impl(imp) => match get_nominal_name(
                &program.type_registry,
                &imp.for_type,
            ) {
                Some(name) => match get_method(&imp.methods, "view") {
                    Some(m) => {
                        if holds_class(&program.declarations, &name) {
                            let props = collect_view_props(&m.params);
                            let view_symbol = concat(name.as_str(), "$view");
                            registry.register(ComponentDefinition { name, view_symbol, props });
                        }
                    },
                    None => {},
                },
                None => {},
            },
            _ => {},
        }
    }
    assert(all.take(all.len() as int) =~= all);
}

// ---------------------------------------------------------------------------
// Host widgets
// ---------------------------------------------------------------------------

/// The widget `Div`: a container with a style, a class and a click handler.
pub open spec fn div_component() -> ComponentDefinitionV {
    ComponentDefinitionV {
        name: "Div"@,
        view_symbol: "$Blinc$Div$view"@,
        props: seq![
            PropDefV { name: "children"@, ty: prim(PrimitiveType::I64) },
            PropDefV { name: "__style"@, ty: prim(PrimitiveType::I64) },
            PropDefV { name: "class"@, ty: prim(PrimitiveType::String) },
            PropDefV { name: "on_click"@, ty: prim(PrimitiveType::I64) },
        ],
    }
}

/// The widget `Text`: a text.
pub open spec fn text_component() -> ComponentDefinitionV {
    ComponentDefinitionV {
        name: "Text"@,
        view_symbol: "$Blinc$Text$view"@,
        props: seq![PropDefV { name: "content"@, ty: prim(PrimitiveType::String) }],
    }
}

/// Register the layout widgets that the host always provides.
pub fn register_blinc_layout_primitives(registry: &mut ComponentRegistry)
    ensures
        final(registry)@ == with_layout_primitives(old(registry)@),
{
    let mut div_props: Vec<PropDef> = Vec::new();
    let handle = PrimitiveType::I64;
    let text = PrimitiveType::String;
    div_props.push(PropDef { name: "children".to_owned(), ty: Type::Primitive(handle) });
    div_props.push(PropDef { name: "__style".to_owned(), ty: Type::Primitive(handle) });
    div_props.push(PropDef { name: "class".to_owned(), ty: Type::Primitive(text) });
    div_props.push(PropDef { name: "on_click".to_owned(), ty: Type::Primitive(handle) });
    let div = ComponentDefinition {
        name: "Div".to_owned(),
        view_symbol: "$Blinc$Div$view".to_owned(),
        props: div_props,
    };
    assert(div@.props =~= div_component().props);
    registry.register(div);
    let mut text_props: Vec<PropDef> = Vec::new();
    text_props.push(PropDef { name: "content".to_owned(), ty: Type::Primitive(text) });
    let label = ComponentDefinition {
        name: "Text".to_owned(),
        view_symbol: "$Blinc$Text$view".to_owned(),
        props: text_props,
    };
    assert(label@.props =~= text_component().props);
    registry.register(label);
}

// ---------------------------------------------------------------------------
// Laws
// ---------------------------------------------------------------------------

/// What `index_of` finds is the name, and nothing before it is.
pub proof fn index_of_found(s: Seq<Seq<char>>, name: Seq<char>)
    ensures
        match index_of(s, name) {
            Some(i) => 0 <= i < s.len() && s[i] == name && forall|k: int|
                0 <= k < i ==> #[trigger] s[k] != name,
            None => !s.contains(name),
        },
    decreases s.len(),
{
    if s.len() > 0 {
        let front = s.drop_last();
        index_of_found(front, name);
        assert forall|k: int| 0 <= k < front.len() implies s[k] == front[k] by {}
        if s.contains(name) {
            let k = choose|k: int| 0 <= k < s.len() && s[k] == name;
            if k < front.len() {
                assert(front.contains(front[k]));
            }
        }
    }
}

/// The events of a coded machine are distinct.
pub proof fn coded_events_are_distinct(
    states: Seq<Seq<char>>,
    offset: u32,
    s: Seq<EventTransitionV>,
)
    ensures
        transitions_coded(states, offset, s).events.no_duplicates(),
        transitions_coded(states, offset, s).events.len() <= s.len(),
        transitions_coded(states, offset, s).transitions.len() <= s.len(),
    decreases s.len(),
{
    if s.len() > 0 {
        coded_events_are_distinct(states, offset, s.drop_last());
        let front = transitions_coded(states, offset, s.drop_last());
        index_of_found(front.events, s.last().event);
    }
}

/// Whether a coded transition reads back as the transition `t`.
pub open spec fn reads_as(
    states: Seq<Seq<char>>,
    events: Seq<Seq<char>>,
    offset: u32,
    c: CodedTransitionV,
    t: EventTransitionV,
) -> bool {
    &&& (c.from_code as int) < states.len()
    &&& states[c.from_code as int] == t.from
    &&& (c.to_code as int) < states.len()
    &&& states[c.to_code as int] == t.to
    &&& offset <= c.event_code
    &&& ((c.event_code - offset) as int) < events.len()
    &&& events[c.event_code - offset] == t.event
    &&& c.actions == t.actions
}

/// Every coded transition of a machine reads back as one of its transitions:
/// codes stand for the states and events that they were made from.
pub proof fn codes_read_back(states: Seq<Seq<char>>, offset: u32, s: Seq<EventTransitionV>)
    requires
        states.len() <= u32::MAX,
        offset + s.len() <= u32::MAX,
    ensures
        forall|k: int|
            0 <= k < transitions_coded(states, offset, s).transitions.len() ==> exists|j: int|
                0 <= j < s.len() && reads_as(
                    states,
                    transitions_coded(states, offset, s).events,
                    offset,
                    #[trigger] transitions_coded(states, offset, s).transitions[k],
                    #[trigger] s[j],
                ),
    decreases s.len(),
{
    if s.len() > 0 {
        let before = s.drop_last();
        codes_read_back(states, offset, before);
        coded_events_are_distinct(states, offset, before);
        let front = transitions_coded(states, offset, before);
        let now = transitions_coded(states, offset, s);
        let t = s.last();
        index_of_found(states, t.from);
        index_of_found(states, t.to);
        index_of_found(front.events, t.event);
        index_of_found(with_event(front.events, t.event), t.event);
        assert forall|k: int| 0 <= k < now.transitions.len() implies exists|j: int|
            0 <= j < s.len() && reads_as(
                states,
                now.events,
                offset,
                #[trigger] now.transitions[k],
                #[trigger] s[j],
            ) by {
            if k < front.transitions.len() {
                assert(now.transitions[k] == front.transitions[k]);
                let j = choose|j: int|
                    0 <= j < before.len() && reads_as(
                        states,
                        front.events,
                        offset,
                        front.transitions[k],
                        #[trigger] before[j],
                    );
                assert(before[j] == s[j]);
                assert(reads_as(states, now.events, offset, now.transitions[k], s[j]));
            } else {
                let c = now.transitions[k];
                let i = index_of(with_event(front.events, t.event), t.event)->0;
                assert(with_event(front.events, t.event).contains(t.event)) by {
                    if index_of(front.events, t.event) is None {
                        assert(with_event(front.events, t.event).last() == t.event);
                    }
                }
                assert(c.event_code == offset + i);
                assert(reads_as(states, now.events, offset, c, s[s.len() - 1]));
            }
        }
    }
}

/// The known components after the layout widgets were registered.
pub open spec fn with_layout_primitives(defs: Seq<ComponentDefinitionV>) -> Seq<
    ComponentDefinitionV,
> {
    registered(registered(defs, div_component()), text_component())
}

/// Registering the layout widgets again changes nothing, and both are found.
pub proof fn layout_primitives_stay(defs: Seq<ComponentDefinitionV>)
    ensures
        with_layout_primitives(with_layout_primitives(defs)) == with_layout_primitives(defs),
        lookup(with_layout_primitives(defs), "Div"@) == Some(div_component()),
        lookup(with_layout_primitives(defs), "Text"@) == Some(text_component()),
{
    assert("Div"@ != "Text"@) by {
        reveal_strlit("Div");
        reveal_strlit("Text");
        assert("Div"@.len() != "Text"@.len());
    }
    let once = registered(defs, div_component());
    let both = with_layout_primitives(defs);
    registered_is_found(defs, div_component(), "Text"@);
    registered_is_found(once, text_component(), "Div"@);
    registering_again(both, div_component());
    registering_again(both, text_component());
}

} // verus!
