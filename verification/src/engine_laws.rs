//! What holds of whole compilations.

use vstd::prelude::*;

use crate::ast::TypeId;
use crate::children::children_rule;
use crate::component::{lookup, registered_is_found, ComponentDefinitionV};
use crate::described_count::{
    converting_keeps_count, described_count, describes, nothing_described, returning_keeps_count,
    walk_keeps_count,
};
use crate::engine::{
    components_lowered, source_compiled, source_lowered, source_noted, widgets_lowered, BlincDslV,
};
use crate::fsm::{distinct_ids, fsm_def, FsmEntryV, FsmIdV};
use crate::model::{DeclV, ProgramV, TypeDefinitionV};
use crate::named_args::named_rule;
use crate::populate::{
    decl_without_meta, described_machines_are_registered, descriptions_are_gone, fsms_described,
    guard_function, guards_described, ids_given, populated,
};
use crate::publish::{components_published, decl_component};
use crate::queries::{all_handed_on, pending_stylesheets};
use crate::styling::styling_rule;
use crate::unit_return::{all_return, bodies_end_in_return};
use crate::value_views::{symbols_stay_known, views_converted};
use crate::walk::walk_program;

verus! {

/// Noting a source, which is all that happens to a source with an unknown
/// component, registers no component, no machine, no view and no file.
pub proof fn refused_source_registers_nothing(dsl: BlincDslV, p: ProgramV)
    ensures
        source_noted(dsl, p).0.components == dsl.components,
        source_noted(dsl, p).0.fsms == dsl.fsms,
        source_noted(dsl, p).0.value_returning_views == dsl.value_returning_views,
        source_noted(dsl, p).0.compiled_modules == dsl.compiled_modules,
{
}

/// Every body of a compiled program ends in a return.
pub proof fn compiled_bodies_return(
    dsl: BlincDslV,
    p: ProgramV,
    ids: Seq<TypeId>,
    offset: u32,
    k: int,
)
    requires
        0 <= k < source_lowered(dsl, p, ids, offset).1.declarations.len(),
    ensures
        all_return(source_lowered(dsl, p, ids, offset).1.declarations[k]),
{
    let lowered = components_lowered(p, dsl.components);
    let populated_p = populated(lowered, dsl.fsms, "main"@, ids).0;
    let components = source_lowered(dsl, p, ids, offset).0.components;
    let converted = views_converted(populated_p, dsl.value_returning_views).0;
    bodies_end_in_return(widgets_lowered(converted, components));
}

/// A compiled program describes no machine any more.
pub proof fn compiled_program_describes_nothing(
    dsl: BlincDslV,
    p: ProgramV,
    ids: Seq<TypeId>,
    offset: u32,
)
    ensures
        described_count(source_lowered(dsl, p, ids, offset).1.declarations) == 0,
{
    let lowered = components_lowered(p, dsl.components);
    let populated_p = populated(lowered, dsl.fsms, "main"@, ids).0;
    let components = source_lowered(dsl, p, ids, offset).0.components;
    populated_describes_nothing(lowered, dsl.fsms, "main"@, ids);
    converting_keeps_count(populated_p, dsl.value_returning_views);
    let converted = views_converted(populated_p, dsl.value_returning_views).0;
    let listed = walk_program(children_rule(components), 0, converted).0;
    let styled = walk_program(styling_rule(components), 0, listed).0;
    walk_keeps_count(children_rule(components), 0, converted.declarations);
    walk_keeps_count(styling_rule(components), 0, listed.declarations);
    walk_keeps_count(named_rule(components), (), styled.declarations);
    returning_keeps_count(widgets_lowered(converted, components));
}

proof fn populated_describes_nothing(
    p: ProgramV,
    registry: Seq<FsmEntryV>,
    module: Seq<char>,
    ids: Seq<TypeId>,
)
    ensures
        described_count(populated(p, registry, module, ids).0.declarations) == 0,
{
    let out = populated(p, registry, module, ids).0.declarations;
    let defs = fsms_described(p.declarations);
    let guards = guards_described(p.declarations);
    let p1 = ids_given(p, registry, module, defs, ids, defs.len()).0;
    let all = p1.declarations + Seq::new(
        guards.len(),
        |i: int| guard_function(guards[i]),
    );
    assert forall|i: int| 0 <= i < out.len() implies !describes(#[trigger] out[i]) by {
        descriptions_are_gone(all[i]);
        assert(out[i] == decl_without_meta(all[i]));
    }
    nothing_described(out);
}

/// Every machine of a compiled source is registered in the module `main` under
/// its id, and machines with other ids stay as they were.
pub proof fn compiled_machines_are_registered(
    dsl: BlincDslV,
    p: ProgramV,
    ids: Seq<TypeId>,
    offset: u32,
    k: int,
    other: FsmIdV,
)
    requires
        distinct_ids(dsl.fsms),
        fsms_described(components_lowered(p, dsl.components).declarations).len() <= ids.len(),
        ids.no_duplicates(),
        0 <= k < fsms_described(components_lowered(p, dsl.components).declarations).len(),
        other.module != "main"@ || !ids.contains(other.type_id),
    ensures
        fsm_def(
            source_lowered(dsl, p, ids, offset).0.fsms,
            (FsmIdV { module: "main"@, type_id: ids[k] }),
        ) == Some(fsms_described(components_lowered(p, dsl.components).declarations)[k]),
        fsm_def(source_lowered(dsl, p, ids, offset).0.fsms, other) == fsm_def(dsl.fsms, other),
{
    let lowered = components_lowered(p, dsl.components);
    described_machines_are_registered(lowered, dsl.fsms, "main"@, ids, k, other);
}

proof fn published_components_stay(
    all: Seq<DeclV>,
    types: Seq<TypeDefinitionV>,
    defs: Seq<ComponentDefinitionV>,
    s: Seq<DeclV>,
    name: Seq<char>,
)
    requires
        lookup(defs, name) is Some,
    ensures
        lookup(components_published(all, types, defs, s), name) is Some,
    decreases s.len(),
{
    if s.len() > 0 {
        published_components_stay(all, types, defs, s.drop_last(), name);
        let front = components_published(all, types, defs, s.drop_last());
        match decl_component(all, types, s.last()) {
            Some(d) => {
                if d.name == name {
                    registered_is_found(front, d, name.push('_'));
                    assert(name.push('_').len() != name.len());
                } else {
                    registered_is_found(front, d, name);
                }
            },
            None => {},
        }
    }
}

/// What could be called before a source was compiled can be called after it:
/// a component that was known is still known, and a view that returned a
/// widget is still known to do so.
pub proof fn compiling_forgets_nothing(
    dsl: BlincDslV,
    p: ProgramV,
    ids: Seq<TypeId>,
    offset: u32,
    name: Seq<char>,
)
    ensures
        lookup(dsl.components, name) is Some ==> lookup(
            source_lowered(dsl, p, ids, offset).0.components,
            name,
        ) is Some,
        dsl.value_returning_views.subset_of(
            source_lowered(dsl, p, ids, offset).0.value_returning_views,
        ),
        source_lowered(dsl, p, ids, offset).0.compiled_modules == dsl.compiled_modules,
{
    let lowered = components_lowered(p, dsl.components);
    let populated_p = populated(lowered, dsl.fsms, "main"@, ids).0;
    symbols_stay_known(populated_p, dsl.value_returning_views);
    if lookup(dsl.components, name) is Some {
        published_components_stay(
            populated_p.declarations,
            populated_p.type_registry,
            dsl.components,
            populated_p.declarations,
            name,
        );
    }
}

// ---------------------------------------------------------------------------
// Stylesheets
// ---------------------------------------------------------------------------

/// What happens to an engine that has to do with stylesheets.
pub enum SheetEventV {
    /// A source is compiled, or refused.
    Compile {
        program: ProgramV,
        imported: Seq<Option<Seq<Seq<char>>>>,
        ids: Seq<TypeId>,
        offset: u32,
    },
    /// The pending stylesheets are taken.
    Take,
}

/// The engine after an event.
pub open spec fn after_event(dsl: BlincDslV, e: SheetEventV) -> BlincDslV {
    match e {
        SheetEventV::Compile { program, imported, ids, offset } => source_compiled(
            dsl,
            program,
            imported,
            ids,
            offset,
        ).0,
        SheetEventV::Take => all_handed_on(dsl),
    }
}

/// The engine after some events.
pub open spec fn after_events(dsl: BlincDslV, s: Seq<SheetEventV>) -> BlincDslV
    decreases s.len(),
{
    if s.len() == 0 {
        dsl
    } else {
        after_event(after_events(dsl, s.drop_last()), s.last())
    }
}

/// The stylesheets that are handed on in the course of some events, in order.
pub open spec fn handed_on(dsl: BlincDslV, s: Seq<SheetEventV>) -> Seq<Seq<char>>
    decreases s.len(),
{
    if s.len() == 0 {
        seq![]
    } else {
        let front = handed_on(dsl, s.drop_last());
        match s.last() {
            SheetEventV::Compile { .. } => front,
            SheetEventV::Take => front + pending_stylesheets(after_events(dsl, s.drop_last())),
        }
    }
}

/// Compiling a source adds its stylesheets at the end and hands on none.
pub proof fn compiling_queues_nothing(
    dsl: BlincDslV,
    program: ProgramV,
    imported: Seq<Option<Seq<Seq<char>>>>,
    ids: Seq<TypeId>,
    offset: u32,
)
    ensures
        ({
            let now = source_compiled(dsl, program, imported, ids, offset).0;
            &&& now.stylesheets_queued_up_to == dsl.stylesheets_queued_up_to
            &&& dsl.compiled_stylesheets.is_prefix_of(now.compiled_stylesheets)
        }),
{
}

/// Every stylesheet is handed on at most once, in the order of compilation:
/// whatever sources are compiled and however often the pending stylesheets are
/// taken, what was handed on is the run of stylesheets from the first that was
/// pending up to the first that still is. After a take none is pending. There
/// are no more stylesheets than a machine word can count.
pub proof fn stylesheets_are_handed_on_once(dsl: BlincDslV, s: Seq<SheetEventV>)
    requires
        dsl.stylesheets_queued_up_to <= dsl.compiled_stylesheets.len(),
        after_events(dsl, s).compiled_stylesheets.len() <= usize::MAX,
    ensures
        ({
            let now = after_events(dsl, s);
            let from = dsl.stylesheets_queued_up_to;
            let to = now.stylesheets_queued_up_to;
            &&& from <= to <= now.compiled_stylesheets.len()
            &&& dsl.compiled_stylesheets.is_prefix_of(now.compiled_stylesheets)
            &&& handed_on(dsl, s) == now.compiled_stylesheets.subrange(from as int, to as int)
            &&& s.len() > 0 && s.last() is Take ==> to == now.compiled_stylesheets.len()
        }),
    decreases s.len(),
{
    let from = dsl.stylesheets_queued_up_to as int;
    if s.len() == 0 {
        assert(handed_on(dsl, s) =~= dsl.compiled_stylesheets.subrange(from, from));
    } else {
        let before = after_events(dsl, s.drop_last());
        let now = after_events(dsl, s);
        match s.last() {
            SheetEventV::Compile { program, imported, ids, offset } => {
                compiling_queues_nothing(before, program, imported, ids, offset);
            },
            SheetEventV::Take => {},
        }
        assert(before.compiled_stylesheets.is_prefix_of(now.compiled_stylesheets));
        stylesheets_are_handed_on_once(dsl, s.drop_last());
        let to = now.stylesheets_queued_up_to as int;
        assert(handed_on(dsl, s) =~= now.compiled_stylesheets.subrange(from, to));
    }
}

/// The stylesheets of a source are handed on exactly once, after those that
/// were pending, when it is compiled and the pending stylesheets are then taken
/// any number of times but at least once.
pub proof fn compiled_stylesheets_are_handed_on_once(
    dsl: BlincDslV,
    program: ProgramV,
    imported: Seq<Option<Seq<Seq<char>>>>,
    ids: Seq<TypeId>,
    offset: u32,
    takes: nat,
)
    requires
        takes > 0,
        dsl.stylesheets_queued_up_to <= dsl.compiled_stylesheets.len(),
        source_compiled(dsl, program, imported, ids, offset).0.compiled_stylesheets.len()
            <= usize::MAX,
    ensures
        ({
            let compile = SheetEventV::Compile { program, imported, ids, offset };
            let events = seq![compile] + Seq::new(takes, |i: int| SheetEventV::Take);
            let added = source_compiled(
                dsl,
                program,
                imported,
                ids,
                offset,
            ).0.compiled_stylesheets.skip(dsl.compiled_stylesheets.len() as int);
            handed_on(dsl, events) == pending_stylesheets(dsl) + added
        }),
{
    let compile = SheetEventV::Compile { program, imported, ids, offset };
    let events = seq![compile] + Seq::new(takes, |i: int| SheetEventV::Take);
    let compiled = source_compiled(dsl, program, imported, ids, offset).0;
    takes_keep_stylesheets(dsl, compile, takes);
    compiling_queues_nothing(dsl, program, imported, ids, offset);
    stylesheets_are_handed_on_once(dsl, events);
    let all = compiled.compiled_stylesheets;
    let n = dsl.compiled_stylesheets.len() as int;
    assert(events.last() is Take);
    assert(all.skip(dsl.stylesheets_queued_up_to as int) =~= pending_stylesheets(dsl) + all.skip(
        n,
    ));
    assert(all.subrange(dsl.stylesheets_queued_up_to as int, all.len() as int) =~= all.skip(
        dsl.stylesheets_queued_up_to as int,
    ));
}

/// Taking the pending stylesheets keeps the list of all.
proof fn takes_keep_stylesheets(dsl: BlincDslV, first: SheetEventV, takes: nat)
    ensures
        after_events(
            dsl,
            seq![first] + Seq::new(takes, |i: int| SheetEventV::Take),
        ).compiled_stylesheets == after_event(dsl, first).compiled_stylesheets,
    decreases takes,
{
    let events = seq![first] + Seq::new(takes, |i: int| SheetEventV::Take);
    if takes == 0 {
        assert(events.drop_last() =~= seq![]);
        assert(after_events(dsl, events.drop_last()) == dsl);
    } else {
        let front = seq![first] + Seq::new((takes - 1) as nat, |i: int| SheetEventV::Take);
        assert(events.drop_last() =~= front);
        takes_keep_stylesheets(dsl, first, (takes - 1) as nat);
    }
}

} // verus!
