//! The engine: what it keeps between sources, and the order of the passes.

use vstd::prelude::*;
use vstd::string::*;

use crate::ast::{views, Program, Type, TypeId};
use crate::children::{children_rule, lower_children_arrays_to_blocks};
use crate::component::{ComponentDefinitionV, ComponentRegistry};
use crate::component_calls::{component_rule, lower_component_calls};
use crate::decls::{collect_declared, declared_fsms, declared_signals};
use crate::described_count::{
    additions_keep_count, binding_keeps_count, described_count, imports_keep_count,
    markers_keep_count, methods_keep_count, sheets_keep_count, signals_keep_count,
    undecorating_keeps_count, walk_keeps_count,
};
use crate::fsm::{FsmEntryV, FsmRegistry};
use crate::fsm_calls::{
    resolve_fsm_subscribe_calls, resolve_fsm_trigger_calls, subscriptions_resolved,
    triggers_resolved,
};
use crate::fsm_decls::{
    inject_fsm_context_markers, markers_injected, synthesize_fsm_event_enums,
    synthesize_fsm_trait_interfaces, with_event_enums, with_interfaces,
};
use crate::imports::{compiled_view, imports_injected, inject_imported_view_externs};
use crate::match_blocks::{lower_match_blocks, match_rule};
use crate::model::{ProgramV, TypeV};
use crate::name_set::NameSet;
use crate::named_args::{named_args_resolved, resolve_extern_widget_named_args};
use crate::populate::{populate_fsm_registry_pass, populated};
use crate::props::{bind_component_props, props_bound};
use crate::publish::{
    components_published, decls_coded, publish_components_to_runtime_registry,
    publish_fsms_to_runtime_registry, register_blinc_layout_primitives, with_layout_primitives,
    CodedFsm, CodedFsmV,
};
use crate::signals::{resolve_signal_calls, signals_resolved};
use crate::stateful::{detect_and_strip_stateful_views, merge_names, merged, program_undecorated};
use crate::styling::{lower_styling_args_to_overlays, styling_rule};
use crate::stylesheet::{extract_and_strip_stylesheets, sheets, without_sheets};
use crate::text::{concat, names_view};
use crate::unit_return::{ensure_unit_return, program_returning};
use crate::validate::{validate_component_calls, validation_errors};
use crate::value_views::{lower_view_to_value_returning, views_converted};
use crate::walk::walk_program;

verus! {

// ---------------------------------------------------------------------------
// Errors
// ---------------------------------------------------------------------------

/// What can go wrong between a source and its widgets.
#[derive(Debug, PartialEq, Eq)]
pub enum BlincDslError {
    /// The grammar does not compile.
    Grammar(String),
    /// A source has a parse, type or lowering error.
    Compile(String),
    /// A compiled function failed.
    Runtime(String),
    /// A source cannot be read.
    Io(String),
}

/// The text of an error.
pub open spec fn error_text(e: BlincDslError) -> Seq<char> {
    match e {
        BlincDslError::Grammar(m) => "blinc grammar compile failed: "@ + m@,
        BlincDslError::Compile(m) => "blinc compile error: "@ + m@,
        BlincDslError::Runtime(m) => "blinc runtime error: "@ + m@,
        BlincDslError::Io(m) => "blinc source io error: "@ + m@,
    }
}

impl BlincDslError {
    pub fn text(&self) -> (r: String)
        ensures
            r@ == error_text(*self),
    {
        match self {
            BlincDslError::Grammar(m) => concat("blinc grammar compile failed: ", m.as_str()),
            BlincDslError::Compile(m) => concat("blinc compile error: ", m.as_str()),
            BlincDslError::Runtime(m) => concat("blinc runtime error: ", m.as_str()),
            BlincDslError::Io(m) => concat("blinc source io error: ", m.as_str()),
        }
    }
}

/// Whether a result is the compile error with this message.
pub open spec fn fails_with<T>(r: Result<T, BlincDslError>, message: Seq<char>) -> bool {
    r matches Err(BlincDslError::Compile(m)) && m@ == message
}

/// Messages on lines of their own.
pub open spec fn on_lines(s: Seq<Seq<char>>) -> Seq<char>
    decreases s.len(),
{
    if s.len() == 0 {
        seq![]
    } else if s.len() == 1 {
        s[0]
    } else {
        on_lines(s.drop_last()) + "\n"@ + s.last()
    }
}

fn join_lines(v: &Vec<String>) -> (r: String)
    ensures
        r@ == on_lines(names_view(v@)),
{
    let ghost all = names_view(v@);
    let mut r: String = String::new();
    assert(r@ =~= on_lines(all.take(0)));
    for i in 0..v.len()
        invariant
            all == names_view(v@),
            r@ == on_lines(all.take(i as int)),
    {
        proof {
            assert(all.take(i + 1).drop_last() =~= all.take(i as int));
            assert(all[i as int] == v@[i as int]@);
        }
        if i > 0 {
            r.append("\n");
            r.append(v[i].as_str());
        } else {
            r = v[0].clone();
        }
    }
    assert(all.take(all.len() as int) =~= all);
    r
}

// ---------------------------------------------------------------------------
// State
// ---------------------------------------------------------------------------

/// The functions that a source file was compiled to.
#[derive(Debug, PartialEq, Eq)]
pub struct CompiledModule {
    pub path: String,
    pub names: Vec<String>,
}

/// View of [`CompiledModule`].
pub struct CompiledModuleV {
    pub path: Seq<char>,
    pub names: Seq<Seq<char>>,
}

impl View for CompiledModule {
    type V = CompiledModuleV;

    open spec fn view(&self) -> CompiledModuleV {
        CompiledModuleV { path: self.path@, names: names_view(self.names@) }
    }
}

/// What the engine knows.
#[derive(Debug)]
pub struct BlincDsl {
    /// The components that can be called.
    pub components: ComponentRegistry,
    /// The state machines that were compiled.
    pub fsms: FsmRegistry,
    /// The view functions that return a widget handle.
    pub value_returning_views: NameSet,
    /// The functions of every compiled file.
    pub compiled_modules: Vec<CompiledModule>,
    /// The stylesheets of all sources, in the order of compilation.
    pub compiled_stylesheets: Vec<String>,
    /// How many stylesheets were handed on.
    pub stylesheets_queued_up_to: usize,
    /// The signals that sources declared.
    pub declared_signals: Vec<(String, Type)>,
    /// The machines that sources declared.
    pub declared_fsms: Vec<String>,
    /// Whether a view is decorated as stateful.
    pub has_stateful_view: bool,
    /// The signals that stateful views name.
    pub stateful_view_deps: Vec<String>,
    /// The machines that stateful views name.
    pub stateful_view_fsms: Vec<String>,
}

/// View of [`BlincDsl`].
pub struct BlincDslV {
    pub components: Seq<ComponentDefinitionV>,
    pub fsms: Seq<FsmEntryV>,
    pub value_returning_views: Set<Seq<char>>,
    pub compiled_modules: Seq<CompiledModuleV>,
    pub compiled_stylesheets: Seq<Seq<char>>,
    pub stylesheets_queued_up_to: usize,
    pub declared_signals: Seq<(Seq<char>, TypeV)>,
    pub declared_fsms: Seq<Seq<char>>,
    pub has_stateful_view: bool,
    pub stateful_view_deps: Seq<Seq<char>>,
    pub stateful_view_fsms: Seq<Seq<char>>,
}

impl View for BlincDsl {
    type V = BlincDslV;

    open spec fn view(&self) -> BlincDslV {
        BlincDslV {
            components: self.components@,
            fsms: self.fsms@,
            value_returning_views: self.value_returning_views@,
            compiled_modules: views(self.compiled_modules@),
            compiled_stylesheets: names_view(self.compiled_stylesheets@),
            stylesheets_queued_up_to: self.stylesheets_queued_up_to,
            declared_signals: views(self.declared_signals@),
            declared_fsms: names_view(self.declared_fsms@),
            has_stateful_view: self.has_stateful_view,
            stateful_view_deps: names_view(self.stateful_view_deps@),
            stateful_view_fsms: names_view(self.stateful_view_fsms@),
        }
    }
}

/// An engine that knows the layout widgets and nothing else.
pub open spec fn fresh_engine() -> BlincDslV {
    BlincDslV {
        components: with_layout_primitives(seq![]),
        fsms: seq![],
        value_returning_views: Set::empty(),
        compiled_modules: seq![],
        compiled_stylesheets: seq![],
        stylesheets_queued_up_to: 0,
        declared_signals: seq![],
        declared_fsms: seq![],
        has_stateful_view: false,
        stateful_view_deps: seq![],
        stateful_view_fsms: seq![],
    }
}

impl BlincDsl {
    /// The machines are well kept, and no more stylesheets were handed on than
    /// there are.
    pub open spec fn wf(&self) -> bool {
        self.fsms.wf() && self.stylesheets_queued_up_to <= self.compiled_stylesheets@.len()
    }

    pub fn new() -> (dsl: BlincDsl)
        ensures
            dsl.wf(),
            dsl@ == fresh_engine(),
    {
        let mut components = ComponentRegistry::new();
        register_blinc_layout_primitives(&mut components);
        let dsl = BlincDsl {
            components,
            fsms: FsmRegistry::new(),
            value_returning_views: NameSet::new(),
            compiled_modules: Vec::new(),
            compiled_stylesheets: Vec::new(),
            stylesheets_queued_up_to: 0,
            declared_signals: Vec::new(),
            declared_fsms: Vec::new(),
            has_stateful_view: false,
            stateful_view_deps: Vec::new(),
            stateful_view_fsms: Vec::new(),
        };
        proof {
            assert(dsl@.compiled_modules =~= seq![]);
            assert(dsl@.compiled_stylesheets =~= seq![]);
            assert(dsl@.declared_signals =~= seq![]);
            assert(dsl@.declared_fsms =~= seq![]);
            assert(dsl@.stateful_view_deps =~= seq![]);
            assert(dsl@.stateful_view_fsms =~= seq![]);
        }
        dsl
    }
}

// ---------------------------------------------------------------------------
// The pipeline
// ---------------------------------------------------------------------------

/// The passes that resolve signals and machines.
pub open spec fn front_lowered(p: ProgramV) -> ProgramV {
    let marked = with_interfaces(with_event_enums(markers_injected(p)));
    let matched = walk_program(match_rule(), (), marked).0;
    subscriptions_resolved(triggers_resolved(signals_resolved(matched)))
}

/// The passes that lower components: their calls and their properties.
pub open spec fn components_lowered(p: ProgramV, defs: Seq<ComponentDefinitionV>) -> ProgramV {
    props_bound(walk_program(component_rule(defs), (), p).0)
}

/// The passes that lower calls of host widgets.
pub open spec fn widgets_lowered(p: ProgramV, defs: Seq<ComponentDefinitionV>) -> ProgramV {
    let listed = walk_program(children_rule(defs), 0, p).0;
    let styled = walk_program(styling_rule(defs), 0, listed).0;
    named_args_resolved(styled, defs)
}

/// A parsed program after the passes that need nothing but the known
/// components, or the messages about unknown ones.
pub open spec fn parsed(p: ProgramV, defs: Seq<ComponentDefinitionV>) -> Result<
    ProgramV,
    Seq<Seq<char>>,
> {
    let plain = program_undecorated(front_lowered(p)).0;
    let errors = validation_errors(plain, defs);
    if errors.len() > 0 {
        Err(errors)
    } else {
        let lowered = components_lowered(plain, defs);
        let converted = views_converted(lowered, Set::empty()).0;
        Ok(widgets_lowered(converted, defs))
    }
}

fn lower_front(program: &mut Program)
    ensures
        final(program)@ == front_lowered(old(program)@),
{
    inject_fsm_context_markers(program);
    synthesize_fsm_event_enums(program);
    synthesize_fsm_trait_interfaces(program);
    lower_match_blocks(program);
    resolve_signal_calls(program);
    resolve_fsm_trigger_calls(program);
    resolve_fsm_subscribe_calls(program);
}

fn lower_widgets(program: &mut Program, components: &ComponentRegistry)
    ensures
        final(program)@ == widgets_lowered(old(program)@, components@),
{
    lower_children_arrays_to_blocks(program, components);
    lower_styling_args_to_overlays(program, components);
    resolve_extern_widget_named_args(program, components);
}

/// What a source adds to what the engine knows before its components are
/// checked: its declarations, decorators and stylesheets. Also the program as
/// it is then.
pub open spec fn source_noted(dsl: BlincDslV, p: ProgramV) -> (BlincDslV, ProgramV) {
    let (plain, found) = program_undecorated(p);
    let front = front_lowered(plain);
    (
        BlincDslV {
            declared_signals: dsl.declared_signals + declared_signals(p.declarations),
            declared_fsms: dsl.declared_fsms + declared_fsms(p.declarations),
            has_stateful_view: dsl.has_stateful_view || found.found,
            stateful_view_deps: merged(dsl.stateful_view_deps, found.signals),
            stateful_view_fsms: merged(dsl.stateful_view_fsms, found.fsms),
            compiled_stylesheets: dsl.compiled_stylesheets + sheets(front.declarations),
            ..dsl
        },
        ProgramV { declarations: without_sheets(front.declarations), ..front },
    )
}

/// A source that is ready for the code generator.
#[derive(Debug)]
pub struct CompiledSource {
    pub program: Program,
    /// The machines for the runtime to register.
    pub fsms: Vec<CodedFsm>,
}

/// View of [`CompiledSource`].
pub struct CompiledSourceV {
    pub program: ProgramV,
    pub fsms: Seq<CodedFsmV>,
}

impl View for CompiledSource {
    type V = CompiledSourceV;

    open spec fn view(&self) -> CompiledSourceV {
        CompiledSourceV { program: self.program@, fsms: views(self.fsms@) }
    }
}

/// What a valid source adds to what the engine knows after its declarations
/// were noted, and what goes to the code generator. Machines get the type ids
/// `ids`; `offset` is where the runtime starts to number their events.
pub open spec fn source_lowered(
    dsl: BlincDslV,
    p: ProgramV,
    ids: Seq<TypeId>,
    offset: u32,
) -> (BlincDslV, ProgramV, Seq<CodedFsmV>) {
    let lowered = components_lowered(p, dsl.components);
    let (populated_p, fsms) = populated(lowered, dsl.fsms, "main"@, ids);
    let coded = decls_coded(
        populated_p.declarations,
        fsms,
        offset,
        populated_p.declarations,
    );
    let components = components_published(
        populated_p.declarations,
        populated_p.type_registry,
        dsl.components,
        populated_p.declarations,
    );
    let (converted, symbols) = views_converted(populated_p, dsl.value_returning_views);
    (
        BlincDslV { components, fsms, value_returning_views: symbols, ..dsl },
        program_returning(widgets_lowered(converted, components)),
        coded,
    )
}

/// What the engine knows after it was given a source, and what goes to the
/// code generator or else the messages about unknown components. `imported`
/// holds the functions of the modules that the imports point to.
pub open spec fn source_compiled(
    dsl: BlincDslV,
    program: ProgramV,
    imported: Seq<Option<Seq<Seq<char>>>>,
    ids: Seq<TypeId>,
    offset: u32,
) -> (BlincDslV, Result<CompiledSourceV, Seq<Seq<char>>>) {
    let (noted, front) = source_noted(dsl, imports_injected(program, imported));
    let errors = validation_errors(front, noted.components);
    if errors.len() > 0 {
        (noted, Err(errors))
    } else {
        let (after, out, fsms) = source_lowered(noted, front, ids, offset);
        (after, Ok(CompiledSourceV { program: out, fsms }))
    }
}

/// Noting a source keeps the machines that it describes.
proof fn noting_keeps_count(dsl: BlincDslV, p: ProgramV)
    ensures
        described_count(source_noted(dsl, p).1.declarations) == described_count(p.declarations),
{
    undecorating_keeps_count(p);
    let a = program_undecorated(p).0;
    markers_keep_count(a);
    let b = markers_injected(a);
    additions_keep_count(b);
    let c = with_event_enums(b);
    additions_keep_count(c);
    let d = with_interfaces(c);
    walk_keeps_count(match_rule(), (), d.declarations);
    let e = walk_program(match_rule(), (), d).0;
    signals_keep_count(e);
    let f = signals_resolved(e);
    methods_keep_count(f);
    methods_keep_count(triggers_resolved(f));
    sheets_keep_count(front_lowered(a).declarations);
}

/// Lowering the components of a program keeps the machines that it describes.
proof fn components_keep_count(p: ProgramV, defs: Seq<ComponentDefinitionV>)
    ensures
        described_count(components_lowered(p, defs).declarations) == described_count(
            p.declarations,
        ),
{
    walk_keeps_count(component_rule(defs), (), p.declarations);
    binding_keeps_count(walk_program(component_rule(defs), (), p).0);
}

impl BlincDsl {
    /// Run the passes on a parsed source without keeping anything of it. Fails
    /// with the messages about unknown components.
    pub fn parse_to_typed_ast(&self, program: Program) -> (r: Result<Program, BlincDslError>)
        ensures
            match parsed(program@, self@.components) {
                Ok(p) => r matches Ok(out) && out@ == p,
                Err(errors) => fails_with(r, on_lines(errors)),
            },
    {
        let mut program = program;
        lower_front(&mut program);
        let _found = detect_and_strip_stateful_views(&mut program);
        match validate_component_calls(&program, &self.components) {
            Ok(()) => {},
            Err(messages) => {
                assert(names_view(messages@).len() > 0);
                return Err(BlincDslError::Compile(join_lines(&messages)));
            },
        }
        lower_component_calls(&mut program, &self.components);
        bind_component_props(&mut program);
        let mut symbols = NameSet::new();
        lower_view_to_value_returning(&mut program, &mut symbols);
        lower_widgets(&mut program, &self.components);
        Ok(program)
    }

    fn note_source(&mut self, program: &mut Program)
        requires
            old(self).wf(),
        ensures
            final(self).wf(),
            (final(self)@, final(program)@) == source_noted(old(self)@, old(program)@),
    {
        let ghost before = self@;
        let ghost p0 = program@;
        let (signals, fsms) = collect_declared(program);
        let mut signals = signals;
        let mut fsms = fsms;
        let ghost new_signals = views(signals@);
        let ghost new_fsms = names_view(fsms@);
        self.declared_signals.append(&mut signals);
        self.declared_fsms.append(&mut fsms);
        proof {
            assert(self@.declared_signals =~= before.declared_signals + new_signals);
            assert(self@.declared_fsms =~= before.declared_fsms + new_fsms);
        }
        let (found, deps, view_fsms) = detect_and_strip_stateful_views(program);
        if found {
            self.has_stateful_view = true;
        }
        merge_names(&mut self.stateful_view_deps, deps);
        merge_names(&mut self.stateful_view_fsms, view_fsms);
        lower_front(program);
        extract_and_strip_stylesheets(program, &mut self.compiled_stylesheets);
        assert(self@.compiled_stylesheets.len() == self.compiled_stylesheets@.len());
    }

    /// Take a parsed source through all passes. `imported` holds, for every
    /// import in order, the functions of the module that it points to, where
    /// that module is compiled. Machines get the type ids `type_ids`, one for
    /// every machine that the source describes; `event_offset` is where the
    /// runtime starts to number their events. Fails with the messages about
    /// unknown components; what the source declares is known all the same. Its
    /// stylesheets are pending, in either case, until they are taken.
    pub fn compile_source(
        &mut self,
        program: Program,
        imported: &Vec<Option<Vec<String>>>,
        type_ids: &Vec<TypeId>,
        event_offset: u32,
    ) -> (r: Result<CompiledSource, BlincDslError>)
        requires
            old(self).wf(),
            described_count(program@.declarations) <= type_ids@.len(),
        ensures
            final(self).wf(),
            ({
                let (dsl, outcome) = source_compiled(
                    old(self)@,
                    program@,
                    compiled_view(imported@),
                    type_ids@,
                    event_offset,
                );
                &&& final(self)@ == dsl
                &&& match outcome {
                    Ok(out) => r matches Ok(source) && source@ == out,
                    Err(errors) => fails_with(r, on_lines(errors)),
                }
            }),
    {
        let mut program = program;
        proof {
            imports_keep_count(program@, compiled_view(imported@));
        }
        inject_imported_view_externs(&mut program, imported);
        proof {
            noting_keeps_count(self@, program@);
        }
        self.note_source(&mut program);
        let ghost front = program@;
        let ghost noted = self@;
        match validate_component_calls(&program, &self.components) {
            Ok(()) => {},
            Err(messages) => {
                assert(names_view(messages@).len() > 0);
                return Err(BlincDslError::Compile(join_lines(&messages)));
            },
        }
        proof {
            components_keep_count(front, noted.components);
        }
        lower_component_calls(&mut program, &self.components);
        bind_component_props(&mut program);
        let module: String = "main".to_owned();
        populate_fsm_registry_pass(&mut program, &module, type_ids, &mut self.fsms);
        let fsms = publish_fsms_to_runtime_registry(&program, &self.fsms, event_offset);
        publish_components_to_runtime_registry(&program, &mut self.components);
        lower_view_to_value_returning(&mut program, &mut self.value_returning_views);
        lower_widgets(&mut program, &self.components);
        ensure_unit_return(&mut program);
        assert(noted.compiled_stylesheets.len() == self.compiled_stylesheets@.len());
        Ok(CompiledSource { program, fsms })
    }
}

} // verus!
