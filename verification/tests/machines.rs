//! State machines: their declarations, the registry, instances and ticks.

use blinc_dsl_core::ast::{
    BinaryOp, Block, Call, Decl, DeclKind, EnumDecl, Expr, ExprKind, Function, ImplBlock, Literal,
    Method, Param, PrimitiveType, Program, Span, Stmt, StmtKind, Type, TypeId, Variant,
    VariantFields, Visibility,
};
use blinc_dsl_core::engine::{BlincDsl, CompiledSource};
use blinc_dsl_core::fsm::{EventTransition, FsmDefinition, FsmId, FsmRegistry, TickGuard};
use blinc_dsl_core::fsm_decls::inject_fsm_context_markers;
use blinc_dsl_core::fsm_instance::{next_tick_step, FsmInstance, TickCandidate, TickStep};
use blinc_dsl_core::populate::count_described;
use blinc_dsl_core::publish::publish_fsms_to_runtime_registry;

fn expr(kind: ExprKind) -> Expr {
    Expr { kind, ty: Type::Unknown, span: Span { start: 0, end: 0 } }
}

fn var(name: &str) -> Expr {
    expr(ExprKind::Variable(name.to_string()))
}

fn text(value: &str) -> Expr {
    expr(ExprKind::Literal(Literal::String(value.to_string())))
}

fn num(value: i128) -> Expr {
    expr(ExprKind::Literal(Literal::Integer(value)))
}

fn call(callee: &str, args: Vec<Expr>) -> Expr {
    expr(ExprKind::Call(Call {
        callee: Box::new(var(callee)),
        positional_args: args,
        named_args: vec![],
        type_args: vec![],
    }))
}

fn method_call(receiver: &str, method: &str, args: Vec<Expr>) -> Expr {
    expr(ExprKind::MethodCall {
        receiver: Box::new(var(receiver)),
        method: method.to_string(),
        positional_args: args,
        named_args: vec![],
        type_args: vec![],
    })
}

fn binary(op: BinaryOp, left: Expr, right: Expr) -> Expr {
    expr(ExprKind::Binary { op, left: Box::new(left), right: Box::new(right) })
}

fn stmt(e: Expr) -> Stmt {
    Stmt { kind: StmtKind::Expression(e), ty: Type::Unknown, span: Span { start: 0, end: 0 } }
}

fn block(statements: Vec<Stmt>) -> Block {
    Block { statements, span: Span { start: 0, end: 0 } }
}

fn decl(kind: DeclKind) -> Decl {
    Decl { kind, ty: Type::Unknown, span: Span { start: 0, end: 0 } }
}

fn signal(name: &str, ty: PrimitiveType) -> Decl {
    decl(DeclKind::Function(Function {
        name: name.to_string(),
        params: vec![],
        return_type: Type::Primitive(ty),
        body: None,
        visibility: Visibility::Default,
        is_external: true,
        link_name: None,
        details: 0,
    }))
}

fn method(name: &str, params: Vec<Param>, statements: Vec<Stmt>) -> Method {
    Method {
        name: name.to_string(),
        params,
        return_type: Type::Primitive(PrimitiveType::Unit),
        body: Some(block(statements)),
        details: 0,
    }
}

fn program(declarations: Vec<Decl>) -> Program {
    Program { declarations, type_registry: vec![] }
}

/// An `fsm` declaration: the enum of its states and the impl block that
/// describes it.
fn fsm(name: &str, states: Vec<&str>, markers: Vec<Stmt>) -> Vec<Decl> {
    let variants = states
        .into_iter()
        .map(|s| Variant {
            name: s.to_string(),
            fields: VariantFields::Unit,
            discriminant: None,
            span: Span { start: 0, end: 0 },
        })
        .collect();
    vec![
        decl(DeclKind::Enum(EnumDecl {
            name: name.to_string(),
            variants,
            visibility: Visibility::Default,
            span: Span { start: 0, end: 0 },
            details: 0,
        })),
        decl(DeclKind::Impl(ImplBlock {
            trait_name: name.to_string(),
            for_type: Type::Unresolved(name.to_string()),
            methods: vec![method("__fsm_meta__", vec![], markers)],
            details: 0,
        })),
    ]
}

fn initial(state: &str) -> Stmt {
    stmt(call("__fsm_initial__", vec![text(state)]))
}

fn on(from: &str, event: &str, to: &str) -> Stmt {
    stmt(call("__fsm_transition__", vec![text(from), text(event), text(to)]))
}

fn tick(from: &str, to: &str, guard: Expr) -> Stmt {
    stmt(call("__fsm_tick__", vec![text(from), guard, text(to)]))
}

fn functions(p: &Program) -> Vec<&Function> {
    p.declarations
        .iter()
        .filter_map(|d| match &d.kind {
            DeclKind::Function(f) => Some(f),
            _ => None,
        })
        .collect()
}

fn impls(p: &Program) -> Vec<&ImplBlock> {
    p.declarations
        .iter()
        .filter_map(|d| match &d.kind {
            DeclKind::Impl(i) => Some(i),
            _ => None,
        })
        .collect()
}

fn enums(p: &Program) -> Vec<&EnumDecl> {
    p.declarations
        .iter()
        .filter_map(|d| match &d.kind {
            DeclKind::Enum(e) => Some(e),
            _ => None,
        })
        .collect()
}

/// The call that a statement makes, through a `return` or a block at its end.
fn call_in(s: &Stmt) -> &Call {
    match &s.kind {
        StmtKind::Expression(e) | StmtKind::Return(Some(e)) => call_of(e),
        other => panic!("no call: {other:?}"),
    }
}

fn call_of(e: &Expr) -> &Call {
    match &e.kind {
        ExprKind::Call(c) => c,
        ExprKind::Block(b) => call_in(&b.statements[b.statements.len() - 1]),
        other => panic!("no call: {other:?}"),
    }
}

fn callee(c: &Call) -> &str {
    match &c.callee.kind {
        ExprKind::Variable(v) => v,
        other => panic!("callee is no name: {other:?}"),
    }
}

fn string_of(e: &Expr) -> &str {
    match &e.kind {
        ExprKind::Literal(Literal::String(s)) => s,
        other => panic!("no string: {other:?}"),
    }
}

const EVENT_OFFSET: u32 = 0x4000_0000;

fn compile(dsl: &mut BlincDsl, p: Program) -> CompiledSource {
    let needed: usize = count_described(&p);
    let mut ids: Vec<TypeId> = vec![];
    for k in 0..needed {
        ids.push(TypeId::new(100 + k as u32));
    }
    dsl.compile_source(p, &vec![], &ids, EVENT_OFFSET).expect("compile")
}

fn lower(p: Program) -> Program {
    BlincDsl::new().parse_to_typed_ast(p).expect("parse")
}

fn fid(module: &str, raw: u32) -> FsmId {
    FsmId { module: module.to_string(), type_id: TypeId::new(raw) }
}

fn transition(from: &str, event: &str, to: &str) -> EventTransition {
    EventTransition {
        from: from.to_string(),
        event: event.to_string(),
        to: to.to_string(),
        actions: vec![],
    }
}

fn starting_in(state: &str) -> FsmDefinition {
    FsmDefinition { initial: Some(state.to_string()), ..FsmDefinition::default() }
}

fn marker(p: &Program, index: usize) -> (String, Vec<String>) {
    let b = impls(p)[0].methods[0].body.as_ref().expect("description");
    let c = call_in(&b.statements[index]);
    let args = c
        .positional_args
        .iter()
        .filter_map(|a| match &a.kind {
            ExprKind::Literal(Literal::String(s)) => Some(s.clone()),
            _ => None,
        })
        .collect();
    (callee(c).to_string(), args)
}

fn marker_count(p: &Program) -> usize {
    impls(p)[0].methods[0].body.as_ref().expect("description").statements.len()
}

fn definition<'a>(dsl: &'a BlincDsl, name: &str) -> &'a FsmDefinition {
    let id = dsl.fsms.find_by_name("main", name).expect("machine is registered");
    dsl.fsms.get(&id).expect("machine is registered")
}

/// What a tick comes to, where `holds` says what the guards return.
fn run_tick(dsl: &BlincDsl, id: &FsmId, current: &str, holds: fn(&str) -> Option<i32>) -> Option<String> {
    let candidates = dsl.tick_candidates(id, current);
    let mut outcomes: Vec<Option<i32>> = vec![];
    loop {
        match dsl.step_tick(id, current, &outcomes) {
            TickStep::Evaluate(k) => outcomes.push(holds(&candidates[k].guard_fn)),
            TickStep::Fire(to) => return Some(to),
            TickStep::Stay => return None,
        }
    }
}

#[test]
fn fsm_id_disambiguates_by_module() {
    let a = fid("foo", 7);
    let b = fid("bar", 7);
    let c = fid("foo", 7);
    assert_ne!(a, b, "different modules, different ids");
    assert_eq!(a, c, "same module and type id");
    assert!(a.same_as(&c) && !a.same_as(&b));
}

#[test]
fn fsm_registry_upsert_get() {
    let mut registry = FsmRegistry::new();
    let id = fid("main", 42);
    let def = FsmDefinition {
        initial: Some("Idle".to_string()),
        transitions: vec![
            transition("Idle", "Start", "Loading"),
            transition("Loading", "Done", "Success"),
        ],
        tick_guards: vec![TickGuard {
            from: "Loading".to_string(),
            to: "TimedOut".to_string(),
            guard_fn: Some("__fsm_tick_guard_Loader_0__".to_string()),
        }],
        name: Some("Loader".to_string()),
    };
    registry.upsert(id.copied(), def);
    let got = registry.get(&id).expect("inserted entry should exist");
    assert_eq!(got.initial.as_deref(), Some("Idle"));
    assert_eq!(got.transitions.len(), 2);
    assert_eq!(got.transitions[1].event, "Done");
    assert_eq!(got.tick_guards.len(), 1);
    assert_eq!(got.name.as_deref(), Some("Loader"));
}

#[test]
fn fsm_registry_upsert_replaces() {
    let mut registry = FsmRegistry::new();
    registry.upsert(fid("main", 1), starting_in("V1"));
    registry.upsert(fid("main", 1), starting_in("V2"));
    let got = registry.get(&fid("main", 1)).expect("entry");
    assert_eq!(got.initial.as_deref(), Some("V2"), "second upsert should win");
    assert_eq!(registry.len(), 1);
}

#[test]
fn fsm_registry_remove() {
    let mut registry = FsmRegistry::new();
    let id = fid("main", 5);
    registry.upsert(id.copied(), starting_in("S"));
    let removed = registry.remove(&id).expect("entry should exist");
    assert_eq!(removed.initial.as_deref(), Some("S"));
    assert!(registry.get(&id).is_none(), "remove should drop the entry");
    assert!(registry.is_empty());
    assert!(registry.remove(&id).is_none());
}

#[test]
fn removing_leaves_the_other_machines() {
    let mut registry = FsmRegistry::new();
    registry.upsert(fid("a", 1), starting_in("A"));
    registry.upsert(fid("b", 2), starting_in("B"));
    registry.upsert(fid("c", 3), starting_in("C"));
    registry.remove(&fid("b", 2));
    let left: Vec<&str> = registry.iter().into_iter().map(|(id, _)| id.module.as_str()).collect();
    assert_eq!(left, vec!["a", "c"]);
    assert_eq!(registry.get(&fid("c", 3)).expect("c").initial.as_deref(), Some("C"));
}

#[test]
fn a_definition_can_be_changed_in_place() {
    let mut registry = FsmRegistry::new();
    registry.upsert(fid("main", 1), starting_in("A"));
    registry.get_mut(&fid("main", 1)).expect("entry").initial = Some("B".to_string());
    assert_eq!(registry.get(&fid("main", 1)).expect("entry").initial.as_deref(), Some("B"));
    assert!(registry.get_mut(&fid("main", 2)).is_none());
}

#[test]
fn fsm_definition_step_event_direct() {
    let def = FsmDefinition {
        initial: Some("Idle".to_string()),
        transitions: vec![transition("Idle", "Go", "Running"), transition("Running", "Stop", "Idle")],
        ..FsmDefinition::default()
    };
    assert_eq!(def.step_event("Idle", "Go").as_deref(), Some("Running"));
    assert_eq!(def.step_event("Running", "Stop").as_deref(), Some("Idle"));
    assert!(def.step_event("Idle", "Stop").is_none());
    assert!(def.step_event("Done", "Go").is_none());
}

#[test]
fn the_first_of_two_transitions_wins() {
    let def = FsmDefinition {
        transitions: vec![transition("A", "Go", "B"), transition("A", "Go", "C")],
        ..FsmDefinition::default()
    };
    assert_eq!(def.step_event("A", "Go").as_deref(), Some("B"));
}

#[test]
fn parse_fsm_emits_enum_and_impl() {
    let p = lower(program(fsm(
        "Loader",
        vec!["Idle", "Loading", "Done"],
        vec![initial("Idle"), on("Idle", "Load", "Loading"), on("Loading", "Finish", "Done")],
    )));
    let states = enums(&p)[0];
    assert_eq!(states.name, "Loader");
    let names: Vec<&str> = states.variants.iter().map(|v| v.name.as_str()).collect();
    assert_eq!(names, vec!["Idle", "Loading", "Done"]);
    let described = impls(&p)[0];
    assert_eq!(described.trait_name, "Loader");
    assert_eq!(described.methods.len(), 1);
    assert_eq!(described.methods[0].name, "__fsm_meta__");
}

#[test]
fn parse_fsm_initial_marker() {
    let p = lower(program(fsm(
        "Toggle",
        vec!["On", "Off"],
        vec![initial("Off"), on("Off", "Click", "On"), on("On", "Click", "Off")],
    )));
    assert_eq!(marker(&p, 0), ("__fsm_begin__".to_string(), vec!["Toggle".to_string()]));
    assert_eq!(marker(&p, 1), ("__fsm_initial__".to_string(), vec!["Off".to_string()]));
    let last: usize = marker_count(&p) - 1;
    assert_eq!(marker(&p, last), ("__fsm_end__".to_string(), vec![]));
}

#[test]
fn parse_fsm_transitions() {
    let p = lower(program(fsm(
        "Loader",
        vec!["Idle", "Loading", "Done"],
        vec![
            initial("Idle"),
            on("Idle", "Load", "Loading"),
            on("Loading", "Finish", "Done"),
            on("Done", "Reset", "Idle"),
        ],
    )));
    assert_eq!(marker_count(&p), 6);
    let expected = [("Idle", "Load", "Loading"), ("Loading", "Finish", "Done"), ("Done", "Reset", "Idle")];
    for (i, (from, event, to)) in expected.iter().enumerate() {
        let (name, args) = marker(&p, i + 2);
        assert_eq!(name, "__fsm_transition__");
        assert_eq!(args, vec![from.to_string(), event.to_string(), to.to_string()]);
    }
}

#[test]
fn parse_fsm_tick_transition() {
    let guard = binary(BinaryOp::Gt, method_call("progress", "get", vec![]), num(100));
    let p = lower(program(fsm(
        "Loader",
        vec!["Loading", "Done"],
        vec![initial("Loading"), tick("Loading", "Done", guard)],
    )));
    assert_eq!(marker_count(&p), 4);
    let b = impls(&p)[0].methods[0].body.as_ref().expect("description");
    let c = call_in(&b.statements[2]);
    assert_eq!(callee(c), "__fsm_tick__");
    assert_eq!(c.positional_args.len(), 3);
    assert_eq!(string_of(&c.positional_args[0]), "Loading");
    assert_eq!(string_of(&c.positional_args[2]), "Done");
    let ExprKind::Binary { op, left, right } = &c.positional_args[1].kind else {
        panic!("guard should be Binary");
    };
    assert_eq!(*op, BinaryOp::Gt);
    let ExprKind::MethodCall { method, .. } = &left.kind else {
        panic!("guard LHS should be MethodCall");
    };
    assert_eq!(method, "get");
    assert_eq!(right.kind, ExprKind::Literal(Literal::Integer(100)));
}

#[test]
fn parse_fsm_mixed_event_and_tick() {
    let guard = binary(BinaryOp::Gt, method_call("progress", "get", vec![]), num(100));
    let p = lower(program(fsm(
        "Loader",
        vec!["Idle", "Loading", "Done"],
        vec![
            initial("Idle"),
            on("Idle", "Start", "Loading"),
            tick("Loading", "Done", guard),
            on("Done", "Reset", "Idle"),
        ],
    )));
    assert_eq!(marker_count(&p), 6);
    let names: Vec<String> = (0..6).map(|i| marker(&p, i).0).collect();
    assert_eq!(
        names,
        vec![
            "__fsm_begin__",
            "__fsm_initial__",
            "__fsm_transition__",
            "__fsm_tick__",
            "__fsm_transition__",
            "__fsm_end__",
        ]
    );
}

#[test]
fn parse_fsm_begin_end_wrapping() {
    let p = lower(program(fsm(
        "Loader",
        vec!["Idle", "Loading"],
        vec![initial("Idle"), on("Idle", "Start", "Loading")],
    )));
    assert_eq!(marker(&p, 0), ("__fsm_begin__".to_string(), vec!["Loader".to_string()]));
    let last: usize = marker_count(&p) - 1;
    assert_eq!(marker(&p, last), ("__fsm_end__".to_string(), vec![]));
}

#[test]
fn parse_fsm_no_transitions() {
    let p = lower(program(fsm("Status", vec!["Open", "Closed"], vec![initial("Open")])));
    assert_eq!(enums(&p)[0].variants.len(), 2);
    assert_eq!(marker_count(&p), 3);
}

#[test]
fn markers_are_injected_once() {
    let mut p = program(fsm("Toggle", vec!["On", "Off"], vec![initial("Off")]));
    inject_fsm_context_markers(&mut p);
    inject_fsm_context_markers(&mut p);
    assert_eq!(marker_count(&p), 3);
}

#[test]
fn synthesize_event_enum_basic() {
    let p = lower(program(fsm(
        "Loader",
        vec!["Idle", "Loading", "Done"],
        vec![
            initial("Idle"),
            on("Idle", "Start", "Loading"),
            on("Loading", "Finish", "Done"),
            on("Done", "Reset", "Idle"),
        ],
    )));
    let all = enums(&p);
    assert_eq!(all.len(), 2);
    assert_eq!(all[0].name, "Loader");
    assert_eq!(all[1].name, "LoaderEvent");
    let events: Vec<&str> = all[1].variants.iter().map(|v| v.name.as_str()).collect();
    assert_eq!(events, vec!["Start", "Finish", "Reset"]);
}

#[test]
fn synthesize_event_enum_dedup() {
    let p = lower(program(fsm(
        "Toggle",
        vec!["On", "Off"],
        vec![initial("Off"), on("Off", "Click", "On"), on("On", "Click", "Off")],
    )));
    let events = enums(&p).into_iter().find(|e| e.name == "ToggleEvent").expect("ToggleEvent");
    assert_eq!(events.variants.len(), 1);
    assert_eq!(events.variants[0].name, "Click");
}

#[test]
fn synthesize_no_event_enum_for_tick_only_fsm() {
    let guard = binary(BinaryOp::Gt, method_call("count", "get", vec![]), num(100));
    let p = lower(program(fsm(
        "Progress",
        vec!["Loading", "Done"],
        vec![initial("Loading"), tick("Loading", "Done", guard)],
    )));
    let all = enums(&p);
    assert_eq!(all.len(), 1);
    assert_eq!(all[0].name, "Progress");
}

#[test]
fn a_machine_gets_an_interface_of_its_name() {
    let p = lower(program(fsm("Toggle", vec!["On", "Off"], vec![initial("Off")])));
    let names: Vec<&str> = p
        .declarations
        .iter()
        .filter_map(|d| match &d.kind {
            DeclKind::Interface(i) => Some(i.name.as_str()),
            _ => None,
        })
        .collect();
    assert_eq!(names, vec!["Toggle"]);
}

#[test]
fn compile_source_populates_fsm_registry() {
    let mut dsl = BlincDsl::new();
    compile(
        &mut dsl,
        program(fsm(
            "RegistryProbeA",
            vec!["Idle", "Running", "Done"],
            vec![initial("Idle"), on("Idle", "Begin", "Running"), on("Running", "Finish", "Done")],
        )),
    );
    let def = definition(&dsl, "RegistryProbeA");
    assert_eq!(def.initial.as_deref(), Some("Idle"));
    assert_eq!(def.transitions.len(), 2);
    assert_eq!(def.transitions[0].event, "Begin");
    assert_eq!(def.transitions[1].event, "Finish");
    let id = dsl.fsms.find_by_name("main", "RegistryProbeA").expect("id");
    assert_eq!(id, fid("main", 100));
}

#[test]
fn compile_source_lifts_tick_guards_to_functions() {
    let mut dsl = BlincDsl::new();
    let out = compile(
        &mut dsl,
        program(fsm(
            "GuardLiftProbe",
            vec!["Loading", "Done", "Failed"],
            vec![
                initial("Loading"),
                tick("Loading", "Done", binary(BinaryOp::Gt, num(1), num(0))),
                tick("Loading", "Failed", binary(BinaryOp::Lt, num(1), num(0))),
            ],
        )),
    );
    let names: Vec<&str> = functions(&out.program).iter().map(|f| f.name.as_str()).collect();
    assert!(names.contains(&"__fsm_tick_guard_GuardLiftProbe_0__"), "got {names:?}");
    assert!(names.contains(&"__fsm_tick_guard_GuardLiftProbe_1__"), "got {names:?}");
    let def = definition(&dsl, "GuardLiftProbe");
    assert_eq!(def.tick_guards.len(), 2);
    assert_eq!(def.tick_guards[0].guard_fn.as_deref(), Some("__fsm_tick_guard_GuardLiftProbe_0__"));
    assert_eq!(def.tick_guards[1].guard_fn.as_deref(), Some("__fsm_tick_guard_GuardLiftProbe_1__"));
}

#[test]
fn compile_source_records_tick_guards_in_registry() {
    let mut dsl = BlincDsl::new();
    let guard = binary(BinaryOp::Gt, method_call("count", "get", vec![]), num(100));
    compile(
        &mut dsl,
        program(fsm(
            "RegistryProbeB",
            vec!["Loading", "Done"],
            vec![initial("Loading"), tick("Loading", "Done", guard)],
        )),
    );
    let def = definition(&dsl, "RegistryProbeB");
    assert_eq!(def.tick_guards.len(), 1);
    assert_eq!(def.tick_guards[0].from, "Loading");
    assert_eq!(def.tick_guards[0].to, "Done");
    assert_eq!(def.transitions.len(), 0);
}

#[test]
fn a_compiled_program_describes_no_machine() {
    let mut dsl = BlincDsl::new();
    let out = compile(
        &mut dsl,
        program(fsm("Toggle", vec!["On", "Off"], vec![initial("Off"), on("Off", "Click", "On")])),
    );
    assert_eq!(count_described(&out.program), 0);
}

#[test]
fn dispatch_round_trip() {
    let mut dsl = BlincDsl::new();
    compile(
        &mut dsl,
        program(fsm(
            "DispatchProbe",
            vec!["Idle", "Loading", "Done"],
            vec![
                initial("Idle"),
                on("Idle", "Start", "Loading"),
                on("Loading", "Finish", "Done"),
                on("Done", "Reset", "Idle"),
            ],
        )),
    );
    let id = dsl.fsms.find_by_name("main", "DispatchProbe").expect("registered");
    assert_eq!(dsl.fsms.step_event(&id, "Idle", "Start").as_deref(), Some("Loading"));
    assert_eq!(dsl.fsms.step_event(&id, "Loading", "Finish").as_deref(), Some("Done"));
    assert_eq!(dsl.fsms.step_event(&id, "Done", "Reset").as_deref(), Some("Idle"));
}

#[test]
fn dispatch_misses_return_none() {
    let mut dsl = BlincDsl::new();
    compile(
        &mut dsl,
        program(fsm(
            "DispatchMissProbe",
            vec!["On", "Off"],
            vec![initial("Off"), on("Off", "Click", "On"), on("On", "Click", "Off")],
        )),
    );
    let id = dsl.fsms.find_by_name("main", "DispatchMissProbe").expect("registered");
    assert!(dsl.fsms.step_event(&id, "Off", "DoesNotExist").is_none());
    assert!(dsl.fsms.step_event(&id, "Nowhere", "Click").is_none());
    let phantom = fid("main", u32::MAX);
    assert!(dsl.fsms.step_event(&phantom, "Off", "Click").is_none());
    assert!(dsl.fsms.find_by_name("other", "DispatchMissProbe").is_none());
}

#[test]
fn publish_to_runtime_registry_round_trip() {
    let mut dsl = BlincDsl::new();
    let out = compile(
        &mut dsl,
        program(fsm(
            "Loader",
            vec!["Idle", "Loading", "Done"],
            vec![
                initial("Idle"),
                on("Idle", "Start", "Loading"),
                on("Loading", "Finish", "Done"),
                tick("Loading", "Done", binary(BinaryOp::Gt, num(1), num(0))),
            ],
        )),
    );
    assert_eq!(out.fsms.len(), 1);
    let coded = &out.fsms[0];
    assert_eq!(coded.name, "Loader");
    assert_eq!(coded.initial_code, 0, "initial state should be Idle (code 0)");
    assert_eq!(coded.state_names, vec!["Idle", "Loading", "Done"]);
    assert_eq!(coded.event_names, vec!["Start", "Finish"]);
    let t = &coded.transitions[0];
    assert_eq!((t.from_code, t.event_code, t.to_code), (0, EVENT_OFFSET, 1));
    let t = &coded.transitions[1];
    assert_eq!((t.from_code, t.event_code, t.to_code), (1, EVENT_OFFSET + 1, 2));
    assert_eq!(coded.tick_guards.len(), 1);
    let g = &coded.tick_guards[0];
    assert_eq!((g.from_code, g.to_code), (1, 2));
    assert_eq!(g.guard_symbol, "__fsm_tick_guard_Loader_0__");
}

#[test]
fn a_repeated_event_keeps_its_code() {
    let mut dsl = BlincDsl::new();
    let out = compile(
        &mut dsl,
        program(fsm(
            "Toggle",
            vec!["On", "Off"],
            vec![initial("Off"), on("Off", "Click", "On"), on("On", "Click", "Off")],
        )),
    );
    let coded = &out.fsms[0];
    assert_eq!(coded.initial_code, 1);
    assert_eq!(coded.event_names, vec!["Click"]);
    assert_eq!(coded.transitions[0].event_code, coded.transitions[1].event_code);
    let again = publish_fsms_to_runtime_registry(&out.program, &dsl.fsms, 7);
    assert_eq!(again[0].transitions[0].event_code, 7);
}

#[test]
fn step_tick_fires_when_guard_true() {
    let mut dsl = BlincDsl::new();
    compile(
        &mut dsl,
        program(fsm(
            "StepTickTrue",
            vec!["Loading", "Done"],
            vec![initial("Loading"), tick("Loading", "Done", binary(BinaryOp::Gt, num(1), num(0)))],
        )),
    );
    let id = dsl.fsms.find_by_name("main", "StepTickTrue").expect("registered");
    let next = run_tick(&dsl, &id, "Loading", |_| Some(1));
    assert_eq!(next.as_deref(), Some("Done"));
}

#[test]
fn step_tick_no_transition_when_guard_false() {
    let mut dsl = BlincDsl::new();
    compile(
        &mut dsl,
        program(fsm(
            "StepTickFalse",
            vec!["Loading", "Done"],
            vec![initial("Loading"), tick("Loading", "Done", binary(BinaryOp::Lt, num(1), num(0)))],
        )),
    );
    let id = dsl.fsms.find_by_name("main", "StepTickFalse").expect("registered");
    assert!(run_tick(&dsl, &id, "Loading", |_| Some(0)).is_none());
}

#[test]
fn step_tick_first_true_guard_wins() {
    let mut dsl = BlincDsl::new();
    compile(
        &mut dsl,
        program(fsm(
            "StepTickPriority",
            vec!["Loading", "Failed", "Done"],
            vec![
                initial("Loading"),
                tick("Loading", "Failed", binary(BinaryOp::Gt, num(1), num(0))),
                tick("Loading", "Done", binary(BinaryOp::Gt, num(1), num(0))),
            ],
        )),
    );
    let id = dsl.fsms.find_by_name("main", "StepTickPriority").expect("registered");
    let next = run_tick(&dsl, &id, "Loading", |_| Some(1));
    assert_eq!(next.as_deref(), Some("Failed"));
    let next = run_tick(&dsl, &id, "Loading", |g| if g.ends_with("_1__") { Some(1) } else { Some(0) });
    assert_eq!(next.as_deref(), Some("Done"));
}

#[test]
fn step_tick_no_matching_from_state() {
    let mut dsl = BlincDsl::new();
    compile(
        &mut dsl,
        program(fsm(
            "StepTickNoMatch",
            vec!["Loading", "Done"],
            vec![initial("Loading"), tick("Loading", "Done", binary(BinaryOp::Gt, num(1), num(0)))],
        )),
    );
    let id = dsl.fsms.find_by_name("main", "StepTickNoMatch").expect("registered");
    assert!(run_tick(&dsl, &id, "Done", |_| Some(1)).is_none());
    assert!(run_tick(&dsl, &id, "DoesNotExist", |_| Some(1)).is_none());
}

#[test]
fn guards_are_asked_in_order_until_one_holds() {
    let candidates = vec![
        TickCandidate { guard_fn: "g0".to_string(), to: "A".to_string() },
        TickCandidate { guard_fn: "g1".to_string(), to: "B".to_string() },
    ];
    assert_eq!(next_tick_step(&candidates, &vec![]), TickStep::Evaluate(0));
    assert_eq!(next_tick_step(&candidates, &vec![Some(0)]), TickStep::Evaluate(1));
    assert_eq!(next_tick_step(&candidates, &vec![Some(0), Some(3)]), TickStep::Fire("B".to_string()));
    assert_eq!(next_tick_step(&candidates, &vec![Some(0), Some(0)]), TickStep::Stay);
}

#[test]
fn fsm_instance_event_round_trip() {
    let mut dsl = BlincDsl::new();
    compile(
        &mut dsl,
        program(fsm(
            "InstanceProbeA",
            vec!["Idle", "Loading", "Done"],
            vec![
                initial("Idle"),
                on("Idle", "Start", "Loading"),
                on("Loading", "Finish", "Done"),
                on("Done", "Reset", "Idle"),
            ],
        )),
    );
    let mut instance = FsmInstance::new(&dsl.fsms, "main", "InstanceProbeA").expect("instance");
    assert_eq!(instance.current(), "Idle");
    assert!(instance.dispatch_event(&dsl.fsms, "Start"));
    assert_eq!(instance.current(), "Loading");
    assert!(instance.dispatch_event(&dsl.fsms, "Finish"));
    assert_eq!(instance.current(), "Done");
    assert!(instance.dispatch_event(&dsl.fsms, "Reset"));
    assert_eq!(instance.current(), "Idle");
}

#[test]
fn fsm_instance_event_miss_keeps_current() {
    let mut dsl = BlincDsl::new();
    compile(
        &mut dsl,
        program(fsm(
            "InstanceProbeMiss",
            vec!["Off", "On"],
            vec![initial("Off"), on("Off", "Click", "On"), on("On", "Click", "Off")],
        )),
    );
    let mut instance = FsmInstance::new(&dsl.fsms, "main", "InstanceProbeMiss").expect("instance");
    assert_eq!(instance.current(), "Off");
    assert!(!instance.dispatch_event(&dsl.fsms, "DoesNotExist"));
    assert_eq!(instance.current(), "Off");
}

#[test]
fn fsm_instance_tick_with_signal_guard() {
    let mut dsl = BlincDsl::new();
    let guard = binary(BinaryOp::Gt, method_call("instance_tick_count", "get", vec![]), num(100));
    let mut decls = vec![signal("instance_tick_count", PrimitiveType::I32)];
    decls.append(&mut fsm(
        "InstanceProbeTick",
        vec!["Cold", "Hot"],
        vec![initial("Cold"), tick("Cold", "Hot", guard)],
    ));
    compile(&mut dsl, program(decls));
    let mut instance = FsmInstance::new(&dsl.fsms, "main", "InstanceProbeTick").expect("instance");
    let next = run_tick(&dsl, &instance.id, &instance.current, |_| Some((5 > 100) as i32));
    assert_eq!(instance.tick::<String>(Ok(next)), Ok(false));
    assert_eq!(instance.current(), "Cold");
    let next = run_tick(&dsl, &instance.id, &instance.current, |_| Some((200 > 100) as i32));
    assert_eq!(instance.tick::<String>(Ok(next)), Ok(true));
    assert_eq!(instance.current(), "Hot");
    assert_eq!(instance.tick(Err("no runtime")), Err("no runtime"));
    assert_eq!(instance.current(), "Hot");
}

#[test]
fn fsm_instance_reset() {
    let mut dsl = BlincDsl::new();
    compile(
        &mut dsl,
        program(fsm(
            "InstanceProbeReset",
            vec!["Idle", "Working"],
            vec![initial("Idle"), on("Idle", "Go", "Working")],
        )),
    );
    let mut instance = FsmInstance::new(&dsl.fsms, "main", "InstanceProbeReset").expect("instance");
    instance.dispatch_event(&dsl.fsms, "Go");
    assert_eq!(instance.current(), "Working");
    instance.reset(&dsl.fsms);
    assert_eq!(instance.current(), "Idle");
}

#[test]
fn fsm_instance_unknown_name_returns_none() {
    let dsl = BlincDsl::new();
    assert!(FsmInstance::new(&dsl.fsms, "main", "DoesNotExistFsm").is_none());
}

#[test]
fn the_newest_machine_of_a_name_is_found() {
    let def = |initial: &str| FsmDefinition {
        initial: Some(initial.to_string()),
        transitions: vec![],
        tick_guards: vec![],
        name: Some("Door".to_string()),
    };
    let id = |k: u32| FsmId { module: "main".to_string(), type_id: TypeId::new(k) };
    let mut registry = FsmRegistry::new();
    registry.upsert(id(1), def("Open"));
    registry.upsert(id(2), def("Shut"));
    assert_eq!(registry.find_by_name("main", "Door"), Some(id(2)));
    let instance = FsmInstance::new(&registry, "main", "Door").expect("instance");
    assert_eq!(instance.current(), "Shut");
    registry.upsert(id(1), def("Ajar"));
    assert_eq!(registry.len(), 2);
    assert_eq!(registry.find_by_name("main", "Door"), Some(id(1)));
    let newest = registry.find_def(&"Door".to_string()).expect("definition");
    assert_eq!(newest.initial, Some("Ajar".to_string()));
    assert_eq!(registry.find_by_name("main", "Window"), None);
}
