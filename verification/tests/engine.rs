//! The engine: whole sources, queries, imports, stylesheets, decorated views.

use blinc_dsl_core::abi::{NativeType, TypeTag};
use blinc_dsl_core::ast::{
    Block, Call, Class, Decl, DeclKind, EnumDecl, Expr, ExprKind, Function, ImplBlock, Import,
    ImportItem, Literal, Method, Param, PrimitiveType, Program, Span, Stmt, StmtKind, Type, TypeId,
    Variant, VariantFields, Visibility,
};
use blinc_dsl_core::component::PropDef;
use blinc_dsl_core::engine::{BlincDsl, BlincDslError, CompiledSource};
use blinc_dsl_core::imports::{collect_imports, import_segments, inject_imported_view_externs};
use blinc_dsl_core::populate::count_described;
use blinc_dsl_core::project::{ProjectStep, ProjectWalk};
use blinc_dsl_core::queries::{
    check_handle, component_view_symbol, init_symbols, query_error_text, unregistered_view,
    view_symbols, ExternWidgetSpec, QueryError,
};
use blinc_dsl_core::stateful::detect_and_strip_stateful_views;
use blinc_dsl_core::stylesheet::auto_inject_semicolons;

fn expr(kind: ExprKind) -> Expr {
    Expr { kind, ty: Type::Unknown, span: Span { start: 0, end: 0 } }
}

fn var(name: &str) -> Expr {
    expr(ExprKind::Variable(name.to_string()))
}

fn text(value: &str) -> Expr {
    expr(ExprKind::Literal(Literal::String(value.to_string())))
}

fn num(value: i128) -> Expr {
    expr(ExprKind::Literal(Literal::Integer(value)))
}

fn call(callee: &str, args: Vec<Expr>) -> Expr {
    expr(ExprKind::Call(Call {
        callee: Box::new(var(callee)),
        positional_args: args,
        named_args: vec![],
        type_args: vec![],
    }))
}

fn stmt(e: Expr) -> Stmt {
    Stmt { kind: StmtKind::Expression(e), ty: Type::Unknown, span: Span { start: 0, end: 0 } }
}

fn block(statements: Vec<Stmt>) -> Block {
    Block { statements, span: Span { start: 0, end: 0 } }
}

fn decl(kind: DeclKind) -> Decl {
    Decl { kind, ty: Type::Unknown, span: Span { start: 0, end: 0 } }
}

fn param(name: &str, ty: Type) -> Param {
    Param { name: name.to_string(), ty, is_self: false, details: 0 }
}

fn function(name: &str, statements: Vec<Stmt>) -> Decl {
    decl(DeclKind::Function(Function {
        name: name.to_string(),
        params: vec![],
        return_type: Type::Primitive(PrimitiveType::Unit),
        body: Some(block(statements)),
        visibility: Visibility::Default,
        is_external: false,
        link_name: None,
        details: 0,
    }))
}

fn signal(name: &str, ty: PrimitiveType) -> Decl {
    decl(DeclKind::Function(Function {
        name: name.to_string(),
        params: vec![],
        return_type: Type::Primitive(ty),
        body: None,
        visibility: Visibility::Default,
        is_external: true,
        link_name: None,
        details: 0,
    }))
}

fn method(name: &str, params: Vec<Param>, statements: Vec<Stmt>) -> Method {
    Method {
        name: name.to_string(),
        params,
        return_type: Type::Primitive(PrimitiveType::Unit),
        body: Some(block(statements)),
        details: 0,
    }
}

fn class(name: &str) -> Decl {
    decl(DeclKind::Class(Class { name: name.to_string(), fields: vec![], details: 0 }))
}

fn component_impl(name: &str, methods: Vec<Method>) -> Decl {
    decl(DeclKind::Impl(ImplBlock {
        trait_name: String::new(),
        for_type: Type::Unresolved(name.to_string()),
        methods,
        details: 0,
    }))
}

fn program(declarations: Vec<Decl>) -> Program {
    Program { declarations, type_registry: vec![] }
}

fn component_call(name: &str, mut args: Vec<Expr>) -> Expr {
    let mut all = vec![text(name)];
    all.append(&mut args);
    call("__component_call__", all)
}

/// An `fsm` declaration: the enum of its states and the impl block that
/// describes it.
fn fsm(name: &str, states: Vec<&str>, markers: Vec<Stmt>) -> Vec<Decl> {
    let variants = states
        .into_iter()
        .map(|s| Variant {
            name: s.to_string(),
            fields: VariantFields::Unit,
            discriminant: None,
            span: Span { start: 0, end: 0 },
        })
        .collect();
    vec![
        decl(DeclKind::Enum(EnumDecl {
            name: name.to_string(),
            variants,
            visibility: Visibility::Default,
            span: Span { start: 0, end: 0 },
            details: 0,
        })),
        decl(DeclKind::Impl(ImplBlock {
            trait_name: name.to_string(),
            for_type: Type::Unresolved(name.to_string()),
            methods: vec![method("__fsm_meta__", vec![], markers)],
            details: 0,
        })),
    ]
}

fn initial(state: &str) -> Stmt {
    stmt(call("__fsm_initial__", vec![text(state)]))
}

fn functions(p: &Program) -> Vec<&Function> {
    p.declarations
        .iter()
        .filter_map(|d| match &d.kind {
            DeclKind::Function(f) => Some(f),
            _ => None,
        })
        .collect()
}

fn statements_of<'a>(p: &'a Program, name: &str) -> &'a Vec<Stmt> {
    for f in functions(p) {
        if f.name == name {
            if let Some(b) = &f.body {
                return &b.statements;
            }
        }
    }
    panic!("no function `{name}` with a body");
}

/// The call that a statement makes, through a `return` or a block at its end.
fn call_in(s: &Stmt) -> &Call {
    match &s.kind {
        StmtKind::Expression(e) | StmtKind::Return(Some(e)) => call_of(e),
        other => panic!("no call: {other:?}"),
    }
}

fn call_of(e: &Expr) -> &Call {
    match &e.kind {
        ExprKind::Call(c) => c,
        ExprKind::Block(b) => call_in(&b.statements[b.statements.len() - 1]),
        other => panic!("no call: {other:?}"),
    }
}

fn callee(c: &Call) -> &str {
    match &c.callee.kind {
        ExprKind::Variable(v) => v,
        other => panic!("callee is no name: {other:?}"),
    }
}

fn string_of(e: &Expr) -> &str {
    match &e.kind {
        ExprKind::Literal(Literal::String(s)) => s,
        other => panic!("no string: {other:?}"),
    }
}

fn compile(dsl: &mut BlincDsl, p: Program) -> CompiledSource {
    compile_with(dsl, p, vec![])
}

fn compile_with(dsl: &mut BlincDsl, p: Program, imported: Vec<Option<Vec<String>>>) -> CompiledSource {
    let needed: usize = count_described(&p);
    let mut ids: Vec<TypeId> = vec![];
    for k in 0..needed {
        ids.push(TypeId::new(k as u32));
    }
    dsl.compile_source(p, &imported, &ids, 0).expect("compile")
}

fn view(statements: Vec<Stmt>) -> Decl {
    function("render_view", statements)
}

fn prop(name: &str, ty: PrimitiveType) -> PropDef {
    PropDef { name: name.to_string(), ty: Type::Primitive(ty) }
}

fn fancy_text() -> ExternWidgetSpec {
    ExternWidgetSpec {
        name: "FancyText".to_string(),
        view_symbol: "$Blinc$FancyText$view".to_string(),
        props: vec![prop("content", PrimitiveType::String)],
        param_types: vec![Type::Primitive(PrimitiveType::String)],
        return_type: Type::Primitive(PrimitiveType::I64),
    }
}

fn query_text(dsl: &BlincDsl, name: &str) -> String {
    let e = dsl.query(&name.to_string()).expect_err("query should fail");
    query_error_text(&name.to_string(), &e)
}

fn import(path: Vec<&str>, items: Vec<&str>) -> Import {
    Import {
        path_segments: path.into_iter().map(|s| s.to_string()).collect(),
        items: items
            .into_iter()
            .map(|n| ImportItem::Named { name: n.to_string(), details: 0 })
            .collect(),
        details: 0,
    }
}

fn strings(names: Vec<&str>) -> Vec<String> {
    names.into_iter().map(|s| s.to_string()).collect()
}

#[test]
fn publish_components_to_runtime_registry_round_trip() {
    let i32_type = || Type::Primitive(PrimitiveType::I32);
    let mut dsl = BlincDsl::new();
    compile(
        &mut dsl,
        program(vec![
            class("RegistryRoundTripCounter"),
            component_impl(
                "RegistryRoundTripCounter",
                vec![
                    method(
                        "__component_props__",
                        vec![param("initial", i32_type()), param("step", i32_type())],
                        vec![],
                    ),
                    method("view", vec![], vec![stmt(call("text", vec![text("counter")]))]),
                ],
            ),
            class("RegistryRoundTripGreeting"),
            component_impl(
                "RegistryRoundTripGreeting",
                vec![method("view", vec![], vec![stmt(call("text", vec![text("hi")]))])],
            ),
            view(vec![stmt(component_call("RegistryRoundTripCounter", vec![num(1), num(2)]))]),
        ]),
    );
    let counter =
        dsl.components.get_by_name(&"RegistryRoundTripCounter".to_string()).expect("published");
    assert_eq!(counter.view_symbol, "RegistryRoundTripCounter$view");
    assert_eq!(counter.prop_count(), 2);
    assert_eq!(counter.props[0], prop("initial", PrimitiveType::I32));
    assert_eq!(counter.props[1], prop("step", PrimitiveType::I32));
    let greeting =
        dsl.components.get_by_name(&"RegistryRoundTripGreeting".to_string()).expect("published");
    assert_eq!(greeting.view_symbol, "RegistryRoundTripGreeting$view");
    assert_eq!(greeting.prop_count(), 0);
}

#[test]
fn register_extern_widget_rust_to_dsl_round_trip() {
    let mut dsl = BlincDsl::new();
    let sig = dsl.register_extern_widget_spec(fancy_text()).expect("register_extern_widget_spec");
    assert_eq!(sig.param_count, 1);
    assert_eq!(sig.params[0], TypeTag::String);
    assert_eq!(sig.return_type, TypeTag::I64);
    let out = compile(
        &mut dsl,
        program(vec![view(vec![stmt(component_call(
            "FancyText",
            vec![text("registered widget")],
        ))])]),
    );
    let render_view = functions(&out.program)[0];
    assert_eq!(render_view.return_type, Type::Primitive(PrimitiveType::I64));
    let c = call_in(&statements_of(&out.program, "render_view")[0]);
    assert_eq!(callee(c), "$Blinc$FancyText$view");
    assert_eq!(string_of(&c.positional_args[0]), "registered widget");
}

#[test]
fn a_widget_takes_at_most_sixteen_parameters() {
    let mut dsl = BlincDsl::new();
    let mut spec = fancy_text();
    spec.param_types = (0..17).map(|_| Type::Primitive(PrimitiveType::I32)).collect();
    let err = dsl.register_extern_widget_spec(spec).expect_err("too many parameters");
    assert_eq!(
        err.text(),
        "blinc compile error: register_extern_widget(FancyText): parameter count 17 exceeds ZRTL_MAX_PARAMS (16)"
    );
    assert!(dsl.components.get_by_name(&"FancyText".to_string()).is_none());
}

#[test]
fn query_dsl_component_returns_element_builder() {
    let mut dsl = BlincDsl::new();
    compile(
        &mut dsl,
        program(vec![
            class("MyContainer"),
            component_impl(
                "MyContainer",
                vec![method("view", vec![], vec![stmt(component_call("Div", vec![]))])],
            ),
        ]),
    );
    let plan = dsl.query(&"MyContainer".to_string()).expect("query");
    assert_eq!(plan.view_symbol, "MyContainer$view");
    assert_eq!(plan.params.len(), 0);
    assert!(dsl.is_value_returning(&"MyContainer$view".to_string()));
}

#[test]
fn query_legacy_unit_returning_component_errors() {
    let mut dsl = BlincDsl::new();
    compile(
        &mut dsl,
        program(vec![
            class("LegacyGreeting"),
            component_impl(
                "LegacyGreeting",
                vec![method("view", vec![], vec![stmt(call("text", vec![text("hi")]))])],
            ),
        ]),
    );
    let msg = query_text(&dsl, "LegacyGreeting");
    assert!(msg.contains("isn't value-returning"), "got: {msg}");
}

#[test]
fn query_unknown_component_errors_with_helpful_message() {
    let msg = query_text(&BlincDsl::new(), "DoesNotExist");
    assert!(msg.contains("no component named"), "got: {msg}");
    assert!(msg.contains("`DoesNotExist`"), "got: {msg}");
}

#[test]
fn queries_check_the_properties() {
    let mut dsl = BlincDsl::new();
    let mut spec = fancy_text();
    spec.props = vec![
        prop("a", PrimitiveType::I32),
        PropDef { name: "b".to_string(), ty: Type::Other(5) },
    ];
    dsl.register_extern_widget_spec(spec).expect("register");
    assert_eq!(dsl.query(&"FancyText".to_string()), Err(QueryError::NoNativeType(1)));
    let mut spec = fancy_text();
    spec.props = (0..17).map(|_| prop("p", PrimitiveType::I32)).collect();
    dsl.register_extern_widget_spec(spec).expect("register");
    assert_eq!(dsl.query(&"FancyText".to_string()), Err(QueryError::TooManyProps(17)));
    assert!(query_text(&dsl, "FancyText").contains("declares 17 props"));
    dsl.register_extern_widget_spec(fancy_text()).expect("register");
    let plan = dsl.query(&"FancyText".to_string()).expect("query");
    assert_eq!(plan.params, vec![NativeType::Ptr]);
}

#[test]
fn the_null_handle_is_no_widget() {
    assert_eq!(check_handle(0), Err(QueryError::NullHandle));
    assert_eq!(check_handle(7), Ok(7));
}

#[test]
fn an_unknown_component_registers_nothing() {
    let mut dsl = BlincDsl::new();
    let p = program(vec![
        signal("count", PrimitiveType::I32),
        class("Known"),
        component_impl("Known", vec![method("view", vec![], vec![])]),
        view(vec![stmt(component_call("Nowhere", vec![]))]),
    ]);
    let err = dsl.compile_source(p, &vec![], &vec![], 0).expect_err("unknown component");
    assert!(matches!(err, BlincDslError::Compile(_)));
    assert!(dsl.components.get_by_name(&"Known".to_string()).is_none());
    assert_eq!(dsl.declared_signals().len(), 1);
}

#[test]
fn compiled_bodies_end_in_a_return() {
    let mut dsl = BlincDsl::new();
    let out = compile(&mut dsl, program(vec![view(vec![stmt(call("text", vec![text("hi")]))])]));
    let stmts = statements_of(&out.program, "render_view");
    assert_eq!(stmts.len(), 2);
    assert_eq!(stmts[1].kind, StmtKind::Return(None));
}

#[test]
fn error_texts_say_where_they_come_from() {
    let of = |e: BlincDslError| -> String { e.text() };
    assert_eq!(of(BlincDslError::Grammar("g".to_string())), "blinc grammar compile failed: g");
    assert_eq!(of(BlincDslError::Compile("c".to_string())), "blinc compile error: c");
    assert_eq!(of(BlincDslError::Runtime("r".to_string())), "blinc runtime error: r");
    assert_eq!(of(BlincDslError::Io("i".to_string())), "blinc source io error: i");
}

#[test]
fn imports_are_split_into_segments() {
    let i = import(vec!["", "/widgets", "card"], vec!["Card"]);
    assert_eq!(import_segments(&i), vec!["widgets", "card"]);
    let p = program(vec![decl(DeclKind::Import(i)), class("C")]);
    assert_eq!(collect_imports(&p), vec![strings(vec!["widgets", "card"])]);
}

#[test]
fn imported_views_are_declared_once() {
    let mut p = program(vec![
        decl(DeclKind::Import(import(vec!["card"], vec!["Card", "Missing"]))),
        decl(DeclKind::Import(import(vec!["card"], vec!["Card"]))),
        decl(DeclKind::Import(import(vec!["unknown"], vec!["Other"]))),
    ]);
    let compiled = || Some(strings(vec!["Card$view", "helper"]));
    inject_imported_view_externs(&mut p, &vec![compiled(), compiled(), None]);
    let all = functions(&p);
    assert_eq!(all.len(), 1);
    assert_eq!(all[0].name, "Card$view");
    assert_eq!(all[0].link_name.as_deref(), Some("Card$view"));
    assert!(all[0].is_external && all[0].body.is_none());
    assert_eq!(all[0].return_type, Type::Primitive(PrimitiveType::I64));
}

#[test]
fn modules_are_remembered_by_path() {
    let mut dsl = BlincDsl::new();
    dsl.record_module(&"/a.blinc".to_string(), &strings(vec!["A$view"]));
    dsl.record_module(&"/b.blinc".to_string(), &strings(vec!["B$view"]));
    dsl.record_module(&"/a.blinc".to_string(), &strings(vec!["A$view", "A2$view"]));
    assert_eq!(
        dsl.compiled_function_names(&"/a.blinc".to_string()),
        Some(strings(vec!["A$view", "A2$view"]))
    );
    assert_eq!(dsl.compiled_function_names(&"/c.blinc".to_string()), None);
    let found = dsl.compiled_imports(&vec![Some("/b.blinc".to_string()), None]);
    assert_eq!(found, vec![Some(strings(vec!["B$view"])), None]);
}

#[test]
fn symbols_are_told_apart_by_their_endings() {
    let names = strings(vec!["A$view", "A$__init__", "helper", "B$view"]);
    assert_eq!(view_symbols(&names), vec!["A$view", "B$view"]);
    assert_eq!(init_symbols(&names), vec!["A$__init__"]);
    assert_eq!(component_view_symbol(&"Card".to_string()), "Card$view");
}

#[test]
fn stylesheets_are_handed_on_once() {
    let sheet = |css: &str| function("__blinc_stylesheet__", vec![stmt(text(css))]);
    let mut dsl = BlincDsl::new();
    let out = compile(&mut dsl, program(vec![sheet(".a { }"), view(vec![])]));
    assert!(!functions(&out.program).iter().any(|f| f.name == "__blinc_stylesheet__"));
    assert_eq!(dsl.take_pending_stylesheets(), vec![".a { }"]);
    assert!(dsl.take_pending_stylesheets().is_empty());
    compile(&mut dsl, program(vec![sheet(".b { }")]));
    assert_eq!(dsl.take_pending_stylesheets(), vec![".b { }"]);
    assert_eq!(dsl.compiled_stylesheets(), vec![".a { }", ".b { }"]);
}

#[test]
fn a_refused_source_leaves_its_stylesheets_pending() {
    let sheet = |css: &str| function("__blinc_stylesheet__", vec![stmt(text(css))]);
    let mut dsl = BlincDsl::new();
    compile(&mut dsl, program(vec![sheet(".a { }")]));
    let p = program(vec![sheet(".b { }"), view(vec![stmt(component_call("Nope", vec![]))])]);
    assert!(dsl.compile_source(p, &vec![], &vec![], 0).is_err());
    assert_eq!(dsl.take_pending_stylesheets(), vec![".a { }", ".b { }"]);
    assert!(dsl.take_pending_stylesheets().is_empty());
    assert_eq!(dsl.compiled_stylesheets(), vec![".a { }", ".b { }"]);
}

#[test]
fn missing_semicolons_are_put_in() {
    let source = ".card {\n    color: red\n    // note\n    width: 1px;\n    margin: 0,\n}\n";
    let expected = ".card {\n    color: red;\n    // note\n    width: 1px;\n    margin: 0,\n}\n";
    let once = auto_inject_semicolons(source);
    assert_eq!(once, expected);
    assert_eq!(auto_inject_semicolons(&once), expected);
    assert_eq!(auto_inject_semicolons("color: red"), "color: red");
}

#[test]
fn decorated_views_follow_what_they_name() {
    let mut decls = vec![signal("a", PrimitiveType::I32), signal("b", PrimitiveType::String)];
    decls.append(&mut fsm("First", vec!["S"], vec![initial("S")]));
    decls.append(&mut fsm("Second", vec!["S"], vec![initial("S")]));
    decls.push(view(vec![
        stmt(call("__stateful_view__", vec![text("b"), text("missing"), text("b")])),
        stmt(call("__fsm_view__", vec![text("Second")])),
        stmt(call("text", vec![text("hi")])),
    ]));
    let mut dsl = BlincDsl::new();
    let out = compile(&mut dsl, program(decls));
    assert_eq!(callee(call_in(&statements_of(&out.program, "render_view")[0])), "text");
    let plan = dsl.view_plan().expect("stateful view");
    assert_eq!(plan.deps, vec![("b".to_string(), Type::Primitive(PrimitiveType::String))]);
    assert_eq!(plan.fsm.as_deref(), Some("Second"));
    assert_eq!(dsl.stateful_view_deps, vec!["b", "missing"]);
    assert_eq!(dsl.declared_fsms(), vec!["First", "Second"]);
}

#[test]
fn a_decorator_without_names_follows_everything() {
    let mut decls = vec![signal("a", PrimitiveType::I32), signal("flag", PrimitiveType::Bool)];
    decls.append(&mut fsm("First", vec!["S"], vec![initial("S")]));
    decls.push(view(vec![stmt(call("__stateful_view__", vec![]))]));
    let mut dsl = BlincDsl::new();
    assert!(dsl.view_plan().is_none());
    compile(&mut dsl, program(decls));
    let plan = dsl.view_plan().expect("stateful view");
    assert_eq!(plan.deps, vec![("a".to_string(), Type::Primitive(PrimitiveType::I32))]);
    assert_eq!(plan.fsm.as_deref(), Some("First"));
}

#[test]
fn decorators_count_only_at_the_start() {
    let mut p = program(vec![view(vec![
        stmt(call("text", vec![text("hi")])),
        stmt(call("__stateful_view__", vec![text("a")])),
    ])]);
    let (found, signals, fsms) = detect_and_strip_stateful_views(&mut p);
    assert!(!found && signals.is_empty() && fsms.is_empty());
    assert_eq!(statements_of(&p, "render_view").len(), 2);
}

#[test]
fn an_imported_component_can_be_called() {
    let mut dsl = BlincDsl::new();
    let out = compile(
        &mut dsl,
        program(vec![
            class("Card"),
            component_impl(
                "Card",
                vec![method("view", vec![], vec![stmt(component_call("Div", vec![]))])],
            ),
        ]),
    );
    assert_eq!(out.program.declarations.len(), 2);
    dsl.record_module(&"/card.blinc".to_string(), &strings(vec!["Card$view"]));
    let imported = dsl.compiled_imports(&vec![Some("/card.blinc".to_string())]);
    let out = compile_with(
        &mut dsl,
        program(vec![
            decl(DeclKind::Import(import(vec!["card"], vec!["Card"]))),
            view(vec![stmt(component_call("Card", vec![]))]),
        ]),
        imported,
    );
    let c = call_in(&statements_of(&out.program, "render_view")[0]);
    assert_eq!(callee(c), "Card$view");
    let render_view =
        functions(&out.program).into_iter().find(|f| f.name == "render_view").expect("view");
    assert_eq!(render_view.return_type, Type::Primitive(PrimitiveType::I64));
}

#[test]
fn a_missing_view_is_named() {
    assert_eq!(
        unregistered_view(&"Card$view".to_string()).text(),
        "blinc compile error: view symbol 'Card$view' not registered in runtime"
    );
}

#[test]
fn a_project_compiles_imports_first() {
    let imports = |path: &str| -> Vec<Option<String>> {
        match path {
            "main" => vec![Some("a".to_string()), None, Some("b".to_string())],
            "a" => vec![Some("b".to_string())],
            _ => vec![],
        }
    };
    let mut dsl = BlincDsl::new();
    let mut walk = ProjectWalk::new(&"main".to_string());
    let mut order: Vec<String> = vec![];
    loop {
        match dsl.next_project_step(&mut walk) {
            ProjectStep::Parse(path) => walk.parsed(imports(&path)),
            ProjectStep::Compile(path) => {
                let names = vec![format!("{path}$view")];
                dsl.record_module(&path, &names);
                order.push(path);
                walk.compiled(names);
            }
            ProjectStep::Finished => break,
        }
    }
    assert_eq!(order, vec!["b", "a", "main"]);
    assert_eq!(walk.names, vec!["b$view", "a$view", "main$view"]);
    assert!(dsl.has_module(&"a".to_string()) && !dsl.has_module(&"c".to_string()));
}

#[test]
fn a_compiled_import_is_not_visited() {
    let mut dsl = BlincDsl::new();
    dsl.record_module(&"a".to_string(), &strings(vec!["A$view"]));
    let mut walk = ProjectWalk::new(&"main".to_string());
    assert_eq!(dsl.next_project_step(&mut walk), ProjectStep::Parse("main".to_string()));
    walk.parsed(vec![Some("a".to_string())]);
    assert_eq!(dsl.next_project_step(&mut walk), ProjectStep::Compile("main".to_string()));
    walk.compiled(vec![]);
    assert_eq!(dsl.next_project_step(&mut walk), ProjectStep::Finished);
}

#[test]
fn a_cycle_of_imports_compiles_each_file_once() {
    let imports = |path: &str| -> Vec<Option<String>> {
        match path {
            "a" => vec![Some("a".to_string()), Some("b".to_string())],
            "b" => vec![Some("a".to_string()), Some("c".to_string())],
            "c" => vec![Some("b".to_string()), Some("a".to_string())],
            _ => vec![],
        }
    };
    let mut dsl = BlincDsl::new();
    let mut walk = ProjectWalk::new(&"a".to_string());
    let mut parsed: Vec<String> = vec![];
    let mut order: Vec<String> = vec![];
    for _ in 0..8 {
        match dsl.next_project_step(&mut walk) {
            ProjectStep::Parse(path) => {
                walk.parsed(imports(&path));
                parsed.push(path);
            }
            ProjectStep::Compile(path) => {
                let names = vec![format!("{path}$view")];
                dsl.record_module(&path, &names);
                order.push(path);
                walk.compiled(names);
            }
            ProjectStep::Finished => {}
        }
    }
    assert_eq!(dsl.next_project_step(&mut walk), ProjectStep::Finished);
    assert_eq!(parsed, vec!["a", "b", "c"]);
    assert_eq!(order, vec!["c", "b", "a"]);
    assert_eq!(walk.names, vec!["c$view", "b$view", "a$view"]);
}

#[test]
fn an_entry_that_is_compiled_is_compiled_again() {
    let mut dsl = BlincDsl::new();
    dsl.record_module(&"main".to_string(), &strings(vec!["A$view"]));
    let mut walk = ProjectWalk::new(&"main".to_string());
    assert_eq!(dsl.next_project_step(&mut walk), ProjectStep::Parse("main".to_string()));
    walk.parsed(vec![Some("main".to_string())]);
    assert_eq!(dsl.next_project_step(&mut walk), ProjectStep::Compile("main".to_string()));
    walk.compiled(strings(vec!["B$view"]));
    assert_eq!(dsl.next_project_step(&mut walk), ProjectStep::Finished);
    assert_eq!(walk.names, vec!["B$view"]);
}
