//! Components and widgets: calls, bodies, slots, properties and styling.

use blinc_dsl_core::ast::{
    Block, Call, Class, Decl, DeclKind, Expr, ExprKind, Field, Function, ImplBlock, LambdaBody,
    Literal, Method, NamedArg, Param, PrimitiveType, Program, Span, Stmt, StmtKind, Type,
    Visibility,
};
use blinc_dsl_core::children::lower_children_arrays_to_blocks;
use blinc_dsl_core::component::{ComponentDefinition, ComponentRegistry, PropDef};
use blinc_dsl_core::component_calls::lower_component_calls;
use blinc_dsl_core::engine::BlincDsl;
use blinc_dsl_core::name_set::NameSet;
use blinc_dsl_core::named_args::resolve_extern_widget_named_args;
use blinc_dsl_core::props::bind_component_props;
use blinc_dsl_core::struct_literals::lower_struct_literals;
use blinc_dsl_core::styling::lower_styling_args_to_overlays;
use blinc_dsl_core::unit_return::ensure_unit_return;
use blinc_dsl_core::validate::validate_component_calls;
use blinc_dsl_core::value_views::lower_view_to_value_returning;

fn expr(kind: ExprKind) -> Expr {
    Expr { kind, ty: Type::Unknown, span: Span { start: 0, end: 0 } }
}

fn var(name: &str) -> Expr {
    expr(ExprKind::Variable(name.to_string()))
}

fn text(value: &str) -> Expr {
    expr(ExprKind::Literal(Literal::String(value.to_string())))
}

fn num(value: i128) -> Expr {
    expr(ExprKind::Literal(Literal::Integer(value)))
}

fn call(callee: &str, args: Vec<Expr>) -> Expr {
    expr(ExprKind::Call(Call {
        callee: Box::new(var(callee)),
        positional_args: args,
        named_args: vec![],
        type_args: vec![],
    }))
}

fn stmt(e: Expr) -> Stmt {
    Stmt { kind: StmtKind::Expression(e), ty: Type::Unknown, span: Span { start: 0, end: 0 } }
}

fn let_stmt(name: &str, value: Expr) -> Stmt {
    Stmt {
        kind: StmtKind::Let {
            name: name.to_string(),
            ty: Type::Unknown,
            mutable: false,
            initializer: Some(value),
            span: Span { start: 0, end: 0 },
        },
        ty: Type::Unknown,
        span: Span { start: 0, end: 0 },
    }
}

fn block(statements: Vec<Stmt>) -> Block {
    Block { statements, span: Span { start: 0, end: 0 } }
}

fn body(statements: Vec<Stmt>) -> Expr {
    expr(ExprKind::Block(block(statements)))
}

fn decl(kind: DeclKind) -> Decl {
    Decl { kind, ty: Type::Unknown, span: Span { start: 0, end: 0 } }
}

fn param(name: &str, ty: Type) -> Param {
    Param { name: name.to_string(), ty, is_self: false, details: 0 }
}

fn function(name: &str, statements: Vec<Stmt>) -> Decl {
    decl(DeclKind::Function(Function {
        name: name.to_string(),
        params: vec![],
        return_type: Type::Primitive(PrimitiveType::Unit),
        body: Some(block(statements)),
        visibility: Visibility::Default,
        is_external: false,
        link_name: None,
        details: 0,
    }))
}

fn method(name: &str, params: Vec<Param>, statements: Vec<Stmt>) -> Method {
    Method {
        name: name.to_string(),
        params,
        return_type: Type::Primitive(PrimitiveType::Unit),
        body: Some(block(statements)),
        details: 0,
    }
}

fn class(name: &str) -> Decl {
    decl(DeclKind::Class(Class { name: name.to_string(), fields: vec![], details: 0 }))
}

fn component_impl(name: &str, methods: Vec<Method>) -> Decl {
    decl(DeclKind::Impl(ImplBlock {
        trait_name: String::new(),
        for_type: Type::Unresolved(name.to_string()),
        methods,
        details: 0,
    }))
}

fn program(declarations: Vec<Decl>) -> Program {
    Program { declarations, type_registry: vec![] }
}

fn component_call(name: &str, mut args: Vec<Expr>) -> Expr {
    let mut all = vec![text(name)];
    all.append(&mut args);
    call("__component_call__", all)
}

fn named(name: &str, value: Expr) -> Expr {
    call("__named__", vec![text(name), value])
}

fn functions(p: &Program) -> Vec<&Function> {
    p.declarations
        .iter()
        .filter_map(|d| match &d.kind {
            DeclKind::Function(f) => Some(f),
            _ => None,
        })
        .collect()
}

fn impls(p: &Program) -> Vec<&ImplBlock> {
    p.declarations
        .iter()
        .filter_map(|d| match &d.kind {
            DeclKind::Impl(i) => Some(i),
            _ => None,
        })
        .collect()
}

fn statements_of<'a>(p: &'a Program, name: &str) -> &'a Vec<Stmt> {
    for f in functions(p) {
        if f.name == name {
            if let Some(b) = &f.body {
                return &b.statements;
            }
        }
    }
    panic!("no function `{name}` with a body");
}

/// The call that a statement makes, through a `return` or a block at its end.
fn call_in(s: &Stmt) -> &Call {
    match &s.kind {
        StmtKind::Expression(e) | StmtKind::Return(Some(e)) => call_of(e),
        other => panic!("no call: {other:?}"),
    }
}

fn call_of(e: &Expr) -> &Call {
    match &e.kind {
        ExprKind::Call(c) => c,
        ExprKind::Block(b) => call_in(&b.statements[b.statements.len() - 1]),
        other => panic!("no call: {other:?}"),
    }
}

fn callee(c: &Call) -> &str {
    match &c.callee.kind {
        ExprKind::Variable(v) => v,
        other => panic!("callee is no name: {other:?}"),
    }
}

fn string_of(e: &Expr) -> &str {
    match &e.kind {
        ExprKind::Literal(Literal::String(s)) => s,
        other => panic!("no string: {other:?}"),
    }
}

fn lower(p: Program) -> Program {
    BlincDsl::new().parse_to_typed_ast(p).expect("parse")
}

fn view(statements: Vec<Stmt>) -> Decl {
    function("render_view", statements)
}

fn handle(name: &str) -> PropDef {
    PropDef { name: name.to_string(), ty: Type::Primitive(PrimitiveType::I64) }
}

fn widget(name: &str, symbol: &str, props: Vec<PropDef>) -> ComponentDefinition {
    ComponentDefinition { name: name.to_string(), view_symbol: symbol.to_string(), props }
}

fn component(name: &str) -> Vec<Decl> {
    vec![class(name)]
}

fn slot_open(name: &str) -> Stmt {
    stmt(call("__slot_open__", vec![text(name)]))
}

fn slot_close() -> Stmt {
    stmt(call("__slot_close__", vec![]))
}

fn struct_marker(name: &str) -> Decl {
    function("__blinc_struct_type__", vec![stmt(text(name))])
}

fn struct_class(name: &str, fields: Vec<&str>) -> Decl {
    let fields = fields
        .into_iter()
        .map(|f| Field { name: f.to_string(), ty: Type::Any, details: 0 })
        .collect();
    decl(DeclKind::Class(Class { name: name.to_string(), fields, details: 0 }))
}

/// `view { <args> }` on a struct `Point { x, y }`.
fn point_source(args: Vec<Expr>) -> Program {
    program(vec![
        struct_marker("Point"),
        struct_class("Point", vec!["x", "y"]),
        view(vec![let_stmt("p", component_call("Point", args))]),
    ])
}

fn children_of(e: &Expr) -> &Block {
    match &e.kind {
        ExprKind::Block(b) => b,
        other => panic!("no block: {other:?}"),
    }
}

fn returned(s: &Stmt) -> &Expr {
    match &s.kind {
        StmtKind::Return(Some(e)) => e,
        other => panic!("no value returned: {other:?}"),
    }
}

fn count_marker_refs(e: &Expr) -> usize {
    let mut n: usize = 0;
    match &e.kind {
        ExprKind::Variable(name) => {
            if name == "__component_call__" {
                n += 1;
            }
        }
        ExprKind::Call(c) => {
            n += count_marker_refs(&c.callee);
            for a in &c.positional_args {
                n += count_marker_refs(a);
            }
            for a in &c.named_args {
                n += count_marker_refs(&a.value);
            }
        }
        ExprKind::Block(b) => {
            for s in &b.statements {
                n += count_marker_refs_in(s);
            }
        }
        _ => {}
    }
    n
}

fn count_marker_refs_in(s: &Stmt) -> usize {
    match &s.kind {
        StmtKind::Expression(e) => count_marker_refs(e),
        StmtKind::Let { initializer: Some(e), .. } => count_marker_refs(e),
        StmtKind::Return(Some(e)) => count_marker_refs(e),
        _ => 0,
    }
}

#[test]
fn bind_component_props_writes_view_params() {
    let i32_type = || Type::Primitive(PrimitiveType::I32);
    let marker = method(
        "__component_props__",
        vec![param("initial", i32_type()), param("step", i32_type())],
        vec![],
    );
    let p = lower(program(vec![
        class("Counter"),
        component_impl(
            "Counter",
            vec![
                marker,
                method("view", vec![], vec![stmt(call("text", vec![text("static")]))]),
                method("on_click", vec![], vec![]),
            ],
        ),
    ]));
    let methods = &impls(&p)[0].methods;
    for name in ["view", "on_click"] {
        let m = methods.iter().find(|m| m.name == name).expect("method");
        assert_eq!(m.params.len(), 2, "{name} should receive 2 prop params");
        assert_eq!(m.params[0].name, "initial");
        assert_eq!(m.params[1].name, "step");
    }
    assert!(!methods.iter().any(|m| m.name == "__component_props__"));
}

#[test]
fn binding_props_again_changes_nothing() {
    let mut p = program(vec![component_impl(
        "C",
        vec![
            method("__component_props__", vec![param("a", Type::Any)], vec![]),
            method("view", vec![param("own", Type::Any)], vec![]),
        ],
    )]);
    bind_component_props(&mut p);
    let once = p.declarations.len();
    let names: Vec<String> =
        impls(&p)[0].methods[0].params.iter().map(|q| q.name.clone()).collect();
    assert_eq!(names, vec!["a", "own"]);
    bind_component_props(&mut p);
    assert_eq!(p.declarations.len(), once);
    assert_eq!(impls(&p)[0].methods[0].params.len(), 2);
}

#[test]
fn parse_component_call_no_args() {
    let mut decls = component("Counter");
    decls.push(view(vec![stmt(component_call("Counter", vec![]))]));
    let p = lower(program(decls));
    let stmts = statements_of(&p, "render_view");
    assert_eq!(stmts.len(), 1);
    let c = call_in(&stmts[0]);
    assert_eq!(callee(c), "Counter$view");
    assert_eq!(c.positional_args.len(), 0);
    assert_eq!(c.named_args.len(), 0);
}

#[test]
fn parse_component_call_positional_args() {
    let mut decls = component("Counter");
    decls.push(view(vec![stmt(component_call("Counter", vec![num(1), num(2)]))]));
    let p = lower(program(decls));
    let c = call_in(&statements_of(&p, "render_view")[0]);
    assert_eq!(callee(c), "Counter$view");
    assert_eq!(c.positional_args.len(), 2);
    assert_eq!(c.positional_args[0].kind, ExprKind::Literal(Literal::Integer(1)));
    assert_eq!(c.positional_args[1].kind, ExprKind::Literal(Literal::Integer(2)));
}

#[test]
fn parse_component_call_named_arg() {
    let mut decls = component("Counter");
    decls.push(view(vec![stmt(component_call("Counter", vec![num(1), named("step", num(2))]))]));
    let p = lower(program(decls));
    let c = call_in(&statements_of(&p, "render_view")[0]);
    assert_eq!(callee(c), "Counter$view");
    assert_eq!(c.positional_args.len(), 1);
    assert_eq!(c.positional_args[0].kind, ExprKind::Literal(Literal::Integer(1)));
    assert_eq!(c.named_args.len(), 1);
    assert_eq!(c.named_args[0].name, "step");
    assert_eq!(c.named_args[0].value.kind, ExprKind::Literal(Literal::Integer(2)));
}

#[test]
fn parse_component_call_in_expr_position() {
    let mut decls = component("Counter");
    decls.push(view(vec![let_stmt("widget", component_call("Counter", vec![num(0)]))]));
    let p = lower(program(decls));
    let stmts = statements_of(&p, "render_view");
    assert_eq!(stmts.len(), 1);
    let StmtKind::Let { initializer: Some(init), .. } = &stmts[0].kind else {
        panic!("expected Let statement");
    };
    assert_eq!(callee(call_of(init)), "Counter$view");
}

#[test]
fn blinc_layout_primitives_registered() {
    let dsl = BlincDsl::new();
    let div = dsl.components.get_by_name(&"Div".to_string()).expect("Div");
    assert_eq!(div.view_symbol, "$Blinc$Div$view");
    assert!(div.prop(&"children".to_string()).is_some());
    let label = dsl.components.get_by_name(&"Text".to_string()).expect("Text");
    assert_eq!(label.view_symbol, "$Blinc$Text$view");
    assert!(label.prop(&"content".to_string()).is_some());
}

#[test]
fn validate_accepts_blinc_layout_primitives() {
    let children = body(vec![stmt(component_call("Text", vec![text("hello")]))]);
    let p = program(vec![view(vec![stmt(component_call("Div", vec![children]))])]);
    assert!(BlincDsl::new().parse_to_typed_ast(p).is_ok());
}

#[test]
fn validate_rejects_unknown_component() {
    let p = program(vec![view(vec![stmt(component_call(
        "UnknownComponentValidateTest",
        vec![num(1)],
    ))])]);
    let err = BlincDsl::new().parse_to_typed_ast(p).expect_err("unknown component");
    let msg = err.text();
    assert!(msg.contains("unknown component `UnknownComponentValidateTest`"), "got: {msg}");
    assert!(msg.starts_with("blinc compile error: "), "got: {msg}");
}

#[test]
fn validate_accepts_forward_reference() {
    let p = program(vec![view(vec![stmt(component_call("Inner", vec![num(0)]))]), class("Inner")]);
    assert!(BlincDsl::new().parse_to_typed_ast(p).is_ok());
}

#[test]
fn validate_collects_multiple_unknown_calls() {
    let p = program(vec![view(vec![
        stmt(component_call("FooBar", vec![num(0)])),
        stmt(component_call("BazQux", vec![num(1)])),
    ])]);
    let errors = validate_component_calls(&p, &ComponentRegistry::new()).expect_err("two unknown");
    assert_eq!(errors.len(), 2);
    let msg = BlincDsl::new().parse_to_typed_ast(p).expect_err("two unknown").text();
    assert!(msg.contains("FooBar"), "missing FooBar in diagnostic: {msg}");
    assert!(msg.contains("BazQux"), "missing BazQux in diagnostic: {msg}");
}

fn lambda(statements: Vec<Stmt>) -> Expr {
    expr(ExprKind::Lambda { params: 0, body: LambdaBody::Block(block(statements)) })
}

fn arg(name: &str, value: Expr) -> NamedArg {
    NamedArg { name: name.to_string(), value, span: Span { start: 0, end: 0 } }
}

/// Statements that hold a call in the body of a lambda, in a named argument of
/// a call and in one of a method call.
fn hidden_calls(name: &str) -> Vec<Stmt> {
    vec![
        stmt(lambda(vec![stmt(component_call(name, vec![]))])),
        stmt(expr(ExprKind::Lambda {
            params: 0,
            body: LambdaBody::Expression(Box::new(component_call(name, vec![]))),
        })),
        stmt(expr(ExprKind::Call(Call {
            callee: Box::new(var("f")),
            positional_args: vec![],
            named_args: vec![arg("x", component_call(name, vec![]))],
            type_args: vec![],
        }))),
        stmt(expr(ExprKind::MethodCall {
            receiver: Box::new(var("r")),
            method: "m".to_string(),
            positional_args: vec![],
            named_args: vec![arg("y", component_call(name, vec![]))],
            type_args: vec![],
        })),
    ]
}

#[test]
fn validate_looks_into_lambdas_and_named_arguments() {
    let p = program(vec![function("f", hidden_calls("Nope"))]);
    let errors = validate_component_calls(&p, &ComponentRegistry::new()).expect_err("unknown");
    assert_eq!(errors.len(), 4);
    for message in &errors {
        assert!(message.contains("unknown component `Nope`"), "got: {message}");
    }
    let p = program(vec![class("Nope"), function("f", hidden_calls("Nope"))]);
    assert_eq!(validate_component_calls(&p, &ComponentRegistry::new()), Ok(()));
}

#[test]
fn calls_in_lambdas_and_named_arguments_are_lowered() {
    let mut p = program(vec![class("Card"), function("f", hidden_calls("Card"))]);
    lower_component_calls(&mut p, &ComponentRegistry::new());
    let stmts = statements_of(&p, "f");
    let inner = |s: &Stmt| -> String {
        let StmtKind::Expression(e) = &s.kind else {
            panic!("no expression");
        };
        match &e.kind {
            ExprKind::Lambda { body: LambdaBody::Block(b), .. } => {
                callee(call_in(&b.statements[0])).to_string()
            }
            ExprKind::Lambda { body: LambdaBody::Expression(e), .. } => {
                callee(call_of(e)).to_string()
            }
            ExprKind::Call(c) => callee(call_of(&c.named_args[0].value)).to_string(),
            ExprKind::MethodCall { named_args, .. } => {
                callee(call_of(&named_args[0].value)).to_string()
            }
            other => panic!("unexpected: {other:?}"),
        }
    };
    let names: Vec<String> = stmts.iter().map(inner).collect();
    assert_eq!(names, vec!["Card$view", "Card$view", "Card$view", "Card$view"]);
}

#[test]
fn parse_component_call_with_body_children() {
    let children = body(vec![
        stmt(component_call("Inner", vec![num(1)])),
        stmt(component_call("Inner", vec![num(2)])),
    ]);
    let p = lower(program(vec![
        class("Counter"),
        class("Inner"),
        view(vec![stmt(component_call("Counter", vec![children]))]),
    ]));
    let stmts = statements_of(&p, "render_view");
    assert_eq!(stmts.len(), 3);
    let names: Vec<&str> = stmts.iter().map(|s| callee(call_in(s))).collect();
    assert_eq!(names, vec!["Counter$view", "Inner$view", "Inner$view"]);
    assert_eq!(call_in(&stmts[0]).positional_args.len(), 0);
}

#[test]
fn parse_component_call_with_let_in_body() {
    let children = body(vec![
        let_stmt("count", num(1)),
        stmt(component_call("Inner", vec![var("count")])),
    ]);
    let p = lower(program(vec![
        class("Wrapper"),
        class("Inner"),
        view(vec![stmt(component_call("Wrapper", vec![children]))]),
    ]));
    let stmts = statements_of(&p, "render_view");
    assert_eq!(stmts.len(), 3);
    assert!(matches!(stmts[0].kind, StmtKind::Expression(_)));
    assert!(matches!(stmts[1].kind, StmtKind::Let { .. }));
    assert!(matches!(stmts[2].kind, StmtKind::Expression(_)));
}

#[test]
fn parse_component_call_with_slot() {
    let children = body(vec![
        slot_open("Header"),
        stmt(component_call("Tab", vec![num(1)])),
        slot_close(),
        stmt(component_call("Tab", vec![num(2)])),
    ]);
    let p = lower(program(vec![
        class("Tabs"),
        class("Tab"),
        view(vec![stmt(component_call("Tabs", vec![children]))]),
    ]));
    let stmts = statements_of(&p, "render_view");
    let names: Vec<&str> = stmts.iter().map(|s| callee(call_in(s))).collect();
    assert_eq!(names, vec!["Tabs$view", "Tab$view", "Tab$view"]);
    assert!(!names.iter().any(|n| n.starts_with("__slot_")));
}

#[test]
fn lower_component_calls_strips_marker_callee() {
    let p = lower(program(vec![
        class("Foo"),
        view(vec![
            stmt(component_call("Foo", vec![num(1), named("name", num(2))])),
            let_stmt("x", component_call("Foo", vec![num(3)])),
        ]),
    ]));
    let total: usize = statements_of(&p, "render_view").iter().map(count_marker_refs_in).sum();
    assert_eq!(total, 0);
}

#[test]
fn a_registered_component_is_called_by_its_symbol() {
    let mut registry = ComponentRegistry::new();
    registry.register(widget("Chart", "$Blinc$Chart$view", vec![]));
    let mut p = program(vec![view(vec![
        stmt(component_call("Chart", vec![])),
        stmt(component_call("Other", vec![])),
    ])]);
    lower_component_calls(&mut p, &registry);
    let stmts = statements_of(&p, "render_view");
    assert_eq!(callee(call_in(&stmts[0])), "$Blinc$Chart$view");
    assert_eq!(callee(call_in(&stmts[1])), "Other$view");
}

#[test]
fn registering_a_component_again_replaces_it() {
    let mut registry = ComponentRegistry::new();
    registry.register(widget("A", "old", vec![handle("x")]));
    registry.register(widget("B", "b", vec![]));
    registry.register(widget("A", "new", vec![]));
    assert_eq!(registry.definitions.len(), 2);
    let a = registry.get_by_name(&"A".to_string()).expect("A");
    assert_eq!((a.view_symbol.as_str(), a.prop_count()), ("new", 0));
    assert!(registry.get_by_name(&"C".to_string()).is_none());
}

#[test]
fn lower_view_to_value_returning_wraps_primitive_call() {
    let p = lower(program(vec![view(vec![stmt(component_call("Text", vec![text("hi")]))])]));
    let render_view = functions(&p).into_iter().find(|f| f.name == "render_view").expect("view");
    assert_eq!(render_view.return_type, Type::Primitive(PrimitiveType::I64));
    let stmts = statements_of(&p, "render_view");
    let last = returned(&stmts[stmts.len() - 1]);
    assert_eq!(callee(call_of(last)), "$Blinc$Text$view");
}

#[test]
fn lower_view_to_value_returning_skips_legacy_text_extern() {
    let p = lower(program(vec![view(vec![stmt(call("text", vec![text("hi")]))])]));
    let render_view = functions(&p).into_iter().find(|f| f.name == "render_view").expect("view");
    assert_eq!(render_view.return_type, Type::Primitive(PrimitiveType::Unit));
    let stmts = statements_of(&p, "render_view");
    assert!(matches!(stmts[stmts.len() - 1].kind, StmtKind::Expression(_)));
}

#[test]
fn a_component_that_ends_in_a_widget_returns_its_handle() {
    let mut p = program(vec![
        component_impl(
            "Card",
            vec![method("view", vec![], vec![stmt(call("$Blinc$Div$view", vec![]))])],
        ),
        view(vec![stmt(call("Card$view", vec![]))]),
    ]);
    let mut symbols = NameSet::new();
    lower_view_to_value_returning(&mut p, &mut symbols);
    assert_eq!(impls(&p)[0].methods[0].return_type, Type::Primitive(PrimitiveType::I64));
    assert_eq!(functions(&p)[0].return_type, Type::Primitive(PrimitiveType::I64));
    assert!(symbols.contains(&"Card$view".to_string()));
    assert!(symbols.contains(&"render_view".to_string()));
}

#[test]
fn slot_bodies_partition_into_named_args() {
    let mut dsl = BlincDsl::new();
    dsl.components.register(widget(
        "SlotProbe",
        "$Blinc$SlotProbe$view",
        vec![handle("children"), handle("slot_Header")],
    ));
    let children = body(vec![
        slot_open("Header"),
        stmt(component_call("Text", vec![text("h")])),
        slot_close(),
        stmt(component_call("Text", vec![text("body")])),
    ]);
    let p = dsl
        .parse_to_typed_ast(program(vec![view(vec![stmt(component_call(
            "SlotProbe",
            vec![children],
        ))])]))
        .expect("parse");
    let expansion = children_of(returned(&statements_of(&p, "render_view")[0]));
    let lists = expansion
        .statements
        .iter()
        .filter(|s| match &s.kind {
            StmtKind::Let { initializer: Some(e), .. } => callee(call_of(e)) == "__new_child_list__",
            _ => false,
        })
        .count();
    assert_eq!(lists, 2);
}

#[test]
fn named_args_on_primitive_call_resolve_to_positional() {
    let p = lower(program(vec![view(vec![stmt(component_call(
        "Text",
        vec![named("content", text("hi"))],
    ))])]));
    let stmts = statements_of(&p, "render_view");
    assert_eq!(stmts.len(), 1);
    let c = call_of(returned(&stmts[0]));
    assert_eq!(callee(c), "$Blinc$Text$view");
    assert!(c.named_args.is_empty());
    assert_eq!(c.positional_args.len(), 1);
    assert_eq!(string_of(&c.positional_args[0]), "hi");
}

#[test]
fn missing_properties_are_filled_and_unknown_ones_kept() {
    let mut registry = ComponentRegistry::new();
    registry.register(widget(
        "W",
        "$Blinc$W$view",
        vec![
            handle("a"),
            PropDef { name: "b".to_string(), ty: Type::Primitive(PrimitiveType::String) },
        ],
    ));
    let mut p = program(vec![view(vec![stmt(expr(ExprKind::Call(Call {
        callee: Box::new(var("$Blinc$W$view")),
        positional_args: vec![],
        named_args: vec![NamedArg {
            name: "a".to_string(),
            value: num(9),
            span: Span { start: 0, end: 0 },
        }],
        type_args: vec![],
    })))])]);
    resolve_extern_widget_named_args(&mut p, &registry);
    let c = call_in(&statements_of(&p, "render_view")[0]);
    assert!(c.named_args.is_empty());
    assert_eq!(c.positional_args.len(), 2);
    assert_eq!(c.positional_args[0].kind, ExprKind::Literal(Literal::Integer(9)));
    assert_eq!(string_of(&c.positional_args[1]), "");
}

#[test]
fn parse_primitive_call_with_body_lowers_to_children_block_expansion() {
    let children = body(vec![
        stmt(component_call("Text", vec![text("a")])),
        stmt(component_call("Text", vec![text("b")])),
    ]);
    let p = lower(program(vec![view(vec![stmt(component_call("Div", vec![children]))])]));
    let stmts = statements_of(&p, "render_view");
    assert_eq!(stmts.len(), 1);
    let expansion = children_of(returned(&stmts[0]));
    assert_eq!(expansion.statements.len(), 4);
    let StmtKind::Let { name: list, initializer: Some(init), .. } = &expansion.statements[0].kind
    else {
        panic!("the first statement should be a let");
    };
    assert!(list.starts_with("__blinc_children_"), "got `{list}`");
    assert_eq!(callee(call_of(init)), "__new_child_list__");
    for s in &expansion.statements[1..3] {
        let push = call_in(s);
        assert_eq!(callee(push), "__push_child__");
        assert_eq!(push.positional_args.len(), 2);
        assert_eq!(push.positional_args[0].kind, ExprKind::Variable(list.clone()));
        assert_eq!(callee(call_of(&push.positional_args[1])), "$Blinc$Text$view");
    }
    let div = call_in(&expansion.statements[3]);
    assert_eq!(callee(div), "$Blinc$Div$view");
    assert_eq!(div.positional_args.len(), 4);
    assert_eq!(div.positional_args[0].kind, ExprKind::Variable(list.clone()));
    assert_eq!(div.positional_args[1].kind, ExprKind::Literal(Literal::Integer(0)));
}

#[test]
fn nested_child_lists_have_names_of_their_own() {
    let inner = body(vec![stmt(component_call("Text", vec![text("a")]))]);
    let outer = body(vec![stmt(component_call("Div", vec![inner]))]);
    let p = lower(program(vec![view(vec![stmt(component_call("Div", vec![outer]))])]));
    let expansion = children_of(returned(&statements_of(&p, "render_view")[0]));
    let StmtKind::Let { name: outer_list, .. } = &expansion.statements[0].kind else {
        panic!("the first statement should be a let");
    };
    let child = &call_in(&expansion.statements[1]).positional_args[1];
    let StmtKind::Let { name: inner_list, .. } = &children_of(child).statements[0].kind else {
        panic!("the first statement should be a let");
    };
    assert_ne!(outer_list, inner_list);
}

#[test]
fn a_children_value_that_is_no_array_is_left_alone() {
    let mut registry = ComponentRegistry::new();
    registry.register(widget("W", "$Blinc$W$view", vec![handle("children")]));
    let mut p = program(vec![view(vec![stmt(expr(ExprKind::Call(Call {
        callee: Box::new(var("$Blinc$W$view")),
        positional_args: vec![],
        named_args: vec![NamedArg {
            name: "children".to_string(),
            value: var("list"),
            span: Span { start: 0, end: 0 },
        }],
        type_args: vec![],
    })))])]);
    lower_children_arrays_to_blocks(&mut p, &registry);
    let c = call_in(&statements_of(&p, "render_view")[0]);
    assert_eq!(c.named_args[0].value.kind, ExprKind::Variable("list".to_string()));
}

#[test]
fn div_with_inline_styling_args_applies_overlay() {
    let half = expr(ExprKind::Literal(Literal::Float((0.5f64).to_bits())));
    let p = lower(program(vec![view(vec![stmt(component_call(
        "Div",
        vec![named("bg", num(16711680)), named("opacity", half)],
    ))])]));
    let expansion = children_of(returned(&statements_of(&p, "render_view")[0]));
    let StmtKind::Let { name: overlay, initializer: Some(init), .. } =
        &expansion.statements[0].kind
    else {
        panic!("the first statement should be a let");
    };
    assert_eq!(callee(call_of(init)), "__new_style_overlay__");
    let bg = call_in(&expansion.statements[1]);
    assert_eq!(callee(bg), "__set_overlay_bg__");
    assert_eq!(bg.positional_args[0].kind, ExprKind::Variable(overlay.clone()));
    assert_eq!(bg.positional_args[1].kind, ExprKind::Literal(Literal::Integer(16711680)));
    let opacity = call_in(&expansion.statements[2]);
    assert_eq!(callee(opacity), "__set_overlay_opacity__");
    assert_eq!(
        opacity.positional_args[1].kind,
        ExprKind::Literal(Literal::Float((0.5f64).to_bits()))
    );
    let div = call_in(&expansion.statements[3]);
    assert_eq!(callee(div), "$Blinc$Div$view");
    assert_eq!(div.positional_args.len(), 4);
    assert_eq!(div.positional_args[1].kind, ExprKind::Variable(overlay.clone()));
}

#[test]
fn a_widget_without_styling_takes_the_null_overlay() {
    let mut registry = ComponentRegistry::new();
    registry.register(widget("W", "$Blinc$W$view", vec![handle("__style")]));
    let mut p = program(vec![view(vec![stmt(call("$Blinc$W$view", vec![]))])]);
    lower_styling_args_to_overlays(&mut p, &registry);
    let c = call_in(&statements_of(&p, "render_view")[0]);
    assert_eq!(c.named_args.len(), 1);
    assert_eq!(c.named_args[0].name, "__style");
    assert_eq!(c.named_args[0].value.kind, ExprKind::Literal(Literal::Integer(0)));
}

#[test]
fn struct_constructors_become_literals() {
    let mut p = point_source(vec![named("y", num(2)), named("x", num(1))]);
    assert_eq!(lower_struct_literals(&mut p), Ok(()));
    let StmtKind::Let { initializer: Some(init), .. } = &statements_of(&p, "render_view")[0].kind
    else {
        panic!("expected a let");
    };
    let ExprKind::Struct { name, fields } = &init.kind else {
        panic!("expected a struct literal, got {:?}", init.kind);
    };
    assert_eq!(name, "Point");
    let names: Vec<&str> = fields.iter().map(|f| f.name.as_str()).collect();
    assert_eq!(names, vec!["x", "y"], "fields come in the order of the struct");
    assert_eq!(fields[0].value.kind, ExprKind::Literal(Literal::Integer(1)));
}

#[test]
fn struct_constructor_faults_are_all_named() {
    let errors = |args: Vec<Expr>| -> Vec<String> {
        lower_struct_literals(&mut point_source(args)).expect_err("faulty constructor")
    };
    let missing = errors(vec![named("x", num(1))]);
    assert_eq!(missing.len(), 1);
    assert!(missing[0].contains("`Point`") && missing[0].contains("`y`"), "{missing:?}");
    let unknown = errors(vec![named("x", num(1)), named("y", num(2)), named("z", num(3))]);
    assert_eq!(unknown.len(), 1);
    assert!(unknown[0].contains("`z`"), "{unknown:?}");
    let twice = errors(vec![named("x", num(1)), named("x", num(2)), named("y", num(3))]);
    assert_eq!(twice.len(), 1);
    assert!(twice[0].contains("`x`"), "{twice:?}");
    let unnamed = errors(vec![num(1), named("x", num(1)), named("y", num(3))]);
    assert_eq!(unnamed.len(), 1);
    let bodied = errors(vec![named("x", num(1)), named("y", num(3)), body(vec![])]);
    assert_eq!(bodied.len(), 1);
}

#[test]
fn every_body_ends_in_a_return() {
    let mut p = program(vec![
        function("empty", vec![]),
        view(vec![stmt(call("text", vec![text("hi")]))]),
        component_impl("C", vec![method("m", vec![], vec![let_stmt("a", num(1))])]),
    ]);
    ensure_unit_return(&mut p);
    for f in functions(&p) {
        let stmts = &f.body.as_ref().expect("body").statements;
        assert_eq!(stmts[stmts.len() - 1].kind, StmtKind::Return(None), "{}", f.name);
    }
    let stmts = &impls(&p)[0].methods[0].body.as_ref().expect("body").statements;
    assert_eq!(stmts[stmts.len() - 1].kind, StmtKind::Return(None));
}

#[test]
fn widgets_in_lambdas_and_loops_are_lowered() {
    let p = lower(program(vec![function(
        "f",
        vec![
            Stmt {
                kind: StmtKind::While {
                    condition: var("go"),
                    body: block(vec![stmt(component_call("Div", vec![]))]),
                    span: Span { start: 0, end: 0 },
                },
                ty: Type::Unknown,
                span: Span { start: 0, end: 0 },
            },
            stmt(lambda(vec![stmt(component_call("Div", vec![]))])),
        ],
    )]));
    let stmts = statements_of(&p, "f");
    let StmtKind::While { body, .. } = &stmts[0].kind else {
        panic!("no loop");
    };
    let StmtKind::Expression(e) = &stmts[1].kind else {
        panic!("no expression");
    };
    let ExprKind::Lambda { body: LambdaBody::Block(inner), .. } = &e.kind else {
        panic!("no lambda");
    };
    for s in [&body.statements[0], &inner.statements[0]] {
        let c = call_in(s);
        assert_eq!(callee(c), "$Blinc$Div$view");
        assert_eq!(c.positional_args.len(), 4);
        assert!(c.named_args.is_empty());
    }
}

#[test]
fn lists_and_overlays_have_names_of_their_own() {
    let styled = |inner: Vec<Stmt>| {
        let mut args = vec![named("bg", num(1))];
        if !inner.is_empty() {
            args.push(body(inner));
        }
        component_call("Div", args)
    };
    let p = lower(program(vec![
        view(vec![stmt(styled(vec![
            stmt(styled(vec![stmt(component_call("Text", vec![text("a")]))])),
            stmt(styled(vec![stmt(component_call("Text", vec![text("b")]))])),
        ]))]),
        function("g", vec![stmt(styled(vec![stmt(component_call("Text", vec![text("c")]))]))]),
    ]));
    let mut names: Vec<String> = vec![];
    for f in functions(&p) {
        if let Some(b) = &f.body {
            for s in &b.statements {
                bound_in_stmt(s, &mut names);
            }
        }
    }
    let lists = names.iter().filter(|n| n.starts_with("__blinc_children_")).count();
    let overlays = names.iter().filter(|n| n.starts_with("__blinc_style_")).count();
    assert_eq!((lists, overlays), (4, 4));
    let total = names.len();
    names.sort();
    names.dedup();
    assert_eq!(names.len(), total);
}

fn bound_in_stmt(s: &Stmt, names: &mut Vec<String>) {
    match &s.kind {
        StmtKind::Let { name, initializer, .. } => {
            names.push(name.clone());
            if let Some(e) = initializer {
                bound_in(e, names);
            }
        }
        StmtKind::Expression(e) | StmtKind::Return(Some(e)) => bound_in(e, names),
        _ => {}
    }
}

fn bound_in(e: &Expr, names: &mut Vec<String>) {
    match &e.kind {
        ExprKind::Call(c) => {
            for a in &c.positional_args {
                bound_in(a, names);
            }
            for a in &c.named_args {
                bound_in(&a.value, names);
            }
        }
        ExprKind::Block(b) => {
            for s in &b.statements {
                bound_in_stmt(s, names);
            }
        }
        _ => {}
    }
}
