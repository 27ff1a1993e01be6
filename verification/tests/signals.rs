//! Signals, calls on machines, and match statements.

use blinc_dsl_core::ast::{
    BinaryOp, Block, Call, Class, Decl, DeclKind, EnumDecl, Expr, ExprKind, Function, ImplBlock,
    LambdaBody, Literal, Method, NamedArg, Param, PrimitiveType, Program, Span, Stmt, StmtKind,
    Type, Variant, VariantFields, Visibility,
};
use blinc_dsl_core::decls::collect_declared;
use blinc_dsl_core::engine::BlincDsl;
use blinc_dsl_core::fsm_calls::{resolve_fsm_subscribe_calls, resolve_fsm_trigger_calls};
use blinc_dsl_core::match_blocks::lower_match_blocks;
use blinc_dsl_core::signals::resolve_signal_calls;

fn expr(kind: ExprKind) -> Expr {
    Expr { kind, ty: Type::Unknown, span: Span { start: 0, end: 0 } }
}

fn var(name: &str) -> Expr {
    expr(ExprKind::Variable(name.to_string()))
}

fn text(value: &str) -> Expr {
    expr(ExprKind::Literal(Literal::String(value.to_string())))
}

fn num(value: i128) -> Expr {
    expr(ExprKind::Literal(Literal::Integer(value)))
}

fn call(callee: &str, args: Vec<Expr>) -> Expr {
    expr(ExprKind::Call(Call {
        callee: Box::new(var(callee)),
        positional_args: args,
        named_args: vec![],
        type_args: vec![],
    }))
}

fn method_call(receiver: &str, method: &str, args: Vec<Expr>) -> Expr {
    expr(ExprKind::MethodCall {
        receiver: Box::new(var(receiver)),
        method: method.to_string(),
        positional_args: args,
        named_args: vec![],
        type_args: vec![],
    })
}

fn binary(op: BinaryOp, left: Expr, right: Expr) -> Expr {
    expr(ExprKind::Binary { op, left: Box::new(left), right: Box::new(right) })
}

fn stmt(e: Expr) -> Stmt {
    Stmt { kind: StmtKind::Expression(e), ty: Type::Unknown, span: Span { start: 0, end: 0 } }
}

fn let_stmt(name: &str, value: Expr) -> Stmt {
    Stmt {
        kind: StmtKind::Let {
            name: name.to_string(),
            ty: Type::Unknown,
            mutable: false,
            initializer: Some(value),
            span: Span { start: 0, end: 0 },
        },
        ty: Type::Unknown,
        span: Span { start: 0, end: 0 },
    }
}

fn block(statements: Vec<Stmt>) -> Block {
    Block { statements, span: Span { start: 0, end: 0 } }
}

fn decl(kind: DeclKind) -> Decl {
    Decl { kind, ty: Type::Unknown, span: Span { start: 0, end: 0 } }
}

fn function(name: &str, statements: Vec<Stmt>) -> Decl {
    decl(DeclKind::Function(Function {
        name: name.to_string(),
        params: vec![],
        return_type: Type::Primitive(PrimitiveType::Unit),
        body: Some(block(statements)),
        visibility: Visibility::Default,
        is_external: false,
        link_name: None,
        details: 0,
    }))
}

fn signal(name: &str, ty: PrimitiveType) -> Decl {
    decl(DeclKind::Function(Function {
        name: name.to_string(),
        params: vec![],
        return_type: Type::Primitive(ty),
        body: None,
        visibility: Visibility::Default,
        is_external: true,
        link_name: None,
        details: 0,
    }))
}

fn method(name: &str, params: Vec<Param>, statements: Vec<Stmt>) -> Method {
    Method {
        name: name.to_string(),
        params,
        return_type: Type::Primitive(PrimitiveType::Unit),
        body: Some(block(statements)),
        details: 0,
    }
}

fn class(name: &str) -> Decl {
    decl(DeclKind::Class(Class { name: name.to_string(), fields: vec![], details: 0 }))
}

fn component_impl(name: &str, methods: Vec<Method>) -> Decl {
    decl(DeclKind::Impl(ImplBlock {
        trait_name: String::new(),
        for_type: Type::Unresolved(name.to_string()),
        methods,
        details: 0,
    }))
}

fn program(declarations: Vec<Decl>) -> Program {
    Program { declarations, type_registry: vec![] }
}

/// An `fsm` declaration: the enum of its states and the impl block that
/// describes it.
fn fsm(name: &str, states: Vec<&str>, markers: Vec<Stmt>) -> Vec<Decl> {
    let variants = states
        .into_iter()
        .map(|s| Variant {
            name: s.to_string(),
            fields: VariantFields::Unit,
            discriminant: None,
            span: Span { start: 0, end: 0 },
        })
        .collect();
    vec![
        decl(DeclKind::Enum(EnumDecl {
            name: name.to_string(),
            variants,
            visibility: Visibility::Default,
            span: Span { start: 0, end: 0 },
            details: 0,
        })),
        decl(DeclKind::Impl(ImplBlock {
            trait_name: name.to_string(),
            for_type: Type::Unresolved(name.to_string()),
            methods: vec![method("__fsm_meta__", vec![], markers)],
            details: 0,
        })),
    ]
}

fn initial(state: &str) -> Stmt {
    stmt(call("__fsm_initial__", vec![text(state)]))
}

fn tick(from: &str, to: &str, guard: Expr) -> Stmt {
    stmt(call("__fsm_tick__", vec![text(from), guard, text(to)]))
}

fn functions(p: &Program) -> Vec<&Function> {
    p.declarations
        .iter()
        .filter_map(|d| match &d.kind {
            DeclKind::Function(f) => Some(f),
            _ => None,
        })
        .collect()
}

fn impls(p: &Program) -> Vec<&ImplBlock> {
    p.declarations
        .iter()
        .filter_map(|d| match &d.kind {
            DeclKind::Impl(i) => Some(i),
            _ => None,
        })
        .collect()
}

fn statements_of<'a>(p: &'a Program, name: &str) -> &'a Vec<Stmt> {
    for f in functions(p) {
        if f.name == name {
            if let Some(b) = &f.body {
                return &b.statements;
            }
        }
    }
    panic!("no function `{name}` with a body");
}

/// The call that a statement makes, through a `return` or a block at its end.
fn call_in(s: &Stmt) -> &Call {
    match &s.kind {
        StmtKind::Expression(e) | StmtKind::Return(Some(e)) => call_of(e),
        other => panic!("no call: {other:?}"),
    }
}

fn call_of(e: &Expr) -> &Call {
    match &e.kind {
        ExprKind::Call(c) => c,
        ExprKind::Block(b) => call_in(&b.statements[b.statements.len() - 1]),
        other => panic!("no call: {other:?}"),
    }
}

fn callee(c: &Call) -> &str {
    match &c.callee.kind {
        ExprKind::Variable(v) => v,
        other => panic!("callee is no name: {other:?}"),
    }
}

fn string_of(e: &Expr) -> &str {
    match &e.kind {
        ExprKind::Literal(Literal::String(s)) => s,
        other => panic!("no string: {other:?}"),
    }
}

fn lower(p: Program) -> Program {
    BlincDsl::new().parse_to_typed_ast(p).expect("parse")
}

fn tick_guard<'a>(p: &'a Program, name: &str) -> &'a Expr {
    for i in impls(p) {
        if i.trait_name == name {
            let b = i.methods[0].body.as_ref().expect("description");
            for s in &b.statements {
                let c = call_in(s);
                if callee(c) == "__fsm_tick__" {
                    return &c.positional_args[1];
                }
            }
        }
    }
    panic!("no tick of `{name}`");
}

fn step_method(name: &str) -> Decl {
    component_impl(
        "C",
        vec![
            method("view", vec![], vec![]),
            method("step", vec![], vec![let_stmt("s", method_call(name, "get", vec![]))]),
        ],
    )
}

fn let_value(p: &Program, index: usize) -> &Expr {
    let step = impls(p)[index].methods.iter().find(|m| m.name == "step").expect("step");
    match &step.body.as_ref().expect("body").statements[0].kind {
        StmtKind::Let { initializer: Some(e), .. } => e,
        other => panic!("no let: {other:?}"),
    }
}

fn arm(pattern: &str, statements: Vec<Stmt>) -> Stmt {
    let mut all = vec![stmt(call("__match_arm__", vec![text(pattern)]))];
    all.extend(statements);
    Stmt { kind: StmtKind::Block(block(all)), ty: Type::Unknown, span: Span { start: 0, end: 0 } }
}

#[test]
fn signal_get_rewrites_to_typed_extern_i32() {
    let guard = binary(BinaryOp::Gt, method_call("count", "get", vec![]), num(100));
    let mut decls = vec![signal("count", PrimitiveType::I32)];
    decls.append(&mut fsm(
        "SignalProbeI32",
        vec!["Idle", "Hot"],
        vec![initial("Idle"), tick("Idle", "Hot", guard)],
    ));
    let p = lower(program(decls));
    assert!(!functions(&p).iter().any(|f| f.name == "count"));
    let ExprKind::Binary { left, .. } = &tick_guard(&p, "SignalProbeI32").kind else {
        panic!("guard should be Binary");
    };
    let c = call_of(left);
    assert_eq!(callee(c), "__signal_get_i32");
    assert_eq!(c.positional_args.len(), 1);
    assert_eq!(string_of(&c.positional_args[0]), "count");
}

#[test]
fn signal_get_rewrites_to_typed_extern_string() {
    let p = lower(program(vec![
        signal("username", PrimitiveType::String),
        class("C"),
        step_method("username"),
    ]));
    assert_eq!(callee(call_of(let_value(&p, 0))), "__signal_get_string");
}

#[test]
fn signal_get_rewrites_to_typed_extern_f64() {
    let one = expr(ExprKind::Literal(Literal::Float((1.0f64).to_bits())));
    let guard = binary(BinaryOp::Ge, method_call("progress", "get", vec![]), one);
    let mut decls = vec![signal("progress", PrimitiveType::F64)];
    decls.append(&mut fsm(
        "SignalProbeF64",
        vec!["Loading", "Done"],
        vec![initial("Loading"), tick("Loading", "Done", guard)],
    ));
    let p = lower(program(decls));
    let ExprKind::Binary { op, left, right } = &tick_guard(&p, "SignalProbeF64").kind else {
        panic!("guard should be Binary");
    };
    assert_eq!(*op, BinaryOp::Ge);
    assert_eq!(callee(call_of(left)), "__signal_get_f64");
    let ExprKind::Literal(Literal::Float(bits)) = &right.kind else {
        panic!("RHS should be a float");
    };
    assert!((f64::from_bits(*bits) - 1.0f64).abs() < f64::EPSILON);
}

#[test]
fn multiple_signals_rewrite_independently() {
    let guard = binary(BinaryOp::Gt, method_call("count", "get", vec![]), num(0));
    let mut decls =
        vec![signal("count", PrimitiveType::I32), signal("label", PrimitiveType::String)];
    decls.append(&mut fsm(
        "MultiSignalProbe",
        vec!["Idle", "Hot"],
        vec![initial("Idle"), tick("Idle", "Hot", guard)],
    ));
    decls.push(class("C"));
    decls.push(step_method("label"));
    let p = lower(program(decls));
    assert!(!functions(&p).iter().any(|f| f.name == "count" || f.name == "label"));
    let ExprKind::Binary { left, .. } = &tick_guard(&p, "MultiSignalProbe").kind else {
        panic!("guard should be Binary");
    };
    assert_eq!(callee(call_of(left)), "__signal_get_i32");
    assert_eq!(callee(call_of(let_value(&p, 1))), "__signal_get_string");
}

#[test]
fn writing_a_signal_calls_its_setter() {
    let mut p = program(vec![
        signal("count", PrimitiveType::I32),
        function(
            "f",
            vec![
                stmt(method_call("count", "set", vec![num(3)])),
                stmt(binary(BinaryOp::Assign, var("count"), num(4))),
                stmt(binary(BinaryOp::Assign, var("other"), num(5))),
            ],
        ),
    ]);
    resolve_signal_calls(&mut p);
    let stmts = statements_of(&p, "f");
    for (s, n) in stmts[0..2].iter().zip([3, 4]) {
        let c = call_in(s);
        assert_eq!(callee(c), "__signal_set_i32");
        assert_eq!(string_of(&c.positional_args[0]), "count");
        assert_eq!(c.positional_args[1].kind, ExprKind::Literal(Literal::Integer(n)));
    }
    assert!(matches!(&stmts[2].kind, StmtKind::Expression(e) if matches!(e.kind, ExprKind::Binary { .. })));
}

#[test]
fn resolving_signals_again_changes_nothing() {
    let source = || {
        program(vec![
            signal("count", PrimitiveType::I32),
            function("f", vec![stmt(method_call("count", "get", vec![]))]),
        ])
    };
    let mut once = source();
    resolve_signal_calls(&mut once);
    let mut twice = source();
    resolve_signal_calls(&mut twice);
    resolve_signal_calls(&mut twice);
    assert_eq!(once, twice);
}

#[test]
fn calls_on_machines_go_to_the_host() {
    let mut decls = fsm("Toggle", vec!["On", "Off"], vec![initial("Off")]);
    decls.push(function(
        "f",
        vec![
            stmt(method_call("Toggle", "trigger", vec![text("Click")])),
            stmt(method_call("Toggle", "subscribe", vec![text("On"), var("cb")])),
            stmt(method_call("Other", "trigger", vec![text("Click")])),
        ],
    ));
    let mut p = program(decls);
    resolve_fsm_trigger_calls(&mut p);
    resolve_fsm_subscribe_calls(&mut p);
    let stmts = statements_of(&p, "f");
    let trigger = call_in(&stmts[0]);
    assert_eq!(callee(trigger), "__fsm_runtime_trigger__");
    assert_eq!(string_of(&trigger.positional_args[0]), "Toggle");
    assert_eq!(string_of(&trigger.positional_args[1]), "Click");
    let subscribe = call_in(&stmts[1]);
    assert_eq!(callee(subscribe), "__fsm_subscribe__");
    assert_eq!(subscribe.positional_args.len(), 3);
    assert!(
        matches!(&stmts[2].kind, StmtKind::Expression(e) if matches!(e.kind, ExprKind::MethodCall { .. }))
    );
}

#[test]
fn declarations_are_collected_in_order() {
    let mut decls = vec![signal("a", PrimitiveType::I32), signal("b", PrimitiveType::String)];
    decls.append(&mut fsm("Toggle", vec!["On", "Off"], vec![initial("Off")]));
    let (signals, fsms) = collect_declared(&program(decls));
    assert_eq!(signals.len(), 2);
    assert_eq!(signals[0], ("a".to_string(), Type::Primitive(PrimitiveType::I32)));
    assert_eq!(signals[1].0, "b");
    assert_eq!(fsms, vec!["Toggle"]);
}

#[test]
fn match_becomes_a_chain_of_ifs() {
    let mut p = program(vec![function(
        "f",
        vec![
            stmt(call("__match_begin__", vec![var("state")])),
            arm("On", vec![stmt(call("text", vec![text("on")]))]),
            arm("__wildcard__", vec![stmt(call("text", vec![text("any")]))]),
            arm("Off", vec![stmt(call("text", vec![text("off")]))]),
            stmt(call("__match_end__", vec![])),
            stmt(call("text", vec![text("after")])),
        ],
    )]);
    lower_match_blocks(&mut p);
    let stmts = statements_of(&p, "f");
    assert_eq!(stmts.len(), 2);
    let StmtKind::If { condition, then_block, else_block: Some(next), .. } = &stmts[0].kind else {
        panic!("expected an if, got {:?}", stmts[0].kind);
    };
    let ExprKind::Binary { op: BinaryOp::Eq, left, right } = &condition.kind else {
        panic!("expected a comparison");
    };
    assert_eq!(left.kind, ExprKind::Variable("state".to_string()));
    assert_eq!(string_of(right), "On");
    assert_eq!(string_of(&call_in(&then_block.statements[0]).positional_args[0]), "on");
    let StmtKind::If { condition, else_block: Some(last), .. } = &next.statements[0].kind else {
        panic!("expected a second if");
    };
    let ExprKind::Binary { right, .. } = &condition.kind else {
        panic!("expected a comparison");
    };
    assert_eq!(string_of(right), "Off");
    assert_eq!(string_of(&call_in(&last.statements[0]).positional_args[0]), "any");
    assert_eq!(string_of(&call_in(&stmts[1]).positional_args[0]), "after");
}

#[test]
fn a_match_without_an_end_is_left_alone() {
    let source = || {
        program(vec![function(
            "f",
            vec![stmt(call("__match_begin__", vec![var("state")])), arm("On", vec![])],
        )])
    };
    let mut p = source();
    lower_match_blocks(&mut p);
    assert_eq!(p, source());
}

#[test]
fn a_match_that_becomes_nothing_does_not_hide_the_next() {
    let begin = || stmt(call("__match_begin__", vec![var("state")]));
    let end = || stmt(call("__match_end__", vec![]));
    let mut p = program(vec![function(
        "f",
        vec![
            begin(),
            end(),
            begin(),
            arm("__wildcard__", vec![]),
            end(),
            begin(),
            arm("On", vec![stmt(call("text", vec![text("on")]))]),
            end(),
            stmt(call("text", vec![text("after")])),
        ],
    )]);
    lower_match_blocks(&mut p);
    let stmts = statements_of(&p, "f");
    assert_eq!(stmts.len(), 2);
    let StmtKind::If { then_block, else_block: None, .. } = &stmts[0].kind else {
        panic!("expected an if, got {:?}", stmts[0].kind);
    };
    assert_eq!(string_of(&call_in(&then_block.statements[0]).positional_args[0]), "on");
    assert_eq!(string_of(&call_in(&stmts[1]).positional_args[0]), "after");
}

fn lambda(statements: Vec<Stmt>) -> Expr {
    expr(ExprKind::Lambda { params: 0, body: LambdaBody::Block(block(statements)) })
}

#[test]
fn a_match_in_a_subscriber_is_lowered() {
    let subscriber = lambda(vec![
        stmt(call("__match_begin__", vec![var("state")])),
        arm("On", vec![stmt(call("text", vec![text("on")]))]),
        stmt(call("__match_end__", vec![])),
    ]);
    let mut p = program(vec![function(
        "f",
        vec![stmt(method_call("Toggle", "subscribe", vec![text("Off.Click"), subscriber]))],
    )]);
    lower_match_blocks(&mut p);
    let stmts = statements_of(&p, "f");
    let StmtKind::Expression(e) = &stmts[0].kind else {
        panic!("no expression");
    };
    let ExprKind::MethodCall { positional_args, .. } = &e.kind else {
        panic!("no method call");
    };
    let ExprKind::Lambda { body: LambdaBody::Block(b), .. } = &positional_args[1].kind else {
        panic!("no lambda");
    };
    assert_eq!(b.statements.len(), 1);
    assert!(matches!(b.statements[0].kind, StmtKind::If { .. }));
}

#[test]
fn a_signal_is_resolved_in_a_named_argument() {
    let read = expr(ExprKind::Call(Call {
        callee: Box::new(var("show")),
        positional_args: vec![],
        named_args: vec![NamedArg {
            name: "value".to_string(),
            value: method_call("count", "get", vec![]),
            span: Span { start: 0, end: 0 },
        }],
        type_args: vec![],
    }));
    let mut p =
        program(vec![signal("count", PrimitiveType::I32), function("f", vec![stmt(read)])]);
    resolve_signal_calls(&mut p);
    let shown = call_in(&statements_of(&p, "f")[0]);
    let getter = call_of(&shown.named_args[0].value);
    assert_eq!(callee(getter), "__signal_get_i32");
    assert_eq!(string_of(&getter.positional_args[0]), "count");
}
