//! Declarations that go with a state machine.

use vstd::prelude::*;

use crate::ast::{
    exprs_view, no_span, stmts_view, views, Block, Decl, DeclKind, EnumDecl, Expr, ImplBlock,
    Interface, Method, PrimitiveType, Program, Span, Stmt, Type, Variant, VariantFields, Visibility,
};
use crate::decls::{collect_fsms, declared_fsms, find_method, get_method, map_decls, DeclPass};
use crate::model::{
    BlockV, DeclKindV, DeclV, EnumDeclV, ExprV, ImplBlockV, InterfaceV, MethodV, ProgramV, StmtV,
    TypeV, VariantFieldsV, VariantV,
};
use crate::shape::{
    call_of, callee_name, calls, expr_stmt, get_stmt_call, get_string_arg, is_stmt_call_of,
    new_call, new_expr_stmt, new_string, new_variable, one, prim, stmt_call, stmt_calls, string_arg,
    string_expr, variable_expr,
};
use crate::text::{concat, contains_name, distinct, names_view, opt_text, same};

verus! {

// ---------------------------------------------------------------------------
// Context markers
// ---------------------------------------------------------------------------

/// A marker call that stands nowhere in the source.
pub open spec fn marker_stmt(callee: Seq<char>, args: Seq<ExprV>) -> StmtV {
    expr_stmt(
        ExprV {
            kind: call_of(variable_expr(callee, TypeV::Unknown, no_span()), args),
            ty: prim(PrimitiveType::Unit),
            span: no_span(),
        },
        prim(PrimitiveType::Unit),
        no_span(),
    )
}

/// Whether a body starts with the begin marker of a state machine.
pub open spec fn is_wrapped(s: Seq<StmtV>) -> bool {
    s.len() > 0 && is_stmt_call_of(s[0], "__fsm_begin__"@)
}

/// The statements of a body between the markers of the machine `name`.
pub open spec fn wrapped(name: Seq<char>, s: Seq<StmtV>) -> Seq<StmtV> {
    if is_wrapped(s) {
        s
    } else {
        seq![marker_stmt("__fsm_begin__"@, seq![string_expr(name, no_span())])] + s + seq![
            marker_stmt("__fsm_end__"@, seq![]),
        ]
    }
}

pub open spec fn method_wrapped(name: Seq<char>, m: MethodV) -> MethodV {
    match m.body {
        Some(b) => if m.name == "__fsm_meta__"@ {
            MethodV {
                body: Some(BlockV { statements: wrapped(name, b.statements), ..b }),
                ..m
            }
        } else {
            m
        },
        None => m,
    }
}

pub open spec fn decl_wrapped(d: DeclV) -> DeclV {
    match d.kind {
        DeclKindV::Impl(i) => DeclV {
            kind: DeclKindV::Impl(
                ImplBlockV {
                    methods: Seq::new(
                        i.methods.len(),
                        |k: int| method_wrapped(i.trait_name, i.methods[k]),
                    ),
                    ..i
                },
            ),
            ..d
        },
        _ => d,
    }
}

/// A program whose machine descriptions say which machine they describe.
pub open spec fn markers_injected(p: ProgramV) -> ProgramV {
    ProgramV {
        declarations: Seq::new(p.declarations.len(), |i: int| decl_wrapped(p.declarations[i])),
        ..p
    }
}

fn new_marker(callee: &str, args: Vec<Expr>) -> (s: Stmt)
    ensures
        s@ == marker_stmt(callee@, exprs_view(args@)),
{
    let f = new_variable(callee.to_owned(), Type::Unknown, Span::default());
    let e = Expr {
        kind: new_call(f, args),
        ty: Type::Primitive(PrimitiveType::Unit),
        span: Span::default(),
    };
    new_expr_stmt(e, Type::Primitive(PrimitiveType::Unit), Span::default())
}

fn wrap_method(fsm: &String, m: Method) -> (out: Method)
    ensures
        out@ == method_wrapped(fsm@, m@),
{
    if !same(&m.name, "__fsm_meta__") {
        return m;
    }
    let Method { name, params, return_type, body, details } = m;
    match body {
        Some(b) => {
            let ghost b0 = b@;
            assert(m@.body == Some(b0));
            if b.statements.len() > 0 {
                assert(b0.statements[0] == b.statements@[0]@);
            }
            if b.statements.len() > 0 && stmt_calls(&b.statements[0], "__fsm_begin__") {
                Method { name, params, return_type, body: Some(b), details }
            } else {
                let begin = new_marker(
                    "__fsm_begin__",
                    one(new_string(fsm.clone(), Span::default())),
                );
                let none: Vec<Expr> = Vec::new();
                assert(exprs_view(none@) =~= Seq::<ExprV>::empty());
                let end = new_marker("__fsm_end__", none);
                let Block { statements, span } = b;
                let mut statements = statements;
                statements.insert(0, begin);
                statements.push(end);
                assert(stmts_view(statements@) =~= wrapped(fsm@, b0.statements));
                Method {
                    name,
                    params,
                    return_type,
                    body: Some(Block { statements, span }),
                    details,
                }
            }
        },
        None => Method { name, params, return_type, body: None, details },
    }
}

struct ContextMarkers {}

impl DeclPass for ContextMarkers {
    closed spec fn result(&self, d: DeclV) -> DeclV {
        decl_wrapped(d)
    }

    fn apply(&self, d: Decl) -> (out: Decl) {
        let Decl { kind, ty, span } = d;
        match kind {
            DeclKind::Impl(i) => {
                let ghost i0 = i@;
                let ImplBlock { trait_name, for_type, methods, details } = i;
                let ghost methods0 = methods@;
                let mut out: Vec<Method> = Vec::new();
                for m in it: methods
                    invariant
                        it.seq() == methods0,
                        out@.len() == it.index(),
                        forall|k: int|
                            0 <= k < out@.len() ==> (#[trigger] out@[k])@ == method_wrapped(
                                trait_name@,
                                methods0[k]@,
                            ),
                {
                    assert(m == methods0[it.index() as int]);
                    out.push(wrap_method(&trait_name, m));
                }
                let r = ImplBlock { trait_name, for_type, methods: out, details };
                assert(r@.methods =~= Seq::new(
                    i0.methods.len(),
                    |k: int| method_wrapped(i0.trait_name, i0.methods[k]),
                ));
                Decl { kind: DeclKind::Impl(r), ty, span }
            },
            other => Decl { kind: other, ty, span },
        }
    }
}

/// Put each machine description between `__fsm_begin__("Name")` and
/// `__fsm_end__()`, so that the markers inside know their machine.
pub fn inject_fsm_context_markers(program: &mut Program)
    ensures
        final(program)@ == markers_injected(old(program)@),
{
    let mut declarations: Vec<Decl> = Vec::new();
    std::mem::swap(&mut program.declarations, &mut declarations);
    program.declarations = map_decls(&ContextMarkers {  }, declarations);
    assert(program@.declarations =~= markers_injected(old(program)@).declarations);
}

/// Injecting the markers twice does what injecting them once does.
pub proof fn injecting_markers_twice(p: ProgramV)
    ensures
        markers_injected(markers_injected(p)) == markers_injected(p),
{
    let once = markers_injected(p);
    let twice = markers_injected(once);
    assert forall|k: int| 0 <= k < p.declarations.len() implies twice.declarations[k]
        == #[trigger] once.declarations[k] by {
        let d = once.declarations[k];
        match d.kind {
            DeclKindV::Impl(i) => {
                let again = Seq::new(
                    i.methods.len(),
                    |j: int| method_wrapped(i.trait_name, i.methods[j]),
                );
                assert(again =~= i.methods);
            },
            _ => {},
        }
    }
    assert(twice.declarations =~= once.declarations);
}

// ---------------------------------------------------------------------------
// Event enums
// ---------------------------------------------------------------------------

/// The body of the description of the machine of an impl block.
pub open spec fn meta_body(i: ImplBlockV) -> Option<BlockV> {
    match find_method(i.methods, "__fsm_meta__"@) {
        Some(m) => m.body,
        None => None,
    }
}

/// The event that a transition marker names.
pub open spec fn transition_event(s: StmtV) -> Option<Seq<char>> {
    match stmt_call(s) {
        Some(c) => if callee_name(c) == Some("__fsm_transition__"@) {
            match string_arg(c, 1) {
                Some(name) => if name.len() > 0 {
                    Some(name)
                } else {
                    None
                },
                None => None,
            }
        } else {
            None
        },
        None => None,
    }
}

/// The events of a description, in the order in which they first come up.
pub open spec fn events_of(s: Seq<StmtV>) -> Seq<Seq<char>>
    decreases s.len(),
{
    if s.len() == 0 {
        seq![]
    } else {
        let front = events_of(s.drop_last());
        match transition_event(s.last()) {
            Some(name) => if front.contains(name) {
                front
            } else {
                front.push(name)
            },
            None => front,
        }
    }
}

/// The enum of the events of the machine `fsm`.
pub open spec fn event_enum(fsm: Seq<char>, events: Seq<Seq<char>>) -> DeclV {
    DeclV {
        kind: DeclKindV::Enum(
            EnumDeclV {
                name: fsm + "Event"@,
                variants: Seq::new(
                    events.len(),
                    |i: int|
                        VariantV {
                            name: events[i],
                            fields: VariantFieldsV::Unit,
                            discriminant: None,
                            span: no_span(),
                        },
                ),
                visibility: Visibility::Public,
                span: no_span(),
                details: 0,
            },
        ),
        ty: TypeV::Unknown,
        span: no_span(),
    }
}

/// The event enums of a list of declarations, one for every machine that has
/// events.
pub open spec fn event_enums(s: Seq<DeclV>) -> Seq<DeclV>
    decreases s.len(),
{
    if s.len() == 0 {
        seq![]
    } else {
        let front = event_enums(s.drop_last());
        match s.last().kind {
            DeclKindV::Impl(i) => match meta_body(i) {
                Some(b) => if events_of(b.statements).len() > 0 {
                    front.push(event_enum(i.trait_name, events_of(b.statements)))
                } else {
                    front
                },
                None => front,
            },
            _ => front,
        }
    }
}

/// A program with the event enums of its machines at the end.
pub open spec fn with_event_enums(p: ProgramV) -> ProgramV {
    ProgramV { declarations: p.declarations + event_enums(p.declarations), ..p }
}

fn get_transition_event(s: &Stmt) -> (r: Option<String>)
    ensures
        opt_text(r) == transition_event(s@),
{
    match get_stmt_call(s) {
        Some(c) => {
            if calls(c, "__fsm_transition__") {
                match get_string_arg(c, 1) {
                    Some(name) => {
                        if name.as_str().unicode_len() > 0 {
                            Some(name.clone())
                        } else {
                            None
                        }
                    },
                    None => None,
                }
            } else {
                None
            }
        },
        None => None,
    }
}

fn collect_events(statements: &Vec<Stmt>) -> (r: Vec<String>)
    ensures
        names_view(r@) == events_of(stmts_view(statements@)),
{
    let ghost all = stmts_view(statements@);
    let mut r: Vec<String> = Vec::new();
    assert(names_view(r@) =~= events_of(all.take(0)));
    for i in 0..statements.len()
        invariant
            all == stmts_view(statements@),
            names_view(r@) == events_of(all.take(i as int)),
    {
        proof {
            assert(all.take(i + 1).drop_last() =~= all.take(i as int));
            assert(all[i as int] == statements@[i as int]@);
        }
        match get_transition_event(&statements[i]) {
            Some(name) => {
                if !contains_name(&r, &name) {
                    assert(names_view(r@.push(name)) =~= names_view(r@).push(name@));
                    r.push(name);
                }
            },
            None => {},
        }
    }
    assert(all.take(all.len() as int) =~= all);
    r
}

fn new_event_enum(fsm: &String, events: &Vec<String>) -> (d: Decl)
    ensures
        d@ == event_enum(fsm@, names_view(events@)),
{
    let ghost names = names_view(events@);
    let mut variants: Vec<Variant> = Vec::new();
    for i in 0..events.len()
        invariant
            names == names_view(events@),
            variants@.len() == i,
            forall|k: int|
                0 <= k < i ==> (#[trigger] variants@[k])@ == (VariantV {
                    name: names[k],
                    fields: VariantFieldsV::Unit,
                    discriminant: None,
                    span: no_span(),
                }),
    {
        variants.push(
            Variant {
                name: events[i].clone(),
                fields: VariantFields::Unit,
                discriminant: None,
                span: Span::default(),
            },
        );
    }
    let e = EnumDecl {
        name: concat(fsm.as_str(), "Event"),
        variants,
        visibility: Visibility::Public,
        span: Span::default(),
        details: 0,
    };
    assert(e@.variants =~= Seq::new(
        names.len(),
        |i: int|
            VariantV {
                name: names[i],
                fields: VariantFieldsV::Unit,
                discriminant: None,
                span: no_span(),
            },
    ));
    Decl { kind: DeclKind::Enum(e), ty: Type::Unknown, span: Span::default() }
}

pub fn get_meta_body(i: &ImplBlock) -> (r: Option<&Block>)
    ensures
        match r {
            Some(b) => meta_body(i@) == Some(b@),
            None => meta_body(i@) is None,
        },
{
    match get_method(&i.methods, "__fsm_meta__") {
        Some(m) => match &m.body {
            Some(b) => Some(b),
            None => None,
        },
        None => None,
    }
}

fn collect_event_enums(decls: &Vec<Decl>) -> (r: Vec<Decl>)
    ensures
        views(r@) == event_enums(views(decls@)),
{
    let ghost all = views(decls@);
    let mut r: Vec<Decl> = Vec::new();
    assert(views(r@) =~= event_enums(all.take(0)));
    for i in 0..decls.len()
        invariant
            all == views(decls@),
            views(r@) == event_enums(all.take(i as int)),
    {
        proof {
            assert(all.take(i + 1).drop_last() =~= all.take(i as int));
        }
        match &decls[i].kind {
            DeclKind::Impl(imp) => match get_meta_body(imp) {
                Some(b) => {
                    let events = collect_events(&b.statements);
                    assert(names_view(events@) == events_of(b@.statements));
                    if events.len() > 0 {
                        let d = new_event_enum(&imp.trait_name, &events);
                        assert(views(r@.push(d)) =~= views(r@).push(d@));
                        r.push(d);
                    }
                },
                None => {},
            },
            _ => {},
        }
    }
    assert(all.take(all.len() as int) =~= all);
    r
}

/// Append an enum `<Fsm>Event` of its events for every machine that has some.
pub fn synthesize_fsm_event_enums(program: &mut Program)
    ensures
        final(program)@ == with_event_enums(old(program)@),
{
    let mut enums = collect_event_enums(&program.declarations);
    let ghost before = program@.declarations;
    let ghost added = views(enums@);
    program.declarations.append(&mut enums);
    assert(program@.declarations =~= before + added);
}

/// The events of a description are distinct and none is empty.
pub proof fn events_are_distinct(s: Seq<StmtV>)
    ensures
        events_of(s).no_duplicates(),
        forall|i: int| 0 <= i < events_of(s).len() ==> (#[trigger] events_of(s)[i]).len() > 0,
    decreases s.len(),
{
    if s.len() > 0 {
        events_are_distinct(s.drop_last());
    }
}

// ---------------------------------------------------------------------------
// Trait interfaces
// ---------------------------------------------------------------------------

/// The interface that stands for the trait of the machine `fsm`.
pub open spec fn fsm_interface(fsm: Seq<char>) -> DeclV {
    DeclV {
        kind: DeclKindV::Interface(
            InterfaceV { name: fsm, visibility: Visibility::Public, span: no_span(), details: 0 },
        ),
        ty: TypeV::Unknown,
        span: no_span(),
    }
}

/// A program with one interface for every machine name at the end.
pub open spec fn with_interfaces(p: ProgramV) -> ProgramV {
    let names = distinct(declared_fsms(p.declarations));
    ProgramV {
        declarations: p.declarations + Seq::new(names.len(), |i: int| fsm_interface(names[i])),
        ..p
    }
}

fn keep_distinct(v: Vec<String>) -> (r: Vec<String>)
    ensures
        names_view(r@) == distinct(names_view(v@)),
{
    let ghost all = names_view(v@);
    let ghost v0 = v@;
    let mut r: Vec<String> = Vec::new();
    assert(names_view(r@) =~= distinct(all.take(0)));
    for x in it: v
        invariant
            it.seq() == v0,
            all == names_view(v0),
            names_view(r@) == distinct(all.take(it.index() as int)),
    {
        proof {
            let i = it.index() as int;
            assert(all.take(i + 1).drop_last() =~= all.take(i));
            assert(x@ == all[i]);
        }
        if !contains_name(&r, &x) {
            assert(names_view(r@.push(x)) =~= names_view(r@).push(x@));
            r.push(x);
        }
    }
    assert(all.take(all.len() as int) =~= all);
    r
}

/// Append an interface for the trait of every machine, so that the methods of
/// its impl block have a trait to belong to.
pub fn synthesize_fsm_trait_interfaces(program: &mut Program)
    ensures
        final(program)@ == with_interfaces(old(program)@),
{
    let names = keep_distinct(collect_fsms(&program.declarations));
    let ghost before = program@.declarations;
    let ghost all = names_view(names@);
    for i in 0..names.len()
        invariant
            all == names_view(names@),
            program@.type_registry == old(program)@.type_registry,
            program@.declarations == before + Seq::new(
                i as nat,
                |k: int| fsm_interface(all[k]),
            ),
    {
        let d = Decl {
            kind: DeclKind::Interface(
                Interface {
                    name: names[i].clone(),
                    visibility: Visibility::Public,
                    span: Span::default(),
                    details: 0,
                },
            ),
            ty: Type::Unknown,
            span: Span::default(),
        };
        let ghost so_far = program@.declarations;
        program.declarations.push(d);
        proof {
            assert(program@.declarations =~= so_far.push(d@));
            assert(program@.declarations =~= before + Seq::new(
                (i + 1) as nat,
                |k: int| fsm_interface(all[k]),
            ));
        }
    }
    assert(program@.declarations =~= with_interfaces(old(program)@).declarations);
}

} // verus!
