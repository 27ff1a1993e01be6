//! Recognising and building the marker calls that the grammar emits.

use vstd::prelude::*;

use crate::ast::{
    expr_kind_view, exprs_view, named_args_view, opt_view, views, Call, Expr, ExprKind, Literal,
    NamedArg, PrimitiveType, Span, Stmt, StmtKind, Type,
};
use crate::model::{CallV, ExprKindV, ExprV, LiteralV, NamedArgV, StmtKindV, StmtV, TypeV};
use crate::text::{opt_name, same};

verus! {

// ---------------------------------------------------------------------------
// Recognising
// ---------------------------------------------------------------------------

/// The name that an expression is a plain reference to.
pub open spec fn variable_name(e: ExprV) -> Option<Seq<char>> {
    match e.kind {
        ExprKindV::Variable(name) => Some(name),
        _ => None,
    }
}

/// The text of a string literal.
pub open spec fn string_value(e: ExprV) -> Option<Seq<char>> {
    match e.kind {
        ExprKindV::Literal(LiteralV::String(s)) => Some(s),
        _ => None,
    }
}

/// The name that a call calls.
pub open spec fn callee_name(c: CallV) -> Option<Seq<char>> {
    variable_name(*c.callee)
}

/// The call that a statement consists of.
pub open spec fn stmt_call(s: StmtV) -> Option<CallV> {
    match s.kind {
        StmtKindV::Expression(e) => match e.kind {
            ExprKindV::Call(c) => Some(c),
            _ => None,
        },
        _ => None,
    }
}

/// Whether a statement is a call of the function `name`.
pub open spec fn is_stmt_call_of(s: StmtV, name: Seq<char>) -> bool {
    match stmt_call(s) {
        Some(c) => callee_name(c) == Some(name),
        None => false,
    }
}

/// The text of the argument at position `i`, if it is a string literal.
pub open spec fn string_arg(c: CallV, i: int) -> Option<Seq<char>> {
    if 0 <= i < c.positional_args.len() {
        string_value(c.positional_args[i])
    } else {
        None
    }
}

pub fn get_variable_name(e: &Expr) -> (r: Option<&String>)
    ensures
        opt_name(r) == variable_name(e@),
{
    match &e.kind {
        ExprKind::Variable(name) => Some(name),
        _ => None,
    }
}

pub fn get_string_value(e: &Expr) -> (r: Option<&String>)
    ensures
        opt_name(r) == string_value(e@),
{
    match &e.kind {
        ExprKind::Literal(Literal::String(s)) => Some(s),
        _ => None,
    }
}

pub fn get_callee_name(c: &Call) -> (r: Option<&String>)
    ensures
        opt_name(r) == callee_name(c@),
{
    get_variable_name(&c.callee)
}

pub fn calls(c: &Call, name: &str) -> (r: bool)
    ensures
        r == (callee_name(c@) == Some(name@)),
{
    match get_callee_name(c) {
        Some(n) => same(n, name),
        None => false,
    }
}

pub fn get_stmt_call(s: &Stmt) -> (r: Option<&Call>)
    ensures
        match r {
            Some(c) => stmt_call(s@) == Some(c@),
            None => stmt_call(s@) is None,
        },
{
    match &s.kind {
        StmtKind::Expression(e) => match &e.kind {
            ExprKind::Call(c) => Some(c),
            _ => None,
        },
        _ => None,
    }
}

pub fn stmt_calls(s: &Stmt, name: &str) -> (r: bool)
    ensures
        r == is_stmt_call_of(s@, name@),
{
    match get_stmt_call(s) {
        Some(c) => calls(c, name),
        None => false,
    }
}

pub fn get_string_arg(c: &Call, i: usize) -> (r: Option<&String>)
    ensures
        opt_name(r) == string_arg(c@, i as int),
{
    if i < c.positional_args.len() {
        get_string_value(&c.positional_args[i])
    } else {
        None
    }
}

// ---------------------------------------------------------------------------
// Building
// ---------------------------------------------------------------------------

pub open spec fn prim(p: PrimitiveType) -> TypeV {
    TypeV::Primitive(p)
}

pub open spec fn variable_expr(name: Seq<char>, ty: TypeV, span: Span) -> ExprV {
    ExprV { kind: ExprKindV::Variable(name), ty, span }
}

/// A string literal, typed as a string.
pub open spec fn string_expr(text: Seq<char>, span: Span) -> ExprV {
    ExprV {
        kind: ExprKindV::Literal(LiteralV::String(text)),
        ty: prim(PrimitiveType::String),
        span,
    }
}

pub open spec fn integer_expr(n: i128, ty: TypeV, span: Span) -> ExprV {
    ExprV { kind: ExprKindV::Literal(LiteralV::Integer(n)), ty, span }
}

/// A call with positional arguments only.
pub open spec fn call_of(callee: ExprV, args: Seq<ExprV>) -> ExprKindV {
    ExprKindV::Call(
        CallV {
            callee: Box::new(callee),
            positional_args: args,
            named_args: seq![],
            type_args: seq![],
        },
    )
}

pub open spec fn expr_stmt(e: ExprV, ty: TypeV, span: Span) -> StmtV {
    StmtV { kind: StmtKindV::Expression(e), ty, span }
}

pub fn new_variable(name: String, ty: Type, span: Span) -> (e: Expr)
    ensures
        e@ == variable_expr(name@, ty@, span),
{
    Expr { kind: ExprKind::Variable(name), ty, span }
}

pub fn new_string(text: String, span: Span) -> (e: Expr)
    ensures
        e@ == string_expr(text@, span),
{
    Expr {
        kind: ExprKind::Literal(Literal::String(text)),
        ty: Type::Primitive(PrimitiveType::String),
        span,
    }
}

pub fn new_integer(n: i128, ty: Type, span: Span) -> (e: Expr)
    ensures
        e@ == integer_expr(n, ty@, span),
{
    Expr { kind: ExprKind::Literal(Literal::Integer(n)), ty, span }
}

pub fn new_call(callee: Expr, args: Vec<Expr>) -> (k: ExprKind)
    ensures
        expr_kind_view(k) == call_of(callee@, exprs_view(args@)),
{
    let named_args: Vec<NamedArg> = Vec::new();
    let type_args: Vec<Type> = Vec::new();
    assert(named_args_view(named_args@) =~= Seq::<NamedArgV>::empty());
    assert(views(type_args@) =~= Seq::<TypeV>::empty());
    ExprKind::Call(Call { callee: Box::new(callee), positional_args: args, named_args, type_args })
}

pub fn new_expr_stmt(e: Expr, ty: Type, span: Span) -> (s: Stmt)
    ensures
        s@ == expr_stmt(e@, ty@, span),
{
    Stmt { kind: StmtKind::Expression(e), ty, span }
}

/// The view of a list of one expression.
pub fn one(a: Expr) -> (v: Vec<Expr>)
    ensures
        exprs_view(v@) == seq![a@],
{
    let mut v: Vec<Expr> = Vec::new();
    v.push(a);
    assert(exprs_view(v@) =~= seq![a@]);
    v
}

/// The view of a list of two expressions.
pub fn two(a: Expr, b: Expr) -> (v: Vec<Expr>)
    ensures
        exprs_view(v@) == seq![a@, b@],
{
    let mut v: Vec<Expr> = Vec::new();
    v.push(a);
    v.push(b);
    assert(exprs_view(v@) =~= seq![a@, b@]);
    v
}

// ---------------------------------------------------------------------------
// Method calls on names
// ---------------------------------------------------------------------------

/// A call `receiver.method(args)` on a plain name.
pub struct ReceiverCallV {
    pub receiver: Seq<char>,
    pub method: Seq<char>,
    pub args: Seq<ExprV>,
}

/// A method call on a plain name, in either of the two shapes that the
/// grammar gives it: a method call, or a call whose callee is a field.
pub open spec fn receiver_call(e: ExprV) -> Option<ReceiverCallV> {
    match e.kind {
        ExprKindV::MethodCall { receiver, method, positional_args, .. } => match variable_name(
            *receiver,
        ) {
            Some(name) => Some(ReceiverCallV { receiver: name, method, args: positional_args }),
            None => None,
        },
        ExprKindV::Call(c) => match c.callee.kind {
            ExprKindV::Field { object, field } => match variable_name(*object) {
                Some(name) => Some(
                    ReceiverCallV { receiver: name, method: field, args: c.positional_args },
                ),
                None => None,
            },
            _ => None,
        },
        _ => None,
    }
}

/// A borrowed [`ReceiverCallV`].
pub struct ReceiverCall<'a> {
    pub receiver: &'a String,
    pub method: &'a String,
    pub args: &'a Vec<Expr>,
}

impl<'a> View for ReceiverCall<'a> {
    type V = ReceiverCallV;

    open spec fn view(&self) -> ReceiverCallV {
        ReceiverCallV {
            receiver: self.receiver@,
            method: self.method@,
            args: exprs_view(self.args@),
        }
    }
}

pub fn get_receiver_call(e: &Expr) -> (r: Option<ReceiverCall<'_>>)
    ensures
        opt_view(r) == receiver_call(e@),
{
    match &e.kind {
        ExprKind::MethodCall { receiver, method, positional_args, .. } => {
            match get_variable_name(receiver) {
                Some(name) => Some(
                    ReceiverCall { receiver: name, method, args: positional_args },
                ),
                None => None,
            }
        },
        ExprKind::Call(c) => {
            assert(e@.kind == ExprKindV::Call(c@));
            assert(c@.callee == Box::new(c.callee@));
            match &c.callee.kind {
                ExprKind::Field { object, field } => {
                    assert(c.callee@.kind == ExprKindV::Field {
                        object: Box::new(object@),
                        field: field@,
                    });
                    match get_variable_name(object) {
                        Some(name) => Some(
                            ReceiverCall {
                                receiver: name,
                                method: field,
                                args: &c.positional_args,
                            },
                        ),
                        None => None,
                    }
                },
                _ => None,
            }
        },
        _ => None,
    }
}

/// A call of a host function about a named entity: `target("name", args..)`.
pub open spec fn host_call(
    target: Seq<char>,
    name: Seq<char>,
    args: Seq<ExprV>,
    ty: TypeV,
    span: Span,
) -> ExprV {
    ExprV {
        kind: call_of(
            variable_expr(target, TypeV::Unknown, span),
            seq![string_expr(name, span)] + args,
        ),
        ty,
        span,
    }
}

pub fn new_host_call(target: &str, name: String, args: Vec<Expr>, ty: Type, span: Span) -> (e: Expr)
    ensures
        e@ == host_call(target@, name@, exprs_view(args@), ty@, span),
{
    let ghost args0 = exprs_view(args@);
    let mut all: Vec<Expr> = one(new_string(name, span));
    let mut more = args;
    let ghost first = all@;
    all.append(&mut more);
    assert(exprs_view(all@) =~= exprs_view(first) + args0);
    let callee = new_variable(target.to_owned(), Type::Unknown, span);
    Expr { kind: new_call(callee, all), ty, span }
}

} // verus!
