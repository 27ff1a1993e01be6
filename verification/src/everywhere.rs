//! Properties that hold at every node of a program.
//!
//! `p` speaks of an expression and `q` of the statements of a block. A rule
//! that establishes both at the node it rewrites establishes them throughout
//! the program, and a rule that changes nothing where they hold leaves such a
//! program alone.

use vstd::prelude::*;

use crate::model::{
    BlockV, CallV, DeclKindV, DeclV, ExprKindV, ExprV, FieldInitV, LambdaBodyV, MethodV, NamedArgV,
    ProgramV, StmtKindV, StmtV,
};
use crate::walk::{
    walk_block, walk_body, walk_call, walk_decl, walk_decls, walk_expr, walk_expr_kind, walk_exprs,
    walk_field_inits, walk_lambda_body, walk_method, walk_methods, walk_named_args, walk_program,
    walk_stmt, walk_stmt_kind, walk_stmts, Rule,
};

verus! {

/// What is to hold at every expression and of the statements of every block.
pub struct Law {
    pub p: spec_fn(ExprV) -> bool,
    pub q: spec_fn(Seq<StmtV>) -> bool,
}

pub open spec fn in_expr(l: Law, e: ExprV) -> bool
    decreases e,
{
    (l.p)(e) && in_expr_kind(l, e.kind)
}

pub open spec fn in_exprs(l: Law, s: Seq<ExprV>) -> bool
    decreases s,
{
    forall|i: int| 0 <= i < s.len() ==> in_expr(l, #[trigger] s[i])
}

pub open spec fn in_named_args(l: Law, s: Seq<NamedArgV>) -> bool
    decreases s,
{
    forall|i: int| 0 <= i < s.len() ==> in_expr(l, (#[trigger] s[i]).value)
}

pub open spec fn in_field_inits(l: Law, s: Seq<FieldInitV>) -> bool
    decreases s,
{
    forall|i: int| 0 <= i < s.len() ==> in_expr(l, (#[trigger] s[i]).value)
}

pub open spec fn in_call(l: Law, c: CallV) -> bool
    decreases c,
{
    &&& in_expr(l, *c.callee)
    &&& in_exprs(l, c.positional_args)
    &&& in_named_args(l, c.named_args)
}

pub open spec fn in_lambda_body(l: Law, b: LambdaBodyV) -> bool
    decreases b,
{
    match b {
        LambdaBodyV::Expression(e) => in_expr(l, *e),
        LambdaBodyV::Block(block) => in_block(l, block),
    }
}

pub open spec fn in_expr_kind(l: Law, k: ExprKindV) -> bool
    decreases k,
{
    match k {
        ExprKindV::Binary { op: _, left, right } => in_expr(l, *left) && in_expr(l, *right),
        ExprKindV::Unary { operator: _, operand } => in_expr(l, *operand),
        ExprKindV::Call(call) => in_call(l, call),
        ExprKindV::Field { object, field: _ } => in_expr(l, *object),
        ExprKindV::Index { object, index } => in_expr(l, *object) && in_expr(l, *index),
        ExprKindV::Array(items) => in_exprs(l, items),
        ExprKindV::Tuple(items) => in_exprs(l, items),
        ExprKindV::Struct { name: _, fields } => in_field_inits(l, fields),
        ExprKindV::MethodCall { receiver, positional_args, named_args, .. } => in_expr(l, *receiver)
            && in_exprs(l, positional_args) && in_named_args(l, named_args),
        ExprKindV::Block(block) => in_block(l, block),
        ExprKindV::If { condition, then_branch, else_branch } => in_expr(
            l,
            *condition,
        ) && in_expr(l, *then_branch) && in_expr(l, *else_branch),
        ExprKindV::Lambda { params: _, body } => in_lambda_body(l, body),
        _ => true,
    }
}

pub open spec fn in_block(l: Law, b: BlockV) -> bool
    decreases b,
{
    (l.q)(b.statements) && in_stmts(l, b.statements)
}

pub open spec fn in_stmts(l: Law, s: Seq<StmtV>) -> bool
    decreases s,
{
    forall|i: int| 0 <= i < s.len() ==> in_stmt(l, #[trigger] s[i])
}

pub open spec fn in_stmt(l: Law, s: StmtV) -> bool
    decreases s,
{
    in_stmt_kind(l, s.kind)
}

pub open spec fn in_stmt_kind(l: Law, k: StmtKindV) -> bool
    decreases k,
{
    match k {
        StmtKindV::Expression(e) => in_expr(l, e),
        StmtKindV::Let { initializer: Some(e), .. } => in_expr(l, e),
        StmtKindV::Return(Some(e)) => in_expr(l, e),
        StmtKindV::If { condition, then_block, else_block, span: _ } => {
            &&& in_expr(l, condition)
            &&& in_block(l, then_block)
            &&& match else_block {
                Some(b) => in_block(l, b),
                None => true,
            }
        },
        StmtKindV::While { condition, body, span: _ } => in_expr(l, condition) && in_block(
            l,
            body,
        ),
        StmtKindV::Block(block) => in_block(l, block),
        _ => true,
    }
}

pub open spec fn in_body(l: Law, b: Option<BlockV>) -> bool {
    match b {
        Some(block) => in_block(l, block),
        None => true,
    }
}

pub open spec fn in_methods(l: Law, s: Seq<MethodV>) -> bool {
    forall|i: int| 0 <= i < s.len() ==> in_body(l, (#[trigger] s[i]).body)
}

pub open spec fn in_decl(l: Law, d: DeclV) -> bool {
    match d.kind {
        DeclKindV::Function(f) => in_body(l, f.body),
        DeclKindV::Impl(i) => in_methods(l, i.methods),
        _ => true,
    }
}

pub open spec fn in_decls(l: Law, s: Seq<DeclV>) -> bool {
    forall|i: int| 0 <= i < s.len() ==> in_decl(l, #[trigger] s[i])
}

/// Whether a law holds at every node of a program.
pub open spec fn in_program(l: Law, p: ProgramV) -> bool {
    in_decls(l, p.declarations)
}

// ---------------------------------------------------------------------------
// Establishing a law
// ---------------------------------------------------------------------------

/// Whether the law holds at a rewritten node as soon as it holds below it.
/// `ok` singles out the states in which the rule does its work; a state that
/// is not ok never becomes so.
pub open spec fn establishes<S>(r: Rule<S>, l: Law, ok: spec_fn(S) -> bool) -> bool {
    &&& forall|st: S, e: ExprV|
        ok((#[trigger] (r.expr)(st, e)).1) ==> ok(st) && (in_expr_kind(l, e.kind) ==> in_expr(
            l,
            (r.expr)(st, e).0,
        ))
    &&& forall|s: Seq<StmtV>|
        in_stmts(l, s) ==> (l.q)(#[trigger] (r.block)(s)) && in_stmts(l, (r.block)(s))
}

/// Every state is ok.
pub open spec fn any_state<S>() -> spec_fn(S) -> bool {
    |st: S| true
}

proof fn establish_expr<S>(r: Rule<S>, l: Law, ok: spec_fn(S) -> bool, st: S, e: ExprV)
    requires
        establishes(r, l, ok),
    ensures
        ok(walk_expr(r, st, e).1) ==> in_expr(l, walk_expr(r, st, e).0) && ok(st),
    decreases e,
{
    establish_expr_kind(r, l, ok, st, e.kind);
    let (kind, st1) = walk_expr_kind(r, st, e.kind);
    let e1 = ExprV { kind, ty: e.ty, span: e.span };
    let (e2, st2) = (r.expr)(st1, e1);
    if ok(st2) {
        assert(ok((r.expr)(st1, e1).1));
        assert(ok(st1));
    }
}

proof fn establish_exprs<S>(r: Rule<S>, l: Law, ok: spec_fn(S) -> bool, st: S, s: Seq<ExprV>)
    requires
        establishes(r, l, ok),
    ensures
        ok(walk_exprs(r, st, s).1) ==> in_exprs(l, walk_exprs(r, st, s).0) && ok(st),
    decreases s,
{
    if s.len() > 0 {
        establish_exprs(r, l, ok, st, s.drop_last());
        let (front, st1) = walk_exprs(r, st, s.drop_last());
        establish_expr(r, l, ok, st1, s.last());
    }
}

proof fn establish_named_args<S>(
    r: Rule<S>,
    l: Law,
    ok: spec_fn(S) -> bool,
    st: S,
    s: Seq<NamedArgV>,
)
    requires
        establishes(r, l, ok),
    ensures
        ok(walk_named_args(r, st, s).1) ==> in_named_args(l, walk_named_args(r, st, s).0) && ok(st),
    decreases s,
{
    if s.len() > 0 {
        establish_named_args(r, l, ok, st, s.drop_last());
        let (front, st1) = walk_named_args(r, st, s.drop_last());
        establish_expr(r, l, ok, st1, s.last().value);
    }
}

proof fn establish_field_inits<S>(
    r: Rule<S>,
    l: Law,
    ok: spec_fn(S) -> bool,
    st: S,
    s: Seq<FieldInitV>,
)
    requires
        establishes(r, l, ok),
    ensures
        ok(walk_field_inits(r, st, s).1) ==> in_field_inits(l, walk_field_inits(r, st, s).0) && ok(
            st,
        ),
    decreases s,
{
    if s.len() > 0 {
        establish_field_inits(r, l, ok, st, s.drop_last());
        let (front, st1) = walk_field_inits(r, st, s.drop_last());
        establish_expr(r, l, ok, st1, s.last().value);
    }
}

proof fn establish_call<S>(r: Rule<S>, l: Law, ok: spec_fn(S) -> bool, st: S, c: CallV)
    requires
        establishes(r, l, ok),
    ensures
        ok(walk_call(r, st, c).1) ==> in_call(l, walk_call(r, st, c).0) && ok(st),
    decreases c,
{
    establish_expr(r, l, ok, st, *c.callee);
    let (callee, st1) = walk_expr(r, st, *c.callee);
    establish_exprs(r, l, ok, st1, c.positional_args);
    let (positional_args, st2) = walk_exprs(r, st1, c.positional_args);
    establish_named_args(r, l, ok, st2, c.named_args);
}

proof fn establish_expr_kind<S>(r: Rule<S>, l: Law, ok: spec_fn(S) -> bool, st: S, k: ExprKindV)
    requires
        establishes(r, l, ok),
    ensures
        ok(walk_expr_kind(r, st, k).1) ==> in_expr_kind(l, walk_expr_kind(r, st, k).0) && ok(st),
    decreases k,
{
    match k {
        ExprKindV::Binary { op: _, left, right } => {
            establish_expr(r, l, ok, st, *left);
            establish_expr(r, l, ok, walk_expr(r, st, *left).1, *right);
        },
        ExprKindV::Unary { operator: _, operand } => {
            establish_expr(r, l, ok, st, *operand);
        },
        ExprKindV::Call(call) => {
            establish_call(r, l, ok, st, call);
        },
        ExprKindV::Field { object, field: _ } => {
            establish_expr(r, l, ok, st, *object);
        },
        ExprKindV::Index { object, index } => {
            establish_expr(r, l, ok, st, *object);
            establish_expr(r, l, ok, walk_expr(r, st, *object).1, *index);
        },
        ExprKindV::Array(items) => {
            establish_exprs(r, l, ok, st, items);
        },
        ExprKindV::Tuple(items) => {
            establish_exprs(r, l, ok, st, items);
        },
        ExprKindV::Struct { name: _, fields } => {
            establish_field_inits(r, l, ok, st, fields);
        },
        ExprKindV::MethodCall { receiver, positional_args, named_args, .. } => {
            establish_expr(r, l, ok, st, *receiver);
            let st1 = walk_expr(r, st, *receiver).1;
            establish_exprs(r, l, ok, st1, positional_args);
            let st2 = walk_exprs(r, st1, positional_args).1;
            establish_named_args(r, l, ok, st2, named_args);
        },
        ExprKindV::Block(block) => {
            establish_block(r, l, ok, st, block);
        },
        ExprKindV::If { condition, then_branch, else_branch } => {
            establish_expr(r, l, ok, st, *condition);
            let st1 = walk_expr(r, st, *condition).1;
            establish_expr(r, l, ok, st1, *then_branch);
            establish_expr(r, l, ok, walk_expr(r, st1, *then_branch).1, *else_branch);
        },
        ExprKindV::Lambda { params: _, body } => {
            match body {
                LambdaBodyV::Expression(e) => {
                    establish_expr(r, l, ok, st, *e);
                },
                LambdaBodyV::Block(block) => {
                    establish_block(r, l, ok, st, block);
                },
            }
        },
        _ => {},
    }
}

proof fn establish_block<S>(r: Rule<S>, l: Law, ok: spec_fn(S) -> bool, st: S, b: BlockV)
    requires
        establishes(r, l, ok),
    ensures
        ok(walk_block(r, st, b).1) ==> in_block(l, walk_block(r, st, b).0) && ok(st),
    decreases b,
{
    establish_stmts(r, l, ok, st, b.statements);
    let (statements, st1) = walk_stmts(r, st, b.statements);
    if ok(st1) {
        assert(in_stmts(l, (r.block)(statements)));
    }
}

proof fn establish_stmts<S>(r: Rule<S>, l: Law, ok: spec_fn(S) -> bool, st: S, s: Seq<StmtV>)
    requires
        establishes(r, l, ok),
    ensures
        ok(walk_stmts(r, st, s).1) ==> in_stmts(l, walk_stmts(r, st, s).0) && ok(st),
    decreases s,
{
    if s.len() > 0 {
        establish_stmts(r, l, ok, st, s.drop_last());
        let (front, st1) = walk_stmts(r, st, s.drop_last());
        establish_stmt(r, l, ok, st1, s.last());
    }
}

proof fn establish_stmt<S>(r: Rule<S>, l: Law, ok: spec_fn(S) -> bool, st: S, s: StmtV)
    requires
        establishes(r, l, ok),
    ensures
        ok(walk_stmt(r, st, s).1) ==> in_stmt(l, walk_stmt(r, st, s).0) && ok(st),
    decreases s,
{
    establish_stmt_kind(r, l, ok, st, s.kind);
}

proof fn establish_stmt_kind<S>(r: Rule<S>, l: Law, ok: spec_fn(S) -> bool, st: S, k: StmtKindV)
    requires
        establishes(r, l, ok),
    ensures
        ok(walk_stmt_kind(r, st, k).1) ==> in_stmt_kind(l, walk_stmt_kind(r, st, k).0) && ok(st),
    decreases k,
{
    match k {
        StmtKindV::Expression(e) => {
            establish_expr(r, l, ok, st, e);
        },
        StmtKindV::Let { initializer: Some(e), .. } => {
            establish_expr(r, l, ok, st, e);
        },
        StmtKindV::Return(Some(e)) => {
            establish_expr(r, l, ok, st, e);
        },
        StmtKindV::If { condition, then_block, else_block, span: _ } => {
            establish_expr(r, l, ok, st, condition);
            let st1 = walk_expr(r, st, condition).1;
            establish_block(r, l, ok, st1, then_block);
            match else_block {
                Some(b) => {
                    establish_block(r, l, ok, walk_block(r, st1, then_block).1, b);
                },
                None => {},
            }
        },
        StmtKindV::While { condition, body, span: _ } => {
            establish_expr(r, l, ok, st, condition);
            let st1 = walk_expr(r, st, condition).1;
            establish_block(r, l, ok, st1, body);
        },
        StmtKindV::Block(block) => {
            establish_block(r, l, ok, st, block);
        },
        _ => {},
    }
}

proof fn establish_methods<S>(r: Rule<S>, l: Law, ok: spec_fn(S) -> bool, st: S, s: Seq<MethodV>)
    requires
        establishes(r, l, ok),
    ensures
        ok(walk_methods(r, st, s).1) ==> in_methods(l, walk_methods(r, st, s).0) && ok(st),
    decreases s.len(),
{
    if s.len() > 0 {
        establish_methods(r, l, ok, st, s.drop_last());
        let (front, st1) = walk_methods(r, st, s.drop_last());
        match s.last().body {
            Some(b) => {
                establish_block(r, l, ok, st1, b);
            },
            None => {},
        }
    }
}

proof fn establish_decls<S>(r: Rule<S>, l: Law, ok: spec_fn(S) -> bool, st: S, s: Seq<DeclV>)
    requires
        establishes(r, l, ok),
    ensures
        ok(walk_decls(r, st, s).1) ==> in_decls(l, walk_decls(r, st, s).0) && ok(st),
    decreases s.len(),
{
    if s.len() > 0 {
        establish_decls(r, l, ok, st, s.drop_last());
        let (front, st1) = walk_decls(r, st, s.drop_last());
        match s.last().kind {
            DeclKindV::Function(f) => match f.body {
                Some(b) => {
                    establish_block(r, l, ok, st1, b);
                },
                None => {},
            },
            DeclKindV::Impl(i) => {
                establish_methods(r, l, ok, st1, i.methods);
            },
            _ => {},
        }
    }
}

/// A rule that establishes a law at the node it rewrites establishes it
/// throughout the program, if the state at the end is still a good one.
pub proof fn establish_program<S>(r: Rule<S>, l: Law, ok: spec_fn(S) -> bool, st: S, p: ProgramV)
    requires
        establishes(r, l, ok),
    ensures
        ok(walk_program(r, st, p).1) ==> in_program(l, walk_program(r, st, p).0),
{
    establish_decls(r, l, ok, st, p.declarations);
}

// ---------------------------------------------------------------------------
// Where a rule changes nothing
// ---------------------------------------------------------------------------

/// Whether a rule changes nothing where the law holds.
pub open spec fn settles<S>(r: Rule<S>, l: Law) -> bool {
    &&& forall|st: S, e: ExprV|
        (l.p)(e) ==> (#[trigger] (r.expr)(st, e)) == (e, st)
    &&& forall|s: Seq<StmtV>| (l.q)(s) ==> (#[trigger] (r.block)(s)) == s
}

proof fn settled_expr<S>(r: Rule<S>, l: Law, st: S, e: ExprV)
    requires
        settles(r, l),
        in_expr(l, e),
    ensures
        walk_expr(r, st, e) == (e, st),
    decreases e,
{
    settled_expr_kind(r, l, st, e.kind);
    assert((r.expr)(st, e) == (e, st));
}

proof fn settled_exprs<S>(r: Rule<S>, l: Law, st: S, s: Seq<ExprV>)
    requires
        settles(r, l),
        in_exprs(l, s),
    ensures
        walk_exprs(r, st, s) == (s, st),
    decreases s,
{
    if s.len() > 0 {
        assert forall|i: int| 0 <= i < s.drop_last().len() implies in_expr(
            l,
            #[trigger] s.drop_last()[i],
        ) by {
            assert(s.drop_last()[i] == s[i]);
        }
        settled_exprs(r, l, st, s.drop_last());
        settled_expr(r, l, st, s.last());
        assert(s.drop_last().push(s.last()) =~= s);
    } else {
        assert(s =~= seq![]);
    }
}

proof fn settled_named_args<S>(r: Rule<S>, l: Law, st: S, s: Seq<NamedArgV>)
    requires
        settles(r, l),
        in_named_args(l, s),
    ensures
        walk_named_args(r, st, s) == (s, st),
    decreases s,
{
    if s.len() > 0 {
        assert forall|i: int| 0 <= i < s.drop_last().len() implies in_expr(
            l,
            (#[trigger] s.drop_last()[i]).value,
        ) by {
            assert(s.drop_last()[i] == s[i]);
        }
        settled_named_args(r, l, st, s.drop_last());
        settled_expr(r, l, st, s.last().value);
        assert(s.drop_last().push(s.last()) =~= s);
    } else {
        assert(s =~= seq![]);
    }
}

proof fn settled_field_inits<S>(r: Rule<S>, l: Law, st: S, s: Seq<FieldInitV>)
    requires
        settles(r, l),
        in_field_inits(l, s),
    ensures
        walk_field_inits(r, st, s) == (s, st),
    decreases s,
{
    if s.len() > 0 {
        assert forall|i: int| 0 <= i < s.drop_last().len() implies in_expr(
            l,
            (#[trigger] s.drop_last()[i]).value,
        ) by {
            assert(s.drop_last()[i] == s[i]);
        }
        settled_field_inits(r, l, st, s.drop_last());
        settled_expr(r, l, st, s.last().value);
        assert(s.drop_last().push(s.last()) =~= s);
    } else {
        assert(s =~= seq![]);
    }
}

proof fn settled_expr_kind<S>(r: Rule<S>, l: Law, st: S, k: ExprKindV)
    requires
        settles(r, l),
        in_expr_kind(l, k),
    ensures
        walk_expr_kind(r, st, k) == (k, st),
    decreases k,
{
    match k {
        ExprKindV::Binary { op: _, left, right } => {
            settled_expr(r, l, st, *left);
            settled_expr(r, l, st, *right);
        },
        ExprKindV::Unary { operator: _, operand } => {
            settled_expr(r, l, st, *operand);
        },
        ExprKindV::Call(call) => {
            settled_expr(r, l, st, *call.callee);
            settled_exprs(r, l, st, call.positional_args);
            settled_named_args(r, l, st, call.named_args);
            assert(walk_call(r, st, call) == (call, st));
        },
        ExprKindV::Field { object, field: _ } => {
            settled_expr(r, l, st, *object);
        },
        ExprKindV::Index { object, index } => {
            settled_expr(r, l, st, *object);
            settled_expr(r, l, st, *index);
        },
        ExprKindV::Array(items) => {
            settled_exprs(r, l, st, items);
        },
        ExprKindV::Tuple(items) => {
            settled_exprs(r, l, st, items);
        },
        ExprKindV::Struct { name: _, fields } => {
            settled_field_inits(r, l, st, fields);
        },
        ExprKindV::MethodCall { receiver, positional_args, named_args, .. } => {
            settled_expr(r, l, st, *receiver);
            settled_exprs(r, l, st, positional_args);
            settled_named_args(r, l, st, named_args);
        },
        ExprKindV::Block(block) => {
            settled_block(r, l, st, block);
        },
        ExprKindV::If { condition, then_branch, else_branch } => {
            settled_expr(r, l, st, *condition);
            settled_expr(r, l, st, *then_branch);
            settled_expr(r, l, st, *else_branch);
        },
        ExprKindV::Lambda { params: _, body } => {
            match body {
                LambdaBodyV::Expression(e) => {
                    settled_expr(r, l, st, *e);
                },
                LambdaBodyV::Block(block) => {
                    settled_block(r, l, st, block);
                },
            }
            assert(walk_lambda_body(r, st, body) == (body, st));
        },
        _ => {},
    }
}

proof fn settled_block<S>(r: Rule<S>, l: Law, st: S, b: BlockV)
    requires
        settles(r, l),
        in_block(l, b),
    ensures
        walk_block(r, st, b) == (b, st),
    decreases b,
{
    settled_stmts(r, l, st, b.statements);
    assert((r.block)(b.statements) == b.statements);
}

proof fn settled_stmts<S>(r: Rule<S>, l: Law, st: S, s: Seq<StmtV>)
    requires
        settles(r, l),
        in_stmts(l, s),
    ensures
        walk_stmts(r, st, s) == (s, st),
    decreases s,
{
    if s.len() > 0 {
        assert forall|i: int| 0 <= i < s.drop_last().len() implies in_stmt(
            l,
            #[trigger] s.drop_last()[i],
        ) by {
            assert(s.drop_last()[i] == s[i]);
        }
        settled_stmts(r, l, st, s.drop_last());
        settled_stmt(r, l, st, s.last());
        assert(s.drop_last().push(s.last()) =~= s);
    } else {
        assert(s =~= seq![]);
    }
}

proof fn settled_stmt<S>(r: Rule<S>, l: Law, st: S, s: StmtV)
    requires
        settles(r, l),
        in_stmt(l, s),
    ensures
        walk_stmt(r, st, s) == (s, st),
    decreases s,
{
    settled_stmt_kind(r, l, st, s.kind);
}

proof fn settled_stmt_kind<S>(r: Rule<S>, l: Law, st: S, k: StmtKindV)
    requires
        settles(r, l),
        in_stmt_kind(l, k),
    ensures
        walk_stmt_kind(r, st, k) == (k, st),
    decreases k,
{
    match k {
        StmtKindV::Expression(e) => {
            settled_expr(r, l, st, e);
        },
        StmtKindV::Let { initializer: Some(e), .. } => {
            settled_expr(r, l, st, e);
        },
        StmtKindV::Return(Some(e)) => {
            settled_expr(r, l, st, e);
        },
        StmtKindV::If { condition, then_block, else_block, span: _ } => {
            settled_expr(r, l, st, condition);
            settled_block(r, l, st, then_block);
            match else_block {
                Some(b) => {
                    settled_block(r, l, st, b);
                },
                None => {},
            }
        },
        StmtKindV::While { condition, body, span: _ } => {
            settled_expr(r, l, st, condition);
            settled_block(r, l, st, body);
        },
        StmtKindV::Block(block) => {
            settled_block(r, l, st, block);
        },
        _ => {},
    }
}

proof fn settled_body<S>(r: Rule<S>, l: Law, st: S, b: Option<BlockV>)
    requires
        settles(r, l),
        in_body(l, b),
    ensures
        walk_body(r, st, b) == (b, st),
{
    match b {
        Some(block) => {
            settled_block(r, l, st, block);
        },
        None => {},
    }
}

proof fn settled_methods<S>(r: Rule<S>, l: Law, st: S, s: Seq<MethodV>)
    requires
        settles(r, l),
        in_methods(l, s),
    ensures
        walk_methods(r, st, s) == (s, st),
    decreases s.len(),
{
    if s.len() > 0 {
        assert forall|i: int| 0 <= i < s.drop_last().len() implies in_body(
            l,
            (#[trigger] s.drop_last()[i]).body,
        ) by {
            assert(s.drop_last()[i] == s[i]);
        }
        settled_methods(r, l, st, s.drop_last());
        settled_body(r, l, st, s.last().body);
        assert(walk_method(r, st, s.last()) == (s.last(), st));
        assert(s.drop_last().push(s.last()) =~= s);
    } else {
        assert(s =~= seq![]);
    }
}

proof fn settled_decls<S>(r: Rule<S>, l: Law, st: S, s: Seq<DeclV>)
    requires
        settles(r, l),
        in_decls(l, s),
    ensures
        walk_decls(r, st, s) == (s, st),
    decreases s.len(),
{
    if s.len() > 0 {
        assert forall|i: int| 0 <= i < s.drop_last().len() implies in_decl(
            l,
            #[trigger] s.drop_last()[i],
        ) by {
            assert(s.drop_last()[i] == s[i]);
        }
        settled_decls(r, l, st, s.drop_last());
        match s.last().kind {
            DeclKindV::Function(f) => {
                settled_body(r, l, st, f.body);
            },
            DeclKindV::Impl(i) => {
                settled_methods(r, l, st, i.methods);
            },
            _ => {},
        }
        assert(walk_decl(r, st, s.last()) == (s.last(), st));
        assert(s.drop_last().push(s.last()) =~= s);
    } else {
        assert(s =~= seq![]);
    }
}

/// A rule that changes nothing where a law holds leaves a program alone in
/// which it holds throughout.
pub proof fn settled_program<S>(r: Rule<S>, l: Law, st: S, p: ProgramV)
    requires
        settles(r, l),
        in_program(l, p),
    ensures
        walk_program(r, st, p) == (p, st),
{
    settled_decls(r, l, st, p.declarations);
}

} // verus!
