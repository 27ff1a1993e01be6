//! One bottom-up rewriting walk over a program, shared by the passes.
//!
//! A pass says what it does to an expression whose children are done, and what
//! it does to the statements of a block that are done. The walk visits all
//! children of a node from left to right and hands the pass's state from one to
//! the next.

use vstd::prelude::*;

use crate::ast::{
    expr_kind_view, exprs_view, field_inits_view, lambda_body_view, named_args_view, opt_view,
    stmt_kind_view, stmts_view, views, Block, Call, Decl, DeclKind, Expr, ExprKind, FieldInit,
    Function, ImplBlock, LambdaBody, Method, NamedArg, Stmt, StmtKind,
};
use crate::model::{
    BlockV, CallV, DeclKindV, DeclV, ExprKindV, ExprV, FieldInitV, FunctionV, ImplBlockV,
    LambdaBodyV, MethodV, NamedArgV, ProgramV, StmtKindV, StmtV,
};

verus! {

/// What a pass does at a node, over a state of type `S`.
#[verifier::reject_recursive_types(S)]
pub struct Rule<S> {
    /// The replacement for an expression whose children are done.
    pub expr: spec_fn(S, ExprV) -> (ExprV, S),
    /// The replacement for the statements of a block that are done.
    pub block: spec_fn(Seq<StmtV>) -> Seq<StmtV>,
}

/// A rule that can be carried out.
pub trait Rewriter: Sized {
    /// What the pass carries along the walk.
    type State: View;

    spec fn rule(&self) -> Rule<<Self::State as View>::V>;

    fn apply_expr(&self, st: &mut Self::State, e: Expr) -> (out: Expr)
        ensures
            (out@, final(st)@) == (self.rule().expr)(old(st)@, e@),
    ;

    fn apply_block(&self, s: Vec<Stmt>) -> (out: Vec<Stmt>)
        ensures
            stmts_view(out@) == (self.rule().block)(stmts_view(s@)),
    ;
}

// ---------------------------------------------------------------------------
// What the walk computes
// ---------------------------------------------------------------------------

pub open spec fn walk_expr<S>(r: Rule<S>, st: S, e: ExprV) -> (ExprV, S)
    decreases e,
{
    let (kind, st1) = walk_expr_kind(r, st, e.kind);
    (r.expr)(st1, ExprV { kind, ty: e.ty, span: e.span })
}

pub open spec fn walk_exprs<S>(r: Rule<S>, st: S, s: Seq<ExprV>) -> (
    Seq<ExprV>,
    S,
)
    decreases s,
{
    if s.len() == 0 {
        (seq![], st)
    } else {
        let (front, st1) = walk_exprs(r, st, s.drop_last());
        let (last, st2) = walk_expr(r, st1, s.last());
        (front.push(last), st2)
    }
}

pub open spec fn walk_named_args<S>(r: Rule<S>, st: S, s: Seq<NamedArgV>) -> (
    Seq<NamedArgV>,
    S,
)
    decreases s,
{
    if s.len() == 0 {
        (seq![], st)
    } else {
        let (front, st1) = walk_named_args(r, st, s.drop_last());
        let (value, st2) = walk_expr(r, st1, s.last().value);
        (front.push(NamedArgV { name: s.last().name, value, span: s.last().span }), st2)
    }
}

pub open spec fn walk_field_inits<S>(r: Rule<S>, st: S, s: Seq<FieldInitV>) -> (
    Seq<FieldInitV>,
    S,
)
    decreases s,
{
    if s.len() == 0 {
        (seq![], st)
    } else {
        let (front, st1) = walk_field_inits(r, st, s.drop_last());
        let (value, st2) = walk_expr(r, st1, s.last().value);
        (front.push(FieldInitV { name: s.last().name, value }), st2)
    }
}

pub open spec fn walk_call<S>(r: Rule<S>, st: S, c: CallV) -> (CallV, S)
    decreases c,
{
    let (callee, st1) = walk_expr(r, st, *c.callee);
    let (positional_args, st2) = walk_exprs(r, st1, c.positional_args);
    let (named_args, st3) = walk_named_args(r, st2, c.named_args);
    (CallV { callee: Box::new(callee), positional_args, named_args, type_args: c.type_args }, st3)
}

pub open spec fn walk_lambda_body<S>(r: Rule<S>, st: S, b: LambdaBodyV) -> (
    LambdaBodyV,
    S,
)
    decreases b,
{
    match b {
        LambdaBodyV::Expression(e) => {
            let (e1, st1) = walk_expr(r, st, *e);
            (LambdaBodyV::Expression(Box::new(e1)), st1)
        },
        LambdaBodyV::Block(block) => {
            let (block1, st1) = walk_block(r, st, block);
            (LambdaBodyV::Block(block1), st1)
        },
    }
}

pub open spec fn walk_expr_kind<S>(r: Rule<S>, st: S, k: ExprKindV) -> (
    ExprKindV,
    S,
)
    decreases k,
{
    match k {
        ExprKindV::Binary { op, left, right } => {
            let (left1, st1) = walk_expr(r, st, *left);
            let (right1, st2) = walk_expr(r, st1, *right);
            (ExprKindV::Binary { op, left: Box::new(left1), right: Box::new(right1) }, st2)
        },
        ExprKindV::Unary { operator, operand } => {
            let (operand1, st1) = walk_expr(r, st, *operand);
            (ExprKindV::Unary { operator, operand: Box::new(operand1) }, st1)
        },
        ExprKindV::Call(call) => {
            let (call1, st1) = walk_call(r, st, call);
            (ExprKindV::Call(call1), st1)
        },
        ExprKindV::Field { object, field } => {
            let (object1, st1) = walk_expr(r, st, *object);
            (ExprKindV::Field { object: Box::new(object1), field }, st1)
        },
        ExprKindV::Index { object, index } => {
            let (object1, st1) = walk_expr(r, st, *object);
            let (index1, st2) = walk_expr(r, st1, *index);
            (ExprKindV::Index { object: Box::new(object1), index: Box::new(index1) }, st2)
        },
        ExprKindV::Array(items) => {
            let (items1, st1) = walk_exprs(r, st, items);
            (ExprKindV::Array(items1), st1)
        },
        ExprKindV::Tuple(items) => {
            let (items1, st1) = walk_exprs(r, st, items);
            (ExprKindV::Tuple(items1), st1)
        },
        ExprKindV::Struct { name, fields } => {
            let (fields1, st1) = walk_field_inits(r, st, fields);
            (ExprKindV::Struct { name, fields: fields1 }, st1)
        },
        ExprKindV::MethodCall { receiver, method, positional_args, named_args, type_args } => {
            let (receiver1, st1) = walk_expr(r, st, *receiver);
            let (positional_args1, st2) = walk_exprs(r, st1, positional_args);
            let (named_args1, st3) = walk_named_args(r, st2, named_args);
            (
                ExprKindV::MethodCall {
                    receiver: Box::new(receiver1),
                    method,
                    positional_args: positional_args1,
                    named_args: named_args1,
                    type_args,
                },
                st3,
            )
        },
        ExprKindV::Block(block) => {
            let (block1, st1) = walk_block(r, st, block);
            (ExprKindV::Block(block1), st1)
        },
        ExprKindV::If { condition, then_branch, else_branch } => {
            let (condition1, st1) = walk_expr(r, st, *condition);
            let (then_branch1, st2) = walk_expr(r, st1, *then_branch);
            let (else_branch1, st3) = walk_expr(r, st2, *else_branch);
            (
                ExprKindV::If {
                    condition: Box::new(condition1),
                    then_branch: Box::new(then_branch1),
                    else_branch: Box::new(else_branch1),
                },
                st3,
            )
        },
        ExprKindV::Lambda { params, body } => {
            let (body1, st1) = walk_lambda_body(r, st, body);
            (ExprKindV::Lambda { params, body: body1 }, st1)
        },
        _ => (k, st),
    }
}

pub open spec fn walk_block<S>(r: Rule<S>, st: S, b: BlockV) -> (BlockV, S)
    decreases b,
{
    let (statements, st1) = walk_stmts(r, st, b.statements);
    (BlockV { statements: (r.block)(statements), span: b.span }, st1)
}

pub open spec fn walk_stmts<S>(r: Rule<S>, st: S, s: Seq<StmtV>) -> (
    Seq<StmtV>,
    S,
)
    decreases s,
{
    if s.len() == 0 {
        (seq![], st)
    } else {
        let (front, st1) = walk_stmts(r, st, s.drop_last());
        let (last, st2) = walk_stmt(r, st1, s.last());
        (front.push(last), st2)
    }
}

pub open spec fn walk_stmt<S>(r: Rule<S>, st: S, s: StmtV) -> (StmtV, S)
    decreases s,
{
    let (kind, st1) = walk_stmt_kind(r, st, s.kind);
    (StmtV { kind, ty: s.ty, span: s.span }, st1)
}

pub open spec fn walk_stmt_kind<S>(r: Rule<S>, st: S, k: StmtKindV) -> (
    StmtKindV,
    S,
)
    decreases k,
{
    match k {
        StmtKindV::Expression(e) => {
            let (e1, st1) = walk_expr(r, st, e);
            (StmtKindV::Expression(e1), st1)
        },
        StmtKindV::Let { name, ty, mutable, initializer: Some(e), span } => {
            let (e1, st1) = walk_expr(r, st, e);
            (StmtKindV::Let { name, ty, mutable, initializer: Some(e1), span }, st1)
        },
        StmtKindV::Return(Some(e)) => {
            let (e1, st1) = walk_expr(r, st, e);
            (StmtKindV::Return(Some(e1)), st1)
        },
        StmtKindV::If { condition, then_block, else_block, span } => {
            let (condition1, st1) = walk_expr(r, st, condition);
            let (then_block1, st2) = walk_block(r, st1, then_block);
            let (else_block1, st3) = match else_block {
                Some(b) => {
                    let (b1, st4) = walk_block(r, st2, b);
                    (Some(b1), st4)
                },
                None => (None, st2),
            };
            (
                StmtKindV::If {
                    condition: condition1,
                    then_block: then_block1,
                    else_block: else_block1,
                    span,
                },
                st3,
            )
        },
        StmtKindV::While { condition, body, span } => {
            let (condition1, st1) = walk_expr(r, st, condition);
            let (body1, st2) = walk_block(r, st1, body);
            (StmtKindV::While { condition: condition1, body: body1, span }, st2)
        },
        StmtKindV::Block(block) => {
            let (block1, st1) = walk_block(r, st, block);
            (StmtKindV::Block(block1), st1)
        },
        _ => (k, st),
    }
}

pub open spec fn walk_body<S>(r: Rule<S>, st: S, b: Option<BlockV>) -> (
    Option<BlockV>,
    S,
) {
    match b {
        Some(block) => {
            let (block1, st1) = walk_block(r, st, block);
            (Some(block1), st1)
        },
        None => (None, st),
    }
}

pub open spec fn walk_method<S>(r: Rule<S>, st: S, m: MethodV) -> (MethodV, S) {
    let (body, st1) = walk_body(r, st, m.body);
    (MethodV { body, ..m }, st1)
}

pub open spec fn walk_methods<S>(r: Rule<S>, st: S, s: Seq<MethodV>) -> (
    Seq<MethodV>,
    S,
)
    decreases s.len(),
{
    if s.len() == 0 {
        (seq![], st)
    } else {
        let (front, st1) = walk_methods(r, st, s.drop_last());
        let (last, st2) = walk_method(r, st1, s.last());
        (front.push(last), st2)
    }
}

/// The bodies of functions and of the methods of impl blocks are walked; other
/// declarations stay as they are.
pub open spec fn walk_decl<S>(r: Rule<S>, st: S, d: DeclV) -> (DeclV, S) {
    match d.kind {
        DeclKindV::Function(f) => {
            let (body, st1) = walk_body(r, st, f.body);
            (DeclV { kind: DeclKindV::Function(FunctionV { body, ..f }), ..d }, st1)
        },
        DeclKindV::Impl(i) => {
            let (methods, st1) = walk_methods(r, st, i.methods);
            (DeclV { kind: DeclKindV::Impl(ImplBlockV { methods, ..i }), ..d }, st1)
        },
        _ => (d, st),
    }
}

pub open spec fn walk_decls<S>(r: Rule<S>, st: S, s: Seq<DeclV>) -> (
    Seq<DeclV>,
    S,
)
    decreases s.len(),
{
    if s.len() == 0 {
        (seq![], st)
    } else {
        let (front, st1) = walk_decls(r, st, s.drop_last());
        let (last, st2) = walk_decl(r, st1, s.last());
        (front.push(last), st2)
    }
}

pub open spec fn walk_program<S>(r: Rule<S>, st: S, p: ProgramV) -> (
    ProgramV,
    S,
) {
    let (declarations, st1) = walk_decls(r, st, p.declarations);
    (ProgramV { declarations, type_registry: p.type_registry }, st1)
}

// ---------------------------------------------------------------------------
// The walk
// ---------------------------------------------------------------------------

pub fn rewrite_expr<R: Rewriter>(r: &R, st: &mut R::State, e: Expr) -> (out: Expr)
    ensures
        (out@, final(st)@) == walk_expr(r.rule(), old(st)@, e@),
    decreases e,
{
    let Expr { kind, ty, span } = e;
    let kind1 = rewrite_expr_kind(r, st, kind);
    r.apply_expr(st, Expr { kind: kind1, ty, span })
}

fn rewrite_exprs<R: Rewriter>(r: &R, st: &mut R::State, v: Vec<Expr>) -> (out: Vec<Expr>)
    ensures
        (exprs_view(out@), final(st)@) == walk_exprs(r.rule(), old(st)@, exprs_view(v@)),
    decreases v,
{
    let ghost v0 = v@;
    let mut out: Vec<Expr> = Vec::new();
    for x in it: v
        invariant
            it.seq() == v0,
            v0 == v@,
            (exprs_view(out@), st@) == walk_exprs(
                r.rule(),
                old(st)@,
                exprs_view(v0).take(it.index() as int),
            ),
    {
        proof {
            let i = it.index() as int;
            assert(exprs_view(v0).take(i + 1).drop_last() =~= exprs_view(v0).take(i));
            assert(decreases_to!(v => v@[i]));
        }
        let y = rewrite_expr(r, st, x);
        proof {
            assert(exprs_view(out@.push(y)) =~= exprs_view(out@).push(y@));
        }
        out.push(y);
    }
    assert(exprs_view(v0).take(v0.len() as int) =~= exprs_view(v0));
    out
}

fn rewrite_named_args<R: Rewriter>(r: &R, st: &mut R::State, v: Vec<NamedArg>) -> (out: Vec<
    NamedArg,
>)
    ensures
        (named_args_view(out@), final(st)@) == walk_named_args(
            r.rule(),
            old(st)@,
            named_args_view(v@),
        ),
    decreases v,
{
    let ghost v0 = v@;
    let mut out: Vec<NamedArg> = Vec::new();
    for x in it: v
        invariant
            it.seq() == v0,
            v0 == v@,
            (named_args_view(out@), st@) == walk_named_args(
                r.rule(),
                old(st)@,
                named_args_view(v0).take(it.index() as int),
            ),
    {
        proof {
            let i = it.index() as int;
            assert(named_args_view(v0).take(i + 1).drop_last() =~= named_args_view(v0).take(i));
            assert(decreases_to!(v => v@[i]));
        }
        let NamedArg { name, value, span } = x;
        let value1 = rewrite_expr(r, st, value);
        let y = NamedArg { name, value: value1, span };
        proof {
            assert(named_args_view(out@.push(y)) =~= named_args_view(out@).push(y@));
        }
        out.push(y);
    }
    assert(named_args_view(v0).take(v0.len() as int) =~= named_args_view(v0));
    out
}

fn rewrite_field_inits<R: Rewriter>(r: &R, st: &mut R::State, v: Vec<FieldInit>) -> (out: Vec<
    FieldInit,
>)
    ensures
        (field_inits_view(out@), final(st)@) == walk_field_inits(
            r.rule(),
            old(st)@,
            field_inits_view(v@),
        ),
    decreases v,
{
    let ghost v0 = v@;
    let mut out: Vec<FieldInit> = Vec::new();
    for x in it: v
        invariant
            it.seq() == v0,
            v0 == v@,
            (field_inits_view(out@), st@) == walk_field_inits(
                r.rule(),
                old(st)@,
                field_inits_view(v0).take(it.index() as int),
            ),
    {
        proof {
            let i = it.index() as int;
            assert(field_inits_view(v0).take(i + 1).drop_last() =~= field_inits_view(v0).take(i));
            assert(decreases_to!(v => v@[i]));
        }
        let FieldInit { name, value } = x;
        let value1 = rewrite_expr(r, st, value);
        let y = FieldInit { name, value: value1 };
        proof {
            assert(field_inits_view(out@.push(y)) =~= field_inits_view(out@).push(y@));
        }
        out.push(y);
    }
    assert(field_inits_view(v0).take(v0.len() as int) =~= field_inits_view(v0));
    out
}

fn rewrite_lambda_body<R: Rewriter>(r: &R, st: &mut R::State, b: LambdaBody) -> (out: LambdaBody)
    ensures
        (lambda_body_view(out), final(st)@) == walk_lambda_body(
            r.rule(),
            old(st)@,
            lambda_body_view(b),
        ),
    decreases b,
{
    match b {
        LambdaBody::Expression(e) => {
            let e1 = rewrite_expr(r, st, *e);
            LambdaBody::Expression(Box::new(e1))
        },
        LambdaBody::Block(block) => {
            let block1 = rewrite_block(r, st, block);
            LambdaBody::Block(block1)
        },
    }
}

fn rewrite_call<R: Rewriter>(r: &R, st: &mut R::State, c: Call) -> (out: Call)
    ensures
        (out@, final(st)@) == walk_call(r.rule(), old(st)@, c@),
    decreases c,
{
    let Call { callee, positional_args, named_args, type_args } = c;
    let callee1 = rewrite_expr(r, st, *callee);
    let positional_args1 = rewrite_exprs(r, st, positional_args);
    let named_args1 = rewrite_named_args(r, st, named_args);
    Call {
        callee: Box::new(callee1),
        positional_args: positional_args1,
        named_args: named_args1,
        type_args,
    }
}

fn rewrite_expr_kind<R: Rewriter>(r: &R, st: &mut R::State, k: ExprKind) -> (out: ExprKind)
    ensures
        (expr_kind_view(out), final(st)@) == walk_expr_kind(r.rule(), old(st)@, expr_kind_view(k)),
    decreases k,
{
    match k {
        ExprKind::Binary { op, left, right } => {
            let left1 = rewrite_expr(r, st, *left);
            let right1 = rewrite_expr(r, st, *right);
            ExprKind::Binary { op, left: Box::new(left1), right: Box::new(right1) }
        },
        ExprKind::Unary { operator, operand } => {
            let operand1 = rewrite_expr(r, st, *operand);
            ExprKind::Unary { operator, operand: Box::new(operand1) }
        },
        ExprKind::Call(call) => {
            let call1 = rewrite_call(r, st, call);
            ExprKind::Call(call1)
        },
        ExprKind::Field { object, field } => {
            let object1 = rewrite_expr(r, st, *object);
            ExprKind::Field { object: Box::new(object1), field }
        },
        ExprKind::Index { object, index } => {
            let object1 = rewrite_expr(r, st, *object);
            let index1 = rewrite_expr(r, st, *index);
            ExprKind::Index { object: Box::new(object1), index: Box::new(index1) }
        },
        ExprKind::Array(items) => {
            let items1 = rewrite_exprs(r, st, items);
            ExprKind::Array(items1)
        },
        ExprKind::Tuple(items) => {
            let items1 = rewrite_exprs(r, st, items);
            ExprKind::Tuple(items1)
        },
        ExprKind::Struct { name, fields } => {
            let fields1 = rewrite_field_inits(r, st, fields);
            ExprKind::Struct { name, fields: fields1 }
        },
        ExprKind::MethodCall { receiver, method, positional_args, named_args, type_args } => {
            let receiver1 = rewrite_expr(r, st, *receiver);
            let positional_args1 = rewrite_exprs(r, st, positional_args);
            let named_args1 = rewrite_named_args(r, st, named_args);
            ExprKind::MethodCall {
                receiver: Box::new(receiver1),
                method,
                positional_args: positional_args1,
                named_args: named_args1,
                type_args,
            }
        },
        ExprKind::Block(block) => {
            let block1 = rewrite_block(r, st, block);
            ExprKind::Block(block1)
        },
        ExprKind::If { condition, then_branch, else_branch } => {
            let condition1 = rewrite_expr(r, st, *condition);
            let then_branch1 = rewrite_expr(r, st, *then_branch);
            let else_branch1 = rewrite_expr(r, st, *else_branch);
            ExprKind::If {
                condition: Box::new(condition1),
                then_branch: Box::new(then_branch1),
                else_branch: Box::new(else_branch1),
            }
        },
        ExprKind::Lambda { params, body } => {
            let body1 = rewrite_lambda_body(r, st, body);
            ExprKind::Lambda { params, body: body1 }
        },
        other => other,
    }
}

pub fn rewrite_block<R: Rewriter>(r: &R, st: &mut R::State, b: Block) -> (out: Block)
    ensures
        (out@, final(st)@) == walk_block(r.rule(), old(st)@, b@),
    decreases b,
{
    let Block { statements, span } = b;
    let statements1 = rewrite_stmts(r, st, statements);
    Block { statements: r.apply_block(statements1), span }
}

fn rewrite_stmts<R: Rewriter>(r: &R, st: &mut R::State, v: Vec<Stmt>) -> (out: Vec<Stmt>)
    ensures
        (stmts_view(out@), final(st)@) == walk_stmts(r.rule(), old(st)@, stmts_view(v@)),
    decreases v,
{
    let ghost v0 = v@;
    let mut out: Vec<Stmt> = Vec::new();
    for x in it: v
        invariant
            it.seq() == v0,
            v0 == v@,
            (stmts_view(out@), st@) == walk_stmts(
                r.rule(),
                old(st)@,
                stmts_view(v0).take(it.index() as int),
            ),
    {
        proof {
            let i = it.index() as int;
            assert(stmts_view(v0).take(i + 1).drop_last() =~= stmts_view(v0).take(i));
            assert(decreases_to!(v => v@[i]));
        }
        let y = rewrite_stmt(r, st, x);
        proof {
            assert(stmts_view(out@.push(y)) =~= stmts_view(out@).push(y@));
        }
        out.push(y);
    }
    assert(stmts_view(v0).take(v0.len() as int) =~= stmts_view(v0));
    out
}

fn rewrite_stmt<R: Rewriter>(r: &R, st: &mut R::State, s: Stmt) -> (out: Stmt)
    ensures
        (out@, final(st)@) == walk_stmt(r.rule(), old(st)@, s@),
    decreases s,
{
    let Stmt { kind, ty, span } = s;
    let kind1 = rewrite_stmt_kind(r, st, kind);
    Stmt { kind: kind1, ty, span }
}

fn rewrite_stmt_kind<R: Rewriter>(r: &R, st: &mut R::State, k: StmtKind) -> (out: StmtKind)
    ensures
        (stmt_kind_view(out), final(st)@) == walk_stmt_kind(r.rule(), old(st)@, stmt_kind_view(k)),
    decreases k,
{
    match k {
        StmtKind::Expression(e) => {
            let e1 = rewrite_expr(r, st, e);
            StmtKind::Expression(e1)
        },
        StmtKind::Let { name, ty, mutable, initializer: Some(e), span } => {
            let e1 = rewrite_expr(r, st, e);
            StmtKind::Let { name, ty, mutable, initializer: Some(e1), span }
        },
        StmtKind::Return(Some(e)) => {
            let e1 = rewrite_expr(r, st, e);
            StmtKind::Return(Some(e1))
        },
        StmtKind::If { condition, then_block, else_block, span } => {
            let condition1 = rewrite_expr(r, st, condition);
            let then_block1 = rewrite_block(r, st, then_block);
            let else_block1 = match else_block {
                Some(b) => {
                    let b1 = rewrite_block(r, st, b);
                    Some(b1)
                },
                None => None,
            };
            StmtKind::If {
                condition: condition1,
                then_block: then_block1,
                else_block: else_block1,
                span,
            }
        },
        StmtKind::While { condition, body, span } => {
            let condition1 = rewrite_expr(r, st, condition);
            let body1 = rewrite_block(r, st, body);
            StmtKind::While { condition: condition1, body: body1, span }
        },
        StmtKind::Block(block) => {
            let block1 = rewrite_block(r, st, block);
            StmtKind::Block(block1)
        },
        other => other,
    }
}

fn rewrite_body<R: Rewriter>(r: &R, st: &mut R::State, b: Option<Block>) -> (out: Option<Block>)
    ensures
        (opt_view(out), final(st)@) == walk_body(r.rule(), old(st)@, opt_view(b)),
{
    match b {
        Some(block) => {
            let block1 = rewrite_block(r, st, block);
            Some(block1)
        },
        None => None,
    }
}

fn rewrite_methods<R: Rewriter>(r: &R, st: &mut R::State, v: Vec<Method>) -> (out: Vec<Method>)
    ensures
        (views(out@), final(st)@) == walk_methods(r.rule(), old(st)@, views(v@)),
{
    let ghost v0 = v@;
    let mut out: Vec<Method> = Vec::new();
    for x in it: v
        invariant
            it.seq() == v0,
            (views(out@), st@) == walk_methods(
                r.rule(),
                old(st)@,
                views(v0).take(it.index() as int),
            ),
    {
        proof {
            let i = it.index() as int;
            assert(views(v0).take(i + 1).drop_last() =~= views(v0).take(i));
        }
        let Method { name, params, return_type, body, details } = x;
        let body1 = rewrite_body(r, st, body);
        let y = Method { name, params, return_type, body: body1, details };
        proof {
            assert(views(out@.push(y)) =~= views(out@).push(y@));
        }
        out.push(y);
    }
    assert(views(v0).take(v0.len() as int) =~= views(v0));
    out
}

fn rewrite_decl<R: Rewriter>(r: &R, st: &mut R::State, d: Decl) -> (out: Decl)
    ensures
        (out@, final(st)@) == walk_decl(r.rule(), old(st)@, d@),
{
    let Decl { kind, ty, span } = d;
    match kind {
        DeclKind::Function(f) => {
            let mut f1 = f;
            let body = f1.body;
            f1.body = rewrite_body(r, st, body);
            Decl { kind: DeclKind::Function(f1), ty, span }
        },
        DeclKind::Impl(i) => {
            let ImplBlock { trait_name, for_type, methods, details } = i;
            let methods1 = rewrite_methods(r, st, methods);
            Decl {
                kind: DeclKind::Impl(
                    ImplBlock { trait_name, for_type, methods: methods1, details },
                ),
                ty,
                span,
            }
        },
        other => Decl { kind: other, ty, span },
    }
}

pub fn rewrite_decls<R: Rewriter>(r: &R, st: &mut R::State, v: Vec<Decl>) -> (out: Vec<Decl>)
    ensures
        (views(out@), final(st)@) == walk_decls(r.rule(), old(st)@, views(v@)),
{
    let ghost v0 = v@;
    let mut out: Vec<Decl> = Vec::new();
    for x in it: v
        invariant
            it.seq() == v0,
            (views(out@), st@) == walk_decls(
                r.rule(),
                old(st)@,
                views(v0).take(it.index() as int),
            ),
    {
        proof {
            let i = it.index() as int;
            assert(views(v0).take(i + 1).drop_last() =~= views(v0).take(i));
        }
        let y = rewrite_decl(r, st, x);
        proof {
            assert(views(out@.push(y)) =~= views(out@).push(y@));
        }
        out.push(y);
    }
    assert(views(v0).take(v0.len() as int) =~= views(v0));
    out
}

} // verus!
