//! Notes taken at every expression of a program, in program order.

use vstd::prelude::*;

use crate::ast::{
    expr_kind_view, exprs_view, field_inits_view, lambda_body_view, named_args_view, opt_view,
    stmt_kind_view, stmts_view, views, Block, Call, Decl, DeclKind, Expr, ExprKind, FieldInit,
    LambdaBody, Method, NamedArg, Program, Stmt, StmtKind,
};
use crate::everywhere::{
    in_block, in_body, in_call, in_decl, in_decls, in_expr, in_expr_kind, in_exprs, in_field_inits,
    in_lambda_body, in_methods, in_named_args, in_program, in_stmt, in_stmt_kind, in_stmts, Law,
};
use crate::messages::Messages;
use crate::model::{
    BlockV, CallV, DeclKindV, DeclV, ExprKindV, ExprV, FieldInitV, LambdaBodyV, MethodV, NamedArgV,
    ProgramV, StmtKindV, StmtV,
};

verus! {

/// What an inspection notes at an expression.
pub struct Inspection {
    pub note: spec_fn(ExprV) -> Seq<Seq<char>>,
}

/// An inspection that can be carried out.
pub trait Inspector: Sized {
    spec fn inspection(&self) -> Inspection;

    fn note_into(&self, e: &Expr, out: &mut Messages)
        ensures
            final(out)@ == old(out)@ + (self.inspection().note)(e@),
    ;
}

/// The notes on an expression: those on its children, then its own.
pub open spec fn expr_notes(c: Inspection, e: ExprV) -> Seq<Seq<char>>
    decreases e,
{
    expr_kind_notes(c, e.kind) + (c.note)(e)
}

pub open spec fn exprs_notes(c: Inspection, s: Seq<ExprV>) -> Seq<Seq<char>>
    decreases s,
{
    if s.len() == 0 {
        seq![]
    } else {
        exprs_notes(c, s.drop_last()) + expr_notes(c, s.last())
    }
}

pub open spec fn named_args_notes(c: Inspection, s: Seq<NamedArgV>) -> Seq<Seq<char>>
    decreases s,
{
    if s.len() == 0 {
        seq![]
    } else {
        named_args_notes(c, s.drop_last()) + expr_notes(c, s.last().value)
    }
}

pub open spec fn field_inits_notes(c: Inspection, s: Seq<FieldInitV>) -> Seq<Seq<char>>
    decreases s,
{
    if s.len() == 0 {
        seq![]
    } else {
        field_inits_notes(c, s.drop_last()) + expr_notes(c, s.last().value)
    }
}

pub open spec fn call_notes(c: Inspection, call: CallV) -> Seq<Seq<char>>
    decreases call,
{
    expr_notes(c, *call.callee) + exprs_notes(c, call.positional_args) + named_args_notes(
        c,
        call.named_args,
    )
}

pub open spec fn expr_kind_notes(c: Inspection, k: ExprKindV) -> Seq<Seq<char>>
    decreases k,
{
    match k {
        ExprKindV::Binary { op: _, left, right } => expr_notes(c, *left) + expr_notes(c, *right),
        ExprKindV::Unary { operator: _, operand } => expr_notes(c, *operand),
        ExprKindV::Call(call) => call_notes(c, call),
        ExprKindV::Field { object, field: _ } => expr_notes(c, *object),
        ExprKindV::Index { object, index } => expr_notes(c, *object) + expr_notes(c, *index),
        ExprKindV::Array(items) => exprs_notes(c, items),
        ExprKindV::Tuple(items) => exprs_notes(c, items),
        ExprKindV::Struct { name: _, fields } => field_inits_notes(c, fields),
        ExprKindV::MethodCall { receiver, positional_args, named_args, .. } => expr_notes(
            c,
            *receiver,
        ) + exprs_notes(c, positional_args) + named_args_notes(c, named_args),
        ExprKindV::Block(block) => block_notes(c, block),
        ExprKindV::If { condition, then_branch, else_branch } => expr_notes(
            c,
            *condition,
        ) + expr_notes(c, *then_branch) + expr_notes(c, *else_branch),
        ExprKindV::Lambda { params: _, body } => lambda_body_notes(c, body),
        _ => seq![],
    }
}

pub open spec fn lambda_body_notes(c: Inspection, b: LambdaBodyV) -> Seq<Seq<char>>
    decreases b,
{
    match b {
        LambdaBodyV::Expression(e) => expr_notes(c, *e),
        LambdaBodyV::Block(block) => block_notes(c, block),
    }
}

pub open spec fn block_notes(c: Inspection, b: BlockV) -> Seq<Seq<char>>
    decreases b,
{
    stmts_notes(c, b.statements)
}

pub open spec fn stmts_notes(c: Inspection, s: Seq<StmtV>) -> Seq<Seq<char>>
    decreases s,
{
    if s.len() == 0 {
        seq![]
    } else {
        stmts_notes(c, s.drop_last()) + stmt_notes(c, s.last())
    }
}

pub open spec fn stmt_notes(c: Inspection, s: StmtV) -> Seq<Seq<char>>
    decreases s,
{
    stmt_kind_notes(c, s.kind)
}

pub open spec fn stmt_kind_notes(c: Inspection, k: StmtKindV) -> Seq<Seq<char>>
    decreases k,
{
    match k {
        StmtKindV::Expression(e) => expr_notes(c, e),
        StmtKindV::Let { initializer: Some(e), .. } => expr_notes(c, e),
        StmtKindV::Return(Some(e)) => expr_notes(c, e),
        StmtKindV::If { condition, then_block, else_block, span: _ } => {
            let last = match else_block {
                Some(b) => block_notes(c, b),
                None => seq![],
            };
            expr_notes(c, condition) + block_notes(c, then_block) + last
        },
        StmtKindV::While { condition, body, span: _ } => expr_notes(c, condition) + block_notes(
            c,
            body,
        ),
        StmtKindV::Block(block) => block_notes(c, block),
        _ => seq![],
    }
}

pub open spec fn body_notes(c: Inspection, b: Option<BlockV>) -> Seq<Seq<char>> {
    match b {
        Some(block) => block_notes(c, block),
        None => seq![],
    }
}

pub open spec fn methods_notes(c: Inspection, s: Seq<MethodV>) -> Seq<Seq<char>>
    decreases s.len(),
{
    if s.len() == 0 {
        seq![]
    } else {
        methods_notes(c, s.drop_last()) + body_notes(c, s.last().body)
    }
}

pub open spec fn decl_notes(c: Inspection, d: DeclV) -> Seq<Seq<char>> {
    match d.kind {
        DeclKindV::Function(f) => body_notes(c, f.body),
        DeclKindV::Impl(i) => methods_notes(c, i.methods),
        _ => seq![],
    }
}

pub open spec fn decls_notes(c: Inspection, s: Seq<DeclV>) -> Seq<Seq<char>>
    decreases s.len(),
{
    if s.len() == 0 {
        seq![]
    } else {
        decls_notes(c, s.drop_last()) + decl_notes(c, s.last())
    }
}

/// The notes on a program: those on the bodies of its functions and methods.
pub open spec fn program_notes(c: Inspection, p: ProgramV) -> Seq<Seq<char>> {
    decls_notes(c, p.declarations)
}

// ---------------------------------------------------------------------------
// Taking the notes
// ---------------------------------------------------------------------------

fn inspect_expr<C: Inspector>(c: &C, e: &Expr, out: &mut Messages)
    ensures
        final(out)@ == old(out)@ + expr_notes(c.inspection(), e@),
    decreases e,
{
    let ghost out0 = out@;
    inspect_expr_kind(c, &e.kind, out);
    c.note_into(e, out);
    assert(out@ =~= out0 + expr_notes(c.inspection(), e@));
}

fn inspect_exprs<C: Inspector>(c: &C, v: &Vec<Expr>, out: &mut Messages)
    ensures
        final(out)@ == old(out)@ + exprs_notes(c.inspection(), exprs_view(v@)),
    decreases v,
{
    let ghost out0 = out@;
    let ghost all = exprs_view(v@);
    assert(out0 + exprs_notes(c.inspection(), all.take(0)) =~= out0);
    for i in 0..v.len()
        invariant
            all == exprs_view(v@),
            out@ == out0 + exprs_notes(c.inspection(), all.take(i as int)),
    {
        proof {
            assert(all.take(i + 1).drop_last() =~= all.take(i as int));
            assert(decreases_to!(v => v@[i as int]));
        }
        inspect_expr(c, &v[i], out);
        assert(out@ =~= out0 + exprs_notes(c.inspection(), all.take(i + 1)));
    }
    assert(all.take(all.len() as int) =~= all);
}

fn inspect_named_args<C: Inspector>(c: &C, v: &Vec<NamedArg>, out: &mut Messages)
    ensures
        final(out)@ == old(out)@ + named_args_notes(c.inspection(), named_args_view(v@)),
    decreases v,
{
    let ghost out0 = out@;
    let ghost all = named_args_view(v@);
    assert(out0 + named_args_notes(c.inspection(), all.take(0)) =~= out0);
    for i in 0..v.len()
        invariant
            all == named_args_view(v@),
            out@ == out0 + named_args_notes(c.inspection(), all.take(i as int)),
    {
        proof {
            assert(all.take(i + 1).drop_last() =~= all.take(i as int));
            assert(decreases_to!(v => v@[i as int]));
        }
        inspect_expr(c, &v[i].value, out);
        assert(out@ =~= out0 + named_args_notes(c.inspection(), all.take(i + 1)));
    }
    assert(all.take(all.len() as int) =~= all);
}

fn inspect_field_inits<C: Inspector>(c: &C, v: &Vec<FieldInit>, out: &mut Messages)
    ensures
        final(out)@ == old(out)@ + field_inits_notes(c.inspection(), field_inits_view(v@)),
    decreases v,
{
    let ghost out0 = out@;
    let ghost all = field_inits_view(v@);
    assert(out0 + field_inits_notes(c.inspection(), all.take(0)) =~= out0);
    for i in 0..v.len()
        invariant
            all == field_inits_view(v@),
            out@ == out0 + field_inits_notes(c.inspection(), all.take(i as int)),
    {
        proof {
            assert(all.take(i + 1).drop_last() =~= all.take(i as int));
            assert(decreases_to!(v => v@[i as int]));
        }
        inspect_expr(c, &v[i].value, out);
        assert(out@ =~= out0 + field_inits_notes(c.inspection(), all.take(i + 1)));
    }
    assert(all.take(all.len() as int) =~= all);
}

fn inspect_call<C: Inspector>(c: &C, call: &Call, out: &mut Messages)
    ensures
        final(out)@ == old(out)@ + call_notes(c.inspection(), call@),
    decreases call,
{
    let ghost out0 = out@;
    inspect_expr(c, &call.callee, out);
    inspect_exprs(c, &call.positional_args, out);
    inspect_named_args(c, &call.named_args, out);
    assert(out@ =~= out0 + call_notes(c.inspection(), call@));
}

fn inspect_expr_kind<C: Inspector>(c: &C, k: &ExprKind, out: &mut Messages)
    ensures
        final(out)@ == old(out)@ + expr_kind_notes(c.inspection(), expr_kind_view(*k)),
    decreases k,
{
    let ghost out0 = out@;
    match k {
        ExprKind::Binary { op: _, left, right } => {
            inspect_expr(c, left, out);
            inspect_expr(c, right, out);
        },
        ExprKind::Unary { operator: _, operand } => {
            inspect_expr(c, operand, out);
        },
        ExprKind::Call(call) => {
            inspect_call(c, call, out);
        },
        ExprKind::Field { object, field: _ } => {
            inspect_expr(c, object, out);
        },
        ExprKind::Index { object, index } => {
            inspect_expr(c, object, out);
            inspect_expr(c, index, out);
        },
        ExprKind::Array(items) => {
            inspect_exprs(c, items, out);
        },
        ExprKind::Tuple(items) => {
            inspect_exprs(c, items, out);
        },
        ExprKind::Struct { name: _, fields } => {
            inspect_field_inits(c, fields, out);
        },
        ExprKind::MethodCall { receiver, positional_args, named_args, .. } => {
            inspect_expr(c, receiver, out);
            inspect_exprs(c, positional_args, out);
            inspect_named_args(c, named_args, out);
        },
        ExprKind::Block(block) => {
            inspect_block(c, block, out);
        },
        ExprKind::If { condition, then_branch, else_branch } => {
            inspect_expr(c, condition, out);
            inspect_expr(c, then_branch, out);
            inspect_expr(c, else_branch, out);
        },
        ExprKind::Lambda { params: _, body } => {
            match body {
                LambdaBody::Expression(e) => {
                    inspect_expr(c, e, out);
                },
                LambdaBody::Block(block) => {
                    inspect_block(c, block, out);
                },
            }
            assert(expr_kind_notes(c.inspection(), expr_kind_view(*k)) == lambda_body_notes(
                c.inspection(),
                lambda_body_view(*body),
            ));
        },
        _ => {},
    }
    assert(out@ =~= out0 + expr_kind_notes(c.inspection(), expr_kind_view(*k)));
}

fn inspect_block<C: Inspector>(c: &C, b: &Block, out: &mut Messages)
    ensures
        final(out)@ == old(out)@ + block_notes(c.inspection(), b@),
    decreases b,
{
    inspect_stmts(c, &b.statements, out);
}

fn inspect_stmts<C: Inspector>(c: &C, v: &Vec<Stmt>, out: &mut Messages)
    ensures
        final(out)@ == old(out)@ + stmts_notes(c.inspection(), stmts_view(v@)),
    decreases v,
{
    let ghost out0 = out@;
    let ghost all = stmts_view(v@);
    assert(out0 + stmts_notes(c.inspection(), all.take(0)) =~= out0);
    for i in 0..v.len()
        invariant
            all == stmts_view(v@),
            out@ == out0 + stmts_notes(c.inspection(), all.take(i as int)),
    {
        proof {
            assert(all.take(i + 1).drop_last() =~= all.take(i as int));
            assert(decreases_to!(v => v@[i as int]));
        }
        inspect_stmt(c, &v[i], out);
        assert(out@ =~= out0 + stmts_notes(c.inspection(), all.take(i + 1)));
    }
    assert(all.take(all.len() as int) =~= all);
}

fn inspect_stmt<C: Inspector>(c: &C, s: &Stmt, out: &mut Messages)
    ensures
        final(out)@ == old(out)@ + stmt_notes(c.inspection(), s@),
    decreases s,
{
    inspect_stmt_kind(c, &s.kind, out);
}

fn inspect_stmt_kind<C: Inspector>(c: &C, k: &StmtKind, out: &mut Messages)
    ensures
        final(out)@ == old(out)@ + stmt_kind_notes(c.inspection(), stmt_kind_view(*k)),
    decreases k,
{
    let ghost out0 = out@;
    match k {
        StmtKind::Expression(e) => {
            inspect_expr(c, e, out);
        },
        StmtKind::Let { initializer: Some(e), .. } => {
            inspect_expr(c, e, out);
        },
        StmtKind::Return(Some(e)) => {
            inspect_expr(c, e, out);
        },
        StmtKind::If { condition, then_block, else_block, span: _ } => {
            inspect_expr(c, condition, out);
            inspect_block(c, then_block, out);
            match else_block {
                Some(b) => {
                    inspect_block(c, b, out);
                },
                None => {},
            }
        },
        StmtKind::While { condition, body, span: _ } => {
            inspect_expr(c, condition, out);
            inspect_block(c, body, out);
        },
        StmtKind::Block(block) => {
            inspect_block(c, block, out);
        },
        _ => {},
    }
    assert(out@ =~= out0 + stmt_kind_notes(c.inspection(), stmt_kind_view(*k)));
}

fn inspect_body<C: Inspector>(c: &C, b: &Option<Block>, out: &mut Messages)
    ensures
        final(out)@ == old(out)@ + body_notes(c.inspection(), opt_view(*b)),
{
    match b {
        Some(block) => {
            inspect_block(c, block, out);
        },
        None => {
            assert(out@ + Seq::<Seq<char>>::empty() =~= out@);
        },
    }
}

fn inspect_methods<C: Inspector>(c: &C, v: &Vec<Method>, out: &mut Messages)
    ensures
        final(out)@ == old(out)@ + methods_notes(c.inspection(), views(v@)),
{
    let ghost out0 = out@;
    let ghost all = views(v@);
    assert(out0 + methods_notes(c.inspection(), all.take(0)) =~= out0);
    for i in 0..v.len()
        invariant
            all == views(v@),
            out@ == out0 + methods_notes(c.inspection(), all.take(i as int)),
    {
        proof {
            assert(all.take(i + 1).drop_last() =~= all.take(i as int));
        }
        inspect_body(c, &v[i].body, out);
        assert(out@ =~= out0 + methods_notes(c.inspection(), all.take(i + 1)));
    }
    assert(all.take(all.len() as int) =~= all);
}

fn inspect_decl<C: Inspector>(c: &C, d: &Decl, out: &mut Messages)
    ensures
        final(out)@ == old(out)@ + decl_notes(c.inspection(), d@),
{
    match &d.kind {
        DeclKind::Function(f) => {
            inspect_body(c, &f.body, out);
        },
        DeclKind::Impl(i) => {
            inspect_methods(c, &i.methods, out);
        },
        _ => {
            assert(out@ + Seq::<Seq<char>>::empty() =~= out@);
        },
    }
}

fn inspect_decls<C: Inspector>(c: &C, v: &Vec<Decl>, out: &mut Messages)
    ensures
        final(out)@ == old(out)@ + decls_notes(c.inspection(), views(v@)),
{
    let ghost out0 = out@;
    let ghost all = views(v@);
    assert(out0 + decls_notes(c.inspection(), all.take(0)) =~= out0);
    for i in 0..v.len()
        invariant
            all == views(v@),
            out@ == out0 + decls_notes(c.inspection(), all.take(i as int)),
    {
        proof {
            assert(all.take(i + 1).drop_last() =~= all.take(i as int));
        }
        inspect_decl(c, &v[i], out);
        assert(out@ =~= out0 + decls_notes(c.inspection(), all.take(i + 1)));
    }
    assert(all.take(all.len() as int) =~= all);
}

/// Take the notes of a check on a whole program.
pub fn inspect_program<C: Inspector>(c: &C, p: &Program) -> (out: Messages)
    ensures
        out@ == program_notes(c.inspection(), p@),
{
    let mut out = Messages::new();
    inspect_decls(c, &p.declarations, &mut out);
    assert(out@ =~= program_notes(c.inspection(), p@));
    out
}

// ---------------------------------------------------------------------------
// When there is nothing to note
// ---------------------------------------------------------------------------

/// The law that there is nothing to note at an expression.
pub open spec fn quiet(c: Inspection) -> Law {
    Law { p: |e: ExprV| (c.note)(e).len() == 0, q: |s: Seq<StmtV>| true }
}

proof fn quiet_expr(c: Inspection, e: ExprV)
    ensures
        expr_notes(c, e).len() == 0 <==> in_expr(quiet(c), e),
    decreases e,
{
    quiet_expr_kind(c, e.kind);
}

proof fn quiet_exprs(c: Inspection, s: Seq<ExprV>)
    ensures
        exprs_notes(c, s).len() == 0 <==> in_exprs(quiet(c), s),
    decreases s,
{
    if s.len() > 0 {
        let front = s.drop_last();
        quiet_exprs(c, front);
        quiet_expr(c, s.last());
        if in_exprs(quiet(c), s) {
            assert forall|i: int| 0 <= i < front.len() implies in_expr(
                quiet(c),
                #[trigger] front[i],
            ) by {
                assert(front[i] == s[i]);
            }
            assert(in_expr(quiet(c), s[s.len() - 1]));
        }
        if exprs_notes(c, s).len() == 0 {
            assert(exprs_notes(c, front).len() == 0);
            assert forall|i: int| 0 <= i < s.len() implies in_expr(quiet(c), (#[trigger] s[i])) by {
                if i < front.len() {
                    assert(s[i] == front[i]);
                }
            }
        }
    }
}

proof fn quiet_named_args(c: Inspection, s: Seq<NamedArgV>)
    ensures
        named_args_notes(c, s).len() == 0 <==> in_named_args(quiet(c), s),
    decreases s,
{
    if s.len() > 0 {
        let front = s.drop_last();
        quiet_named_args(c, front);
        quiet_expr(c, s.last().value);
        if in_named_args(quiet(c), s) {
            assert forall|i: int| 0 <= i < front.len() implies in_expr(
                quiet(c),
                (#[trigger] front[i]).value,
            ) by {
                assert(front[i] == s[i]);
            }
            assert(in_expr(quiet(c), s[s.len() - 1].value));
        }
        if named_args_notes(c, s).len() == 0 {
            assert(named_args_notes(c, front).len() == 0);
            assert forall|i: int| 0 <= i < s.len() implies in_expr(
                quiet(c),
                (#[trigger] s[i]).value,
            ) by {
                if i < front.len() {
                    assert(s[i] == front[i]);
                }
            }
        }
    }
}

proof fn quiet_field_inits(c: Inspection, s: Seq<FieldInitV>)
    ensures
        field_inits_notes(c, s).len() == 0 <==> in_field_inits(quiet(c), s),
    decreases s,
{
    if s.len() > 0 {
        let front = s.drop_last();
        quiet_field_inits(c, front);
        quiet_expr(c, s.last().value);
        if in_field_inits(quiet(c), s) {
            assert forall|i: int| 0 <= i < front.len() implies in_expr(
                quiet(c),
                (#[trigger] front[i]).value,
            ) by {
                assert(front[i] == s[i]);
            }
            assert(in_expr(quiet(c), s[s.len() - 1].value));
        }
        if field_inits_notes(c, s).len() == 0 {
            assert(field_inits_notes(c, front).len() == 0);
            assert forall|i: int| 0 <= i < s.len() implies in_expr(
                quiet(c),
                (#[trigger] s[i]).value,
            ) by {
                if i < front.len() {
                    assert(s[i] == front[i]);
                }
            }
        }
    }
}

proof fn quiet_expr_kind(c: Inspection, k: ExprKindV)
    ensures
        expr_kind_notes(c, k).len() == 0 <==> in_expr_kind(quiet(c), k),
    decreases k,
{
    match k {
        ExprKindV::Binary { op: _, left, right } => {
            quiet_expr(c, *left);
            quiet_expr(c, *right);
        },
        ExprKindV::Unary { operator: _, operand } => {
            quiet_expr(c, *operand);
        },
        ExprKindV::Call(call) => {
            quiet_expr(c, *call.callee);
            quiet_exprs(c, call.positional_args);
            quiet_named_args(c, call.named_args);
            assert(call_notes(c, call).len() == 0 <==> in_call(quiet(c), call));
        },
        ExprKindV::Field { object, field: _ } => {
            quiet_expr(c, *object);
        },
        ExprKindV::Index { object, index } => {
            quiet_expr(c, *object);
            quiet_expr(c, *index);
        },
        ExprKindV::Array(items) => {
            quiet_exprs(c, items);
        },
        ExprKindV::Tuple(items) => {
            quiet_exprs(c, items);
        },
        ExprKindV::Struct { name: _, fields } => {
            quiet_field_inits(c, fields);
        },
        ExprKindV::MethodCall { receiver, positional_args, named_args, .. } => {
            quiet_expr(c, *receiver);
            quiet_exprs(c, positional_args);
            quiet_named_args(c, named_args);
        },
        ExprKindV::Block(block) => {
            quiet_block(c, block);
        },
        ExprKindV::If { condition, then_branch, else_branch } => {
            quiet_expr(c, *condition);
            quiet_expr(c, *then_branch);
            quiet_expr(c, *else_branch);
        },
        ExprKindV::Lambda { params: _, body } => {
            match body {
                LambdaBodyV::Expression(e) => {
                    quiet_expr(c, *e);
                },
                LambdaBodyV::Block(block) => {
                    quiet_block(c, block);
                },
            }
            assert(lambda_body_notes(c, body).len() == 0 <==> in_lambda_body(quiet(c), body));
        },
        _ => {},
    }
}

proof fn quiet_block(c: Inspection, b: BlockV)
    ensures
        block_notes(c, b).len() == 0 <==> in_block(quiet(c), b),
    decreases b,
{
    quiet_stmts(c, b.statements);
}

proof fn quiet_stmts(c: Inspection, s: Seq<StmtV>)
    ensures
        stmts_notes(c, s).len() == 0 <==> in_stmts(quiet(c), s),
    decreases s,
{
    if s.len() > 0 {
        let front = s.drop_last();
        quiet_stmts(c, front);
        quiet_stmt(c, s.last());
        if in_stmts(quiet(c), s) {
            assert forall|i: int| 0 <= i < front.len() implies in_stmt(
                quiet(c),
                #[trigger] front[i],
            ) by {
                assert(front[i] == s[i]);
            }
            assert(in_stmt(quiet(c), s[s.len() - 1]));
        }
        if stmts_notes(c, s).len() == 0 {
            assert(stmts_notes(c, front).len() == 0);
            assert forall|i: int| 0 <= i < s.len() implies in_stmt(quiet(c), (#[trigger] s[i])) by {
                if i < front.len() {
                    assert(s[i] == front[i]);
                }
            }
        }
    }
}

proof fn quiet_stmt(c: Inspection, s: StmtV)
    ensures
        stmt_notes(c, s).len() == 0 <==> in_stmt(quiet(c), s),
    decreases s,
{
    quiet_stmt_kind(c, s.kind);
}

proof fn quiet_stmt_kind(c: Inspection, k: StmtKindV)
    ensures
        stmt_kind_notes(c, k).len() == 0 <==> in_stmt_kind(quiet(c), k),
    decreases k,
{
    match k {
        StmtKindV::Expression(e) => {
            quiet_expr(c, e);
        },
        StmtKindV::Let { initializer: Some(e), .. } => {
            quiet_expr(c, e);
        },
        StmtKindV::Return(Some(e)) => {
            quiet_expr(c, e);
        },
        StmtKindV::If { condition, then_block, else_block, span: _ } => {
            quiet_expr(c, condition);
            quiet_block(c, then_block);
            match else_block {
                Some(b) => {
                    quiet_block(c, b);
                },
                None => {},
            }
        },
        StmtKindV::While { condition, body, span: _ } => {
            quiet_expr(c, condition);
            quiet_block(c, body);
        },
        StmtKindV::Block(block) => {
            quiet_block(c, block);
        },
        _ => {},
    }
}

proof fn quiet_body(c: Inspection, b: Option<BlockV>)
    ensures
        body_notes(c, b).len() == 0 <==> in_body(quiet(c), b),
{
    match b {
        Some(block) => {
            quiet_block(c, block);
        },
        None => {},
    }
}

proof fn quiet_methods(c: Inspection, s: Seq<MethodV>)
    ensures
        methods_notes(c, s).len() == 0 <==> in_methods(quiet(c), s),
    decreases s.len(),
{
    if s.len() > 0 {
        let front = s.drop_last();
        quiet_methods(c, front);
        quiet_body(c, s.last().body);
        if in_methods(quiet(c), s) {
            assert forall|i: int| 0 <= i < front.len() implies in_body(
                quiet(c),
                (#[trigger] front[i]).body,
            ) by {
                assert(front[i] == s[i]);
            }
            assert(in_body(quiet(c), s[s.len() - 1].body));
        }
        if methods_notes(c, s).len() == 0 {
            assert(methods_notes(c, front).len() == 0);
            assert forall|i: int| 0 <= i < s.len() implies in_body(
                quiet(c),
                (#[trigger] s[i]).body,
            ) by {
                if i < front.len() {
                    assert(s[i] == front[i]);
                }
            }
        }
    }
}

proof fn quiet_decl(c: Inspection, d: DeclV)
    ensures
        decl_notes(c, d).len() == 0 <==> in_decl(quiet(c), d),
{
    match d.kind {
        DeclKindV::Function(f) => {
            quiet_body(c, f.body);
        },
        DeclKindV::Impl(i) => {
            quiet_methods(c, i.methods);
        },
        _ => {},
    }
}

proof fn quiet_decls(c: Inspection, s: Seq<DeclV>)
    ensures
        decls_notes(c, s).len() == 0 <==> in_decls(quiet(c), s),
    decreases s.len(),
{
    if s.len() > 0 {
        let front = s.drop_last();
        quiet_decls(c, front);
        quiet_decl(c, s.last());
        if in_decls(quiet(c), s) {
            assert forall|i: int| 0 <= i < front.len() implies in_decl(
                quiet(c),
                #[trigger] front[i],
            ) by {
                assert(front[i] == s[i]);
            }
            assert(in_decl(quiet(c), s[s.len() - 1]));
        }
        if decls_notes(c, s).len() == 0 {
            assert(decls_notes(c, front).len() == 0);
            assert forall|i: int| 0 <= i < s.len() implies in_decl(quiet(c), (#[trigger] s[i])) by {
                if i < front.len() {
                    assert(s[i] == front[i]);
                }
            }
        }
    }
}

/// An inspection notes nothing on a program exactly when there is nothing to
/// note at any expression.
pub proof fn quiet_program(c: Inspection, p: ProgramV)
    ensures
        program_notes(c, p).len() == 0 <==> in_program(quiet(c), p),
{
    quiet_decls(c, p.declarations);
}

} // verus!
