//! Walks and inspections visit the same expressions in the same order, each
//! once.

use vstd::prelude::*;

use crate::model::{
    BlockV, CallV, DeclKindV, DeclV, ExprKindV, ExprV, FieldInitV, LambdaBodyV, MethodV, NamedArgV,
    ProgramV, StmtKindV, StmtV,
};
use crate::notes::{
    block_notes, body_notes, call_notes, decl_notes, decls_notes, expr_kind_notes, expr_notes,
    exprs_notes, field_inits_notes, lambda_body_notes, methods_notes, named_args_notes,
    program_notes, stmt_kind_notes, stmt_notes, stmts_notes, Inspection,
};
use crate::walk::{
    walk_block, walk_body, walk_call, walk_decl, walk_decls, walk_expr, walk_expr_kind, walk_exprs,
    walk_field_inits, walk_lambda_body, walk_method, walk_methods, walk_named_args, walk_program,
    walk_stmt, walk_stmt_kind, walk_stmts, Rule,
};

verus! {

/// The rule that changes nothing and logs what an inspection notes.
pub open spec fn log_rule(c: Inspection) -> Rule<Seq<Seq<char>>> {
    Rule {
        expr: |log: Seq<Seq<char>>, e: ExprV| (e, log + (c.note)(e)),
        block: |s: Seq<StmtV>| s,
    }
}

proof fn regroup(a: Seq<Seq<char>>, b: Seq<Seq<char>>, c: Seq<Seq<char>>)
    ensures
        a + b + c == a + (b + c),
{
    assert(a + b + c =~= a + (b + c));
}

proof fn nothing_logged(log: Seq<Seq<char>>)
    ensures
        log + Seq::<Seq<char>>::empty() == log,
{
    assert(log + Seq::<Seq<char>>::empty() =~= log);
}

proof fn log_expr(c: Inspection, log: Seq<Seq<char>>, e: ExprV)
    ensures
        walk_expr(log_rule(c), log, e) == (e, log + expr_notes(c, e)),
    decreases e,
{
    log_expr_kind(c, log, e.kind);
    regroup(log, expr_kind_notes(c, e.kind), (c.note)(e));
}

proof fn log_exprs(c: Inspection, log: Seq<Seq<char>>, s: Seq<ExprV>)
    ensures
        walk_exprs(log_rule(c), log, s) == (s, log + exprs_notes(c, s)),
    decreases s,
{
    if s.len() > 0 {
        let front = exprs_notes(c, s.drop_last());
        log_exprs(c, log, s.drop_last());
        log_expr(c, log + front, s.last());
        regroup(log, front, expr_notes(c, s.last()));
        assert(s.drop_last().push(s.last()) =~= s);
    } else {
        nothing_logged(log);
        assert(s =~= seq![]);
    }
}

proof fn log_named_args(c: Inspection, log: Seq<Seq<char>>, s: Seq<NamedArgV>)
    ensures
        walk_named_args(log_rule(c), log, s) == (s, log + named_args_notes(c, s)),
    decreases s,
{
    if s.len() > 0 {
        let front = named_args_notes(c, s.drop_last());
        log_named_args(c, log, s.drop_last());
        log_expr(c, log + front, s.last().value);
        regroup(log, front, expr_notes(c, s.last().value));
        assert(s.drop_last().push(s.last()) =~= s);
    } else {
        nothing_logged(log);
        assert(s =~= seq![]);
    }
}

proof fn log_field_inits(c: Inspection, log: Seq<Seq<char>>, s: Seq<FieldInitV>)
    ensures
        walk_field_inits(log_rule(c), log, s) == (s, log + field_inits_notes(c, s)),
    decreases s,
{
    if s.len() > 0 {
        let front = field_inits_notes(c, s.drop_last());
        log_field_inits(c, log, s.drop_last());
        log_expr(c, log + front, s.last().value);
        regroup(log, front, expr_notes(c, s.last().value));
        assert(s.drop_last().push(s.last()) =~= s);
    } else {
        nothing_logged(log);
        assert(s =~= seq![]);
    }
}

proof fn log_call(c: Inspection, log: Seq<Seq<char>>, call: CallV)
    ensures
        walk_call(log_rule(c), log, call) == (call, log + call_notes(c, call)),
    decreases call,
{
    let n1 = expr_notes(c, *call.callee);
    let n2 = exprs_notes(c, call.positional_args);
    let n3 = named_args_notes(c, call.named_args);
    log_expr(c, log, *call.callee);
    log_exprs(c, log + n1, call.positional_args);
    log_named_args(c, log + n1 + n2, call.named_args);
    regroup(log, n1, n2);
    regroup(log, n1 + n2, n3);
}

proof fn log_lambda_body(c: Inspection, log: Seq<Seq<char>>, b: LambdaBodyV)
    ensures
        walk_lambda_body(log_rule(c), log, b) == (b, log + lambda_body_notes(c, b)),
    decreases b,
{
    match b {
        LambdaBodyV::Expression(e) => {
            log_expr(c, log, *e);
        },
        LambdaBodyV::Block(block) => {
            log_block(c, log, block);
        },
    }
}

proof fn log_expr_kind(c: Inspection, log: Seq<Seq<char>>, k: ExprKindV)
    ensures
        walk_expr_kind(log_rule(c), log, k) == (k, log + expr_kind_notes(c, k)),
    decreases k,
{
    nothing_logged(log);
    match k {
        ExprKindV::Binary { op: _, left, right } => {
            log_expr(c, log, *left);
            log_expr(c, log + expr_notes(c, *left), *right);
            regroup(log, expr_notes(c, *left), expr_notes(c, *right));
        },
        ExprKindV::Unary { operator: _, operand } => {
            log_expr(c, log, *operand);
        },
        ExprKindV::Call(call) => {
            log_call(c, log, call);
        },
        ExprKindV::Field { object, field: _ } => {
            log_expr(c, log, *object);
        },
        ExprKindV::Index { object, index } => {
            log_expr(c, log, *object);
            log_expr(c, log + expr_notes(c, *object), *index);
            regroup(log, expr_notes(c, *object), expr_notes(c, *index));
        },
        ExprKindV::Array(items) => {
            log_exprs(c, log, items);
        },
        ExprKindV::Tuple(items) => {
            log_exprs(c, log, items);
        },
        ExprKindV::Struct { name: _, fields } => {
            log_field_inits(c, log, fields);
        },
        ExprKindV::MethodCall { receiver, positional_args, named_args, .. } => {
            let n1 = expr_notes(c, *receiver);
            let n2 = exprs_notes(c, positional_args);
            let n3 = named_args_notes(c, named_args);
            log_expr(c, log, *receiver);
            log_exprs(c, log + n1, positional_args);
            log_named_args(c, log + n1 + n2, named_args);
            regroup(log, n1, n2);
            regroup(log, n1 + n2, n3);
        },
        ExprKindV::Block(block) => {
            log_block(c, log, block);
        },
        ExprKindV::If { condition, then_branch, else_branch } => {
            let n1 = expr_notes(c, *condition);
            let n2 = expr_notes(c, *then_branch);
            let n3 = expr_notes(c, *else_branch);
            log_expr(c, log, *condition);
            log_expr(c, log + n1, *then_branch);
            log_expr(c, log + n1 + n2, *else_branch);
            regroup(log, n1, n2);
            regroup(log, n1 + n2, n3);
        },
        ExprKindV::Lambda { params: _, body } => {
            log_lambda_body(c, log, body);
        },
        _ => {},
    }
}

proof fn log_block(c: Inspection, log: Seq<Seq<char>>, b: BlockV)
    ensures
        walk_block(log_rule(c), log, b) == (b, log + block_notes(c, b)),
    decreases b,
{
    log_stmts(c, log, b.statements);
}

proof fn log_stmts(c: Inspection, log: Seq<Seq<char>>, s: Seq<StmtV>)
    ensures
        walk_stmts(log_rule(c), log, s) == (s, log + stmts_notes(c, s)),
    decreases s,
{
    if s.len() > 0 {
        let front = stmts_notes(c, s.drop_last());
        log_stmts(c, log, s.drop_last());
        log_stmt(c, log + front, s.last());
        regroup(log, front, stmt_notes(c, s.last()));
        assert(s.drop_last().push(s.last()) =~= s);
    } else {
        nothing_logged(log);
        assert(s =~= seq![]);
    }
}

proof fn log_stmt(c: Inspection, log: Seq<Seq<char>>, s: StmtV)
    ensures
        walk_stmt(log_rule(c), log, s) == (s, log + stmt_notes(c, s)),
    decreases s,
{
    log_stmt_kind(c, log, s.kind);
}

proof fn log_stmt_kind(c: Inspection, log: Seq<Seq<char>>, k: StmtKindV)
    ensures
        walk_stmt_kind(log_rule(c), log, k) == (k, log + stmt_kind_notes(c, k)),
    decreases k,
{
    nothing_logged(log);
    match k {
        StmtKindV::Expression(e) => {
            log_expr(c, log, e);
        },
        StmtKindV::Let { initializer: Some(e), .. } => {
            log_expr(c, log, e);
        },
        StmtKindV::Return(Some(e)) => {
            log_expr(c, log, e);
        },
        StmtKindV::If { condition, then_block, else_block, span: _ } => {
            let n1 = expr_notes(c, condition);
            let n2 = block_notes(c, then_block);
            log_expr(c, log, condition);
            log_block(c, log + n1, then_block);
            regroup(log, n1, n2);
            match else_block {
                Some(b) => {
                    log_block(c, log + n1 + n2, b);
                    regroup(log, n1 + n2, block_notes(c, b));
                },
                None => {
                    nothing_logged(n1 + n2);
                },
            }
        },
        StmtKindV::While { condition, body, span: _ } => {
            log_expr(c, log, condition);
            log_block(c, log + expr_notes(c, condition), body);
            regroup(log, expr_notes(c, condition), block_notes(c, body));
        },
        StmtKindV::Block(block) => {
            log_block(c, log, block);
        },
        _ => {},
    }
}

proof fn log_body(c: Inspection, log: Seq<Seq<char>>, b: Option<BlockV>)
    ensures
        walk_body(log_rule(c), log, b) == (b, log + body_notes(c, b)),
{
    nothing_logged(log);
    match b {
        Some(block) => {
            log_block(c, log, block);
        },
        None => {},
    }
}

proof fn log_methods(c: Inspection, log: Seq<Seq<char>>, s: Seq<MethodV>)
    ensures
        walk_methods(log_rule(c), log, s) == (s, log + methods_notes(c, s)),
    decreases s.len(),
{
    if s.len() > 0 {
        let front = methods_notes(c, s.drop_last());
        log_methods(c, log, s.drop_last());
        log_body(c, log + front, s.last().body);
        regroup(log, front, body_notes(c, s.last().body));
        assert(walk_method(log_rule(c), log + front, s.last()).0 == s.last());
        assert(s.drop_last().push(s.last()) =~= s);
    } else {
        nothing_logged(log);
        assert(s =~= seq![]);
    }
}

proof fn log_decls(c: Inspection, log: Seq<Seq<char>>, s: Seq<DeclV>)
    ensures
        walk_decls(log_rule(c), log, s) == (s, log + decls_notes(c, s)),
    decreases s.len(),
{
    if s.len() > 0 {
        let front = decls_notes(c, s.drop_last());
        log_decls(c, log, s.drop_last());
        nothing_logged(log + front);
        match s.last().kind {
            DeclKindV::Function(f) => {
                log_body(c, log + front, f.body);
            },
            DeclKindV::Impl(i) => {
                log_methods(c, log + front, i.methods);
            },
            _ => {},
        }
        assert(walk_decl(log_rule(c), log + front, s.last()).0 == s.last());
        regroup(log, front, decl_notes(c, s.last()));
        assert(s.drop_last().push(s.last()) =~= s);
    } else {
        nothing_logged(log);
        assert(s =~= seq![]);
    }
}

/// A walk visits the expressions of a program in the order in which an
/// inspection notes them, and each as often: a rule that logs what is noted
/// ends with the notes on the program and leaves the program as it is.
pub proof fn walk_visits_what_is_inspected(c: Inspection, log: Seq<Seq<char>>, p: ProgramV)
    ensures
        walk_program(log_rule(c), log, p) == (p, log + program_notes(c, p)),
{
    log_decls(c, log, p.declarations);
}

/// An expression without parts goes to the rule once, as it is, and so do the
/// statements of a block that have no parts.
pub proof fn rule_is_applied_once<S>(r: Rule<S>, st: S, e: ExprV, b: BlockV, c: Inspection)
    requires
        e.kind is Literal || e.kind is Variable || e.kind is Opaque,
        forall|i: int| 0 <= i < b.statements.len() ==> (#[trigger] b.statements[i]).kind is Continue,
    ensures
        walk_expr(r, st, e) == (r.expr)(st, e),
        expr_notes(c, e) == (c.note)(e),
        walk_block(r, st, b).0.statements == (r.block)(b.statements),
{
    assert(ExprV { kind: e.kind, ty: e.ty, span: e.span } == e);
    assert(walk_expr_kind(r, st, e.kind) == (e.kind, st));
    assert(expr_kind_notes(c, e.kind) =~= Seq::<Seq<char>>::empty());
    assert(Seq::<Seq<char>>::empty() + (c.note)(e) =~= (c.note)(e));
    plain_statements(r, st, b.statements);
}

proof fn plain_statements<S>(r: Rule<S>, st: S, s: Seq<StmtV>)
    requires
        forall|i: int| 0 <= i < s.len() ==> (#[trigger] s[i]).kind is Continue,
    ensures
        walk_stmts(r, st, s).0 == s,
    decreases s.len(),
{
    if s.len() > 0 {
        let front = s.drop_last();
        assert forall|i: int| 0 <= i < front.len() implies (#[trigger] front[i]).kind
            is Continue by {
            assert(front[i] == s[i]);
        }
        plain_statements(r, st, front);
        let st1 = walk_stmts(r, st, front).1;
        assert(s[s.len() - 1].kind is Continue);
        assert(walk_stmt_kind(r, st1, s.last().kind) == (s.last().kind, st1));
        assert(walk_stmt(r, st1, s.last()).0 == s.last());
        assert(front.push(s.last()) =~= s);
    } else {
        assert(s =~= seq![]);
    }
}

} // verus!
