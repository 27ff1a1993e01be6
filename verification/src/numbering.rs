//! The numbered names that passes bind in a program are all different.

use vstd::prelude::*;

use crate::ast::Span;
use crate::children::{
    children_rule, list_name, list_stmts, place_slot, placed, slot_props, with_lists,
};
use crate::component::ComponentDefinitionV;
use crate::model::{
    BlockV, CallV, DeclKindV, DeclV, ExprKindV, ExprV, FieldInitV, LambdaBodyV, MethodV, NamedArgV,
    ProgramV, StmtKindV, StmtV, TypeV,
};
use crate::notes::{
    block_notes, body_notes, call_notes, decl_notes, decls_notes, expr_kind_notes, expr_notes,
    exprs_notes, field_inits_notes, lambda_body_notes, methods_notes, named_args_notes,
    program_notes, stmt_kind_notes, stmt_notes, stmts_notes, Inspection,
};
use crate::shape::{call_of, expr_stmt, variable_expr};
use crate::styling::{
    is_styled, other_args, overlay_name, overlay_setter, overlay_stmts, styling_args, styling_rule,
    with_overlay,
};
use crate::text::has_prefix;
use crate::walk::{
    walk_block, walk_body, walk_call, walk_decl, walk_decls, walk_expr, walk_expr_kind, walk_exprs,
    walk_field_inits, walk_lambda_body, walk_method, walk_methods, walk_named_args, walk_program,
    walk_stmt, walk_stmt_kind, walk_stmts, Rule,
};
use crate::widgets::{
    block_ending_in, find_named, found_named, handle_arg, handle_call, handle_let, handle_type,
    null_arg, numbered, numbered_names_differ, unit_type, widget_props,
};

verus! {

// ---------------------------------------------------------------------------
// Names and how often they occur
// ---------------------------------------------------------------------------

/// The names with a prefix that statements bind, in order.
pub open spec fn bound_names(prefix: Seq<char>, s: Seq<StmtV>) -> Seq<Seq<char>>
    decreases s.len(),
{
    if s.len() == 0 {
        seq![]
    } else {
        let front = bound_names(prefix, s.drop_last());
        match s.last().kind {
            StmtKindV::Let { name, .. } => if has_prefix(name, prefix) {
                front.push(name)
            } else {
                front
            },
            _ => front,
        }
    }
}

/// The inspection that notes the names with a prefix that block expressions
/// bind.
pub open spec fn bindings(prefix: Seq<char>) -> Inspection {
    Inspection {
        note: |e: ExprV|
            match e.kind {
                ExprKindV::Block(b) => bound_names(prefix, b.statements),
                _ => seq![],
            },
    }
}

/// How often a name occurs.
pub open spec fn occurrences(s: Seq<Seq<char>>, name: Seq<char>) -> nat
    decreases s.len(),
{
    if s.len() == 0 {
        0
    } else {
        occurrences(s.drop_last(), name) + if s.last() == name {
            1nat
        } else {
            0nat
        }
    }
}

proof fn occurrences_add(a: Seq<Seq<char>>, b: Seq<Seq<char>>)
    ensures
        forall|x: Seq<char>| #[trigger]
            occurrences(a + b, x) == occurrences(a, x) + occurrences(b, x),
    decreases b.len(),
{
    if b.len() == 0 {
        assert(a + b =~= a);
    } else {
        let front = b.drop_last();
        occurrences_add(a, front);
        assert((a + b).drop_last() =~= a + front);
        assert((a + b).last() == b.last());
        assert forall|x: Seq<char>| #[trigger]
            occurrences(a + b, x) == occurrences(a, x) + occurrences(b, x) by {
            assert(occurrences(a + front, x) == occurrences(a, x) + occurrences(front, x));
        }
    }
}

/// The number that comes `n` after another one, in the numbers of a machine.
pub open spec fn after_number(st: u32, n: nat) -> u32 {
    ((st + n) % 0x1_0000_0000) as u32
}

/// The names with the `n` numbers from `st` on.
pub open spec fn numbered_from(prefix: Seq<char>, st: u32, n: nat) -> Seq<Seq<char>> {
    Seq::new(n, |i: int| numbered(prefix, after_number(st, i as nat)))
}

/// Whether names were joined by those with the numbers from `st` up to `st1`,
/// each once, whatever the order.
pub open spec fn joined(
    prefix: Seq<char>,
    before: Seq<Seq<char>>,
    after: Seq<Seq<char>>,
    st: u32,
    st1: u32,
) -> bool {
    let n = (after.len() - before.len()) as nat;
    &&& before.len() <= after.len()
    &&& st1 == after_number(st, n)
    &&& forall|x: Seq<char>| #[trigger]
        occurrences(after, x) == occurrences(before, x) + occurrences(
            numbered_from(prefix, st, n),
            x,
        )
}

proof fn numbers_add(prefix: Seq<char>, st: u32, a: nat, b: nat)
    ensures
        after_number(after_number(st, a), b) == after_number(st, a + b),
        forall|x: Seq<char>| #[trigger]
            occurrences(numbered_from(prefix, st, a + b), x) == occurrences(
                numbered_from(prefix, st, a),
                x,
            ) + occurrences(numbered_from(prefix, after_number(st, a), b), x),
{
    let mid = after_number(st, a);
    let left = numbered_from(prefix, st, a);
    let right = numbered_from(prefix, mid, b);
    assert forall|k: nat| #[trigger] after_number(mid, k) == after_number(st, a + k) by {}
    assert(numbered_from(prefix, st, a + b) =~= left + right) by {
        assert forall|i: int| 0 <= i < a + b implies numbered_from(prefix, st, a + b)[i] == (left
            + right)[i] by {
            if i >= a {
                assert(after_number(mid, (i - a) as nat) == after_number(st, a + (i - a) as nat));
            }
        }
    }
    occurrences_add(left, right);
}

/// Nothing joins.
proof fn joined_by_none(prefix: Seq<char>, s: Seq<Seq<char>>, st: u32)
    ensures
        joined(prefix, s, s, st, st),
{
    assert(numbered_from(prefix, st, 0) =~= seq![]);
}

/// What joins two lists one after the other joins their sum.
proof fn joined_both(
    prefix: Seq<char>,
    a: Seq<Seq<char>>,
    a1: Seq<Seq<char>>,
    b: Seq<Seq<char>>,
    b1: Seq<Seq<char>>,
    st: u32,
    st1: u32,
    st2: u32,
)
    requires
        joined(prefix, a, a1, st, st1),
        joined(prefix, b, b1, st1, st2),
    ensures
        joined(prefix, a + b, a1 + b1, st, st2),
{
    let n = (a1.len() - a.len()) as nat;
    let m = (b1.len() - b.len()) as nat;
    numbers_add(prefix, st, n, m);
    occurrences_add(a, b);
    occurrences_add(a1, b1);
    assert((a1 + b1).len() - (a + b).len() == n + m);
}

proof fn joined_three(
    prefix: Seq<char>,
    a: Seq<Seq<char>>,
    a1: Seq<Seq<char>>,
    b: Seq<Seq<char>>,
    b1: Seq<Seq<char>>,
    d: Seq<Seq<char>>,
    d1: Seq<Seq<char>>,
    st: u32,
    st1: u32,
    st2: u32,
    st3: u32,
)
    requires
        joined(prefix, a, a1, st, st1),
        joined(prefix, b, b1, st1, st2),
        joined(prefix, d, d1, st2, st3),
    ensures
        joined(prefix, a + b + d, a1 + b1 + d1, st, st3),
{
    joined_both(prefix, a, a1, b, b1, st, st1, st2);
    joined_both(prefix, a + b, a1 + b1, d, d1, st, st2, st3);
}

/// What joins a list and then what came of it joins the list.
proof fn joined_twice(
    prefix: Seq<char>,
    a: Seq<Seq<char>>,
    b: Seq<Seq<char>>,
    d: Seq<Seq<char>>,
    st: u32,
    st1: u32,
    st2: u32,
)
    requires
        joined(prefix, a, b, st, st1),
        joined(prefix, b, d, st1, st2),
    ensures
        joined(prefix, a, d, st, st2),
{
    let n = (b.len() - a.len()) as nat;
    let m = (d.len() - b.len()) as nat;
    numbers_add(prefix, st, n, m);
    assert(d.len() - a.len() == n + m);
}

// ---------------------------------------------------------------------------
// Walks that number
// ---------------------------------------------------------------------------

/// Whether a rule binds numbered names, the state being the next number, and
/// leaves the names that are bound as they are.
pub open spec fn numbers(r: Rule<u32>, prefix: Seq<char>) -> bool {
    &&& forall|s: Seq<StmtV>| #[trigger] (r.block)(s) == s
    &&& forall|st: u32, e: ExprV|
        joined(
            prefix,
            expr_notes(bindings(prefix), e),
            expr_notes(bindings(prefix), (#[trigger] (r.expr)(st, e)).0),
            st,
            (r.expr)(st, e).1,
        )
}

/// A walk keeps the names that statements bind.
proof fn walk_keeps_bound(r: Rule<u32>, prefix: Seq<char>, st: u32, s: Seq<StmtV>)
    ensures
        bound_names(prefix, walk_stmts(r, st, s).0) == bound_names(prefix, s),
    decreases s.len(),
{
    if s.len() > 0 {
        walk_keeps_bound(r, prefix, st, s.drop_last());
        let (front, st1) = walk_stmts(r, st, s.drop_last());
        let out = walk_stmts(r, st, s).0;
        assert(out.drop_last() =~= front);
        assert(out.last() == walk_stmt(r, st1, s.last()).0);
    }
}

proof fn number_expr(r: Rule<u32>, prefix: Seq<char>, st: u32, e: ExprV)
    requires
        numbers(r, prefix),
    ensures
        joined(
            prefix,
            expr_notes(bindings(prefix), e),
            expr_notes(bindings(prefix), walk_expr(r, st, e).0),
            st,
            walk_expr(r, st, e).1,
        ),
    decreases e,
{
    let c = bindings(prefix);
    number_expr_kind(r, prefix, st, e.kind);
    let (kind, st1) = walk_expr_kind(r, st, e.kind);
    let e1 = ExprV { kind, ty: e.ty, span: e.span };
    assert((c.note)(e1) == (c.note)(e)) by {
        match e.kind {
            ExprKindV::Block(b) => {
                walk_keeps_bound(r, prefix, st, b.statements);
            },
            _ => {},
        }
    }
    joined_by_none(prefix, (c.note)(e), st1);
    joined_both(
        prefix,
        expr_kind_notes(c, e.kind),
        expr_kind_notes(c, kind),
        (c.note)(e),
        (c.note)(e1),
        st,
        st1,
        st1,
    );
    let (e2, st2) = (r.expr)(st1, e1);
    joined_twice(prefix, expr_notes(c, e), expr_notes(c, e1), expr_notes(c, e2), st, st1, st2);
}

proof fn number_exprs(r: Rule<u32>, prefix: Seq<char>, st: u32, s: Seq<ExprV>)
    requires
        numbers(r, prefix),
    ensures
        joined(
            prefix,
            exprs_notes(bindings(prefix), s),
            exprs_notes(bindings(prefix), walk_exprs(r, st, s).0),
            st,
            walk_exprs(r, st, s).1,
        ),
    decreases s,
{
    let c = bindings(prefix);
    if s.len() == 0 {
        joined_by_none(prefix, exprs_notes(c, s), st);
    } else {
        number_exprs(r, prefix, st, s.drop_last());
        let (front, st1) = walk_exprs(r, st, s.drop_last());
        number_expr(r, prefix, st1, s.last());
        let (last, st2) = walk_expr(r, st1, s.last());
        assert(front.push(last).drop_last() =~= front);
        joined_both(
            prefix,
            exprs_notes(c, s.drop_last()),
            exprs_notes(c, front),
            expr_notes(c, s.last()),
            expr_notes(c, last),
            st,
            st1,
            st2,
        );
    }
}

proof fn number_named_args(r: Rule<u32>, prefix: Seq<char>, st: u32, s: Seq<NamedArgV>)
    requires
        numbers(r, prefix),
    ensures
        joined(
            prefix,
            named_args_notes(bindings(prefix), s),
            named_args_notes(bindings(prefix), walk_named_args(r, st, s).0),
            st,
            walk_named_args(r, st, s).1,
        ),
    decreases s,
{
    let c = bindings(prefix);
    if s.len() == 0 {
        joined_by_none(prefix, named_args_notes(c, s), st);
    } else {
        number_named_args(r, prefix, st, s.drop_last());
        let (front, st1) = walk_named_args(r, st, s.drop_last());
        number_expr(r, prefix, st1, s.last().value);
        let (value, st2) = walk_expr(r, st1, s.last().value);
        let out = walk_named_args(r, st, s).0;
        assert(out.drop_last() =~= front);
        joined_both(
            prefix,
            named_args_notes(c, s.drop_last()),
            named_args_notes(c, front),
            expr_notes(c, s.last().value),
            expr_notes(c, value),
            st,
            st1,
            st2,
        );
    }
}

proof fn number_field_inits(r: Rule<u32>, prefix: Seq<char>, st: u32, s: Seq<FieldInitV>)
    requires
        numbers(r, prefix),
    ensures
        joined(
            prefix,
            field_inits_notes(bindings(prefix), s),
            field_inits_notes(bindings(prefix), walk_field_inits(r, st, s).0),
            st,
            walk_field_inits(r, st, s).1,
        ),
    decreases s,
{
    let c = bindings(prefix);
    if s.len() == 0 {
        joined_by_none(prefix, field_inits_notes(c, s), st);
    } else {
        number_field_inits(r, prefix, st, s.drop_last());
        let (front, st1) = walk_field_inits(r, st, s.drop_last());
        number_expr(r, prefix, st1, s.last().value);
        let (value, st2) = walk_expr(r, st1, s.last().value);
        let out = walk_field_inits(r, st, s).0;
        assert(out.drop_last() =~= front);
        joined_both(
            prefix,
            field_inits_notes(c, s.drop_last()),
            field_inits_notes(c, front),
            expr_notes(c, s.last().value),
            expr_notes(c, value),
            st,
            st1,
            st2,
        );
    }
}

proof fn number_call(r: Rule<u32>, prefix: Seq<char>, st: u32, call: CallV)
    requires
        numbers(r, prefix),
    ensures
        joined(
            prefix,
            call_notes(bindings(prefix), call),
            call_notes(bindings(prefix), walk_call(r, st, call).0),
            st,
            walk_call(r, st, call).1,
        ),
    decreases call,
{
    let c = bindings(prefix);
    number_expr(r, prefix, st, *call.callee);
    let (callee, st1) = walk_expr(r, st, *call.callee);
    number_exprs(r, prefix, st1, call.positional_args);
    let (args, st2) = walk_exprs(r, st1, call.positional_args);
    number_named_args(r, prefix, st2, call.named_args);
    let (named, st3) = walk_named_args(r, st2, call.named_args);
    joined_three(
        prefix,
        expr_notes(c, *call.callee),
        expr_notes(c, callee),
        exprs_notes(c, call.positional_args),
        exprs_notes(c, args),
        named_args_notes(c, call.named_args),
        named_args_notes(c, named),
        st,
        st1,
        st2,
        st3,
    );
}

proof fn number_lambda_body(r: Rule<u32>, prefix: Seq<char>, st: u32, b: LambdaBodyV)
    requires
        numbers(r, prefix),
    ensures
        joined(
            prefix,
            lambda_body_notes(bindings(prefix), b),
            lambda_body_notes(bindings(prefix), walk_lambda_body(r, st, b).0),
            st,
            walk_lambda_body(r, st, b).1,
        ),
    decreases b,
{
    match b {
        LambdaBodyV::Expression(e) => {
            number_expr(r, prefix, st, *e);
        },
        LambdaBodyV::Block(block) => {
            number_block(r, prefix, st, block);
        },
    }
}

proof fn number_expr_kind(r: Rule<u32>, prefix: Seq<char>, st: u32, k: ExprKindV)
    requires
        numbers(r, prefix),
    ensures
        joined(
            prefix,
            expr_kind_notes(bindings(prefix), k),
            expr_kind_notes(bindings(prefix), walk_expr_kind(r, st, k).0),
            st,
            walk_expr_kind(r, st, k).1,
        ),
    decreases k,
{
    let c = bindings(prefix);
    match k {
        ExprKindV::Binary { op: _, left, right } => {
            number_expr(r, prefix, st, *left);
            let (left1, st1) = walk_expr(r, st, *left);
            number_expr(r, prefix, st1, *right);
            let (right1, st2) = walk_expr(r, st1, *right);
            joined_both(
                prefix,
                expr_notes(c, *left),
                expr_notes(c, left1),
                expr_notes(c, *right),
                expr_notes(c, right1),
                st,
                st1,
                st2,
            );
        },
        ExprKindV::Unary { operator: _, operand } => {
            number_expr(r, prefix, st, *operand);
        },
        ExprKindV::Call(call) => {
            number_call(r, prefix, st, call);
        },
        ExprKindV::Field { object, field: _ } => {
            number_expr(r, prefix, st, *object);
        },
        ExprKindV::Index { object, index } => {
            number_expr(r, prefix, st, *object);
            let (object1, st1) = walk_expr(r, st, *object);
            number_expr(r, prefix, st1, *index);
            let (index1, st2) = walk_expr(r, st1, *index);
            joined_both(
                prefix,
                expr_notes(c, *object),
                expr_notes(c, object1),
                expr_notes(c, *index),
                expr_notes(c, index1),
                st,
                st1,
                st2,
            );
        },
        ExprKindV::Array(items) => {
            number_exprs(r, prefix, st, items);
        },
        ExprKindV::Tuple(items) => {
            number_exprs(r, prefix, st, items);
        },
        ExprKindV::Struct { name: _, fields } => {
            number_field_inits(r, prefix, st, fields);
        },
        ExprKindV::MethodCall { receiver, positional_args, named_args, .. } => {
            number_expr(r, prefix, st, *receiver);
            let (receiver1, st1) = walk_expr(r, st, *receiver);
            number_exprs(r, prefix, st1, positional_args);
            let (args, st2) = walk_exprs(r, st1, positional_args);
            number_named_args(r, prefix, st2, named_args);
            let (named, st3) = walk_named_args(r, st2, named_args);
            joined_three(
                prefix,
                expr_notes(c, *receiver),
                expr_notes(c, receiver1),
                exprs_notes(c, positional_args),
                exprs_notes(c, args),
                named_args_notes(c, named_args),
                named_args_notes(c, named),
                st,
                st1,
                st2,
                st3,
            );
        },
        ExprKindV::Block(block) => {
            number_block(r, prefix, st, block);
        },
        ExprKindV::If { condition, then_branch, else_branch } => {
            number_expr(r, prefix, st, *condition);
            let (condition1, st1) = walk_expr(r, st, *condition);
            number_expr(r, prefix, st1, *then_branch);
            let (then1, st2) = walk_expr(r, st1, *then_branch);
            number_expr(r, prefix, st2, *else_branch);
            let (else1, st3) = walk_expr(r, st2, *else_branch);
            joined_three(
                prefix,
                expr_notes(c, *condition),
                expr_notes(c, condition1),
                expr_notes(c, *then_branch),
                expr_notes(c, then1),
                expr_notes(c, *else_branch),
                expr_notes(c, else1),
                st,
                st1,
                st2,
                st3,
            );
        },
        ExprKindV::Lambda { params: _, body } => {
            number_lambda_body(r, prefix, st, body);
        },
        _ => {
            joined_by_none(prefix, expr_kind_notes(c, k), st);
        },
    }
}

proof fn number_block(r: Rule<u32>, prefix: Seq<char>, st: u32, b: BlockV)
    requires
        numbers(r, prefix),
    ensures
        joined(
            prefix,
            block_notes(bindings(prefix), b),
            block_notes(bindings(prefix), walk_block(r, st, b).0),
            st,
            walk_block(r, st, b).1,
        ),
    decreases b,
{
    number_stmts(r, prefix, st, b.statements);
}

proof fn number_stmts(r: Rule<u32>, prefix: Seq<char>, st: u32, s: Seq<StmtV>)
    requires
        numbers(r, prefix),
    ensures
        joined(
            prefix,
            stmts_notes(bindings(prefix), s),
            stmts_notes(bindings(prefix), walk_stmts(r, st, s).0),
            st,
            walk_stmts(r, st, s).1,
        ),
    decreases s,
{
    let c = bindings(prefix);
    if s.len() == 0 {
        joined_by_none(prefix, stmts_notes(c, s), st);
    } else {
        number_stmts(r, prefix, st, s.drop_last());
        let (front, st1) = walk_stmts(r, st, s.drop_last());
        number_stmt_kind(r, prefix, st1, s.last().kind);
        let (last, st2) = walk_stmt(r, st1, s.last());
        assert(front.push(last).drop_last() =~= front);
        joined_both(
            prefix,
            stmts_notes(c, s.drop_last()),
            stmts_notes(c, front),
            stmt_notes(c, s.last()),
            stmt_notes(c, last),
            st,
            st1,
            st2,
        );
    }
}

proof fn number_stmt_kind(r: Rule<u32>, prefix: Seq<char>, st: u32, k: StmtKindV)
    requires
        numbers(r, prefix),
    ensures
        joined(
            prefix,
            stmt_kind_notes(bindings(prefix), k),
            stmt_kind_notes(bindings(prefix), walk_stmt_kind(r, st, k).0),
            st,
            walk_stmt_kind(r, st, k).1,
        ),
    decreases k,
{
    let c = bindings(prefix);
    match k {
        StmtKindV::Expression(e) => {
            number_expr(r, prefix, st, e);
        },
        StmtKindV::Let { initializer: Some(e), .. } => {
            number_expr(r, prefix, st, e);
        },
        StmtKindV::Return(Some(e)) => {
            number_expr(r, prefix, st, e);
        },
        StmtKindV::If { condition, then_block, else_block, span: _ } => {
            number_expr(r, prefix, st, condition);
            let (condition1, st1) = walk_expr(r, st, condition);
            number_block(r, prefix, st1, then_block);
            let (then1, st2) = walk_block(r, st1, then_block);
            match else_block {
                Some(b) => {
                    number_block(r, prefix, st2, b);
                    let (else1, st3) = walk_block(r, st2, b);
                    joined_three(
                        prefix,
                        expr_notes(c, condition),
                        expr_notes(c, condition1),
                        block_notes(c, then_block),
                        block_notes(c, then1),
                        block_notes(c, b),
                        block_notes(c, else1),
                        st,
                        st1,
                        st2,
                        st3,
                    );
                },
                None => {
                    joined_by_none(prefix, seq![], st2);
                    joined_three(
                        prefix,
                        expr_notes(c, condition),
                        expr_notes(c, condition1),
                        block_notes(c, then_block),
                        block_notes(c, then1),
                        seq![],
                        seq![],
                        st,
                        st1,
                        st2,
                        st2,
                    );
                },
            }
        },
        StmtKindV::While { condition, body, span: _ } => {
            number_expr(r, prefix, st, condition);
            let (condition1, st1) = walk_expr(r, st, condition);
            number_block(r, prefix, st1, body);
            let (body1, st2) = walk_block(r, st1, body);
            joined_both(
                prefix,
                expr_notes(c, condition),
                expr_notes(c, condition1),
                block_notes(c, body),
                block_notes(c, body1),
                st,
                st1,
                st2,
            );
        },
        StmtKindV::Block(block) => {
            number_block(r, prefix, st, block);
        },
        _ => {
            joined_by_none(prefix, stmt_kind_notes(c, k), st);
        },
    }
}

proof fn number_body(r: Rule<u32>, prefix: Seq<char>, st: u32, b: Option<BlockV>)
    requires
        numbers(r, prefix),
    ensures
        joined(
            prefix,
            body_notes(bindings(prefix), b),
            body_notes(bindings(prefix), walk_body(r, st, b).0),
            st,
            walk_body(r, st, b).1,
        ),
{
    match b {
        Some(block) => {
            number_block(r, prefix, st, block);
        },
        None => {
            joined_by_none(prefix, body_notes(bindings(prefix), b), st);
        },
    }
}

proof fn number_methods(r: Rule<u32>, prefix: Seq<char>, st: u32, s: Seq<MethodV>)
    requires
        numbers(r, prefix),
    ensures
        joined(
            prefix,
            methods_notes(bindings(prefix), s),
            methods_notes(bindings(prefix), walk_methods(r, st, s).0),
            st,
            walk_methods(r, st, s).1,
        ),
    decreases s.len(),
{
    let c = bindings(prefix);
    if s.len() == 0 {
        joined_by_none(prefix, methods_notes(c, s), st);
    } else {
        number_methods(r, prefix, st, s.drop_last());
        let (front, st1) = walk_methods(r, st, s.drop_last());
        number_body(r, prefix, st1, s.last().body);
        let (last, st2) = walk_method(r, st1, s.last());
        assert(front.push(last).drop_last() =~= front);
        joined_both(
            prefix,
            methods_notes(c, s.drop_last()),
            methods_notes(c, front),
            body_notes(c, s.last().body),
            body_notes(c, last.body),
            st,
            st1,
            st2,
        );
    }
}

proof fn number_decl(r: Rule<u32>, prefix: Seq<char>, st: u32, d: DeclV)
    requires
        numbers(r, prefix),
    ensures
        joined(
            prefix,
            decl_notes(bindings(prefix), d),
            decl_notes(bindings(prefix), walk_decl(r, st, d).0),
            st,
            walk_decl(r, st, d).1,
        ),
{
    match d.kind {
        DeclKindV::Function(f) => {
            number_body(r, prefix, st, f.body);
        },
        DeclKindV::Impl(i) => {
            number_methods(r, prefix, st, i.methods);
        },
        _ => {
            joined_by_none(prefix, decl_notes(bindings(prefix), d), st);
        },
    }
}

proof fn number_decls(r: Rule<u32>, prefix: Seq<char>, st: u32, s: Seq<DeclV>)
    requires
        numbers(r, prefix),
    ensures
        joined(
            prefix,
            decls_notes(bindings(prefix), s),
            decls_notes(bindings(prefix), walk_decls(r, st, s).0),
            st,
            walk_decls(r, st, s).1,
        ),
    decreases s.len(),
{
    let c = bindings(prefix);
    if s.len() == 0 {
        joined_by_none(prefix, decls_notes(c, s), st);
    } else {
        number_decls(r, prefix, st, s.drop_last());
        let (front, st1) = walk_decls(r, st, s.drop_last());
        number_decl(r, prefix, st1, s.last());
        let (last, st2) = walk_decl(r, st1, s.last());
        assert(front.push(last).drop_last() =~= front);
        joined_both(
            prefix,
            decls_notes(c, s.drop_last()),
            decls_notes(c, front),
            decl_notes(c, s.last()),
            decl_notes(c, last),
            st,
            st1,
            st2,
        );
    }
}

proof fn numbered_once(prefix: Seq<char>, n: nat, x: Seq<char>)
    requires
        n <= 0x1_0000_0000,
    ensures
        occurrences(numbered_from(prefix, 0, n), x) <= 1,
        occurrences(numbered_from(prefix, 0, n), x) == 1 ==> exists|i: int|
            0 <= i < n && x == #[trigger] numbered(prefix, i as u32),
    decreases n,
{
    let s = numbered_from(prefix, 0, n);
    if n > 0 {
        let m = (n - 1) as nat;
        numbered_once(prefix, m, x);
        assert(s.drop_last() =~= numbered_from(prefix, 0, m));
        assert(s.last() == numbered(prefix, m as u32));
        if occurrences(s.drop_last(), x) == 1 {
            let i = choose|i: int| 0 <= i < m && x == #[trigger] numbered(prefix, i as u32);
            numbered_names_differ(prefix, i as u32, m as u32);
        }
    }
}

proof fn once_means_distinct(s: Seq<Seq<char>>)
    requires
        forall|x: Seq<char>| #[trigger] occurrences(s, x) <= 1,
    ensures
        s.no_duplicates(),
    decreases s.len(),
{
    if s.len() > 0 {
        let front = s.drop_last();
        assert forall|x: Seq<char>| #[trigger] occurrences(front, x) <= 1 by {
            assert(occurrences(s, x) <= 1);
        }
        once_means_distinct(front);
        assert forall|i: int, j: int|
            0 <= i < s.len() && 0 <= j < s.len() && i != j implies s[i] != s[j] by {
            if i < front.len() && j < front.len() {
                assert(front[i] != front[j]);
            } else {
                let k = if i < front.len() {
                    i
                } else {
                    j
                };
                occurs_at(front, k);
                assert(occurrences(s, s[k]) <= 1);
            }
        }
    }
}

proof fn occurs_at(s: Seq<Seq<char>>, i: int)
    requires
        0 <= i < s.len(),
    ensures
        occurrences(s, s[i]) >= 1,
    decreases s.len(),
{
    if i < s.len() - 1 {
        occurs_at(s.drop_last(), i);
    }
}

/// A walk that numbers names from 0 on gives no number twice: in a program that
/// binds no such name, the names that are bound after the walk are all
/// different. There are no more of them than there are numbers.
proof fn walk_numbers_once(r: Rule<u32>, prefix: Seq<char>, p: ProgramV)
    requires
        numbers(r, prefix),
        program_notes(bindings(prefix), p).len() == 0,
        program_notes(bindings(prefix), walk_program(r, 0, p).0).len() <= 0x1_0000_0000,
    ensures
        program_notes(bindings(prefix), walk_program(r, 0, p).0).no_duplicates(),
{
    let after = program_notes(bindings(prefix), walk_program(r, 0, p).0);
    number_decls(r, prefix, 0, p.declarations);
    assert forall|x: Seq<char>| #[trigger] occurrences(after, x) <= 1 by {
        numbered_once(prefix, after.len(), x);
    }
    once_means_distinct(after);
}

// ---------------------------------------------------------------------------
// Child lists
// ---------------------------------------------------------------------------

/// The prefix of the names of child lists.
pub open spec fn list_prefix() -> Seq<char> {
    "__blinc_children_"@
}

proof fn bound_names_add(prefix: Seq<char>, a: Seq<StmtV>, b: Seq<StmtV>)
    ensures
        bound_names(prefix, a + b) == bound_names(prefix, a) + bound_names(prefix, b),
    decreases b.len(),
{
    if b.len() == 0 {
        assert(a + b =~= a);
        assert(bound_names(prefix, a) + bound_names(prefix, b) =~= bound_names(prefix, a));
    } else {
        bound_names_add(prefix, a, b.drop_last());
        assert((a + b).drop_last() =~= a + b.drop_last());
        assert((a + b).last() == b.last());
        assert(bound_names(prefix, a + b) =~= bound_names(prefix, a) + bound_names(prefix, b));
    }
}

proof fn stmts_notes_add(c: Inspection, a: Seq<StmtV>, b: Seq<StmtV>)
    ensures
        stmts_notes(c, a + b) == stmts_notes(c, a) + stmts_notes(c, b),
    decreases b.len(),
{
    if b.len() == 0 {
        assert(a + b =~= a);
        assert(stmts_notes(c, a) + stmts_notes(c, b) =~= stmts_notes(c, a));
    } else {
        stmts_notes_add(c, a, b.drop_last());
        assert((a + b).drop_last() =~= a + b.drop_last());
        assert((a + b).last() == b.last());
        assert(stmts_notes(c, a + b) =~= stmts_notes(c, a) + stmts_notes(c, b));
    }
}

/// Removing a named argument takes its notes out.
proof fn named_notes_remove(c: Inspection, s: Seq<NamedArgV>, i: int)
    requires
        0 <= i < s.len(),
    ensures
        named_args_notes(c, s).len() == named_args_notes(c, s.remove(i)).len() + expr_notes(
            c,
            s[i].value,
        ).len(),
        forall|x: Seq<char>| #[trigger]
            occurrences(named_args_notes(c, s), x) == occurrences(
                named_args_notes(c, s.remove(i)),
                x,
            ) + occurrences(expr_notes(c, s[i].value), x),
    decreases s.len(),
{
    let front = s.drop_last();
    let last = expr_notes(c, s.last().value);
    occurrences_add(named_args_notes(c, front), last);
    if i == s.len() - 1 {
        assert(s.remove(i) =~= front);
    } else {
        named_notes_remove(c, front, i);
        assert(s.remove(i).drop_last() =~= front.remove(i));
        assert(s.remove(i).last() == s.last());
        assert(front[i] == s[i]);
        occurrences_add(named_args_notes(c, front.remove(i)), last);
        assert forall|x: Seq<char>| #[trigger]
            occurrences(named_args_notes(c, s), x) == occurrences(
                named_args_notes(c, s.remove(i)),
                x,
            ) + occurrences(expr_notes(c, s[i].value), x) by {
            assert(occurrences(named_args_notes(c, front), x) == occurrences(
                named_args_notes(c, front.remove(i)),
                x,
            ) + occurrences(expr_notes(c, front[i].value), x));
        }
    }
}

proof fn named_notes_push(c: Inspection, s: Seq<NamedArgV>, a: NamedArgV)
    ensures
        named_args_notes(c, s.push(a)) == named_args_notes(c, s) + expr_notes(c, a.value),
{
    assert(s.push(a).drop_last() =~= s);
}

/// A name or a literal has no notes.
proof fn leaf_notes(prefix: Seq<char>, e: ExprV)
    requires
        e.kind is Variable || e.kind is Literal,
    ensures
        expr_notes(bindings(prefix), e) == Seq::<Seq<char>>::empty(),
{
    assert(expr_notes(bindings(prefix), e) =~= Seq::<Seq<char>>::empty());
}

proof fn call_expr_notes(prefix: Seq<char>, e: ExprV, call: CallV)
    requires
        e.kind == ExprKindV::Call(call),
    ensures
        expr_notes(bindings(prefix), e) == call_notes(bindings(prefix), call),
        call_notes(bindings(prefix), call) == expr_notes(bindings(prefix), *call.callee)
            + exprs_notes(bindings(prefix), call.positional_args) + named_args_notes(
            bindings(prefix),
            call.named_args,
        ),
{
    let c = bindings(prefix);
    assert(expr_kind_notes(c, e.kind) == call_notes(c, call));
    assert(expr_notes(c, e) =~= call_notes(c, call));
}

/// A call of a function by its name, without named arguments.
proof fn plain_call_notes(prefix: Seq<char>, target: ExprV, args: Seq<ExprV>, ty: TypeV, span: Span)
    requires
        target.kind is Variable,
    ensures
        expr_notes(
            bindings(prefix),
            (ExprV { kind: call_of(target, args), ty, span }),
        ) == exprs_notes(bindings(prefix), args),
{
    let c = bindings(prefix);
    let e = ExprV { kind: call_of(target, args), ty, span };
    match e.kind {
        ExprKindV::Call(call) => {
            call_expr_notes(prefix, e, call);
            leaf_notes(prefix, target);
            assert(named_args_notes(c, call.named_args) =~= Seq::<Seq<char>>::empty());
            assert(expr_notes(c, e) =~= exprs_notes(c, args));
        },
        _ => {},
    }
}

/// The notes on `target(handle, value);` are those on the value.
proof fn handle_call_notes(
    prefix: Seq<char>,
    target: Seq<char>,
    handle: Seq<char>,
    value: ExprV,
    span: Span,
)
    ensures
        stmt_notes(bindings(prefix), handle_call(target, handle, value, span)) == expr_notes(
            bindings(prefix),
            value,
        ),
{
    let c = bindings(prefix);
    let args = seq![variable_expr(handle, handle_type(), span), value];
    let callee = variable_expr(target, TypeV::Any, span);
    plain_call_notes(prefix, callee, args, unit_type(), span);
    leaf_notes(prefix, args[0]);
    assert(args.drop_last().drop_last() =~= Seq::<ExprV>::empty());
    reveal_with_fuel(exprs_notes, 3);
    assert(args.drop_last().last() == args[0]);
    assert(exprs_notes(c, args) =~= expr_notes(c, value));
    let e = ExprV { kind: call_of(callee, args), ty: unit_type(), span };
    assert(stmt_kind_notes(c, StmtKindV::Expression(e)) == expr_notes(c, e));
}

/// `let name = maker();` has no notes.
proof fn handle_let_notes(prefix: Seq<char>, name: Seq<char>, maker: Seq<char>, span: Span)
    ensures
        stmt_notes(bindings(prefix), handle_let(name, maker, span)) == Seq::<Seq<char>>::empty(),
{
    let c = bindings(prefix);
    let callee = variable_expr(maker, TypeV::Any, span);
    plain_call_notes(prefix, callee, seq![], handle_type(), span);
    assert(exprs_notes(c, Seq::<ExprV>::empty()) =~= Seq::<Seq<char>>::empty());
    let s = handle_let(name, maker, span);
    let e = ExprV { kind: call_of(callee, seq![]), ty: handle_type(), span };
    assert(stmt_kind_notes(c, s.kind) == expr_notes(c, e));
}

/// The statements that fill a list have the notes of its items and bind the
/// list's name.
proof fn list_stmts_notes(id: u32, items: Seq<ExprV>, span: Span)
    ensures
        stmts_notes(bindings(list_prefix()), list_stmts(id, items, span)) == exprs_notes(
            bindings(list_prefix()),
            items,
        ),
        bound_names(list_prefix(), list_stmts(id, items, span)) == seq![list_name(id)],
    decreases items.len(),
{
    let prefix = list_prefix();
    let c = bindings(prefix);
    let s = list_stmts(id, items, span);
    if items.len() == 0 {
        let first = handle_let(list_name(id), "__new_child_list__"@, span);
        assert(s =~= seq![first]);
        assert(s.drop_last() =~= Seq::<StmtV>::empty());
        handle_let_notes(prefix, list_name(id), "__new_child_list__"@, span);
        assert(stmts_notes(c, s.drop_last()) =~= Seq::<Seq<char>>::empty());
        assert(exprs_notes(c, items) =~= Seq::<Seq<char>>::empty());
        assert(stmts_notes(c, s) =~= Seq::<Seq<char>>::empty());
        assert(list_name(id).take(prefix.len() as int) =~= prefix);
        assert(has_prefix(list_name(id), prefix));
        assert(bound_names(prefix, s.drop_last()) =~= Seq::<Seq<char>>::empty());
        assert(bound_names(prefix, s) =~= seq![list_name(id)]);
    } else {
        let front = list_stmts(id, items.drop_last(), span);
        list_stmts_notes(id, items.drop_last(), span);
        assert(s.drop_last() =~= front);
        assert(s.last() == handle_call("__push_child__"@, list_name(id), items.last(), span));
        handle_call_notes(prefix, "__push_child__"@, list_name(id), items.last(), span);
    }
}

/// Placing slots moves notes about and binds one name for every list.
proof fn placed_notes(named: Seq<NamedArgV>, id: u32, slots: Seq<Seq<char>>, span: Span)
    ensures
        ({
            let prefix = list_prefix();
            let c = bindings(prefix);
            let p = placed(named, id, slots, span);
            let bound = bound_names(prefix, p.prelude);
            &&& bound == numbered_from(prefix, id, bound.len())
            &&& p.next_id == after_number(id, bound.len())
            &&& !p.made_list ==> p.prelude.len() == 0
            &&& named_args_notes(c, named).len() == named_args_notes(c, p.named).len()
                + stmts_notes(c, p.prelude).len()
            &&& forall|x: Seq<char>| #[trigger]
                occurrences(named_args_notes(c, named), x) == occurrences(
                    named_args_notes(c, p.named),
                    x,
                ) + occurrences(stmts_notes(c, p.prelude), x)
        }),
    decreases slots.len(),
{
    let prefix = list_prefix();
    let c = bindings(prefix);
    if slots.len() == 0 {
        assert(bound_names(prefix, seq![]) =~= numbered_from(prefix, id, 0));
    } else {
        placed_notes(named, id, slots.drop_last(), span);
        let acc = placed(named, id, slots.drop_last(), span);
        let slot = slots.last();
        let p = place_slot(acc, slot, span);
        found_named(acc.named, slot);
        match find_named(acc.named, slot) {
            None => {
                let a = null_arg(slot, span);
                named_notes_push(c, acc.named, a);
                leaf_notes(prefix, a.value);
                assert(named_args_notes(c, p.named) =~= named_args_notes(c, acc.named));
            },
            Some(i) => {
                let rest = acc.named.remove(i);
                let value = acc.named[i].value;
                named_notes_remove(c, acc.named, i);
                match value.kind {
                    ExprKindV::Array(items) => {
                        let a = handle_arg(slot, list_name(acc.next_id), span);
                        named_notes_push(c, rest, a);
                        leaf_notes(prefix, a.value);
                        assert(named_args_notes(c, p.named) =~= named_args_notes(c, rest));
                        let added = list_stmts(acc.next_id, items, span);
                        list_stmts_notes(acc.next_id, items, span);
                        assert(expr_notes(c, value) =~= exprs_notes(c, items));
                        stmts_notes_add(c, acc.prelude, added);
                        occurrences_add(stmts_notes(c, acc.prelude), exprs_notes(c, items));
                        bound_names_add(prefix, acc.prelude, added);
                        let n = bound_names(prefix, acc.prelude).len();
                        assert(after_number(after_number(id, n), 1) == after_number(id, n + 1));
                        assert(bound_names(prefix, p.prelude) =~= numbered_from(
                            prefix,
                            id,
                            n + 1,
                        ));
                    },
                    _ => {
                        named_notes_push(c, rest, acc.named[i]);
                        occurrences_add(named_args_notes(c, rest), expr_notes(c, value));
                    },
                }
            },
        }
    }
}

/// The notes on a block that ends in a call: those on its statements and on
/// the call, and the names that it binds.
proof fn block_ending_notes(
    prefix: Seq<char>,
    prelude: Seq<StmtV>,
    call: CallV,
    span: Span,
    out: ExprV,
)
    requires
        out.kind == block_ending_in(prelude, call, span),
    ensures
        expr_notes(bindings(prefix), out) == stmts_notes(bindings(prefix), prelude) + call_notes(
            bindings(prefix),
            call,
        ) + bound_names(prefix, prelude),
{
    let c = bindings(prefix);
    let end = ExprV { kind: ExprKindV::Call(call), ty: handle_type(), span };
    let last = expr_stmt(end, handle_type(), span);
    let all = prelude.push(last);
    let b = BlockV { statements: all, span };
    assert(all.drop_last() =~= prelude);
    call_expr_notes(prefix, end, call);
    assert(stmt_kind_notes(c, last.kind) == expr_notes(c, end));
    assert(stmts_notes(c, all) == stmts_notes(c, prelude) + stmt_notes(c, last));
    assert(block_notes(c, b) == stmts_notes(c, all));
    assert(expr_kind_notes(c, out.kind) == block_notes(c, b));
    assert(bound_names(prefix, all) == bound_names(prefix, prelude));
}

/// The making of child lists numbers their names.
proof fn lists_are_numbered(defs: Seq<ComponentDefinitionV>, id: u32, e: ExprV)
    ensures
        joined(
            list_prefix(),
            expr_notes(bindings(list_prefix()), e),
            expr_notes(bindings(list_prefix()), with_lists(defs, id, e).0),
            id,
            with_lists(defs, id, e).1,
        ),
{
    let prefix = list_prefix();
    let c = bindings(prefix);
    joined_by_none(prefix, expr_notes(c, e), id);
    match e.kind {
        ExprKindV::Call(call) => match widget_props(defs, call) {
            Some(props) => {
                let slots = slot_props(props);
                let p = placed(call.named_args, id, slots, e.span);
                placed_notes(call.named_args, id, slots, e.span);
                let call1 = CallV { named_args: p.named, ..call };
                let first = expr_notes(c, *call.callee) + exprs_notes(c, call.positional_args);
                let named = named_args_notes(c, call.named_args);
                let named1 = named_args_notes(c, p.named);
                let prelude = stmts_notes(c, p.prelude);
                let bound = bound_names(prefix, p.prelude);
                occurrences_add(first, named);
                occurrences_add(first, named1);
                call_expr_notes(prefix, e, call);
                let out = with_lists(defs, id, e).0;
                if p.made_list {
                    let end = ExprV {
                        kind: ExprKindV::Call(call1),
                        ty: handle_type(),
                        span: e.span,
                    };
                    block_ending_notes(prefix, p.prelude, call1, e.span, out);
                    call_expr_notes(prefix, end, call1);
                    occurrences_add(prelude, first + named1);
                    occurrences_add(prelude + (first + named1), bound);
                } else {
                    assert(p.prelude =~= Seq::<StmtV>::empty());
                    assert(prelude =~= Seq::<Seq<char>>::empty());
                    assert(bound =~= Seq::<Seq<char>>::empty());
                    call_expr_notes(prefix, out, call1);
                }
            },
            None => {},
        },
        _ => {},
    }
}

/// The child lists of a program have different names: after the pass, no two
/// of the names that it gives to lists are the same, as long as the program
/// binds no such name itself and needs no more lists than there are numbers.
pub proof fn child_lists_differ(defs: Seq<ComponentDefinitionV>, p: ProgramV)
    requires
        program_notes(bindings(list_prefix()), p).len() == 0,
        program_notes(
            bindings(list_prefix()),
            walk_program(children_rule(defs), 0, p).0,
        ).len() <= 0x1_0000_0000,
    ensures
        program_notes(
            bindings(list_prefix()),
            walk_program(children_rule(defs), 0, p).0,
        ).no_duplicates(),
{
    let r = children_rule(defs);
    assert forall|st: u32, e: ExprV|
        joined(
            list_prefix(),
            expr_notes(bindings(list_prefix()), e),
            expr_notes(bindings(list_prefix()), (#[trigger] (r.expr)(st, e)).0),
            st,
            (r.expr)(st, e).1,
        ) by {
        lists_are_numbered(defs, st, e);
    }
    walk_numbers_once(r, list_prefix(), p);
}

// ---------------------------------------------------------------------------
// Style overlays
// ---------------------------------------------------------------------------

/// The prefix of the names of style overlays.
pub open spec fn overlay_prefix() -> Seq<char> {
    "__blinc_style_"@
}

/// Named arguments that are split have the notes that they had.
proof fn split_notes(c: Inspection, s: Seq<NamedArgV>)
    ensures
        named_args_notes(c, s).len() == named_args_notes(c, styling_args(s)).len()
            + named_args_notes(c, other_args(s)).len(),
        forall|x: Seq<char>| #[trigger]
            occurrences(named_args_notes(c, s), x) == occurrences(
                named_args_notes(c, styling_args(s)),
                x,
            ) + occurrences(named_args_notes(c, other_args(s)), x),
    decreases s.len(),
{
    reveal(Seq::filter);
    if s.len() > 0 {
        let front = s.drop_last();
        let last = expr_notes(c, s.last().value);
        split_notes(c, front);
        named_notes_push(c, styling_args(front), s.last());
        named_notes_push(c, other_args(front), s.last());
        occurrences_add(named_args_notes(c, front), last);
        occurrences_add(named_args_notes(c, styling_args(front)), last);
        occurrences_add(named_args_notes(c, other_args(front)), last);
        assert forall|x: Seq<char>| #[trigger]
            occurrences(named_args_notes(c, s), x) == occurrences(
                named_args_notes(c, styling_args(s)),
                x,
            ) + occurrences(named_args_notes(c, other_args(s)), x) by {
            assert(occurrences(named_args_notes(c, front), x) == occurrences(
                named_args_notes(c, styling_args(front)),
                x,
            ) + occurrences(named_args_notes(c, other_args(front)), x));
        }
    }
}

/// The statements that make an overlay have the notes of its properties and
/// bind the overlay's name.
proof fn overlay_stmts_notes(id: u32, styling: Seq<NamedArgV>, span: Span)
    ensures
        stmts_notes(bindings(overlay_prefix()), overlay_stmts(id, styling, span))
            == named_args_notes(bindings(overlay_prefix()), styling),
        bound_names(overlay_prefix(), overlay_stmts(id, styling, span)) == seq![overlay_name(id)],
    decreases styling.len(),
{
    let prefix = overlay_prefix();
    let c = bindings(prefix);
    let s = overlay_stmts(id, styling, span);
    if styling.len() == 0 {
        let first = handle_let(overlay_name(id), "__new_style_overlay__"@, span);
        assert(s =~= seq![first]);
        assert(s.drop_last() =~= Seq::<StmtV>::empty());
        handle_let_notes(prefix, overlay_name(id), "__new_style_overlay__"@, span);
        assert(stmts_notes(c, s.drop_last()) =~= Seq::<Seq<char>>::empty());
        assert(named_args_notes(c, styling) =~= Seq::<Seq<char>>::empty());
        assert(stmts_notes(c, s) =~= Seq::<Seq<char>>::empty());
        assert(overlay_name(id).take(prefix.len() as int) =~= prefix);
        assert(has_prefix(overlay_name(id), prefix));
        assert(bound_names(prefix, s.drop_last()) =~= Seq::<Seq<char>>::empty());
        assert(bound_names(prefix, s) =~= seq![overlay_name(id)]);
    } else {
        let front = overlay_stmts(id, styling.drop_last(), span);
        let last = styling.last();
        let setter = overlay_setter(last.name)->0;
        overlay_stmts_notes(id, styling.drop_last(), span);
        assert(s.drop_last() =~= front);
        assert(s.last() == handle_call(setter, overlay_name(id), last.value, span));
        handle_call_notes(prefix, setter, overlay_name(id), last.value, span);
    }
}

/// The gathering of styling arguments numbers the overlays.
proof fn overlays_are_numbered(defs: Seq<ComponentDefinitionV>, id: u32, e: ExprV)
    ensures
        joined(
            overlay_prefix(),
            expr_notes(bindings(overlay_prefix()), e),
            expr_notes(bindings(overlay_prefix()), with_overlay(defs, id, e).0),
            id,
            with_overlay(defs, id, e).1,
        ),
{
    let prefix = overlay_prefix();
    let c = bindings(prefix);
    joined_by_none(prefix, expr_notes(c, e), id);
    match e.kind {
        ExprKindV::Call(call) => if is_styled(defs, call) {
            let styling = styling_args(call.named_args);
            let rest = other_args(call.named_args);
            let first = expr_notes(c, *call.callee) + exprs_notes(c, call.positional_args);
            let named = named_args_notes(c, call.named_args);
            let named1 = named_args_notes(c, rest);
            let out = with_overlay(defs, id, e).0;
            split_notes(c, call.named_args);
            call_expr_notes(prefix, e, call);
            occurrences_add(first, named);
            occurrences_add(first, named1);
            if styling.len() == 0 {
                let a = null_arg("__style"@, e.span);
                let call1 = CallV { named_args: rest.push(a), ..call };
                leaf_notes(prefix, a.value);
                named_notes_push(c, rest, a);
                assert(named_args_notes(c, rest.push(a)) =~= named1);
                assert(named_args_notes(c, styling) =~= Seq::<Seq<char>>::empty());
                call_expr_notes(prefix, out, call1);
            } else {
                let a = handle_arg("__style"@, overlay_name(id), e.span);
                let call1 = CallV { named_args: rest.push(a), ..call };
                let end = ExprV {
                    kind: ExprKindV::Call(call1),
                    ty: handle_type(),
                    span: e.span,
                };
                let prelude = overlay_stmts(id, styling, e.span);
                let bound = bound_names(prefix, prelude);
                leaf_notes(prefix, a.value);
                named_notes_push(c, rest, a);
                assert(named_args_notes(c, rest.push(a)) =~= named1);
                overlay_stmts_notes(id, styling, e.span);
                block_ending_notes(prefix, prelude, call1, e.span, out);
                call_expr_notes(prefix, end, call1);
                occurrences_add(stmts_notes(c, prelude), first + named1);
                occurrences_add(stmts_notes(c, prelude) + (first + named1), bound);
                assert(bound =~= numbered_from(prefix, id, 1));
            }
        },
        _ => {},
    }
}

/// The style overlays of a program have different names: after the pass, no
/// two of the names that it gives to overlays are the same, as long as the
/// program binds no such name itself and needs no more overlays than there are
/// numbers.
pub proof fn overlays_differ(defs: Seq<ComponentDefinitionV>, p: ProgramV)
    requires
        program_notes(bindings(overlay_prefix()), p).len() == 0,
        program_notes(
            bindings(overlay_prefix()),
            walk_program(styling_rule(defs), 0, p).0,
        ).len() <= 0x1_0000_0000,
    ensures
        program_notes(
            bindings(overlay_prefix()),
            walk_program(styling_rule(defs), 0, p).0,
        ).no_duplicates(),
{
    let r = styling_rule(defs);
    assert forall|st: u32, e: ExprV|
        joined(
            overlay_prefix(),
            expr_notes(bindings(overlay_prefix()), e),
            expr_notes(bindings(overlay_prefix()), (#[trigger] (r.expr)(st, e)).0),
            st,
            (r.expr)(st, e).1,
        ) by {
        overlays_are_numbered(defs, st, e);
    }
    walk_numbers_once(r, overlay_prefix(), p);
}

} // verus!
