//! Component markers are gone for good: the passes that follow the lowering of
//! component calls bring none back.

use vstd::prelude::*;

use crate::ast::{Span, TypeId};
use crate::children::{
    children_rule, list_name, list_stmts, place_slot, placed, slot_props, with_lists,
};
use crate::component::{registered, ComponentDefinitionV, PropDefV};
use crate::component_calls::{
    component_name, component_rule, no_component_marker_remains, no_marker_law,
};
use crate::decls::find_method;
use crate::engine::{
    components_lowered, fresh_engine, front_lowered, parsed, source_lowered, widgets_lowered,
    BlincDslV,
};
use crate::everywhere::{
    in_block, in_body, in_call, in_decl, in_decls, in_expr, in_expr_kind, in_exprs, in_field_inits,
    in_lambda_body, in_methods, in_named_args, in_program, in_stmt, in_stmt_kind, in_stmts,
};
use crate::fsm::{FsmDefinitionV, FsmEntryV};
use crate::fsm_decls::meta_body;
use crate::model::{
    BlockV, CallV, DeclKindV, DeclV, ExprKindV, ExprV, FieldInitV, LambdaBodyV, MethodV, NamedArgV,
    ParamV, ProgramV, StmtKindV, StmtV, TypeDefinitionV,
};
use crate::named_args::{
    left_named, named_resolved, named_rule, overflow_args, positional_call, prop_value,
};
use crate::populate::{
    decl_without_meta, described, enum_pinned, find_enum, fsms_described, guard_function,
    guards_described, ids_given, populated, return_code, LiftedGuardV,
};
use crate::props::{methods_bound, props_bound};
use crate::publish::{components_published, decl_component, div_component, text_component};
use crate::shape::{callee_name, stmt_call, string_value, variable_name};
use crate::stateful::program_undecorated;
use crate::styling::{
    is_styled, other_args, overlay_name, overlay_setter, overlay_stmts, styling_args, styling_rule,
    with_overlay,
};
use crate::unit_return::{decl_returning, methods_returning, program_returning, returning};
use crate::value_views::{
    ends_in_widget, function_converted, functions_converted, impl_converted, impls_converted,
    methods_converted, nominal_name, returning_last, views_converted,
};
use crate::walk::{
    walk_block, walk_call, walk_decl, walk_decls, walk_expr, walk_expr_kind, walk_exprs,
    walk_field_inits, walk_lambda_body, walk_methods, walk_named_args, walk_program, walk_stmt,
    walk_stmt_kind, walk_stmts, Rule,
};
use crate::widgets::{
    block_ending_in, find_named, found_named, handle_arg, handle_call, handle_let, null_arg,
    widget_props,
};

verus! {

// ---------------------------------------------------------------------------
// Walks that bring no marker
// ---------------------------------------------------------------------------

/// Whether a rule brings no marker: it changes calls only, into calls or
/// blocks, and where there is no marker there is none after it.
pub open spec fn brings_no_marker<S>(r: Rule<S>) -> bool {
    &&& forall|st: S, e: ExprV|
        if e.kind is Call {
            (#[trigger] (r.expr)(st, e)).0.kind is Call || (r.expr)(st, e).0.kind is Block
        } else {
            (r.expr)(st, e).0 == e
        }
    &&& forall|st: S, e: ExprV|
        in_expr(no_marker_law(), e) ==> in_expr(no_marker_law(), (#[trigger] (r.expr)(st, e)).0)
    &&& forall|s: Seq<StmtV>|
        in_stmts(no_marker_law(), s) ==> in_stmts(no_marker_law(), #[trigger] (r.block)(s))
}

proof fn kept_expr<S>(r: Rule<S>, st: S, e: ExprV)
    requires
        brings_no_marker(r),
        in_expr(no_marker_law(), e),
    ensures
        in_expr(no_marker_law(), walk_expr(r, st, e).0),
        string_value(walk_expr(r, st, e).0) == string_value(e),
        variable_name(walk_expr(r, st, e).0) == variable_name(e),
    decreases e,
{
    let l = no_marker_law();
    kept_expr_kind(r, st, e.kind);
    let (kind, st1) = walk_expr_kind(r, st, e.kind);
    let e1 = ExprV { kind, ty: e.ty, span: e.span };
    match e.kind {
        ExprKindV::Call(c) => {
            let c1 = walk_call(r, st, c).0;
            kept_call_shape(r, st, c);
            assert(component_name(c) is None);
            assert((l.p)(e1));
        },
        _ => {},
    }
    assert(in_expr(l, e1));
    let e2 = (r.expr)(st1, e1).0;
    assert(in_expr(l, e2));
}

/// A walk over a call keeps the name that it calls and whether its first
/// argument is a string.
proof fn kept_call_shape<S>(r: Rule<S>, st: S, c: CallV)
    requires
        brings_no_marker(r),
        in_call(no_marker_law(), c),
    ensures
        component_name(walk_call(r, st, c).0) == component_name(c),
    decreases c, 1int,
{
    kept_expr(r, st, *c.callee);
    let st1 = walk_expr(r, st, *c.callee).1;
    kept_exprs(r, st1, c.positional_args);
}

proof fn kept_exprs<S>(r: Rule<S>, st: S, s: Seq<ExprV>)
    requires
        brings_no_marker(r),
        in_exprs(no_marker_law(), s),
    ensures
        in_exprs(no_marker_law(), walk_exprs(r, st, s).0),
        walk_exprs(r, st, s).0.len() == s.len(),
        forall|i: int|
            0 <= i < s.len() ==> string_value(#[trigger] walk_exprs(r, st, s).0[i])
                == string_value(s[i]),
    decreases s,
{
    if s.len() > 0 {
        let before = s.drop_last();
        assert forall|i: int| 0 <= i < before.len() implies in_expr(
            no_marker_law(),
            #[trigger] before[i],
        ) by {
            assert(before[i] == s[i]);
        }
        kept_exprs(r, st, before);
        let (front, st1) = walk_exprs(r, st, before);
        kept_expr(r, st1, s.last());
        let out = walk_exprs(r, st, s).0;
        assert forall|i: int| 0 <= i < s.len() implies string_value(#[trigger] out[i])
            == string_value(s[i]) by {
            if i < front.len() {
                assert(out[i] == front[i]);
                assert(before[i] == s[i]);
            }
        }
    }
}

proof fn kept_named_args<S>(r: Rule<S>, st: S, s: Seq<NamedArgV>)
    requires
        brings_no_marker(r),
        in_named_args(no_marker_law(), s),
    ensures
        in_named_args(no_marker_law(), walk_named_args(r, st, s).0),
    decreases s,
{
    if s.len() > 0 {
        let before = s.drop_last();
        assert forall|i: int| 0 <= i < before.len() implies in_expr(
            no_marker_law(),
            (#[trigger] before[i]).value,
        ) by {
            assert(before[i] == s[i]);
        }
        kept_named_args(r, st, before);
        let st1 = walk_named_args(r, st, before).1;
        kept_expr(r, st1, s.last().value);
    }
}

proof fn kept_field_inits<S>(r: Rule<S>, st: S, s: Seq<FieldInitV>)
    requires
        brings_no_marker(r),
        in_field_inits(no_marker_law(), s),
    ensures
        in_field_inits(no_marker_law(), walk_field_inits(r, st, s).0),
    decreases s,
{
    if s.len() > 0 {
        let before = s.drop_last();
        assert forall|i: int| 0 <= i < before.len() implies in_expr(
            no_marker_law(),
            (#[trigger] before[i]).value,
        ) by {
            assert(before[i] == s[i]);
        }
        kept_field_inits(r, st, before);
        let st1 = walk_field_inits(r, st, before).1;
        kept_expr(r, st1, s.last().value);
    }
}

proof fn kept_expr_kind<S>(r: Rule<S>, st: S, k: ExprKindV)
    requires
        brings_no_marker(r),
        in_expr_kind(no_marker_law(), k),
    ensures
        in_expr_kind(no_marker_law(), walk_expr_kind(r, st, k).0),
    decreases k,
{
    match k {
        ExprKindV::Binary { op: _, left, right } => {
            kept_expr(r, st, *left);
            kept_expr(r, walk_expr(r, st, *left).1, *right);
        },
        ExprKindV::Unary { operator: _, operand } => {
            kept_expr(r, st, *operand);
        },
        ExprKindV::Call(call) => {
            kept_expr(r, st, *call.callee);
            let st1 = walk_expr(r, st, *call.callee).1;
            kept_exprs(r, st1, call.positional_args);
            kept_named_args(r, walk_exprs(r, st1, call.positional_args).1, call.named_args);
            assert(in_call(no_marker_law(), walk_call(r, st, call).0));
        },
        ExprKindV::Field { object, field: _ } => {
            kept_expr(r, st, *object);
        },
        ExprKindV::Index { object, index } => {
            kept_expr(r, st, *object);
            kept_expr(r, walk_expr(r, st, *object).1, *index);
        },
        ExprKindV::Array(items) => {
            kept_exprs(r, st, items);
        },
        ExprKindV::Tuple(items) => {
            kept_exprs(r, st, items);
        },
        ExprKindV::Struct { name: _, fields } => {
            kept_field_inits(r, st, fields);
        },
        ExprKindV::MethodCall { receiver, positional_args, named_args, .. } => {
            kept_expr(r, st, *receiver);
            let st1 = walk_expr(r, st, *receiver).1;
            kept_exprs(r, st1, positional_args);
            kept_named_args(r, walk_exprs(r, st1, positional_args).1, named_args);
        },
        ExprKindV::Block(block) => {
            kept_block(r, st, block);
        },
        ExprKindV::If { condition, then_branch, else_branch } => {
            kept_expr(r, st, *condition);
            let st1 = walk_expr(r, st, *condition).1;
            kept_expr(r, st1, *then_branch);
            kept_expr(r, walk_expr(r, st1, *then_branch).1, *else_branch);
        },
        ExprKindV::Lambda { params: _, body } => {
            match body {
                LambdaBodyV::Expression(e) => {
                    kept_expr(r, st, *e);
                },
                LambdaBodyV::Block(block) => {
                    kept_block(r, st, block);
                },
            }
            assert(in_lambda_body(no_marker_law(), walk_lambda_body(r, st, body).0));
        },
        _ => {},
    }
}

proof fn kept_block<S>(r: Rule<S>, st: S, b: BlockV)
    requires
        brings_no_marker(r),
        in_block(no_marker_law(), b),
    ensures
        in_block(no_marker_law(), walk_block(r, st, b).0),
    decreases b,
{
    kept_stmts(r, st, b.statements);
    let statements = walk_stmts(r, st, b.statements).0;
    assert(in_stmts(no_marker_law(), (r.block)(statements)));
}

proof fn kept_stmts<S>(r: Rule<S>, st: S, s: Seq<StmtV>)
    requires
        brings_no_marker(r),
        in_stmts(no_marker_law(), s),
    ensures
        in_stmts(no_marker_law(), walk_stmts(r, st, s).0),
    decreases s,
{
    if s.len() > 0 {
        let before = s.drop_last();
        assert forall|i: int| 0 <= i < before.len() implies in_stmt(
            no_marker_law(),
            #[trigger] before[i],
        ) by {
            assert(before[i] == s[i]);
        }
        kept_stmts(r, st, before);
        let st1 = walk_stmts(r, st, before).1;
        kept_stmt_kind(r, st1, s.last().kind);
        assert(in_stmt(no_marker_law(), walk_stmt(r, st1, s.last()).0));
    }
}

proof fn kept_stmt_kind<S>(r: Rule<S>, st: S, k: StmtKindV)
    requires
        brings_no_marker(r),
        in_stmt_kind(no_marker_law(), k),
    ensures
        in_stmt_kind(no_marker_law(), walk_stmt_kind(r, st, k).0),
    decreases k,
{
    match k {
        StmtKindV::Expression(e) => {
            kept_expr(r, st, e);
        },
        StmtKindV::Let { initializer: Some(e), .. } => {
            kept_expr(r, st, e);
        },
        StmtKindV::Return(Some(e)) => {
            kept_expr(r, st, e);
        },
        StmtKindV::If { condition, then_block, else_block, span: _ } => {
            kept_expr(r, st, condition);
            let st1 = walk_expr(r, st, condition).1;
            kept_block(r, st1, then_block);
            match else_block {
                Some(b) => {
                    kept_block(r, walk_block(r, st1, then_block).1, b);
                },
                None => {},
            }
        },
        StmtKindV::While { condition, body, span: _ } => {
            kept_expr(r, st, condition);
            let st1 = walk_expr(r, st, condition).1;
            kept_block(r, st1, body);
        },
        StmtKindV::Block(block) => {
            kept_block(r, st, block);
        },
        _ => {},
    }
}

proof fn kept_methods<S>(r: Rule<S>, st: S, s: Seq<MethodV>)
    requires
        brings_no_marker(r),
        in_methods(no_marker_law(), s),
    ensures
        in_methods(no_marker_law(), walk_methods(r, st, s).0),
    decreases s.len(),
{
    if s.len() > 0 {
        let before = s.drop_last();
        assert forall|i: int| 0 <= i < before.len() implies in_body(
            no_marker_law(),
            (#[trigger] before[i]).body,
        ) by {
            assert(before[i] == s[i]);
        }
        kept_methods(r, st, before);
        let st1 = walk_methods(r, st, before).1;
        match s.last().body {
            Some(b) => {
                kept_block(r, st1, b);
            },
            None => {},
        }
    }
}

proof fn kept_decls<S>(r: Rule<S>, st: S, s: Seq<DeclV>)
    requires
        brings_no_marker(r),
        in_decls(no_marker_law(), s),
    ensures
        in_decls(no_marker_law(), walk_decls(r, st, s).0),
    decreases s.len(),
{
    if s.len() > 0 {
        let before = s.drop_last();
        assert forall|i: int| 0 <= i < before.len() implies in_decl(
            no_marker_law(),
            #[trigger] before[i],
        ) by {
            assert(before[i] == s[i]);
        }
        kept_decls(r, st, before);
        let st1 = walk_decls(r, st, before).1;
        match s.last().kind {
            DeclKindV::Function(f) => {
                match f.body {
                    Some(b) => {
                        kept_block(r, st1, b);
                    },
                    None => {},
                }
            },
            DeclKindV::Impl(i) => {
                kept_methods(r, st1, i.methods);
            },
            _ => {},
        }
        assert(in_decl(no_marker_law(), walk_decl(r, st1, s.last()).0));
    }
}

// ---------------------------------------------------------------------------
// The passes that are walks
// ---------------------------------------------------------------------------

/// A variable is no marker.
proof fn variables_are_unmarked(e: ExprV)
    requires
        e.kind is Variable || e.kind is Literal,
    ensures
        in_expr(no_marker_law(), e),
{
}

proof fn handle_let_is_unmarked(name: Seq<char>, maker: Seq<char>, span: Span)
    ensures
        in_stmt(no_marker_law(), handle_let(name, maker, span)),
{
    let l = no_marker_law();
    match handle_let(name, maker, span).kind {
        StmtKindV::Let { initializer: Some(e), .. } => {
            match e.kind {
                ExprKindV::Call(c) => {
                    variables_are_unmarked(*c.callee);
                    assert(in_call(l, c));
                    assert((l.p)(e));
                },
                _ => {},
            }
            assert(in_expr(l, e));
        },
        _ => {},
    }
}

proof fn handle_call_is_unmarked(
    target: Seq<char>,
    handle: Seq<char>,
    value: ExprV,
    span: Span,
)
    requires
        in_expr(no_marker_law(), value),
    ensures
        in_stmt(no_marker_law(), handle_call(target, handle, value, span)),
{
    let l = no_marker_law();
    match handle_call(target, handle, value, span).kind {
        StmtKindV::Expression(e) => {
            match e.kind {
                ExprKindV::Call(c) => {
                    variables_are_unmarked(*c.callee);
                    variables_are_unmarked(c.positional_args[0]);
                    assert(in_exprs(l, c.positional_args));
                    assert(in_call(l, c));
                    assert((l.p)(e));
                },
                _ => {},
            }
            assert(in_expr(l, e));
        },
        _ => {},
    }
}

/// A call of a host widget is no marker.
proof fn widget_calls_are_unmarked(defs: Seq<ComponentDefinitionV>, c: CallV)
    requires
        widget_props(defs, c) is Some,
    ensures
        component_name(c) is None,
{
    reveal_strlit("$Blinc$");
    reveal_strlit("__component_call__");
    let symbol = callee_name(c)->0;
    assert(symbol.take("$Blinc$"@.len() as int)[0] == symbol[0]);
    assert("$Blinc$"@[0] != "__component_call__"@[0]);
}

/// A block that ends in a call that is no marker, after statements without
/// markers, has none.
proof fn block_is_unmarked(prelude: Seq<StmtV>, c: CallV, span: Span)
    requires
        in_stmts(no_marker_law(), prelude),
        in_call(no_marker_law(), c),
        component_name(c) is None,
    ensures
        in_expr_kind(no_marker_law(), block_ending_in(prelude, c, span)),
{
    let l = no_marker_law();
    match block_ending_in(prelude, c, span) {
        ExprKindV::Block(b) => {
            let last = b.statements.last();
            assert(last.kind is Expression);
            let e = last.kind->Expression_0;
            assert((l.p)(e));
            assert(in_expr(l, e));
            assert(in_stmt(l, last));
            assert forall|i: int| 0 <= i < b.statements.len() implies in_stmt(
                l,
                #[trigger] b.statements[i],
            ) by {
                if i < prelude.len() {
                    assert(b.statements[i] == prelude[i]);
                }
            }
            assert(in_block(l, b));
        },
        _ => {},
    }
}

proof fn placed_slots_are_unmarked(
    named: Seq<NamedArgV>,
    id: u32,
    slots: Seq<Seq<char>>,
    span: Span,
)
    requires
        in_named_args(no_marker_law(), named),
    ensures
        in_named_args(no_marker_law(), placed(named, id, slots, span).named),
        in_stmts(no_marker_law(), placed(named, id, slots, span).prelude),
    decreases slots.len(),
{
    let l = no_marker_law();
    if slots.len() > 0 {
        let acc = placed(named, id, slots.drop_last(), span);
        let slot = slots.last();
        placed_slots_are_unmarked(named, id, slots.drop_last(), span);
        let out = place_slot(acc, slot, span);
        found_named(acc.named, slot);
        match find_named(acc.named, slot) {
            None => {
                variables_are_unmarked(null_arg(slot, span).value);
            },
            Some(i) => {
                let rest = acc.named.remove(i);
                assert(in_expr(l, acc.named[i].value));
                assert forall|j: int| 0 <= j < rest.len() implies in_expr(
                    l,
                    (#[trigger] rest[j]).value,
                ) by {
                    if j < i {
                        assert(rest[j] == acc.named[j]);
                    } else {
                        assert(rest[j] == acc.named[j + 1]);
                    }
                }
                match acc.named[i].value.kind {
                    ExprKindV::Array(items) => {
                        assert(in_exprs(l, items));
                        list_is_unmarked(acc.next_id, items, span);
                        variables_are_unmarked(out.named.last().value);
                    },
                    _ => {},
                }
            },
        }
    }
}

proof fn list_is_unmarked(id: u32, items: Seq<ExprV>, span: Span)
    requires
        in_exprs(no_marker_law(), items),
    ensures
        in_stmts(no_marker_law(), list_stmts(id, items, span)),
{
    let l = no_marker_law();
    let name = list_name(id);
    let s = list_stmts(id, items, span);
    handle_let_is_unmarked(name, "__new_child_list__"@, span);
    assert forall|i: int| 0 <= i < s.len() implies in_stmt(l, #[trigger] s[i]) by {
        if i > 0 {
            assert(in_expr(l, items[i - 1]));
            handle_call_is_unmarked("__push_child__"@, name, items[i - 1], span);
            assert(s[i] == handle_call("__push_child__"@, name, items[i - 1], span));
        }
    }
}

proof fn children_bring_no_marker(defs: Seq<ComponentDefinitionV>)
    ensures
        brings_no_marker(children_rule(defs)),
{
    let l = no_marker_law();
    let r = children_rule(defs);
    assert forall|st: u32, e: ExprV| in_expr(l, e) implies in_expr(
        l,
        (#[trigger] (r.expr)(st, e)).0,
    ) by {
        match e.kind {
            ExprKindV::Call(c) => match widget_props(defs, c) {
                Some(props) => {
                    assert(in_call(l, c));
                    let p = placed(c.named_args, st, slot_props(props), e.span);
                    placed_slots_are_unmarked(c.named_args, st, slot_props(props), e.span);
                    let call = CallV { named_args: p.named, ..c };
                    assert(in_call(l, call));
                    assert((l.p)(e));
                    assert(component_name(call) is None);
                    if p.made_list {
                        block_is_unmarked(p.prelude, call, e.span);
                    }
                    let out = with_lists(defs, st, e).0;
                    assert(in_expr_kind(l, out.kind));
                    assert((l.p)(out));
                },
                None => {},
            },
            _ => {},
        }
    }
}

proof fn filtered_args_are_unmarked(s: Seq<NamedArgV>, keep: spec_fn(NamedArgV) -> bool)
    requires
        in_named_args(no_marker_law(), s),
    ensures
        in_named_args(no_marker_law(), s.filter(keep)),
    decreases s.len(),
{
    reveal(Seq::filter);
    if s.len() > 0 {
        let before = s.drop_last();
        assert forall|i: int| 0 <= i < before.len() implies in_expr(
            no_marker_law(),
            (#[trigger] before[i]).value,
        ) by {
            assert(before[i] == s[i]);
        }
        filtered_args_are_unmarked(before, keep);
        assert(in_expr(no_marker_law(), s[s.len() - 1].value));
    }
}

proof fn overlay_is_unmarked(id: u32, styling: Seq<NamedArgV>, span: Span)
    requires
        in_named_args(no_marker_law(), styling),
    ensures
        in_stmts(no_marker_law(), overlay_stmts(id, styling, span)),
{
    let l = no_marker_law();
    let name = overlay_name(id);
    let s = overlay_stmts(id, styling, span);
    handle_let_is_unmarked(name, "__new_style_overlay__"@, span);
    assert forall|i: int| 0 <= i < s.len() implies in_stmt(l, #[trigger] s[i]) by {
        if i > 0 {
            let a = styling[i - 1];
            assert(in_expr(l, a.value));
            handle_call_is_unmarked(overlay_setter(a.name)->0, name, a.value, span);
            assert(s[i] == handle_call(overlay_setter(a.name)->0, name, a.value, span));
        }
    }
}

proof fn styling_brings_no_marker(defs: Seq<ComponentDefinitionV>)
    ensures
        brings_no_marker(styling_rule(defs)),
{
    let l = no_marker_law();
    let r = styling_rule(defs);
    assert forall|st: u32, e: ExprV| in_expr(l, e) implies in_expr(
        l,
        (#[trigger] (r.expr)(st, e)).0,
    ) by {
        match e.kind {
            ExprKindV::Call(c) => {
                if is_styled(defs, c) {
                    assert(in_call(l, c));
                    let styling = styling_args(c.named_args);
                    let rest = other_args(c.named_args);
                    filtered_args_are_unmarked(
                        c.named_args,
                        |a: NamedArgV| overlay_setter(a.name) is Some,
                    );
                    filtered_args_are_unmarked(
                        c.named_args,
                        |a: NamedArgV| overlay_setter(a.name) is None,
                    );
                    let arg = if styling.len() == 0 {
                        null_arg("__style"@, e.span)
                    } else {
                        handle_arg("__style"@, overlay_name(st), e.span)
                    };
                    variables_are_unmarked(arg.value);
                    let call = CallV { named_args: rest.push(arg), ..c };
                    assert(in_named_args(l, call.named_args));
                    assert(in_call(l, call));
                    assert((l.p)(e));
                    assert(component_name(call) is None);
                    if styling.len() > 0 {
                        overlay_is_unmarked(st, styling, e.span);
                        block_is_unmarked(overlay_stmts(st, styling, e.span), call, e.span);
                    }
                    let out = with_overlay(defs, st, e).0;
                    assert(in_expr_kind(l, out.kind));
                    assert((l.p)(out));
                }
            },
            _ => {},
        }
    }
}

proof fn left_args_are_unmarked(props: Seq<PropDefV>, positional: nat, named: Seq<NamedArgV>)
    requires
        in_named_args(no_marker_law(), named),
    ensures
        in_named_args(no_marker_law(), left_named(props, positional, named)),
    decreases named.len(),
{
    if named.len() > 0 {
        let before = named.drop_last();
        assert forall|i: int| 0 <= i < before.len() implies in_expr(
            no_marker_law(),
            (#[trigger] before[i]).value,
        ) by {
            assert(before[i] == named[i]);
        }
        left_args_are_unmarked(props, positional, before);
        assert(in_expr(no_marker_law(), named[named.len() - 1].value));
    }
}

proof fn named_args_bring_no_marker(defs: Seq<ComponentDefinitionV>)
    ensures
        brings_no_marker(named_rule(defs)),
{
    let l = no_marker_law();
    let r = named_rule(defs);
    assert forall|st: (), e: ExprV| in_expr(l, e) implies in_expr(
        l,
        (#[trigger] (r.expr)(st, e)).0,
    ) by {
        match e.kind {
            ExprKindV::Call(c) => match widget_props(defs, c) {
                Some(props) => {
                    assert(in_call(l, c));
                    widget_calls_are_unmarked(defs, c);
                    let call = positional_call(props, c, e.span);
                    assert forall|i: int| 0 <= i < call.positional_args.len() implies in_expr(
                        l,
                        #[trigger] call.positional_args[i],
                    ) by {
                        if i < props.len() {
                            assert(call.positional_args[i] == prop_value(props, c, i, e.span));
                            found_named(c.named_args, props[i].name);
                            if i < c.positional_args.len() {
                                assert(in_expr(l, c.positional_args[i]));
                            } else if find_named(c.named_args, props[i].name) is Some {
                                let k = find_named(c.named_args, props[i].name)->0;
                                assert(in_expr(l, c.named_args[k].value));
                            }
                        } else {
                            assert(call.positional_args[i] == overflow_args(
                                props,
                                c,
                            )[i - props.len()]);
                            assert(call.positional_args[i] == c.positional_args[i]);
                        }
                    }
                    left_args_are_unmarked(props, c.positional_args.len(), c.named_args);
                    assert(in_call(l, call));
                    assert(widget_props(defs, call) is Some);
                    widget_calls_are_unmarked(defs, call);
                    assert((l.p)(named_resolved(defs, e)));
                },
                None => {},
            },
            _ => {},
        }
    }
}

/// Lowering the calls of host widgets brings no marker.
pub proof fn widgets_bring_no_marker(p: ProgramV, defs: Seq<ComponentDefinitionV>)
    requires
        in_program(no_marker_law(), p),
    ensures
        in_program(no_marker_law(), widgets_lowered(p, defs)),
{
    children_bring_no_marker(defs);
    styling_brings_no_marker(defs);
    named_args_bring_no_marker(defs);
    let listed = walk_program(children_rule(defs), 0, p).0;
    let styled = walk_program(styling_rule(defs), 0, listed).0;
    kept_decls(children_rule(defs), 0, p.declarations);
    kept_decls(styling_rule(defs), 0, listed.declarations);
    kept_decls(named_rule(defs), (), styled.declarations);
}

// ---------------------------------------------------------------------------
// The other passes
// ---------------------------------------------------------------------------

proof fn bound_methods_are_unmarked(s: Seq<MethodV>, props: Seq<ParamV>)
    requires
        in_methods(no_marker_law(), s),
    ensures
        in_methods(no_marker_law(), methods_bound(s, props)),
    decreases s.len(),
{
    if s.len() > 0 {
        let before = s.drop_last();
        assert forall|i: int| 0 <= i < before.len() implies in_body(
            no_marker_law(),
            (#[trigger] before[i]).body,
        ) by {
            assert(before[i] == s[i]);
        }
        bound_methods_are_unmarked(before, props);
        assert(in_body(no_marker_law(), s[s.len() - 1].body));
    }
}

proof fn binding_brings_no_marker(p: ProgramV)
    requires
        in_program(no_marker_law(), p),
    ensures
        in_program(no_marker_law(), props_bound(p)),
{
    let out = props_bound(p).declarations;
    assert forall|i: int| 0 <= i < out.len() implies in_decl(
        no_marker_law(),
        #[trigger] out[i],
    ) by {
        let d = p.declarations[i];
        assert(in_decl(no_marker_law(), d));
        match d.kind {
            DeclKindV::Impl(imp) => match find_method(imp.methods, "__component_props__"@) {
                Some(marker) => {
                    bound_methods_are_unmarked(imp.methods, marker.params);
                },
                None => {},
            },
            _ => {},
        }
    }
}

proof fn returned_body_is_unmarked(b: Option<BlockV>)
    requires
        in_body(no_marker_law(), b),
        b is Some ==> b->0.statements.len() > 0 && b->0.statements.last().kind is Expression,
    ensures
        in_body(no_marker_law(), returning_last(b)),
{
    let l = no_marker_law();
    match b {
        Some(block) => {
            let n = block.statements.len() as int;
            let out = returning_last(b)->0.statements;
            assert(in_stmt(l, block.statements[n - 1]));
            assert forall|i: int| 0 <= i < out.len() implies in_stmt(l, #[trigger] out[i]) by {
                if i < n - 1 {
                    assert(out[i] == block.statements[i]);
                }
            }
        },
        None => {},
    }
}

proof fn converted_methods_are_unmarked(
    owner: Option<Seq<char>>,
    symbols: Set<Seq<char>>,
    s: Seq<MethodV>,
)
    requires
        in_methods(no_marker_law(), s),
    ensures
        in_methods(no_marker_law(), methods_converted(owner, symbols, s).0),
    decreases s.len(),
{
    if s.len() > 0 {
        let before = s.drop_last();
        assert forall|i: int| 0 <= i < before.len() implies in_body(
            no_marker_law(),
            (#[trigger] before[i]).body,
        ) by {
            assert(before[i] == s[i]);
        }
        converted_methods_are_unmarked(owner, symbols, before);
        let symbols1 = methods_converted(owner, symbols, before).1;
        let m = s[s.len() - 1];
        assert(in_body(no_marker_law(), m.body));
        if ends_in_widget(symbols1, m.body) {
            returned_body_is_unmarked(m.body);
        }
    }
}

proof fn converted_impls_are_unmarked(
    types: Seq<TypeDefinitionV>,
    symbols: Set<Seq<char>>,
    s: Seq<DeclV>,
)
    requires
        in_decls(no_marker_law(), s),
    ensures
        in_decls(no_marker_law(), impls_converted(types, symbols, s).0),
    decreases s.len(),
{
    if s.len() > 0 {
        let before = s.drop_last();
        assert forall|i: int| 0 <= i < before.len() implies in_decl(
            no_marker_law(),
            #[trigger] before[i],
        ) by {
            assert(before[i] == s[i]);
        }
        converted_impls_are_unmarked(types, symbols, before);
        let symbols1 = impls_converted(types, symbols, before).1;
        let d = s[s.len() - 1];
        assert(in_decl(no_marker_law(), d));
        match d.kind {
            DeclKindV::Impl(i) => {
                let owner = nominal_name(types, i.for_type);
                converted_methods_are_unmarked(owner, symbols1, i.methods);
            },
            _ => {},
        }
        assert(in_decl(no_marker_law(), impl_converted(types, symbols1, d).0));
    }
}

proof fn converted_functions_are_unmarked(symbols: Set<Seq<char>>, s: Seq<DeclV>)
    requires
        in_decls(no_marker_law(), s),
    ensures
        in_decls(no_marker_law(), functions_converted(symbols, s).0),
    decreases s.len(),
{
    if s.len() > 0 {
        let before = s.drop_last();
        assert forall|i: int| 0 <= i < before.len() implies in_decl(
            no_marker_law(),
            #[trigger] before[i],
        ) by {
            assert(before[i] == s[i]);
        }
        converted_functions_are_unmarked(symbols, before);
        let symbols1 = functions_converted(symbols, before).1;
        let d = s[s.len() - 1];
        assert(in_decl(no_marker_law(), d));
        match d.kind {
            DeclKindV::Function(f) => {
                if ends_in_widget(symbols1, f.body) {
                    returned_body_is_unmarked(f.body);
                }
            },
            _ => {},
        }
        assert(in_decl(no_marker_law(), function_converted(symbols1, d).0));
    }
}

proof fn converting_brings_no_marker(p: ProgramV, symbols: Set<Seq<char>>)
    requires
        in_program(no_marker_law(), p),
    ensures
        in_program(no_marker_law(), views_converted(p, symbols).0),
{
    let (first, symbols1) = impls_converted(p.type_registry, symbols, p.declarations);
    converted_impls_are_unmarked(p.type_registry, symbols, p.declarations);
    converted_functions_are_unmarked(symbols1, first);
}

proof fn returning_brings_no_marker(p: ProgramV)
    requires
        in_program(no_marker_law(), p),
    ensures
        in_program(no_marker_law(), program_returning(p)),
{
    let l = no_marker_law();
    let out = program_returning(p).declarations;
    assert forall|i: int| 0 <= i < out.len() implies in_decl(l, #[trigger] out[i]) by {
        let d = p.declarations[i];
        assert(in_decl(l, d));
        match d.kind {
            DeclKindV::Function(f) => {
                ended_body_is_unmarked(f.body);
            },
            DeclKindV::Impl(imp) => {
                let methods = methods_returning(imp.methods);
                assert forall|k: int| 0 <= k < methods.len() implies in_body(
                    l,
                    (#[trigger] methods[k]).body,
                ) by {
                    assert(in_body(l, imp.methods[k].body));
                    ended_body_is_unmarked(imp.methods[k].body);
                }
            },
            _ => {},
        }
        assert(out[i] == decl_returning(d));
    }
}

proof fn ended_body_is_unmarked(b: Option<BlockV>)
    requires
        in_body(no_marker_law(), b),
    ensures
        in_body(no_marker_law(), returning(b)),
{
    match b {
        Some(block) => {
            assert(in_stmts(no_marker_law(), block.statements));
            assert(in_stmts(no_marker_law(), returning(b)->0.statements));
        },
        None => {},
    }
}

/// The guards of a description without markers have none.
proof fn described_guards_are_unmarked(fsm: Seq<char>, s: Seq<StmtV>)
    requires
        in_stmts(no_marker_law(), s),
    ensures
        forall|k: int|
            0 <= k < described(fsm, s).guards.len() ==> in_expr(
                no_marker_law(),
                (#[trigger] described(fsm, s).guards[k]).guard,
            ),
    decreases s.len(),
{
    let l = no_marker_law();
    if s.len() > 0 {
        let before = s.drop_last();
        assert forall|i: int| 0 <= i < before.len() implies in_stmt(l, #[trigger] before[i]) by {
            assert(before[i] == s[i]);
        }
        described_guards_are_unmarked(fsm, before);
        let last = s[s.len() - 1];
        assert(in_stmt(l, last));
        match stmt_call(last) {
            Some(c) => {
                assert(in_expr(l, last.kind->Expression_0));
                assert(in_call(l, c));
                if c.positional_args.len() > 1 {
                    assert(in_expr(l, c.positional_args[1]));
                }
            },
            None => {},
        }
    }
}

proof fn lifted_guards_are_unmarked(s: Seq<DeclV>)
    requires
        in_decls(no_marker_law(), s),
    ensures
        forall|k: int|
            0 <= k < guards_described(s).len() ==> in_expr(
                no_marker_law(),
                (#[trigger] guards_described(s)[k]).guard,
            ),
    decreases s.len(),
{
    if s.len() > 0 {
        let before = s.drop_last();
        assert forall|i: int| 0 <= i < before.len() implies in_decl(
            no_marker_law(),
            #[trigger] before[i],
        ) by {
            assert(before[i] == s[i]);
        }
        lifted_guards_are_unmarked(before);
        let d = s[s.len() - 1];
        assert(in_decl(no_marker_law(), d));
        match d.kind {
            DeclKindV::Impl(i) => match meta_body(i) {
                Some(b) => {
                    found_method(i.methods, "__fsm_meta__"@);
                    assert(in_block(no_marker_law(), b));
                    described_guards_are_unmarked(i.trait_name, b.statements);
                },
                None => {},
            },
            _ => {},
        }
    }
}

/// A method that is found is one of the methods.
proof fn found_method(s: Seq<MethodV>, name: Seq<char>)
    ensures
        find_method(s, name) is Some ==> exists|i: int|
            0 <= i < s.len() && #[trigger] s[i] == find_method(s, name)->0,
    decreases s.len(),
{
    if s.len() > 0 {
        let before = s.drop_last();
        found_method(before, name);
        if find_method(before, name) is Some {
            let i = choose|i: int|
                0 <= i < before.len() && #[trigger] before[i] == find_method(before, name)->0;
            assert(s[i] == before[i]);
        } else {
            assert(s[s.len() - 1] == s.last());
        }
    }
}

proof fn guard_function_is_unmarked(g: LiftedGuardV)
    requires
        in_expr(no_marker_law(), g.guard),
    ensures
        in_decl(no_marker_law(), guard_function(g)),
{
    let l = no_marker_law();
    match guard_function(g).kind {
        DeclKindV::Function(f) => {
            let b = f.body->0;
            return_code_is_unmarked(0);
            return_code_is_unmarked(1);
            match b.statements[0].kind {
                StmtKindV::If { condition, then_block, else_block, span: _ } => {
                    assert(then_block.statements[0] == return_code(1));
                    assert(in_stmts(l, then_block.statements));
                    assert(in_block(l, then_block));
                },
                _ => {},
            }
            assert(in_stmt(l, b.statements[0]));
            assert(b.statements[1] == return_code(0));
            assert(in_stmts(l, b.statements));
            assert(in_block(l, b));
        },
        _ => {},
    }
}

proof fn return_code_is_unmarked(n: i128)
    ensures
        in_stmt(no_marker_law(), return_code(n)),
{
    match return_code(n).kind {
        StmtKindV::Return(Some(e)) => {
            variables_are_unmarked(e);
        },
        _ => {},
    }
}

/// An enum that is found is one of the declarations.
proof fn found_enum(s: Seq<DeclV>, name: Seq<char>)
    ensures
        find_enum(s, name) is Some ==> 0 <= find_enum(s, name)->0 < s.len(),
    decreases s.len(),
{
    if s.len() > 0 {
        found_enum(s.drop_last(), name);
    }
}

proof fn given_ids_bring_no_marker(
    p: ProgramV,
    registry: Seq<FsmEntryV>,
    module: Seq<char>,
    defs: Seq<FsmDefinitionV>,
    ids: Seq<TypeId>,
    n: nat,
)
    requires
        in_program(no_marker_law(), p),
    ensures
        in_program(no_marker_law(), ids_given(p, registry, module, defs, ids, n).0),
    decreases n,
{
    if n > 0 {
        let m = (n - 1) as nat;
        given_ids_bring_no_marker(p, registry, module, defs, ids, m);
        let before = ids_given(p, registry, module, defs, ids, m).0;
        let name = defs[n - 1].name->0;
        let out = enum_pinned(before, name, ids[n - 1]);
        found_enum(before.declarations, name);
        assert forall|i: int| 0 <= i < out.declarations.len() implies in_decl(
            no_marker_law(),
            #[trigger] out.declarations[i],
        ) by {
            assert(in_decl(no_marker_law(), before.declarations[i]));
            assert(out.declarations[i].kind == before.declarations[i].kind);
        }
    }
}

proof fn populating_brings_no_marker(
    p: ProgramV,
    registry: Seq<FsmEntryV>,
    module: Seq<char>,
    ids: Seq<TypeId>,
)
    requires
        in_program(no_marker_law(), p),
    ensures
        in_program(no_marker_law(), populated(p, registry, module, ids).0),
{
    let l = no_marker_law();
    let defs = fsms_described(p.declarations);
    let guards = guards_described(p.declarations);
    let p1 = ids_given(p, registry, module, defs, ids, defs.len()).0;
    let all = p1.declarations + Seq::new(guards.len(), |i: int| guard_function(guards[i]));
    let out = populated(p, registry, module, ids).0.declarations;
    given_ids_bring_no_marker(p, registry, module, defs, ids, defs.len());
    lifted_guards_are_unmarked(p.declarations);
    assert forall|i: int| 0 <= i < out.len() implies in_decl(l, #[trigger] out[i]) by {
        if i < p1.declarations.len() {
            assert(all[i] == p1.declarations[i]);
        } else {
            let g = guards[i - p1.declarations.len()];
            assert(in_expr(l, g.guard));
            guard_function_is_unmarked(g);
            assert(all[i] == guard_function(g));
        }
        assert(in_decl(l, all[i]));
        assert(out[i] == decl_without_meta(all[i]));
        match all[i].kind {
            DeclKindV::Impl(imp) => {
                kept_methods_are_unmarked(
                    imp.methods,
                    |m: MethodV| m.name != "__fsm_meta__"@,
                );
            },
            _ => {},
        }
    }
}

proof fn kept_methods_are_unmarked(s: Seq<MethodV>, keep: spec_fn(MethodV) -> bool)
    requires
        in_methods(no_marker_law(), s),
    ensures
        in_methods(no_marker_law(), s.filter(keep)),
    decreases s.len(),
{
    reveal(Seq::filter);
    if s.len() > 0 {
        let before = s.drop_last();
        assert forall|i: int| 0 <= i < before.len() implies in_body(
            no_marker_law(),
            (#[trigger] before[i]).body,
        ) by {
            assert(before[i] == s[i]);
        }
        kept_methods_are_unmarked(before, keep);
        assert(in_body(no_marker_law(), s[s.len() - 1].body));
    }
}

// ---------------------------------------------------------------------------
// Laws
// ---------------------------------------------------------------------------

/// Whether no component is registered under the marker itself.
pub open spec fn no_marker_registered(defs: Seq<ComponentDefinitionV>) -> bool {
    forall|i: int|
        0 <= i < defs.len() ==> (#[trigger] defs[i]).view_symbol != "__component_call__"@
}

/// A parsed program that is accepted holds no component marker, wherever
/// component calls are lowered, as long as no component is registered under
/// the marker itself.
pub proof fn parsed_program_is_unmarked(p: ProgramV, defs: Seq<ComponentDefinitionV>)
    requires
        no_marker_registered(defs),
        parsed(p, defs) is Ok,
    ensures
        in_program(no_marker_law(), parsed(p, defs)->Ok_0),
{
    let plain = program_undecorated(front_lowered(p)).0;
    no_component_marker_remains(defs, plain);
    binding_brings_no_marker(walk_program(component_rule(defs), (), plain).0);
    let lowered = components_lowered(plain, defs);
    converting_brings_no_marker(lowered, Set::empty());
    widgets_bring_no_marker(views_converted(lowered, Set::empty()).0, defs);
}

/// A compiled program holds no component marker, wherever component calls are
/// lowered, as long as no component is registered under the marker itself.
pub proof fn compiled_program_is_unmarked(
    dsl: BlincDslV,
    p: ProgramV,
    ids: Seq<TypeId>,
    offset: u32,
)
    requires
        no_marker_registered(dsl.components),
    ensures
        in_program(no_marker_law(), source_lowered(dsl, p, ids, offset).1),
{
    no_component_marker_remains(dsl.components, p);
    binding_brings_no_marker(walk_program(component_rule(dsl.components), (), p).0);
    let lowered = components_lowered(p, dsl.components);
    populating_brings_no_marker(lowered, dsl.fsms, "main"@, ids);
    let populated_p = populated(lowered, dsl.fsms, "main"@, ids).0;
    converting_brings_no_marker(populated_p, dsl.value_returning_views);
    let converted = views_converted(populated_p, dsl.value_returning_views).0;
    let components = source_lowered(dsl, p, ids, offset).0.components;
    widgets_bring_no_marker(converted, components);
    returning_brings_no_marker(widgets_lowered(converted, components));
}

proof fn registering_brings_no_marker(s: Seq<ComponentDefinitionV>, d: ComponentDefinitionV)
    requires
        no_marker_registered(s),
        d.view_symbol != "__component_call__"@,
    ensures
        no_marker_registered(registered(s, d)),
    decreases s.len(),
{
    if s.len() > 0 {
        let before = s.drop_last();
        assert forall|i: int| 0 <= i < before.len() implies (#[trigger] before[i]).view_symbol
            != "__component_call__"@ by {
            assert(before[i] == s[i]);
        }
        registering_brings_no_marker(before, d);
        assert(s[s.len() - 1].view_symbol != "__component_call__"@);
    }
}

proof fn publishing_brings_no_marker(
    all: Seq<DeclV>,
    types: Seq<TypeDefinitionV>,
    defs: Seq<ComponentDefinitionV>,
    s: Seq<DeclV>,
)
    requires
        no_marker_registered(defs),
    ensures
        no_marker_registered(components_published(all, types, defs, s)),
    decreases s.len(),
{
    if s.len() > 0 {
        publishing_brings_no_marker(all, types, defs, s.drop_last());
        let front = components_published(all, types, defs, s.drop_last());
        match decl_component(all, types, s.last()) {
            Some(d) => {
                reveal_strlit("$view");
                reveal_strlit("__component_call__");
                assert(d.view_symbol.last() == 'w');
                registering_brings_no_marker(front, d);
            },
            None => {},
        }
    }
}

/// An engine starts without a component under the marker, and compiling a
/// source registers none.
pub proof fn compiling_registers_no_marker(
    dsl: BlincDslV,
    p: ProgramV,
    ids: Seq<TypeId>,
    offset: u32,
)
    requires
        no_marker_registered(dsl.components),
    ensures
        no_marker_registered(fresh_engine().components),
        no_marker_registered(source_lowered(dsl, p, ids, offset).0.components),
{
    reveal_strlit("$Blinc$Div$view");
    reveal_strlit("$Blinc$Text$view");
    reveal_strlit("__component_call__");
    assert("$Blinc$Div$view"@[0] != "__component_call__"@[0]);
    assert("$Blinc$Text$view"@[0] != "__component_call__"@[0]);
    registering_brings_no_marker(seq![], div_component());
    registering_brings_no_marker(registered(seq![], div_component()), text_component());
    let lowered = components_lowered(p, dsl.components);
    let populated_p = populated(lowered, dsl.fsms, "main"@, ids).0;
    publishing_brings_no_marker(
        populated_p.declarations,
        populated_p.type_registry,
        dsl.components,
        populated_p.declarations,
    );
}

} // verus!
