//! Lowering of component calls to calls of view functions.

use vstd::prelude::*;

use crate::ast::{
    expr_kind_view, exprs_view, named_args_view, stmts_view, views, Block, Call, Decl, Expr,
    ExprKind, NamedArg, Program, Span, Stmt, StmtKind, Type,
};
use crate::component::{lookup, ComponentDefinitionV, ComponentRegistry};
use crate::everywhere::{
    any_state, establish_program, in_call, in_expr, in_expr_kind, in_exprs, in_named_args,
    in_program, in_stmt, in_stmt_kind, in_stmts, Law,
};
use crate::model::{BlockV, CallV, ExprKindV, ExprV, NamedArgV, ProgramV, StmtKindV, StmtV, TypeV};
use crate::shape::{
    callee_name, calls, get_callee_name, get_stmt_call, get_string_arg, is_stmt_call_of,
    new_variable, stmt_call, stmt_calls, string_arg, variable_expr,
};
use crate::text::{concat, has_prefix, opt_text, starts_with};
use crate::walk::{rewrite_decls, walk_program, Rewriter, Rule};

verus! {

// ---------------------------------------------------------------------------
// Calls
// ---------------------------------------------------------------------------

/// The component that a marker call asks for.
pub open spec fn component_name(c: CallV) -> Option<Seq<char>> {
    if callee_name(c) == Some("__component_call__"@) {
        string_arg(c, 0)
    } else {
        None
    }
}

/// The symbol of the view function of a component: the one it is registered
/// with, or its name followed by `$view`.
pub open spec fn view_symbol(defs: Seq<ComponentDefinitionV>, name: Seq<char>) -> Seq<char> {
    match lookup(defs, name) {
        Some(d) => d.view_symbol,
        None => name + "$view"@,
    }
}

/// The name and value that a `__named__("name", value)` marker passes. A
/// marker without both arguments, or whose name is no literal, is an ordinary
/// argument.
pub open spec fn named_marker(e: ExprV) -> Option<(Seq<char>, ExprV)> {
    match e.kind {
        ExprKindV::Call(c) => if callee_name(c) == Some("__named__"@) && c.positional_args.len()
            >= 2 {
            match string_arg(c, 0) {
                Some(name) => Some((name, c.positional_args[1])),
                None => None,
            }
        } else {
            None
        },
        _ => None,
    }
}

/// The arguments that are passed by position, in order.
pub open spec fn positional_part(args: Seq<ExprV>) -> Seq<ExprV> {
    args.filter(|e: ExprV| named_marker(e) is None)
}

/// The arguments that are passed by name, in order.
pub open spec fn named_part(args: Seq<ExprV>) -> Seq<NamedArgV>
    decreases args.len(),
{
    if args.len() == 0 {
        seq![]
    } else {
        let front = named_part(args.drop_last());
        match named_marker(args.last()) {
            Some((name, value)) => front.push(NamedArgV { name, value, span: args.last().span }),
            None => front,
        }
    }
}

/// A component call as a call of the component's view function; any other
/// expression as it is.
pub open spec fn lowered_call(defs: Seq<ComponentDefinitionV>, e: ExprV) -> ExprV {
    match e.kind {
        ExprKindV::Call(c) => match component_name(c) {
            Some(name) => ExprV {
                kind: ExprKindV::Call(
                    CallV {
                        callee: Box::new(
                            variable_expr(view_symbol(defs, name), TypeV::Any, e.span),
                        ),
                        positional_args: positional_part(c.positional_args.skip(1)),
                        named_args: named_part(c.positional_args.skip(1)) + c.named_args,
                        type_args: seq![],
                    },
                ),
                ty: e.ty,
                span: e.span,
            },
            None => e,
        },
        _ => e,
    }
}

fn get_named_marker(e: &Expr) -> (r: Option<NamedArg>)
    ensures
        match r {
            Some(a) => named_marker(e@) == Some((a@.name, a@.value)) && a@.span == e@.span,
            None => named_marker(e@) is None,
        },
{
    match &e.kind {
        ExprKind::Call(c) => {
            if c.positional_args.len() >= 2 && calls(c, "__named__") {
                match get_string_arg(c, 0) {
                    Some(name) => Some(
                        NamedArg {
                            name: name.clone(),
                            value: c.positional_args[1].copied(),
                            span: e.span,
                        },
                    ),
                    None => None,
                }
            } else {
                None
            }
        },
        _ => None,
    }
}

fn split_args(v: Vec<Expr>) -> (r: (Vec<Expr>, Vec<NamedArg>))
    ensures
        exprs_view(r.0@) == positional_part(exprs_view(v@)),
        named_args_view(r.1@) == named_part(exprs_view(v@)),
{
    let ghost all = exprs_view(v@);
    let ghost v0 = v@;
    let mut positional: Vec<Expr> = Vec::new();
    let mut named: Vec<NamedArg> = Vec::new();
    proof {
        reveal(Seq::filter);
        assert(all.take(0) =~= Seq::<ExprV>::empty());
        assert(exprs_view(positional@) =~= Seq::<ExprV>::empty());
        assert(named_args_view(named@) =~= Seq::<NamedArgV>::empty());
    }
    for x in it: v
        invariant
            it.seq() == v0,
            all == exprs_view(v0),
            exprs_view(positional@) == positional_part(all.take(it.index() as int)),
            named_args_view(named@) == named_part(all.take(it.index() as int)),
    {
        proof {
            reveal(Seq::filter);
            let i = it.index() as int;
            assert(all.take(i + 1).drop_last() =~= all.take(i));
            assert(x@ == all[i]);
        }
        match get_named_marker(&x) {
            Some(a) => {
                proof {
                    assert(named_args_view(named@.push(a)) =~= named_args_view(named@).push(a@));
                }
                named.push(a);
            },
            None => {
                proof {
                    assert(exprs_view(positional@.push(x)) =~= exprs_view(positional@).push(x@));
                }
                positional.push(x);
            },
        }
    }
    assert(all.take(all.len() as int) =~= all);
    (positional, named)
}

pub fn get_component_name(c: &Call) -> (r: Option<String>)
    ensures
        opt_text(r) == component_name(c@),
{
    if calls(c, "__component_call__") {
        match get_string_arg(c, 0) {
            Some(name) => Some(name.clone()),
            None => None,
        }
    } else {
        None
    }
}

fn view_symbol_of(registry: &ComponentRegistry, name: &String) -> (r: String)
    ensures
        r@ == view_symbol(registry@, name@),
{
    match registry.get_by_name(name) {
        Some(d) => d.view_symbol.clone(),
        None => concat(name.as_str(), "$view"),
    }
}

fn lower_call(registry: &ComponentRegistry, e: Expr) -> (out: Expr)
    ensures
        out@ == lowered_call(registry@, e@),
{
    let Expr { kind, ty, span } = e;
    match kind {
        ExprKind::Call(c) => match get_component_name(&c) {
            Some(name) => {
                let symbol = view_symbol_of(registry, &name);
                let ghost c0 = c@;
                let Call { callee: _, positional_args, named_args, type_args: _ } = c;
                assert(c0.positional_args == exprs_view(positional_args@));
                assert(c0.named_args == named_args_view(named_args@));
                let ghost all = exprs_view(positional_args@);
                let mut rest = positional_args;
                let _marker_name = rest.remove(0);
                assert(exprs_view(rest@) =~= all.skip(1));
                let (positional, mut named) = split_args(rest);
                let ghost named_before = named_args_view(named@);
                let ghost carried = named_args_view(named_args@);
                let mut more = named_args;
                named.append(&mut more);
                assert(named_args_view(named@) =~= named_before + carried);
                let type_args: Vec<Type> = Vec::new();
                assert(views(type_args@) =~= Seq::<TypeV>::empty());
                let c1 = Call {
                    callee: Box::new(new_variable(symbol, Type::Any, span)),
                    positional_args: positional,
                    named_args: named,
                    type_args,
                };
                assert(c1@.positional_args == positional_part(c0.positional_args.skip(1)));
                assert(c1@.named_args == named_part(c0.positional_args.skip(1)) + c0.named_args);
                assert(component_name(c0) == Some(name@));
                Expr { kind: ExprKind::Call(c1), ty, span }
            },
            None => Expr { kind: ExprKind::Call(c), ty, span },
        },
        other => Expr { kind: other, ty, span },
    }
}

// ---------------------------------------------------------------------------
// Bodies
// ---------------------------------------------------------------------------

/// The name of the slot that a statement opens.
pub open spec fn slot_open(s: StmtV) -> Option<Seq<char>> {
    match stmt_call(s) {
        Some(c) => if callee_name(c) == Some("__slot_open__"@) {
            string_arg(c, 0)
        } else {
            None
        },
        None => None,
    }
}

pub open spec fn is_slot_close(s: StmtV) -> bool {
    is_stmt_call_of(s, "__slot_close__"@)
}

pub open spec fn is_slot_marker(s: StmtV) -> bool {
    is_stmt_call_of(s, "__slot_open__"@) || is_stmt_call_of(s, "__slot_close__"@)
}

/// The slot that is open after the statements `s`.
pub open spec fn open_slot(s: Seq<StmtV>) -> Option<Seq<char>>
    decreases s.len(),
{
    if s.len() == 0 {
        None
    } else if slot_open(s.last()) is Some {
        slot_open(s.last())
    } else if is_slot_close(s.last()) {
        None
    } else {
        open_slot(s.drop_last())
    }
}

/// Whether the last of the statements `s` is a child: an expression that
/// opens and closes no slot.
pub open spec fn ends_in_child(s: Seq<StmtV>) -> bool {
    s.len() > 0 && s.last().kind is Expression && slot_open(s.last()) is None && !is_slot_close(
        s.last(),
    )
}

/// The children that stand in `slot`, in order; `None` is the default slot.
pub open spec fn slot_children(s: Seq<StmtV>, slot: Option<Seq<char>>) -> Seq<ExprV>
    decreases s.len(),
{
    if s.len() == 0 {
        seq![]
    } else {
        let front = slot_children(s.drop_last(), slot);
        if ends_in_child(s) && open_slot(s.drop_last()) == slot {
            front.push(s.last().kind->Expression_0)
        } else {
            front
        }
    }
}

/// The slots that have children, in the order of their first children.
pub open spec fn slots_used(s: Seq<StmtV>) -> Seq<Seq<char>>
    decreases s.len(),
{
    if s.len() == 0 {
        seq![]
    } else {
        let front = slots_used(s.drop_last());
        match open_slot(s.drop_last()) {
            Some(name) => if ends_in_child(s) && !front.contains(name) {
                front.push(name)
            } else {
                front
            },
            None => front,
        }
    }
}

/// An argument that passes a list of widgets under a name.
pub open spec fn children_arg(name: Seq<char>, items: Seq<ExprV>, span: Span) -> NamedArgV {
    NamedArgV {
        name,
        value: ExprV { kind: ExprKindV::Array(items), ty: TypeV::Any, span },
        span,
    }
}

/// The arguments that pass the children of a body: `children` for the default
/// slot, if there are any, then `slot_<Name>` for every other slot.
pub open spec fn body_args(s: Seq<StmtV>, span: Span) -> Seq<NamedArgV> {
    let default_children = slot_children(s, None);
    let first = if default_children.len() > 0 {
        seq![children_arg("children"@, default_children, span)]
    } else {
        seq![]
    };
    let used = slots_used(s);
    first + Seq::new(
        used.len(),
        |i: int| children_arg("slot_"@ + used[i], slot_children(s, Some(used[i])), span),
    )
}

/// Whether a call is one of a widget that the host provides.
pub open spec fn calls_primitive(c: CallV) -> bool {
    match callee_name(c) {
        Some(name) => has_prefix(name, "$Blinc$"@),
        None => false,
    }
}

/// A call without its last argument and with named arguments added.
pub open spec fn without_body(c: CallV, more: Seq<NamedArgV>) -> CallV {
    CallV {
        positional_args: c.positional_args.drop_last(),
        named_args: c.named_args + more,
        ..c
    }
}

pub open spec fn with_call(s: StmtV, c: CallV) -> StmtV {
    match s.kind {
        StmtKindV::Expression(e) => StmtV {
            kind: StmtKindV::Expression(ExprV { kind: ExprKindV::Call(c), ..e }),
            ..s
        },
        _ => s,
    }
}

/// What becomes of a statement that may be a call with a body. A host widget
/// takes the children of the body as named arguments. For a component, the
/// statements of the body follow the call, and slot markers are left out.
pub open spec fn unfolded(s: StmtV) -> Seq<StmtV>
    decreases s, 1int,
{
    match s.kind {
        StmtKindV::Expression(e) => match e.kind {
            ExprKindV::Call(c) => if c.positional_args.len() > 0 {
                match c.positional_args.last().kind {
                    ExprKindV::Block(b) => if calls_primitive(c) {
                        let span = c.positional_args.last().span;
                        seq![with_call(s, without_body(c, body_args(b.statements, span)))]
                    } else {
                        seq![with_call(s, without_body(c, seq![]))] + unfolded_body(b.statements)
                    },
                    _ => seq![s],
                }
            } else {
                seq![s]
            },
            _ => seq![s],
        },
        _ => seq![s],
    }
}

pub open spec fn unfolded_body(s: Seq<StmtV>) -> Seq<StmtV>
    decreases s, 0int,
{
    if s.len() == 0 {
        seq![]
    } else {
        let front = unfolded_body(s.drop_last());
        if is_slot_marker(s.last()) {
            front
        } else {
            front + unfolded(s.last())
        }
    }
}

/// The statements of a block with every call body unfolded.
pub open spec fn unfolded_block(s: Seq<StmtV>) -> Seq<StmtV>
    decreases s.len(),
{
    if s.len() == 0 {
        seq![]
    } else {
        unfolded_block(s.drop_last()) + unfolded(s.last())
    }
}

fn get_slot_open(s: &Stmt) -> (r: Option<String>)
    ensures
        opt_text(r) == slot_open(s@),
{
    match get_stmt_call(s) {
        Some(c) => {
            if calls(c, "__slot_open__") {
                match get_string_arg(c, 0) {
                    Some(name) => Some(name.clone()),
                    None => None,
                }
            } else {
                None
            }
        },
        None => None,
    }
}

fn is_slot_marker_stmt(s: &Stmt) -> (r: bool)
    ensures
        r == is_slot_marker(s@),
{
    stmt_calls(s, "__slot_open__") || stmt_calls(s, "__slot_close__")
}

fn callee_is_primitive(c: &Call) -> (r: bool)
    ensures
        r == calls_primitive(c@),
{
    match get_callee_name(c) {
        Some(name) => starts_with(name.as_str(), "$Blinc$"),
        None => false,
    }
}

/// The children of one slot.
struct Bucket {
    name: String,
    items: Vec<Expr>,
}

spec fn buckets_hold(buckets: Seq<Bucket>, s: Seq<StmtV>) -> bool {
    &&& buckets.len() == slots_used(s).len()
    &&& forall|k: int|
        0 <= k < buckets.len() ==> (#[trigger] buckets[k]).name@ == slots_used(s)[k]
            && exprs_view(buckets[k].items@) == slot_children(s, Some(buckets[k].name@))
}

/// A slot that is not among the used ones has no children.
proof fn unused_slot_is_empty(s: Seq<StmtV>, name: Seq<char>)
    requires
        !slots_used(s).contains(name),
    ensures
        slot_children(s, Some(name)) == Seq::<ExprV>::empty(),
    decreases s.len(),
{
    if s.len() > 0 {
        let front = slots_used(s.drop_last());
        if front.contains(name) {
            let k = choose|k: int| 0 <= k < front.len() && front[k] == name;
            assert(slots_used(s)[k] == name);
        }
        if ends_in_child(s) && open_slot(s.drop_last()) == Some(name) {
            assert(slots_used(s).last() == name);
        }
        unused_slot_is_empty(s.drop_last(), name);
    }
}

/// No slot is listed twice.
proof fn slots_used_distinct(s: Seq<StmtV>)
    ensures
        slots_used(s).no_duplicates(),
    decreases s.len(),
{
    if s.len() > 0 {
        slots_used_distinct(s.drop_last());
    }
}

fn add_to_bucket(buckets: &mut Vec<Bucket>, name: &String, e: Expr, Ghost(s): Ghost<Seq<StmtV>>)
    requires
        s.len() > 0,
        ends_in_child(s),
        s.last().kind->Expression_0 == e@,
        open_slot(s.drop_last()) == Some(name@),
        buckets_hold(old(buckets)@, s.drop_last()),
    ensures
        buckets_hold(final(buckets)@, s),
{
    let ghost before = s.drop_last();
    let ghost b0 = buckets@;
    let mut i: usize = 0;
    while i < buckets.len()
        invariant
            i <= buckets@.len(),
            buckets@ == b0,
            forall|k: int| 0 <= k < i ==> (#[trigger] b0[k]).name@ != name@,
        ensures
            i < b0.len() ==> b0[i as int].name@ == name@,
        decreases buckets@.len() - i,
    {
        if buckets[i].name == *name {
            break;
        }
        i = i + 1;
    }
    proof {
        slots_used_distinct(before);
    }
    if i < buckets.len() {
        let mut b = buckets.remove(i);
        proof {
            assert(b == b0[i as int]);
            assert(exprs_view(b.items@.push(e)) =~= exprs_view(b.items@).push(e@));
        }
        b.items.push(e);
        let ghost b1 = b;
        buckets.insert(i, b);
        proof {
            assert(buckets@ =~= b0.update(i as int, b1));
            assert(slots_used(before)[i as int] == name@);
            assert(slots_used(s) == slots_used(before));
            assert forall|k: int| 0 <= k < buckets@.len() implies (#[trigger] buckets@[k]).name@
                == slots_used(s)[k] && exprs_view(buckets@[k].items@) == slot_children(
                s,
                Some(buckets@[k].name@),
            ) by {
                if k != i {
                    assert(buckets@[k] == b0[k]);
                    assert(slots_used(before)[k] != slots_used(before)[i as int]);
                }
            }
        }
    } else {
        let mut items: Vec<Expr> = Vec::new();
        items.push(e);
        let b = Bucket { name: name.clone(), items };
        proof {
            assert(exprs_view(b.items@) =~= seq![e@]);
            if slots_used(before).contains(name@) {
                let k = choose|k: int|
                    0 <= k < slots_used(before).len() && slots_used(before)[k] == name@;
                assert(b0[k].name@ == name@);
            }
            unused_slot_is_empty(before, name@);
            assert(Seq::<ExprV>::empty().push(e@) =~= seq![e@]);
        }
        buckets.push(b);
        proof {
            assert(slots_used(s) == slots_used(before).push(name@));
            assert forall|k: int| 0 <= k < buckets@.len() implies (#[trigger] buckets@[k]).name@
                == slots_used(s)[k] && exprs_view(buckets@[k].items@) == slot_children(
                s,
                Some(buckets@[k].name@),
            ) by {
                if k < b0.len() {
                    assert(buckets@[k] == b0[k]);
                }
            }
        }
    }
}

fn push_children_arg(args: &mut Vec<NamedArg>, name: String, items: Vec<Expr>, span: Span)
    ensures
        named_args_view(final(args)@) == named_args_view(old(args)@).push(
            children_arg(name@, exprs_view(items@), span),
        ),
{
    let a = NamedArg {
        name,
        value: Expr { kind: ExprKind::Array(items), ty: Type::Any, span },
        span,
    };
    args.push(a);
    assert(named_args_view(args@) =~= named_args_view(old(args)@).push(a@));
}

fn new_body_args(body: Vec<Stmt>, span: Span) -> (r: Vec<NamedArg>)
    ensures
        named_args_view(r@) == body_args(stmts_view(body@), span),
{
    let ghost all = stmts_view(body@);
    let ghost body0 = body@;
    let mut default_children: Vec<Expr> = Vec::new();
    let mut buckets: Vec<Bucket> = Vec::new();
    let mut current: Option<String> = None;
    proof {
        assert(all.take(0) =~= Seq::<StmtV>::empty());
        assert(exprs_view(default_children@) =~= Seq::<ExprV>::empty());
    }
    for s in it: body
        invariant
            it.seq() == body0,
            all == stmts_view(body0),
            opt_text(current) == open_slot(all.take(it.index() as int)),
            exprs_view(default_children@) == slot_children(all.take(it.index() as int), None),
            buckets_hold(buckets@, all.take(it.index() as int)),
    {
        let ghost now = all.take(it.index() + 1);
        proof {
            assert(now.drop_last() =~= all.take(it.index() as int));
            assert(now.last() == s@);
        }
        match get_slot_open(&s) {
            Some(name) => {
                current = Some(name);
                assert(buckets_hold(buckets@, now));
            },
            None => {
                if stmt_calls(&s, "__slot_close__") {
                    current = None;
                    assert(buckets_hold(buckets@, now));
                } else {
                    match s.kind {
                        StmtKind::Expression(e) => match &current {
                            None => {
                                default_children.push(e);
                                proof {
                                    assert(exprs_view(default_children@) =~= slot_children(
                                        now,
                                        None,
                                    ));
                                    assert(buckets_hold(buckets@, now));
                                }
                            },
                            Some(name) => {
                                add_to_bucket(&mut buckets, name, e, Ghost(now));
                            },
                        },
                        _ => {
                            assert(buckets_hold(buckets@, now));
                        },
                    }
                }
            },
        }
    }
    proof {
        assert(all.take(all.len() as int) =~= all);
    }
    let mut args: Vec<NamedArg> = Vec::new();
    assert(named_args_view(args@) =~= Seq::<NamedArgV>::empty());
    if default_children.len() > 0 {
        push_children_arg(&mut args, "children".to_owned(), default_children, span);
    }
    let ghost used = slots_used(all);
    let ghost first = named_args_view(args@);
    let ghost rest = Seq::new(
        used.len(),
        |i: int| children_arg("slot_"@ + used[i], slot_children(all, Some(used[i])), span),
    );
    proof {
        assert(first + rest =~= body_args(all, span));
        assert(first + rest.take(0) =~= first);
    }
    let ghost buckets0 = buckets@;
    for b in it: buckets
        invariant
            it.seq() == buckets0,
            buckets_hold(buckets0, all),
            used == slots_used(all),
            rest == Seq::new(
                used.len(),
                |i: int| children_arg("slot_"@ + used[i], slot_children(all, Some(used[i])), span),
            ),
            named_args_view(args@) == first + rest.take(it.index() as int),
    {
        let Bucket { name, items } = b;
        let arg_name = concat("slot_", name.as_str());
        proof {
            let i = it.index() as int;
            assert(b == buckets0[i]);
            assert(first + rest.take(i + 1) =~= (first + rest.take(i)).push(rest[i]));
        }
        push_children_arg(&mut args, arg_name, items, span);
    }
    assert(rest.take(rest.len() as int) =~= rest);
    args
}

fn new_call_stmt(c: Call, call_ty: Type, call_span: Span, ty: Type, span: Span) -> (s: Stmt)
    ensures
        s@ == (StmtV {
            kind: StmtKindV::Expression(
                ExprV { kind: ExprKindV::Call(c@), ty: call_ty@, span: call_span },
            ),
            ty: ty@,
            span,
        }),
{
    let e = Expr { kind: ExprKind::Call(c), ty: call_ty, span: call_span };
    assert(e@ == ExprV { kind: ExprKindV::Call(c@), ty: call_ty@, span: call_span });
    Stmt { kind: StmtKind::Expression(e), ty, span }
}

fn unfold_into(out: &mut Vec<Stmt>, s: Stmt)
    ensures
        stmts_view(final(out)@) == stmts_view(old(out)@) + unfolded(s@),
    decreases s, 1int,
{
    let ghost out0 = stmts_view(out@);
    let ghost s0 = s@;
    let Stmt { kind, ty, span } = s;
    match kind {
        StmtKind::Expression(e) => {
            let Expr { kind: ekind, ty: ety, span: espan } = e;
            match ekind {
                ExprKind::Call(c) => {
                    let ghost c0 = c@;
                    proof {
                        assert(expr_kind_view(ekind) == ExprKindV::Call(c0));
                        assert(e@ == ExprV {
                            kind: ExprKindV::Call(c0),
                            ty: ety@,
                            span: espan,
                        });
                        assert(s0.kind == StmtKindV::Expression(e@));
                    }
                    let primitive = callee_is_primitive(&c);
                    let Call { callee, positional_args, named_args, type_args } = c;
                    let mut args = positional_args;
                    let last = args.pop();
                    match last {
                        Some(Expr { kind: ExprKind::Block(b), ty: bty, span: bspan }) => {
                            proof {
                                assert(exprs_view(args@) =~= c0.positional_args.drop_last());
                                assert(last->0 == positional_args@.last());
                                assert(decreases_to!(s => positional_args));
                                assert(decreases_to!(positional_args => positional_args@.last()));
                                assert(decreases_to!(s => b.statements));
                            }
                            let ghost body = stmts_view(b.statements@);
                            proof {
                                assert(c0.positional_args.last() == last->0@);
                                assert(b@ == BlockV { statements: body, span: b.span });
                                assert(last->0@.kind == ExprKindV::Block(b@));
                            }
                            let mut named = named_args;
                            if primitive {
                                let mut more = new_body_args(b.statements, bspan);
                                proof {
                                    assert(named_args_view(named@ + more@) =~= c0.named_args
                                        + body_args(body, bspan));
                                }
                                named.append(&mut more);
                                let c1 = Call {
                                    callee,
                                    positional_args: args,
                                    named_args: named,
                                    type_args,
                                };
                                let t = new_call_stmt(c1, ety, espan, ty, span);
                                assert(c1@ == without_body(c0, body_args(body, bspan)));
                                out.push(t);
                                assert(stmts_view(out@) =~= out0 + unfolded(s0));
                            } else {
                                let c1 = Call {
                                    callee,
                                    positional_args: args,
                                    named_args: named,
                                    type_args,
                                };
                                let t = new_call_stmt(c1, ety, espan, ty, span);
                                proof {
                                    assert(c0.named_args + Seq::<NamedArgV>::empty()
                                        =~= c0.named_args);
                                    assert(c1@ == without_body(c0, seq![]));
                                }
                                out.push(t);
                                assert(stmts_view(out@) =~= out0.push(t@));
                                unfold_body_into(out, b.statements);
                                assert(stmts_view(out@) =~= out0 + unfolded(s0));
                            }
                        },
                        Some(other) => {
                            args.push(other);
                            proof {
                                assert(exprs_view(args@) =~= c0.positional_args);
                            }
                            let c1 = Call {
                                callee,
                                positional_args: args,
                                named_args,
                                type_args,
                            };
                            let t = new_call_stmt(c1, ety, espan, ty, span);
                            assert(t@ == s0);
                            out.push(t);
                            assert(stmts_view(out@) =~= out0 + unfolded(s0));
                        },
                        None => {
                            let c1 = Call {
                                callee,
                                positional_args: args,
                                named_args,
                                type_args,
                            };
                            let t = new_call_stmt(c1, ety, espan, ty, span);
                            assert(t@ == s0);
                            out.push(t);
                            assert(stmts_view(out@) =~= out0 + unfolded(s0));
                        },
                    }
                },
                other => {
                    let t = Stmt {
                        kind: StmtKind::Expression(Expr { kind: other, ty: ety, span: espan }),
                        ty,
                        span,
                    };
                    out.push(t);
                    assert(stmts_view(out@) =~= out0 + unfolded(s0));
                },
            }
        },
        other => {
            out.push(Stmt { kind: other, ty, span });
            assert(stmts_view(out@) =~= out0 + unfolded(s0));
        },
    }
}

fn unfold_body_into(out: &mut Vec<Stmt>, body: Vec<Stmt>)
    ensures
        stmts_view(final(out)@) == stmts_view(old(out)@) + unfolded_body(stmts_view(body@)),
    decreases body, 0int,
{
    let ghost all = stmts_view(body@);
    let ghost body0 = body@;
    let ghost out0 = stmts_view(out@);
    assert(out0 + unfolded_body(all.take(0)) =~= out0);
    for s in it: body
        invariant
            it.seq() == body0,
            body0 == body@,
            all == stmts_view(body0),
            stmts_view(out@) == out0 + unfolded_body(all.take(it.index() as int)),
    {
        let ghost i = it.index() as int;
        proof {
            assert(all.take(i + 1).drop_last() =~= all.take(i));
            assert(s@ == all[i]);
            assert(decreases_to!(body => body@[i]));
        }
        if !is_slot_marker_stmt(&s) {
            unfold_into(out, s);
            assert(stmts_view(out@) =~= out0 + unfolded_body(all.take(i + 1)));
        }
    }
    assert(all.take(all.len() as int) =~= all);
}

fn unfold_block(body: Vec<Stmt>) -> (out: Vec<Stmt>)
    ensures
        stmts_view(out@) == unfolded_block(stmts_view(body@)),
{
    let ghost all = stmts_view(body@);
    let ghost body0 = body@;
    let mut out: Vec<Stmt> = Vec::new();
    assert(stmts_view(out@) =~= unfolded_block(all.take(0)));
    for s in it: body
        invariant
            it.seq() == body0,
            all == stmts_view(body0),
            stmts_view(out@) == unfolded_block(all.take(it.index() as int)),
    {
        let ghost i = it.index() as int;
        proof {
            assert(all.take(i + 1).drop_last() =~= all.take(i));
        }
        unfold_into(&mut out, s);
    }
    assert(all.take(all.len() as int) =~= all);
    out
}

// ---------------------------------------------------------------------------
// The pass
// ---------------------------------------------------------------------------

/// The lowering of component calls as a rewriting rule.
pub open spec fn component_rule(defs: Seq<ComponentDefinitionV>) -> Rule<()> {
    Rule {
        expr: |st: (), e: ExprV| (lowered_call(defs, e), st),
        block: |s: Seq<StmtV>| unfolded_block(s),
    }
}

struct ComponentCalls<'a> {
    registry: &'a ComponentRegistry,
}

impl<'a> Rewriter for ComponentCalls<'a> {
    type State = ();

    closed spec fn rule(&self) -> Rule<()> {
        component_rule(self.registry@)
    }

    fn apply_expr(&self, st: &mut (), e: Expr) -> (out: Expr) {
        lower_call(self.registry, e)
    }

    fn apply_block(&self, s: Vec<Stmt>) -> (out: Vec<Stmt>) {
        unfold_block(s)
    }
}

/// Turn every `__component_call__("Name", ..)` marker into a call of the
/// component's view function and unfold call bodies.
pub fn lower_component_calls(program: &mut Program, registry: &ComponentRegistry)
    ensures
        final(program)@ == walk_program(component_rule(registry@), (), old(program)@).0,
{
    let mut declarations: Vec<Decl> = Vec::new();
    std::mem::swap(&mut program.declarations, &mut declarations);
    let rule = ComponentCalls { registry };
    let mut st: () = ();
    program.declarations = rewrite_decls(&rule, &mut st, declarations);
}

// ---------------------------------------------------------------------------
// No marker remains
// ---------------------------------------------------------------------------

/// The law that no expression is a component marker.
pub open spec fn no_marker_law() -> Law {
    Law {
        p: |e: ExprV|
            match e.kind {
                ExprKindV::Call(c) => component_name(c) is None,
                _ => true,
            },
        q: |s: Seq<StmtV>| true,
    }
}

proof fn named_part_in_law(args: Seq<ExprV>)
    requires
        in_exprs(no_marker_law(), args),
    ensures
        in_named_args(no_marker_law(), named_part(args)),
    decreases args.len(),
{
    let l = no_marker_law();
    if args.len() > 0 {
        assert forall|i: int| 0 <= i < args.drop_last().len() implies in_expr(
            l,
            #[trigger] args.drop_last()[i],
        ) by {
            assert(args.drop_last()[i] == args[i]);
        }
        named_part_in_law(args.drop_last());
        assert(in_expr(l, args.last()));
        match args.last().kind {
            ExprKindV::Call(c) => {
                assert(in_call(l, c));
                if c.positional_args.len() >= 2 {
                    assert(in_expr(l, c.positional_args[1]));
                }
            },
            _ => {},
        }
    }
}

proof fn positional_part_in_law(args: Seq<ExprV>)
    requires
        in_exprs(no_marker_law(), args),
    ensures
        in_exprs(no_marker_law(), positional_part(args)),
    decreases args.len(),
{
    let l = no_marker_law();
    reveal(Seq::filter);
    if args.len() > 0 {
        assert forall|i: int| 0 <= i < args.drop_last().len() implies in_expr(
            l,
            #[trigger] args.drop_last()[i],
        ) by {
            assert(args.drop_last()[i] == args[i]);
        }
        positional_part_in_law(args.drop_last());
        assert(in_expr(l, args.last()));
    }
}

proof fn lowered_call_in_law(defs: Seq<ComponentDefinitionV>, e: ExprV)
    requires
        forall|i: int|
            0 <= i < defs.len() ==> (#[trigger] defs[i]).view_symbol != "__component_call__"@,
        in_expr_kind(no_marker_law(), e.kind),
    ensures
        in_expr(no_marker_law(), lowered_call(defs, e)),
{
    let l = no_marker_law();
    match e.kind {
        ExprKindV::Call(c) => match component_name(c) {
            Some(name) => {
                let rest = c.positional_args.skip(1);
                assert(in_call(l, c));
                assert forall|i: int| 0 <= i < rest.len() implies in_expr(
                    l,
                    #[trigger] rest[i],
                ) by {
                    assert(rest[i] == c.positional_args[i + 1]);
                }
                named_part_in_law(rest);
                positional_part_in_law(rest);
                view_symbol_is_no_marker(defs, name);
                match lowered_call(defs, e).kind {
                    ExprKindV::Call(c1) => {
                        assert(in_named_args(l, c1.named_args));
                        assert(in_exprs(l, c1.positional_args));
                        assert((l.p)(*c1.callee));
                        assert(in_expr(l, *c1.callee));
                        assert(in_call(l, c1));
                    },
                    _ => {},
                }
            },
            None => {},
        },
        _ => {},
    }
}

proof fn view_symbol_is_no_marker(defs: Seq<ComponentDefinitionV>, name: Seq<char>)
    requires
        forall|i: int|
            0 <= i < defs.len() ==> (#[trigger] defs[i]).view_symbol != "__component_call__"@,
    ensures
        view_symbol(defs, name) != "__component_call__"@,
    decreases defs.len(),
{
    if defs.len() == 0 {
        reveal_strlit("$view");
        reveal_strlit("__component_call__");
        assert((name + "$view"@).last() == 'w');
    } else {
        assert forall|i: int| 0 <= i < defs.drop_last().len() implies (
        #[trigger] defs.drop_last()[i]).view_symbol != "__component_call__"@ by {
            assert(defs.drop_last()[i] == defs[i]);
        }
        view_symbol_is_no_marker(defs.drop_last(), name);
    }
}

proof fn slot_children_in_law(s: Seq<StmtV>, slot: Option<Seq<char>>)
    requires
        in_stmts(no_marker_law(), s),
    ensures
        in_exprs(no_marker_law(), slot_children(s, slot)),
    decreases s.len(),
{
    let l = no_marker_law();
    if s.len() > 0 {
        assert forall|i: int| 0 <= i < s.drop_last().len() implies in_stmt(
            l,
            #[trigger] s.drop_last()[i],
        ) by {
            assert(s.drop_last()[i] == s[i]);
        }
        slot_children_in_law(s.drop_last(), slot);
        assert(in_stmt(l, s.last()));
    }
}

proof fn body_args_in_law(s: Seq<StmtV>, span: Span)
    requires
        in_stmts(no_marker_law(), s),
    ensures
        in_named_args(no_marker_law(), body_args(s, span)),
{
    let l = no_marker_law();
    let args = body_args(s, span);
    assert forall|i: int| 0 <= i < args.len() implies in_expr(
        l,
        (#[trigger] args[i]).value,
    ) by {
        slot_children_in_law(s, None);
        let used = slots_used(s);
        let shift: int = if slot_children(s, None).len() > 0 {
            1
        } else {
            0
        };
        if i >= shift {
            slot_children_in_law(s, Some(used[i - shift]));
        }
        match args[i].value.kind {
            ExprKindV::Array(items) => {
                assert(in_exprs(l, items));
            },
            _ => {},
        }
        assert(in_expr_kind(l, args[i].value.kind));
    }
}

proof fn unfolded_in_law(s: StmtV)
    requires
        in_stmt(no_marker_law(), s),
    ensures
        in_stmts(no_marker_law(), unfolded(s)),
    decreases s, 1int,
{
    let l = no_marker_law();
    match s.kind {
        StmtKindV::Expression(e) => match e.kind {
            ExprKindV::Call(c) => {
                if c.positional_args.len() > 0 {
                    let last = c.positional_args.last();
                    match last.kind {
                        ExprKindV::Block(b) => {
                            assert(in_expr(l, e));
                            assert(in_call(l, c));
                            assert(in_expr(l, last));
                            assert(in_expr_kind(l, last.kind));
                            assert(in_stmts(l, b.statements));
                            let more = if calls_primitive(c) {
                                body_args(b.statements, last.span)
                            } else {
                                seq![]
                            };
                            if calls_primitive(c) {
                                body_args_in_law(b.statements, last.span);
                            } else {
                                unfolded_body_in_law(b.statements);
                            }
                            let c1 = without_body(c, more);
                            assert forall|i: int|
                                0 <= i < c1.positional_args.len() implies in_expr(
                                l,
                                #[trigger] c1.positional_args[i],
                            ) by {
                                assert(c1.positional_args[i] == c.positional_args[i]);
                            }
                            assert(in_named_args(l, c1.named_args));
                            assert(in_call(l, c1));
                            let e1 = ExprV { kind: ExprKindV::Call(c1), ..e };
                            assert(component_name(c) is None);
                            assert(component_name(c1) is None);
                            assert(in_expr_kind(l, e1.kind));
                            assert(in_expr(l, e1));
                            let s1 = with_call(s, c1);
                            assert(s1.kind == StmtKindV::Expression(e1));
                            assert(in_stmt_kind(l, s1.kind));
                            assert(in_stmt(l, s1));
                            let out = unfolded(s);
                            assert(out[0] == s1);
                            assert forall|i: int| 0 <= i < out.len() implies in_stmt(
                                l,
                                #[trigger] out[i],
                            ) by {
                                if i > 0 {
                                    assert(out[i] == unfolded_body(b.statements)[i - 1]);
                                }
                            }
                        },
                        _ => {},
                    }
                }
            },
            _ => {},
        },
        _ => {},
    }
}

proof fn unfolded_body_in_law(s: Seq<StmtV>)
    requires
        in_stmts(no_marker_law(), s),
    ensures
        in_stmts(no_marker_law(), unfolded_body(s)),
    decreases s, 0int,
{
    let l = no_marker_law();
    if s.len() > 0 {
        assert forall|i: int| 0 <= i < s.drop_last().len() implies in_stmt(
            l,
            #[trigger] s.drop_last()[i],
        ) by {
            assert(s.drop_last()[i] == s[i]);
        }
        unfolded_body_in_law(s.drop_last());
        assert(in_stmt(l, s.last()));
        unfolded_in_law(s.last());
    }
}

proof fn unfolded_block_in_law(s: Seq<StmtV>)
    requires
        in_stmts(no_marker_law(), s),
    ensures
        in_stmts(no_marker_law(), unfolded_block(s)),
    decreases s.len(),
{
    let l = no_marker_law();
    if s.len() > 0 {
        assert forall|i: int| 0 <= i < s.drop_last().len() implies in_stmt(
            l,
            #[trigger] s.drop_last()[i],
        ) by {
            assert(s.drop_last()[i] == s[i]);
        }
        unfolded_block_in_law(s.drop_last());
        assert(in_stmt(l, s.last()));
        unfolded_in_law(s.last());
    }
}

/// After the pass no component marker is left, as long as no component is
/// registered under the marker's own name.
pub proof fn no_component_marker_remains(defs: Seq<ComponentDefinitionV>, p: ProgramV)
    requires
        forall|i: int|
            0 <= i < defs.len() ==> (#[trigger] defs[i]).view_symbol != "__component_call__"@,
    ensures
        in_program(no_marker_law(), walk_program(component_rule(defs), (), p).0),
{
    let r = component_rule(defs);
    let l = no_marker_law();
    assert forall|st: (), e: ExprV| in_expr_kind(l, e.kind) implies in_expr(
        l,
        (#[trigger] (r.expr)(st, e)).0,
    ) by {
        lowered_call_in_law(defs, e);
    }
    assert forall|s: Seq<StmtV>| in_stmts(l, s) implies (l.q)(#[trigger] (r.block)(s)) && in_stmts(
        l,
        (r.block)(s),
    ) by {
        unfolded_block_in_law(s);
    }
    establish_program(r, l, any_state::<()>(), (), p);
}

} // verus!
