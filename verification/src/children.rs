//! Lists of child widgets as handles.

use vstd::prelude::*;

use crate::ast::{
    exprs_view, named_args_view, stmts_view, views, Call, Decl, Expr, ExprKind, NamedArg, Program,
    Span, Stmt,
};
use crate::component::{ComponentDefinitionV, ComponentRegistry, PropDef, PropDefV};
use crate::everywhere::{
    any_state, establish_program, in_block, in_call, in_expr, in_expr_kind, in_exprs, in_named_args,
    in_program, in_stmt, in_stmt_kind, in_stmts, Law,
};
use crate::model::{CallV, ExprKindV, ExprV, NamedArgV, ProgramV, StmtKindV, StmtV};
use crate::shape::callee_name;
use crate::text::{has_prefix, names_view, same, starts_with};
use crate::walk::{rewrite_decls, walk_program, Rewriter, Rule};
use crate::widgets::{
    block_ending_in, find_named, found_named, get_widget_props, handle_arg, handle_call, handle_let,
    handle_type, new_block_ending_in, new_handle_arg, new_handle_call, new_handle_let, new_null_arg,
    new_numbered, null_arg, numbered, position_of_named, widget_props,
};

verus! {

/// Whether a property takes a list of children.
pub open spec fn is_slot(name: Seq<char>) -> bool {
    name == "children"@ || has_prefix(name, "slot_"@)
}

/// The names of the properties that take children, in order.
pub open spec fn slot_props(props: Seq<PropDefV>) -> Seq<Seq<char>>
    decreases props.len(),
{
    if props.len() == 0 {
        seq![]
    } else {
        let front = slot_props(props.drop_last());
        if is_slot(props.last().name) {
            front.push(props.last().name)
        } else {
            front
        }
    }
}

/// The name of a list of children.
pub open spec fn list_name(id: u32) -> Seq<char> {
    numbered("__blinc_children_"@, id)
}

/// The statements that make a list and fill it.
pub open spec fn list_stmts(id: u32, items: Seq<ExprV>, span: Span) -> Seq<StmtV> {
    seq![handle_let(list_name(id), "__new_child_list__"@, span)] + Seq::new(
        items.len(),
        |i: int| handle_call("__push_child__"@, list_name(id), items[i], span),
    )
}

/// How far the slots of a call are placed.
pub struct PlacedV {
    pub named: Seq<NamedArgV>,
    pub prelude: Seq<StmtV>,
    pub next_id: u32,
    pub made_list: bool,
}

/// Place one slot: an array becomes a list made in the prelude, a slot that is
/// not supplied gets the null handle, and any other value is kept. The
/// argument of the slot goes to the end.
pub open spec fn place_slot(acc: PlacedV, slot: Seq<char>, span: Span) -> PlacedV {
    match find_named(acc.named, slot) {
        None => PlacedV { named: acc.named.push(null_arg(slot, span)), ..acc },
        Some(i) => {
            let rest = acc.named.remove(i);
            match acc.named[i].value.kind {
                ExprKindV::Array(items) => PlacedV {
                    named: rest.push(handle_arg(slot, list_name(acc.next_id), span)),
                    prelude: acc.prelude + list_stmts(acc.next_id, items, span),
                    next_id: acc.next_id.wrapping_add(1),
                    made_list: true,
                },
                _ => PlacedV { named: rest.push(acc.named[i]), ..acc },
            }
        },
    }
}

pub open spec fn placed(
    named: Seq<NamedArgV>,
    id: u32,
    slots: Seq<Seq<char>>,
    span: Span,
) -> PlacedV
    decreases slots.len(),
{
    if slots.len() == 0 {
        PlacedV { named, prelude: seq![], next_id: id, made_list: false }
    } else {
        place_slot(placed(named, id, slots.drop_last(), span), slots.last(), span)
    }
}

/// A call of a host widget with its slots placed. When lists are made, it
/// becomes a block that makes them and ends in the call.
pub open spec fn with_lists(defs: Seq<ComponentDefinitionV>, id: u32, e: ExprV) -> (ExprV, u32) {
    match e.kind {
        ExprKindV::Call(c) => match widget_props(defs, c) {
            Some(props) => {
                let p = placed(c.named_args, id, slot_props(props), e.span);
                let call = CallV { named_args: p.named, ..c };
                let kind = if p.made_list {
                    block_ending_in(p.prelude, call, e.span)
                } else {
                    ExprKindV::Call(call)
                };
                (ExprV { kind, ..e }, p.next_id)
            },
            None => (e, id),
        },
        _ => (e, id),
    }
}

fn collect_slots(props: &Vec<PropDef>) -> (r: Vec<String>)
    ensures
        names_view(r@) == slot_props(views(props@)),
{
    let ghost all = views(props@);
    let mut r: Vec<String> = Vec::new();
    assert(names_view(r@) =~= slot_props(all.take(0)));
    for i in 0..props.len()
        invariant
            all == views(props@),
            names_view(r@) == slot_props(all.take(i as int)),
    {
        proof {
            assert(all.take(i + 1).drop_last() =~= all.take(i as int));
        }
        let name = &props[i].name;
        if same(name, "children") || starts_with(name.as_str(), "slot_") {
            let owned = name.clone();
            assert(names_view(r@.push(owned)) =~= names_view(r@).push(owned@));
            r.push(owned);
        }
    }
    assert(all.take(all.len() as int) =~= all);
    r
}

fn push_list(
    prelude: &mut Vec<Stmt>,
    name: &String,
    Ghost(id): Ghost<u32>,
    items: Vec<Expr>,
    span: Span,
)
    requires
        name@ == list_name(id),
    ensures
        stmts_view(final(prelude)@) == stmts_view(old(prelude)@) + list_stmts(
            id,
            exprs_view(items@),
            span,
        ),
{
    let ghost before = stmts_view(prelude@);
    let ghost all = exprs_view(items@);
    let ghost items0 = items@;
    let ghost stmts = list_stmts(id, all, span);
    let first = new_handle_let(name.clone(), "__new_child_list__", span);
    prelude.push(first);
    assert(stmts_view(prelude@) =~= before + stmts.take(1));
    for x in it: items
        invariant
            it.seq() == items0,
            all == exprs_view(items0),
            stmts == list_stmts(id, all, span),
            name@ == list_name(id),
            stmts_view(prelude@) == before + stmts.take(it.index() + 1),
    {
        let ghost i = it.index() as int;
        let ghost prelude0 = prelude@;
        let s = new_handle_call("__push_child__", name, x, span);
        proof {
            assert(x@ == all[i]);
            assert(stmts[i + 1] == s@);
            assert(stmts.take(i + 2) =~= stmts.take(i + 1).push(s@));
        }
        prelude.push(s);
        proof {
            assert(stmts_view(prelude@) =~= stmts_view(prelude0).push(s@));
            assert(stmts_view(prelude@) =~= before + stmts.take(i + 2));
        }
    }
    assert(stmts.take(stmts.len() as int) =~= stmts);
}

struct Placed {
    named: Vec<NamedArg>,
    prelude: Vec<Stmt>,
    next_id: u32,
    made_list: bool,
}

impl View for Placed {
    type V = PlacedV;

    closed spec fn view(&self) -> PlacedV {
        PlacedV {
            named: named_args_view(self.named@),
            prelude: stmts_view(self.prelude@),
            next_id: self.next_id,
            made_list: self.made_list,
        }
    }
}

fn place(acc: &mut Placed, slot: &String, span: Span)
    ensures
        final(acc)@ == place_slot(old(acc)@, slot@, span),
{
    let ghost before = acc@;
    match position_of_named(&acc.named, slot) {
        None => {
            let a = new_null_arg(slot.clone(), span);
            acc.named.push(a);
            assert(named_args_view(acc.named@) =~= before.named.push(a@));
        },
        Some(i) => {
            let a = acc.named.remove(i);
            assert(named_args_view(acc.named@) =~= before.named.remove(i as int));
            let ghost rest = named_args_view(acc.named@);
            assert(a@ == before.named[i as int]);
            let NamedArg { name, value, span: aspan } = a;
            let Expr { kind, ty, span: vspan } = value;
            match kind {
                ExprKind::Array(items) => {
                    assert(a@.value.kind == ExprKindV::Array(exprs_view(items@)));
                    let id = acc.next_id;
                    let list = new_numbered("__blinc_children_", id);
                    push_list(&mut acc.prelude, &list, Ghost(id), items, span);
                    acc.next_id = id.wrapping_add(1);
                    acc.made_list = true;
                    let h = new_handle_arg(slot.clone(), list, span);
                    acc.named.push(h);
                    assert(named_args_view(acc.named@) =~= rest.push(h@));
                },
                other => {
                    let kept = NamedArg {
                        name,
                        value: Expr { kind: other, ty, span: vspan },
                        span: aspan,
                    };
                    assert(kept@ == a@);
                    acc.named.push(kept);
                    assert(named_args_view(acc.named@) =~= rest.push(a@));
                },
            }
        },
    }
}

fn place_all(named: Vec<NamedArg>, id: u32, slots: &Vec<String>, span: Span) -> (r: Placed)
    ensures
        r@ == placed(named_args_view(named@), id, names_view(slots@), span),
{
    let ghost named0 = named_args_view(named@);
    let ghost all = names_view(slots@);
    let mut acc = Placed { named, prelude: Vec::new(), next_id: id, made_list: false };
    assert(acc@.prelude =~= Seq::<StmtV>::empty());
    assert(acc@ == placed(named0, id, all.take(0), span));
    for i in 0..slots.len()
        invariant
            all == names_view(slots@),
            acc@ == placed(named0, id, all.take(i as int), span),
    {
        proof {
            assert(all.take(i + 1).drop_last() =~= all.take(i as int));
        }
        place(&mut acc, &slots[i], span);
    }
    assert(all.take(all.len() as int) =~= all);
    acc
}

fn make_lists(registry: &ComponentRegistry, counter: &mut u32, e: Expr) -> (out: Expr)
    ensures
        (out@, *final(counter)) == with_lists(registry@, *old(counter), e@),
{
    let Expr { kind, ty, span } = e;
    match kind {
        ExprKind::Call(c) => match get_widget_props(registry, &c) {
            Some(props) => {
                let ghost c0 = c@;
                assert(e@.kind == ExprKindV::Call(c0));
                let slots = collect_slots(props);
                let Call { callee, positional_args, named_args, type_args } = c;
                let p = place_all(named_args, *counter, &slots, span);
                let Placed { named, prelude, next_id, made_list } = p;
                *counter = next_id;
                let call = Call { callee, positional_args, named_args: named, type_args };
                assert(call@ == CallV { named_args: p@.named, ..c0 });
                if made_list {
                    Expr { kind: new_block_ending_in(prelude, call, span), ty, span }
                } else {
                    Expr { kind: ExprKind::Call(call), ty, span }
                }
            },
            None => Expr { kind: ExprKind::Call(c), ty, span },
        },
        other => Expr { kind: other, ty, span },
    }
}

/// The making of child lists as a rewriting rule. The state is the number of
/// the next list.
pub open spec fn children_rule(defs: Seq<ComponentDefinitionV>) -> Rule<u32> {
    Rule {
        expr: |id: u32, e: ExprV| with_lists(defs, id, e),
        block: |s: Seq<StmtV>| s,
    }
}

struct ChildLists<'a> {
    registry: &'a ComponentRegistry,
}

impl<'a> Rewriter for ChildLists<'a> {
    type State = u32;

    closed spec fn rule(&self) -> Rule<u32> {
        children_rule(self.registry@)
    }

    fn apply_expr(&self, st: &mut u32, e: Expr) -> (out: Expr) {
        make_lists(self.registry, st, e)
    }

    fn apply_block(&self, s: Vec<Stmt>) -> (out: Vec<Stmt>) {
        s
    }
}

/// Expand the arrays that host widgets get for `children` and their slots into
/// blocks that build a list with `__new_child_list__` and `__push_child__`.
/// Lists are numbered from 0 in the order of the walk.
pub fn lower_children_arrays_to_blocks(program: &mut Program, registry: &ComponentRegistry)
    ensures
        final(program)@ == walk_program(children_rule(registry@), 0, old(program)@).0,
{
    let mut declarations: Vec<Decl> = Vec::new();
    std::mem::swap(&mut program.declarations, &mut declarations);
    let mut counter: u32 = 0;
    program.declarations = rewrite_decls(&ChildLists { registry }, &mut counter, declarations);
}

// ---------------------------------------------------------------------------
// Every slot is supplied
// ---------------------------------------------------------------------------

/// The law that a call of a host widget supplies all of its slots.
pub open spec fn slots_law(defs: Seq<ComponentDefinitionV>) -> Law {
    Law {
        p: |e: ExprV|
            match e.kind {
                ExprKindV::Call(c) => match widget_props(defs, c) {
                    Some(props) => forall|k: int|
                        0 <= k < slot_props(props).len() ==> find_named(
                            c.named_args,
                            #[trigger] slot_props(props)[k],
                        ) is Some,
                    None => true,
                },
                _ => true,
            },
        q: |s: Seq<StmtV>| true,
    }
}

proof fn has_named(s: Seq<NamedArgV>, i: int, name: Seq<char>)
    requires
        0 <= i < s.len(),
        s[i].name == name,
    ensures
        find_named(s, name) is Some,
{
    found_named(s, name);
}

/// Placing a slot keeps the names that were there and adds the slot's.
proof fn place_keeps_names(acc: PlacedV, slot: Seq<char>, span: Span, name: Seq<char>)
    requires
        find_named(acc.named, name) is Some || name == slot,
    ensures
        find_named(place_slot(acc, slot, span).named, name) is Some,
{
    let out = place_slot(acc, slot, span).named;
    found_named(acc.named, name);
    found_named(acc.named, slot);
    if name == slot {
        has_named(out, out.len() - 1, name);
    } else {
        let j = find_named(acc.named, name)->0;
        match find_named(acc.named, slot) {
            None => {
                has_named(out, j, name);
            },
            Some(i) => {
                if j < i {
                    assert(out[j] == acc.named[j]);
                    has_named(out, j, name);
                } else {
                    assert(out[j - 1] == acc.named[j]);
                    has_named(out, j - 1, name);
                }
            },
        }
    }
}

proof fn all_slots_placed(named: Seq<NamedArgV>, id: u32, slots: Seq<Seq<char>>, span: Span)
    ensures
        forall|k: int|
            0 <= k < slots.len() ==> find_named(
                placed(named, id, slots, span).named,
                #[trigger] slots[k],
            ) is Some,
    decreases slots.len(),
{
    if slots.len() > 0 {
        let front = slots.drop_last();
        all_slots_placed(named, id, front, span);
        let acc = placed(named, id, front, span);
        assert forall|k: int| 0 <= k < slots.len() implies find_named(
            placed(named, id, slots, span).named,
            #[trigger] slots[k],
        ) is Some by {
            if k < front.len() {
                assert(slots[k] == front[k]);
            }
            place_keeps_names(acc, slots.last(), span, slots[k]);
        }
    }
}

proof fn no_widget(defs: Seq<ComponentDefinitionV>, c: CallV)
    requires
        callee_name(c) == Some("__new_child_list__"@) || callee_name(c) == Some(
            "__push_child__"@,
        ),
    ensures
        widget_props(defs, c) is None,
{
    reveal_strlit("__new_child_list__");
    reveal_strlit("__push_child__");
    reveal_strlit("$Blinc$");
    let symbol = callee_name(c)->0;
    assert(symbol.take("$Blinc$"@.len() as int)[0] == '_');
    assert("$Blinc$"@[0] == '$');
}

proof fn variable_in_law(defs: Seq<ComponentDefinitionV>, e: ExprV)
    requires
        e.kind is Variable || e.kind is Literal,
    ensures
        in_expr(slots_law(defs), e),
{
}

proof fn handle_let_in_law(defs: Seq<ComponentDefinitionV>, name: Seq<char>, span: Span)
    ensures
        in_stmt(slots_law(defs), handle_let(name, "__new_child_list__"@, span)),
{
    let l = slots_law(defs);
    let s = handle_let(name, "__new_child_list__"@, span);
    match s.kind {
        StmtKindV::Let { initializer: Some(e), .. } => {
            match e.kind {
                ExprKindV::Call(c) => {
                    no_widget(defs, c);
                    variable_in_law(defs, *c.callee);
                    assert(in_exprs(l, c.positional_args));
                    assert(in_named_args(l, c.named_args));
                    assert(in_call(l, c));
                },
                _ => {},
            }
            assert(in_expr(l, e));
        },
        _ => {},
    }
    assert(in_stmt_kind(l, s.kind));
}

proof fn push_in_law(defs: Seq<ComponentDefinitionV>, name: Seq<char>, value: ExprV, span: Span)
    requires
        in_expr(slots_law(defs), value),
    ensures
        in_stmt(slots_law(defs), handle_call("__push_child__"@, name, value, span)),
{
    let l = slots_law(defs);
    let s = handle_call("__push_child__"@, name, value, span);
    match s.kind {
        StmtKindV::Expression(e) => {
            match e.kind {
                ExprKindV::Call(c) => {
                    no_widget(defs, c);
                    variable_in_law(defs, *c.callee);
                    variable_in_law(defs, c.positional_args[0]);
                    assert(in_exprs(l, c.positional_args));
                    assert(in_named_args(l, c.named_args));
                    assert(in_call(l, c));
                },
                _ => {},
            }
            assert(in_expr(l, e));
        },
        _ => {},
    }
    assert(in_stmt_kind(l, s.kind));
}

proof fn list_stmts_in_law(defs: Seq<ComponentDefinitionV>, id: u32, items: Seq<ExprV>, span: Span)
    requires
        in_exprs(slots_law(defs), items),
    ensures
        in_stmts(slots_law(defs), list_stmts(id, items, span)),
{
    let l = slots_law(defs);
    let out = list_stmts(id, items, span);
    assert forall|i: int| 0 <= i < out.len() implies in_stmt(l, #[trigger] out[i]) by {
        if i == 0 {
            handle_let_in_law(defs, list_name(id), span);
        } else {
            push_in_law(defs, list_name(id), items[i - 1], span);
        }
    }
}

proof fn placed_in_law(
    defs: Seq<ComponentDefinitionV>,
    named: Seq<NamedArgV>,
    id: u32,
    slots: Seq<Seq<char>>,
    span: Span,
)
    requires
        in_named_args(slots_law(defs), named),
    ensures
        in_named_args(slots_law(defs), placed(named, id, slots, span).named),
        in_stmts(slots_law(defs), placed(named, id, slots, span).prelude),
    decreases slots.len(),
{
    let l = slots_law(defs);
    if slots.len() > 0 {
        placed_in_law(defs, named, id, slots.drop_last(), span);
        let acc = placed(named, id, slots.drop_last(), span);
        let out = place_slot(acc, slots.last(), span);
        found_named(acc.named, slots.last());
        match find_named(acc.named, slots.last()) {
            None => {
                variable_in_law(defs, null_arg(slots.last(), span).value);
            },
            Some(i) => {
                assert(in_expr(l, acc.named[i].value));
                match acc.named[i].value.kind {
                    ExprKindV::Array(items) => {
                        assert(in_exprs(l, items));
                        list_stmts_in_law(defs, acc.next_id, items, span);
                        variable_in_law(
                            defs,
                            handle_arg(slots.last(), list_name(acc.next_id), span).value,
                        );
                    },
                    _ => {},
                }
                assert forall|k: int| 0 <= k < out.named.len() implies in_expr(
                    l,
                    (#[trigger] out.named[k]).value,
                ) by {
                    if k < i {
                        assert(out.named[k] == acc.named[k]);
                    } else if k < out.named.len() - 1 {
                        assert(out.named[k] == acc.named[k + 1]);
                    }
                }
            },
        }
    }
}

proof fn with_lists_in_law(defs: Seq<ComponentDefinitionV>, id: u32, e: ExprV)
    requires
        in_expr_kind(slots_law(defs), e.kind),
    ensures
        in_expr(slots_law(defs), with_lists(defs, id, e).0),
{
    let l = slots_law(defs);
    match e.kind {
        ExprKindV::Call(c) => match widget_props(defs, c) {
            Some(props) => {
                assert(in_call(l, c));
                let p = placed(c.named_args, id, slot_props(props), e.span);
                placed_in_law(defs, c.named_args, id, slot_props(props), e.span);
                all_slots_placed(c.named_args, id, slot_props(props), e.span);
                let call = CallV { named_args: p.named, ..c };
                assert(in_call(l, call));
                assert(widget_props(defs, call) == Some(props));
                let out = with_lists(defs, id, e).0;
                if p.made_list {
                    let inner = ExprV {
                        kind: ExprKindV::Call(call),
                        ty: handle_type(),
                        span: e.span,
                    };
                    assert((l.p)(inner));
                    assert(in_expr_kind(l, inner.kind));
                    assert(in_expr(l, inner));
                    match out.kind {
                        ExprKindV::Block(b) => {
                            assert forall|i: int| 0 <= i < b.statements.len() implies in_stmt(
                                l,
                                #[trigger] b.statements[i],
                            ) by {
                                if i < p.prelude.len() {
                                    assert(b.statements[i] == p.prelude[i]);
                                } else {
                                    assert(b.statements[i].kind == StmtKindV::Expression(inner));
                                    assert(in_stmt_kind(l, b.statements[i].kind));
                                }
                            }
                            assert(in_stmts(l, b.statements));
                            assert(in_block(l, b));
                        },
                        _ => {},
                    }
                    assert(in_expr_kind(l, out.kind));
                } else {
                    assert((l.p)(out));
                    assert(in_expr_kind(l, out.kind));
                }
            },
            None => {},
        },
        _ => {},
    }
}

/// After the pass every call of a host widget supplies all the slots that the
/// widget has.
pub proof fn slots_are_supplied(defs: Seq<ComponentDefinitionV>, p: ProgramV)
    ensures
        in_program(slots_law(defs), walk_program(children_rule(defs), 0, p).0),
{
    let r = children_rule(defs);
    let l = slots_law(defs);
    assert forall|st: u32, e: ExprV| in_expr_kind(l, e.kind) implies in_expr(
        l,
        (#[trigger] (r.expr)(st, e)).0,
    ) by {
        with_lists_in_law(defs, st, e);
    }
    establish_program(r, l, any_state::<u32>(), 0, p);
}

} // verus!
