//! Inline styling arguments as style overlays.

use vstd::prelude::*;

use crate::ast::{
    named_args_view, stmts_view, Call, Decl, Expr, ExprKind, NamedArg, Program, Span, Stmt,
};
use crate::component::{find_prop, position_of_prop, ComponentDefinitionV, ComponentRegistry};
use crate::everywhere::{
    any_state, establish_program, in_block, in_call, in_expr, in_expr_kind, in_exprs, in_named_args,
    in_program, in_stmt, in_stmt_kind, in_stmts, Law,
};
use crate::model::{CallV, ExprKindV, ExprV, NamedArgV, ProgramV, StmtKindV, StmtV};
use crate::shape::callee_name;
use crate::text::{has_prefix, same};
use crate::walk::{rewrite_decls, walk_program, Rewriter, Rule};
use crate::widgets::{
    block_ending_in, get_widget_props, handle_arg, handle_call, handle_let, handle_type,
    new_block_ending_in, new_handle_arg, new_handle_call, new_handle_let, new_null_arg,
    new_numbered, null_arg, numbered, widget_props,
};

verus! {

/// The host function that sets a styling property on an overlay.
pub open spec fn overlay_setter(name: Seq<char>) -> Option<Seq<char>> {
    if name == "bg"@ {
        Some("__set_overlay_bg__"@)
    } else if name == "opacity"@ {
        Some("__set_overlay_opacity__"@)
    } else if name == "corner_radius"@ {
        Some("__set_overlay_corner_radius__"@)
    } else if name == "border_width"@ {
        Some("__set_overlay_border_width__"@)
    } else if name == "border_color"@ {
        Some("__set_overlay_border_color__"@)
    } else {
        None
    }
}

fn get_overlay_setter(name: &String) -> (r: Option<&'static str>)
    ensures
        match r {
            Some(f) => overlay_setter(name@) == Some(f@),
            None => overlay_setter(name@) is None,
        },
{
    if same(name, "bg") {
        Some("__set_overlay_bg__")
    } else if same(name, "opacity") {
        Some("__set_overlay_opacity__")
    } else if same(name, "corner_radius") {
        Some("__set_overlay_corner_radius__")
    } else if same(name, "border_width") {
        Some("__set_overlay_border_width__")
    } else if same(name, "border_color") {
        Some("__set_overlay_border_color__")
    } else {
        None
    }
}

/// Whether a call is one of a host widget that takes a style.
pub open spec fn is_styled(defs: Seq<ComponentDefinitionV>, c: CallV) -> bool {
    match widget_props(defs, c) {
        Some(props) => find_prop(props, "__style"@) is Some,
        None => false,
    }
}

/// The arguments that are styling properties.
pub open spec fn styling_args(s: Seq<NamedArgV>) -> Seq<NamedArgV> {
    s.filter(|a: NamedArgV| overlay_setter(a.name) is Some)
}

/// The arguments that are not.
pub open spec fn other_args(s: Seq<NamedArgV>) -> Seq<NamedArgV> {
    s.filter(|a: NamedArgV| overlay_setter(a.name) is None)
}

pub open spec fn overlay_name(id: u32) -> Seq<char> {
    numbered("__blinc_style_"@, id)
}

/// The statements that make an overlay and set its properties.
pub open spec fn overlay_stmts(id: u32, styling: Seq<NamedArgV>, span: Span) -> Seq<StmtV> {
    seq![handle_let(overlay_name(id), "__new_style_overlay__"@, span)] + Seq::new(
        styling.len(),
        |i: int|
            handle_call(
                overlay_setter(styling[i].name)->0,
                overlay_name(id),
                styling[i].value,
                span,
            ),
    )
}

/// A call of a styled widget with its styling arguments gathered in an overlay
/// that is passed as `__style`. Without any, `__style` is the null handle.
pub open spec fn with_overlay(defs: Seq<ComponentDefinitionV>, id: u32, e: ExprV) -> (ExprV, u32) {
    match e.kind {
        ExprKindV::Call(c) => if is_styled(defs, c) {
            let styling = styling_args(c.named_args);
            let rest = other_args(c.named_args);
            if styling.len() == 0 {
                let call = CallV { named_args: rest.push(null_arg("__style"@, e.span)), ..c };
                (ExprV { kind: ExprKindV::Call(call), ..e }, id)
            } else {
                let call = CallV {
                    named_args: rest.push(handle_arg("__style"@, overlay_name(id), e.span)),
                    ..c
                };
                (
                    ExprV {
                        kind: block_ending_in(overlay_stmts(id, styling, e.span), call, e.span),
                        ..e
                    },
                    id.wrapping_add(1),
                )
            }
        } else {
            (e, id)
        },
        _ => (e, id),
    }
}

fn has_style_prop(registry: &ComponentRegistry, c: &Call) -> (r: bool)
    ensures
        r == is_styled(registry@, c@),
{
    match get_widget_props(registry, c) {
        Some(props) => {
            let style: String = "__style".to_owned();
            position_of_prop(props, &style).is_some()
        },
        None => false,
    }
}

fn split_styling(v: Vec<NamedArg>) -> (r: (Vec<NamedArg>, Vec<NamedArg>))
    ensures
        named_args_view(r.0@) == styling_args(named_args_view(v@)),
        named_args_view(r.1@) == other_args(named_args_view(v@)),
{
    let ghost all = named_args_view(v@);
    let ghost v0 = v@;
    let mut styling: Vec<NamedArg> = Vec::new();
    let mut rest: Vec<NamedArg> = Vec::new();
    proof {
        reveal(Seq::filter);
        assert(named_args_view(styling@) =~= styling_args(all.take(0)));
        assert(named_args_view(rest@) =~= other_args(all.take(0)));
    }
    for x in it: v
        invariant
            it.seq() == v0,
            all == named_args_view(v0),
            named_args_view(styling@) == styling_args(all.take(it.index() as int)),
            named_args_view(rest@) == other_args(all.take(it.index() as int)),
    {
        proof {
            reveal(Seq::filter);
            let i = it.index() as int;
            assert(all.take(i + 1).drop_last() =~= all.take(i));
            assert(x@ == all[i]);
        }
        if get_overlay_setter(&x.name).is_some() {
            assert(named_args_view(styling@.push(x)) =~= named_args_view(styling@).push(x@));
            styling.push(x);
        } else {
            assert(named_args_view(rest@.push(x)) =~= named_args_view(rest@).push(x@));
            rest.push(x);
        }
    }
    assert(all.take(all.len() as int) =~= all);
    (styling, rest)
}

/// Every styling argument has a setter.
proof fn styling_args_have_setters(s: Seq<NamedArgV>)
    ensures
        forall|i: int|
            0 <= i < styling_args(s).len() ==> overlay_setter((#[trigger] styling_args(s)[i]).name)
                is Some,
    decreases s.len(),
{
    reveal(Seq::filter);
    if s.len() > 0 {
        styling_args_have_setters(s.drop_last());
    }
}

fn build_overlay(id: u32, name: &String, styling: Vec<NamedArg>, span: Span) -> (out: Vec<Stmt>)
    requires
        name@ == overlay_name(id),
        forall|i: int|
            0 <= i < styling@.len() ==> overlay_setter((#[trigger] styling@[i]).name@) is Some,
    ensures
        stmts_view(out@) == overlay_stmts(id, named_args_view(styling@), span),
{
    let ghost all = named_args_view(styling@);
    let ghost styling0 = styling@;
    let ghost stmts = overlay_stmts(id, all, span);
    let mut out: Vec<Stmt> = Vec::new();
    out.push(new_handle_let(name.clone(), "__new_style_overlay__", span));
    assert(stmts_view(out@) =~= stmts.take(1));
    for x in it: styling
        invariant
            it.seq() == styling0,
            all == named_args_view(styling0),
            stmts == overlay_stmts(id, all, span),
            name@ == overlay_name(id),
            forall|i: int|
                0 <= i < styling0.len() ==> overlay_setter((#[trigger] styling0[i]).name@) is Some,
            stmts_view(out@) == stmts.take(it.index() + 1),
    {
        let ghost i = it.index() as int;
        let ghost out0 = out@;
        assert(x == styling0[i]);
        assert(x@ == all[i]);
        let NamedArg { name: property, value, span: _ } = x;
        match get_overlay_setter(&property) {
            Some(setter) => {
                let s = new_handle_call(setter, name, value, span);
                proof {
                    assert(stmts[i + 1] == s@);
                    assert(stmts.take(i + 2) =~= stmts.take(i + 1).push(s@));
                }
                out.push(s);
                assert(stmts_view(out@) =~= stmts_view(out0).push(s@));
            },
            None => {},
        }
    }
    assert(stmts.take(stmts.len() as int) =~= stmts);
    out
}

fn apply_overlay(registry: &ComponentRegistry, counter: &mut u32, e: Expr) -> (out: Expr)
    ensures
        (out@, *final(counter)) == with_overlay(registry@, *old(counter), e@),
{
    let Expr { kind, ty, span } = e;
    match kind {
        ExprKind::Call(c) => {
            if has_style_prop(registry, &c) {
                let ghost c0 = c@;
                assert(e@.kind == ExprKindV::Call(c0));
                let Call { callee, positional_args, named_args, type_args } = c;
                let (styling, mut rest) = split_styling(named_args);
                let ghost rest0 = named_args_view(rest@);
                let ghost styling0 = named_args_view(styling@);
                if styling.len() == 0 {
                    let a = new_null_arg("__style".to_owned(), span);
                    rest.push(a);
                    assert(named_args_view(rest@) =~= rest0.push(a@));
                    let call = Call { callee, positional_args, named_args: rest, type_args };
                    assert(styling0.len() == 0);
                    assert(call@ == CallV {
                        named_args: rest0.push(null_arg("__style"@, span)),
                        ..c0
                    });
                    Expr { kind: ExprKind::Call(call), ty, span }
                } else {
                    let id: u32 = *counter;
                    *counter = id.wrapping_add(1);
                    let name = new_numbered("__blinc_style_", id);
                    proof {
                        styling_args_have_setters(c0.named_args);
                        assert forall|i: int| 0 <= i < styling@.len() implies overlay_setter(
                            (#[trigger] styling@[i]).name@,
                        ) is Some by {
                            assert(styling0[i] == styling@[i]@);
                        }
                    }
                    let prelude = build_overlay(id, &name, styling, span);
                    let a = new_handle_arg("__style".to_owned(), name, span);
                    rest.push(a);
                    assert(named_args_view(rest@) =~= rest0.push(a@));
                    let call = Call { callee, positional_args, named_args: rest, type_args };
                    assert(styling0.len() > 0);
                    assert(call@ == CallV {
                        named_args: rest0.push(handle_arg("__style"@, overlay_name(id), span)),
                        ..c0
                    });
                    Expr { kind: new_block_ending_in(prelude, call, span), ty, span }
                }
            } else {
                Expr { kind: ExprKind::Call(c), ty, span }
            }
        },
        other => Expr { kind: other, ty, span },
    }
}

/// The gathering of styling arguments as a rewriting rule. The state is the
/// number of the next overlay.
pub open spec fn styling_rule(defs: Seq<ComponentDefinitionV>) -> Rule<u32> {
    Rule {
        expr: |id: u32, e: ExprV| with_overlay(defs, id, e),
        block: |s: Seq<StmtV>| s,
    }
}

struct Overlays<'a> {
    registry: &'a ComponentRegistry,
}

impl<'a> Rewriter for Overlays<'a> {
    type State = u32;

    closed spec fn rule(&self) -> Rule<u32> {
        styling_rule(self.registry@)
    }

    fn apply_expr(&self, st: &mut u32, e: Expr) -> (out: Expr) {
        apply_overlay(self.registry, st, e)
    }

    fn apply_block(&self, s: Vec<Stmt>) -> (out: Vec<Stmt>) {
        s
    }
}

/// Gather the inline styling arguments (`bg`, `opacity`, ..) of styled host
/// widgets in an overlay and pass it as `__style`. Overlays are numbered from
/// 0 in the order of the walk.
pub fn lower_styling_args_to_overlays(program: &mut Program, registry: &ComponentRegistry)
    ensures
        final(program)@ == walk_program(styling_rule(registry@), 0, old(program)@).0,
{
    let mut declarations: Vec<Decl> = Vec::new();
    std::mem::swap(&mut program.declarations, &mut declarations);
    let mut counter: u32 = 0;
    program.declarations = rewrite_decls(&Overlays { registry }, &mut counter, declarations);
}

// ---------------------------------------------------------------------------
// No styling argument remains
// ---------------------------------------------------------------------------

/// The law that no call of a styled widget has an inline styling argument.
pub open spec fn no_styling_law(defs: Seq<ComponentDefinitionV>) -> Law {
    Law {
        p: |e: ExprV|
            match e.kind {
                ExprKindV::Call(c) => is_styled(defs, c) ==> forall|k: int|
                    0 <= k < c.named_args.len() ==> overlay_setter(
                        (#[trigger] c.named_args[k]).name,
                    ) is None,
                _ => true,
            },
        q: |s: Seq<StmtV>| true,
    }
}

proof fn split_in_law(defs: Seq<ComponentDefinitionV>, s: Seq<NamedArgV>)
    requires
        in_named_args(no_styling_law(defs), s),
    ensures
        in_named_args(no_styling_law(defs), styling_args(s)),
        in_named_args(no_styling_law(defs), other_args(s)),
        forall|k: int|
            0 <= k < other_args(s).len() ==> overlay_setter((#[trigger] other_args(s)[k]).name)
                is None,
    decreases s.len(),
{
    let l = no_styling_law(defs);
    reveal(Seq::filter);
    if s.len() > 0 {
        assert forall|i: int| 0 <= i < s.drop_last().len() implies in_expr(
            l,
            (#[trigger] s.drop_last()[i]).value,
        ) by {
            assert(s.drop_last()[i] == s[i]);
        }
        split_in_law(defs, s.drop_last());
        assert(in_expr(l, s[s.len() - 1].value));
    }
}

proof fn host_name_is_no_widget(defs: Seq<ComponentDefinitionV>, c: CallV)
    requires
        callee_name(c) is Some,
        callee_name(c)->0.len() > 0,
        callee_name(c)->0[0] == '_',
    ensures
        !is_styled(defs, c),
{
    reveal_strlit("$Blinc$");
    let symbol = callee_name(c)->0;
    if has_prefix(symbol, "$Blinc$"@) {
        assert(symbol.take("$Blinc$"@.len() as int)[0] == '_');
        assert("$Blinc$"@[0] == '$');
    }
}

proof fn leaf_in_law(defs: Seq<ComponentDefinitionV>, e: ExprV)
    requires
        e.kind is Variable || e.kind is Literal,
    ensures
        in_expr(no_styling_law(defs), e),
{
}

proof fn setters_start_low(name: Seq<char>)
    requires
        overlay_setter(name) is Some,
    ensures
        overlay_setter(name)->0.len() > 0,
        overlay_setter(name)->0[0] == '_',
{
    reveal_strlit("__set_overlay_bg__");
    reveal_strlit("__set_overlay_opacity__");
    reveal_strlit("__set_overlay_corner_radius__");
    reveal_strlit("__set_overlay_border_width__");
    reveal_strlit("__set_overlay_border_color__");
}

proof fn overlay_stmts_in_law(
    defs: Seq<ComponentDefinitionV>,
    id: u32,
    styling: Seq<NamedArgV>,
    span: Span,
)
    requires
        in_named_args(no_styling_law(defs), styling),
        forall|i: int|
            0 <= i < styling.len() ==> overlay_setter((#[trigger] styling[i]).name) is Some,
    ensures
        in_stmts(no_styling_law(defs), overlay_stmts(id, styling, span)),
{
    let l = no_styling_law(defs);
    let out = overlay_stmts(id, styling, span);
    assert forall|i: int| 0 <= i < out.len() implies in_stmt(l, #[trigger] out[i]) by {
        if i == 0 {
            reveal_strlit("__new_style_overlay__");
            match out[0].kind {
                StmtKindV::Let { initializer: Some(e), .. } => {
                    match e.kind {
                        ExprKindV::Call(c) => {
                            host_name_is_no_widget(defs, c);
                            leaf_in_law(defs, *c.callee);
                            assert(in_exprs(l, c.positional_args));
                            assert(in_named_args(l, c.named_args));
                            assert(in_call(l, c));
                        },
                        _ => {},
                    }
                    assert(in_expr(l, e));
                },
                _ => {},
            }
        } else {
            let a = styling[i - 1];
            setters_start_low(a.name);
            assert(in_expr(l, a.value));
            match out[i].kind {
                StmtKindV::Expression(e) => {
                    match e.kind {
                        ExprKindV::Call(c) => {
                            host_name_is_no_widget(defs, c);
                            leaf_in_law(defs, *c.callee);
                            leaf_in_law(defs, c.positional_args[0]);
                            assert(in_exprs(l, c.positional_args));
                            assert(in_named_args(l, c.named_args));
                            assert(in_call(l, c));
                        },
                        _ => {},
                    }
                    assert(in_expr(l, e));
                },
                _ => {},
            }
        }
        assert(in_stmt_kind(l, out[i].kind));
    }
}

proof fn with_overlay_in_law(defs: Seq<ComponentDefinitionV>, id: u32, e: ExprV)
    requires
        in_expr_kind(no_styling_law(defs), e.kind),
    ensures
        in_expr(no_styling_law(defs), with_overlay(defs, id, e).0),
{
    let l = no_styling_law(defs);
    match e.kind {
        ExprKindV::Call(c) => {
            if is_styled(defs, c) {
                assert(in_call(l, c));
                split_in_law(defs, c.named_args);
                styling_args_have_setters(c.named_args);
                let styling = styling_args(c.named_args);
                let rest = other_args(c.named_args);
                let added = if styling.len() == 0 {
                    null_arg("__style"@, e.span)
                } else {
                    handle_arg("__style"@, overlay_name(id), e.span)
                };
                leaf_in_law(defs, added.value);
                assert(overlay_setter("__style"@) is None) by {
                    reveal_strlit("__style");
                    reveal_strlit("bg");
                    reveal_strlit("opacity");
                    reveal_strlit("corner_radius");
                    reveal_strlit("border_width");
                    reveal_strlit("border_color");
                    assert("__style"@[0] == '_');
                    assert("bg"@[0] == 'b');
                    assert("opacity"@[0] == 'o');
                    assert("corner_radius"@[0] == 'c');
                    assert("border_width"@[0] == 'b');
                    assert("border_color"@[0] == 'b');
                }
                let call = CallV { named_args: rest.push(added), ..c };
                assert(in_named_args(l, call.named_args));
                assert(in_call(l, call));
                let out = with_overlay(defs, id, e).0;
                let inner = ExprV { kind: ExprKindV::Call(call), ty: handle_type(), span: e.span };
                assert((l.p)(inner));
                assert(in_expr_kind(l, inner.kind));
                assert(in_expr(l, inner));
                if styling.len() == 0 {
                    assert(out.kind == inner.kind);
                    assert((l.p)(out));
                } else {
                    overlay_stmts_in_law(defs, id, styling, e.span);
                    let prelude = overlay_stmts(id, styling, e.span);
                    match out.kind {
                        ExprKindV::Block(b) => {
                            assert forall|i: int| 0 <= i < b.statements.len() implies in_stmt(
                                l,
                                #[trigger] b.statements[i],
                            ) by {
                                if i < prelude.len() {
                                    assert(b.statements[i] == prelude[i]);
                                } else {
                                    assert(b.statements[i].kind == StmtKindV::Expression(inner));
                                    assert(in_stmt_kind(l, b.statements[i].kind));
                                }
                            }
                            assert(in_stmts(l, b.statements));
                            assert(in_block(l, b));
                        },
                        _ => {},
                    }
                    assert(in_expr_kind(l, out.kind));
                }
            }
        },
        _ => {},
    }
}

/// After the pass no call of a styled widget has an inline styling argument.
pub proof fn styling_args_are_gone(defs: Seq<ComponentDefinitionV>, p: ProgramV)
    ensures
        in_program(no_styling_law(defs), walk_program(styling_rule(defs), 0, p).0),
{
    let r = styling_rule(defs);
    let l = no_styling_law(defs);
    assert forall|st: u32, e: ExprV| in_expr_kind(l, e.kind) implies in_expr(
        l,
        (#[trigger] (r.expr)(st, e)).0,
    ) by {
        with_overlay_in_law(defs, st, e);
    }
    establish_program(r, l, any_state::<u32>(), 0, p);
}

} // verus!
