//! What becomes of the arguments of a host widget: its style, its children and
//! its properties.

use vstd::prelude::*;

use crate::component::{find_prop, lookup, ComponentDefinitionV, PropDefV};
use crate::model::{CallV, ExprKindV, ExprV, LiteralV, NamedArgV, StmtKindV, StmtV};
use crate::plain::{
    filter_is_selection, invokes, is_selection, refers, same_selection, selects, taken_at,
};
use crate::styling::{other_args, overlay_setter, overlay_stmts, styling_args, styling_rule};
use crate::text::{decimal, has_prefix, has_suffix, stripped};
use crate::widgets::widget_props;

verus! {

// ---------------------------------------------------------------------------
// Host widgets
// ---------------------------------------------------------------------------

/// Whether a definition is the first of its name.
pub open spec fn defines(defs: Seq<ComponentDefinitionV>, name: Seq<char>, d: ComponentDefinitionV)
    -> bool {
    exists|i: int|
        0 <= i < defs.len() && #[trigger] defs[i] == d && d.name == name && forall|j: int|
            0 <= j < i ==> (#[trigger] defs[j]).name != name
}

/// Whether a call is one of a registered host widget with these properties: of
/// `$Blinc$Name$view`, where `Name` is registered.
pub open spec fn calls_widget(
    defs: Seq<ComponentDefinitionV>,
    c: CallV,
    props: Seq<PropDefV>,
) -> bool {
    exists|name: Seq<char>, d: ComponentDefinitionV| #[trigger]
        defines(defs, name, d) && d.props == props && refers(
            *c.callee,
            "$Blinc$"@ + name + "$view"@,
        )
}

/// The definition that is found is the first of its name.
pub proof fn first_definition(defs: Seq<ComponentDefinitionV>, name: Seq<char>)
    ensures
        match lookup(defs, name) {
            Some(d) => defines(defs, name, d),
            None => forall|i: int| 0 <= i < defs.len() ==> (#[trigger] defs[i]).name != name,
        },
    decreases defs.len(),
{
    if defs.len() > 0 {
        let front = defs.drop_last();
        first_definition(front, name);
        match lookup(front, name) {
            Some(d) => {
                let i = choose|i: int|
                    0 <= i < front.len() && #[trigger] front[i] == d && d.name == name
                        && forall|j: int| 0 <= j < i ==> (#[trigger] front[j]).name != name;
                assert(defs[i] == d);
                assert forall|j: int| 0 <= j < i implies (#[trigger] defs[j]).name != name by {
                    assert(defs[j] == front[j]);
                }
            },
            None => {
                assert forall|j: int| 0 <= j < front.len() implies (#[trigger] defs[j]).name
                    != name by {
                    assert(defs[j] == front[j]);
                }
                assert(defs[defs.len() - 1] == defs.last());
            },
        }
    }
}

/// The first definition of a name is the one that is found.
pub proof fn definition_is_found(
    defs: Seq<ComponentDefinitionV>,
    name: Seq<char>,
    d: ComponentDefinitionV,
)
    requires
        defines(defs, name, d),
    ensures
        lookup(defs, name) == Some(d),
{
    first_definition(defs, name);
    let i = choose|i: int|
        0 <= i < defs.len() && #[trigger] defs[i] == d && d.name == name && forall|j: int|
            0 <= j < i ==> (#[trigger] defs[j]).name != name;
    match lookup(defs, name) {
        Some(other) => {
            let k = choose|k: int|
                0 <= k < defs.len() && #[trigger] defs[k] == other && other.name == name
                    && forall|j: int| 0 <= j < k ==> (#[trigger] defs[j]).name != name;
            assert(i == k);
        },
        None => {
            assert(defs[i].name != name);
        },
    }
}

/// A call is one of a host widget exactly where its properties are found.
pub proof fn widget_has_props(defs: Seq<ComponentDefinitionV>, c: CallV)
    ensures
        forall|props: Seq<PropDefV>| #[trigger]
            calls_widget(defs, c, props) <==> widget_props(defs, c) == Some(props),
{
    assert forall|props: Seq<PropDefV>| #[trigger] calls_widget(defs, c, props) implies
        widget_props(defs, c) == Some(props) by {
        let (name, d) = choose|name: Seq<char>, d: ComponentDefinitionV| #[trigger]
            defines(defs, name, d) && d.props == props && refers(
                *c.callee,
                "$Blinc$"@ + name + "$view"@,
            );
        definition_is_found(defs, name, d);
        let symbol = "$Blinc$"@ + name + "$view"@;
        let n = "$Blinc$"@.len() as int;
        assert(symbol.take(n) =~= "$Blinc$"@);
        assert(symbol.skip(n) =~= name + "$view"@);
        assert(symbol.skip(n).skip(name.len() as int) =~= "$view"@);
        assert(has_prefix(symbol, "$Blinc$"@));
        assert(has_suffix(symbol.skip(n), "$view"@));
        assert(symbol.subrange(n, symbol.len() - "$view"@.len()) =~= name);
    }
    match widget_props(defs, c) {
        Some(props) => {
            let symbol = c.callee.kind->Variable_0;
            let name = stripped(symbol, "$Blinc$"@, "$view"@)->0;
            first_definition(defs, name);
            let n = "$Blinc$"@.len() as int;
            let rest = symbol.skip(n);
            assert(has_suffix(rest, "$view"@));
            assert(symbol =~= "$Blinc$"@ + name + "$view"@) by {
                assert(symbol.take(n) =~= "$Blinc$"@);
                assert(rest.skip(rest.len() - "$view"@.len()) =~= "$view"@);
                assert forall|i: int| 0 <= i < symbol.len() implies symbol[i] == (
                "$Blinc$"@ + name + "$view"@)[i] by {
                    if i < n {
                        assert(symbol[i] == symbol.take(n)[i]);
                    } else if i < symbol.len() - "$view"@.len() {
                    } else {
                        let k = i - (symbol.len() - "$view"@.len());
                        assert(rest.skip(rest.len() - "$view"@.len())[k] == rest[i - n]);
                    }
                }
            }
            assert(calls_widget(defs, c, props));
        },
        None => {},
    }
}

// ---------------------------------------------------------------------------
// Styles
// ---------------------------------------------------------------------------

/// Whether a name is that of a styling property.
pub open spec fn is_style(name: Seq<char>) -> bool {
    ||| name == "bg"@
    ||| name == "opacity"@
    ||| name == "corner_radius"@
    ||| name == "border_width"@
    ||| name == "border_color"@
}

/// The setter of a styling property is the host function that bears its name,
/// `__set_overlay_<property>__`; other properties have none.
pub proof fn setter_bears_property_name(name: Seq<char>)
    ensures
        overlay_setter(name) is Some <==> is_style(name),
        is_style(name) ==> overlay_setter(name) == Some("__set_overlay_"@ + name + "__"@),
{
    reveal_strlit("__");
    reveal_strlit("__set_overlay_");
    reveal_strlit("bg");
    reveal_strlit("opacity");
    reveal_strlit("corner_radius");
    reveal_strlit("border_width");
    reveal_strlit("border_color");
    reveal_strlit("__set_overlay_bg__");
    reveal_strlit("__set_overlay_opacity__");
    reveal_strlit("__set_overlay_corner_radius__");
    reveal_strlit("__set_overlay_border_width__");
    reveal_strlit("__set_overlay_border_color__");
    assert("__set_overlay_"@ + "bg"@ + "__"@ =~= "__set_overlay_bg__"@);
    assert("__set_overlay_"@ + "opacity"@ + "__"@ =~= "__set_overlay_opacity__"@);
    assert("__set_overlay_"@ + "corner_radius"@ + "__"@ =~= "__set_overlay_corner_radius__"@);
    assert("__set_overlay_"@ + "border_width"@ + "__"@ =~= "__set_overlay_border_width__"@);
    assert("__set_overlay_"@ + "border_color"@ + "__"@ =~= "__set_overlay_border_color__"@);
}

/// Different properties have different setters.
pub proof fn setters_differ(a: Seq<char>, b: Seq<char>)
    requires
        is_style(a),
        is_style(b),
        a != b,
    ensures
        overlay_setter(a) != overlay_setter(b),
{
    setter_bears_property_name(a);
    setter_bears_property_name(b);
    let x = "__set_overlay_"@ + a + "__"@;
    let y = "__set_overlay_"@ + b + "__"@;
    if x == y {
        let n = "__set_overlay_"@.len() as int;
        assert(x.subrange(n, x.len() - "__"@.len()) =~= a);
        assert(y.subrange(n, y.len() - "__"@.len()) =~= b);
    }
}

/// Whether a statement is `let name = maker();`.
pub open spec fn makes(s: StmtV, name: Seq<char>, maker: Seq<char>) -> bool {
    s.kind matches StmtKindV::Let { name: n, initializer, .. } && n == name && initializer is Some
        && invokes(initializer->0, maker, seq![])
}

/// Whether a statement is `f(handle, value);`.
pub open spec fn hands(s: StmtV, f: Seq<char>, handle: Seq<char>, value: ExprV) -> bool {
    s.kind matches StmtKindV::Expression(e) && e.kind matches ExprKindV::Call(c) && refers(
        *c.callee,
        f,
    ) && c.positional_args.len() == 2 && refers(c.positional_args[0], handle)
        && c.positional_args[1] == value && c.named_args.len() == 0
}

/// Whether an argument passes the null handle.
pub open spec fn passes_null(a: NamedArgV, name: Seq<char>) -> bool {
    a.name == name && a.value.kind == ExprKindV::Literal(LiteralV::Integer(0))
}

/// Whether an argument passes a handle.
pub open spec fn passes(a: NamedArgV, name: Seq<char>, handle: Seq<char>) -> bool {
    a.name == name && refers(a.value, handle)
}

/// Whether an expression is the call `c` but for its named arguments, after
/// some statements that are in a block with it.
pub open spec fn ends_in(e: ExprV, prelude: Seq<StmtV>, c: CallV, named: Seq<NamedArgV>) -> bool {
    let call = ExprKindV::Call(CallV { named_args: named, ..c });
    e.kind matches ExprKindV::Block(b) && b.statements.len() > 0 && b.statements.drop_last()
        == prelude && (b.statements.last().kind matches StmtKindV::Expression(x) && x.kind == call)
}

/// The styling arguments of a widget that takes a style are set, one by one
/// and in their order, on a new overlay: each by the host function of its
/// property, with its own value. The overlay is passed as `__style`, after the
/// arguments that are no styling. Without styling the null handle is passed.
pub proof fn styling_is_set_on_overlay(
    defs: Seq<ComponentDefinitionV>,
    id: u32,
    e: ExprV,
    c: CallV,
    props: Seq<PropDefV>,
    p: int,
) -> (r: (Seq<int>, Seq<NamedArgV>, Seq<StmtV>))
    requires
        e.kind == ExprKindV::Call(c),
        calls_widget(defs, c, props),
        0 <= p < props.len(),
        props[p].name == "__style"@,
    ensures
        ({
            let (at, rest, prelude) = r;
            let (out, next) = (styling_rule(defs).expr)(id, e);
            let overlay = "__blinc_style_"@ + decimal(id as nat);
            let args = c.named_args;
            &&& selects(at, args.len() as int, |k: int| is_style(args[k].name))
            &&& is_selection(
                rest.drop_last(),
                args,
                |k: int| !is_style(args[k].name),
            )
            &&& rest.len() > 0
            &&& out.ty == e.ty && out.span == e.span
            &&& at.len() == 0 ==> {
                &&& passes_null(rest.last(), "__style"@)
                &&& out.kind == ExprKindV::Call(CallV { named_args: rest, ..c })
                &&& next == id
            }
            &&& at.len() > 0 ==> {
                &&& passes(rest.last(), "__style"@, overlay)
                &&& ends_in(out, prelude, c, rest)
                &&& next == id.wrapping_add(1)
                &&& prelude.len() == at.len() + 1
                &&& makes(prelude[0], overlay, "__new_style_overlay__"@)
                &&& forall|i: int|
                    0 <= i < at.len() ==> hands(
                        #[trigger] prelude[i + 1],
                        "__set_overlay_"@ + args[at[i]].name + "__"@,
                        overlay,
                        args[at[i]].value,
                    )
            }
        }),
{
    let args = c.named_args;
    widget_has_props(defs, c);
    assert(widget_props(defs, c) == Some(props));
    prop_is_found(props, p);
    let styled = |a: NamedArgV| overlay_setter(a.name) is Some;
    let plain = |a: NamedArgV| overlay_setter(a.name) is None;
    filter_is_selection(args, styled);
    filter_is_selection(args, plain);
    assert forall|name: Seq<char>|
        (#[trigger] overlay_setter(name) is Some <==> is_style(name)) && (is_style(name)
            ==> overlay_setter(name) == Some("__set_overlay_"@ + name + "__"@)) by {
        setter_bears_property_name(name);
    }
    let keep1 = |k: int| styled(args[k]);
    let keep2 = |k: int| is_style(args[k].name);
    let at = choose|at: Seq<int>| #[trigger]
        selects(at, args.len() as int, keep1) && args.filter(styled) == taken_at(args, at);
    assert forall|k: int| 0 <= k < args.len() implies #[trigger] keep1(k) == keep2(k) by {}
    same_selection(at, args.len() as int, keep1, keep2);
    let keep3 = |k: int| plain(args[k]);
    let keep4 = |k: int| !is_style(args[k].name);
    let others = choose|others: Seq<int>| #[trigger]
        selects(others, args.len() as int, keep3) && args.filter(plain) == taken_at(args, others);
    assert forall|k: int| 0 <= k < args.len() implies #[trigger] keep3(k) == keep4(k) by {}
    same_selection(others, args.len() as int, keep3, keep4);
    let (out, next) = (styling_rule(defs).expr)(id, e);
    let styling = styling_args(args);
    assert(styling == taken_at(args, at));
    if at.len() == 0 {
        let rest = out.kind->Call_0.named_args;
        assert(rest.drop_last() =~= other_args(args));
        (at, rest, seq![])
    } else {
        let b = out.kind->Block_0;
        let prelude = overlay_stmts(id, styling, e.span);
        let rest = b.statements.last().kind->Expression_0.kind->Call_0.named_args;
        assert(rest.drop_last() =~= other_args(args));
        assert(b.statements.drop_last() =~= prelude);
        assert forall|i: int| 0 <= i < at.len() implies hands(
            #[trigger] prelude[i + 1],
            "__set_overlay_"@ + args[at[i]].name + "__"@,
            "__blinc_style_"@ + decimal(id as nat),
            args[at[i]].value,
        ) by {
            assert(styling[i] == args[at[i]]);
            assert(keep2(at[i]));
            assert(is_style(args[at[i]].name));
        }
        (at, rest, prelude)
    }
}

proof fn prop_is_found(props: Seq<PropDefV>, p: int)
    requires
        0 <= p < props.len(),
    ensures
        find_prop(props, props[p].name) is Some,
    decreases props.len(),
{
    if p < props.len() - 1 {
        prop_is_found(props.drop_last(), p);
    }
}

/// An expression that is no call of a widget that takes a style stays as it
/// is.
pub proof fn unstyled_stay(defs: Seq<ComponentDefinitionV>, id: u32, e: ExprV)
    requires
        forall|c: CallV, props: Seq<PropDefV>, p: int|
            e.kind == ExprKindV::Call(c) && #[trigger] calls_widget(defs, c, props) && 0 <= p
                < props.len() ==> (#[trigger] props[p]).name != "__style"@,
    ensures
        (styling_rule(defs).expr)(id, e) == (e, id),
{
    match e.kind {
        ExprKindV::Call(c) => {
            widget_has_props(defs, c);
            match widget_props(defs, c) {
                Some(props) => {
                    assert(calls_widget(defs, c, props));
                    prop_in_range(props, "__style"@);
                    match find_prop(props, "__style"@) {
                        Some(p) => {
                            assert(props[p].name != "__style"@);
                        },
                        None => {},
                    }
                },
                None => {},
            }
        },
        _ => {},
    }
}

/// The property that is found is the first that bears the name.
pub proof fn prop_in_range(props: Seq<PropDefV>, name: Seq<char>)
    ensures
        match find_prop(props, name) {
            Some(p) => 0 <= p < props.len() && props[p].name == name && forall|j: int|
                0 <= j < p ==> (#[trigger] props[j]).name != name,
            None => forall|j: int| 0 <= j < props.len() ==> (#[trigger] props[j]).name != name,
        },
    decreases props.len(),
{
    if props.len() > 0 {
        let front = props.drop_last();
        prop_in_range(front, name);
        assert forall|j: int| 0 <= j < front.len() implies props[j] == #[trigger] front[j] by {}
        match find_prop(front, name) {
            Some(p) => {
                assert(props[p] == front[p]);
                assert forall|j: int| 0 <= j < p implies (#[trigger] props[j]).name != name by {
                    assert(props[j] == front[j]);
                }
            },
            None => {
                assert forall|j: int| 0 <= j < front.len() implies (#[trigger] props[j]).name
                    != name by {
                    assert(props[j] == front[j]);
                }
                assert(props[props.len() - 1] == props.last());
            },
        }
    }
}

} // verus!
