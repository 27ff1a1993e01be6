//! Named arguments of host widgets in the order of their properties.

use vstd::prelude::*;

use crate::ast::{
    exprs_view, named_args_view, views, Call, Decl, Expr, ExprKind, Literal, NamedArg,
    PrimitiveType, Program, Span, Stmt, Type,
};
use crate::component::{
    find_prop, position_of_prop, ComponentDefinitionV, ComponentRegistry, PropDef, PropDefV,
};
use crate::everywhere::{
    any_state, establish_program, in_call, in_expr, in_expr_kind, in_named_args, in_program,
    settled_program, Law,
};
use crate::model::{CallV, ExprKindV, ExprV, LiteralV, NamedArgV, ProgramV, StmtV, TypeV};
use crate::text::{contains_name, names_view};
use crate::walk::{rewrite_decls, walk_program, Rewriter, Rule};
use crate::widgets::{find_named, found_named, get_widget_props, position_of_named, widget_props};

verus! {

/// The value of a property that a call does not supply.
pub open spec fn default_literal(ty: TypeV, span: Span) -> ExprV {
    let literal = match ty {
        TypeV::Primitive(PrimitiveType::F64) => LiteralV::Float(0),
        TypeV::Primitive(PrimitiveType::String) => LiteralV::String(seq![]),
        _ => LiteralV::Integer(0),
    };
    ExprV { kind: ExprKindV::Literal(literal), ty, span }
}

/// The value of property `i`: the positional argument at its place, else the
/// first named argument for it, else the default of its type. A name stands
/// for the first property that bears it.
pub open spec fn prop_value(props: Seq<PropDefV>, c: CallV, i: int, span: Span) -> ExprV {
    if i < c.positional_args.len() {
        c.positional_args[i]
    } else if find_prop(props, props[i].name) == Some(i) {
        match find_named(c.named_args, props[i].name) {
            Some(k) => c.named_args[k].value,
            None => default_literal(props[i].ty, span),
        }
    } else {
        default_literal(props[i].ty, span)
    }
}

/// Whether the last of the arguments `named` finds no property to go to: no
/// property has its name, or its property is taken.
pub open spec fn last_is_left(
    props: Seq<PropDefV>,
    positional: nat,
    named: Seq<NamedArgV>,
) -> bool {
    match find_prop(props, named.last().name) {
        Some(i) => i < positional || find_named(named.drop_last(), named.last().name) is Some,
        None => true,
    }
}

/// The named arguments that find no property, in order.
pub open spec fn left_named(props: Seq<PropDefV>, positional: nat, named: Seq<NamedArgV>) -> Seq<
    NamedArgV,
>
    decreases named.len(),
{
    if named.len() == 0 {
        seq![]
    } else {
        let front = left_named(props, positional, named.drop_last());
        if last_is_left(props, positional, named) {
            front.push(named.last())
        } else {
            front
        }
    }
}

/// The positional arguments beyond the last property.
pub open spec fn overflow_args(props: Seq<PropDefV>, c: CallV) -> Seq<ExprV> {
    if c.positional_args.len() > props.len() {
        c.positional_args.skip(props.len() as int)
    } else {
        seq![]
    }
}

/// A call with one positional argument for every property.
pub open spec fn positional_call(props: Seq<PropDefV>, c: CallV, span: Span) -> CallV {
    CallV {
        positional_args: Seq::new(props.len(), |i: int| prop_value(props, c, i, span))
            + overflow_args(props, c),
        named_args: left_named(props, c.positional_args.len(), c.named_args),
        ..c
    }
}

/// A call of a host widget with its named arguments put in their places; any
/// other expression as it is.
pub open spec fn named_resolved(defs: Seq<ComponentDefinitionV>, e: ExprV) -> ExprV {
    match e.kind {
        ExprKindV::Call(c) => match widget_props(defs, c) {
            Some(props) => ExprV {
                kind: ExprKindV::Call(positional_call(props, c, e.span)),
                ..e
            },
            None => e,
        },
        _ => e,
    }
}

fn new_default_literal(ty: &Type, span: Span) -> (e: Expr)
    ensures
        e@ == default_literal(ty@, span),
{
    let literal = match ty {
        Type::Primitive(PrimitiveType::F64) => Literal::Float(0),
        Type::Primitive(PrimitiveType::String) => {
            let empty: String = String::new();
            assert(empty@ =~= Seq::<char>::empty());
            Literal::String(empty)
        },
        _ => Literal::Integer(0),
    };
    Expr { kind: ExprKind::Literal(literal), ty: ty.copied(), span }
}

fn get_prop_value(props: &Vec<PropDef>, c: &Call, i: usize, span: Span) -> (e: Expr)
    requires
        i < props@.len(),
    ensures
        e@ == prop_value(views(props@), c@, i as int, span),
{
    assert(views(props@)[i as int] == props@[i as int]@);
    if i < c.positional_args.len() {
        assert(c@.positional_args[i as int] == c.positional_args@[i as int]@);
        return c.positional_args[i].copied();
    }
    let first = match position_of_prop(props, &props[i].name) {
        Some(k) => k == i,
        None => false,
    };
    if first {
        match position_of_named(&c.named_args, &props[i].name) {
            Some(k) => {
                assert(c@.named_args[k as int] == c.named_args@[k as int]@);
                return c.named_args[k].value.copied();
            },
            None => {},
        }
    }
    new_default_literal(&props[i].ty, span)
}

fn keep_left(props: &Vec<PropDef>, positional: usize, named: Vec<NamedArg>) -> (out: Vec<NamedArg>)
    ensures
        named_args_view(out@) == left_named(
            views(props@),
            positional as nat,
            named_args_view(named@),
        ),
{
    let ghost all = named_args_view(named@);
    let ghost named0 = named@;
    let ghost ps = views(props@);
    let mut out: Vec<NamedArg> = Vec::new();
    // The names that have come up so far.
    let mut seen: Vec<String> = Vec::new();
    assert(named_args_view(out@) =~= left_named(ps, positional as nat, all.take(0)));
    for x in it: named
        invariant
            it.seq() == named0,
            all == named_args_view(named0),
            ps == views(props@),
            named_args_view(out@) == left_named(
                ps,
                positional as nat,
                all.take(it.index() as int),
            ),
            seen@.len() == it.index(),
            forall|k: int| 0 <= k < seen@.len() ==> (#[trigger] seen@[k])@ == all[k].name,
    {
        let ghost i = it.index() as int;
        let ghost now = all.take(i + 1);
        proof {
            assert(now.drop_last() =~= all.take(i));
            assert(x@ == all[i]);
            found_named(all.take(i), x.name@);
        }
        let taken = contains_name(&seen, &x.name);
        proof {
            let names = names_view(seen@);
            if taken {
                let k = choose|k: int| 0 <= k < names.len() && names[k] == x.name@;
                assert(all.take(i)[k].name == x.name@);
            } else if find_named(all.take(i), x.name@) is Some {
                let k = find_named(all.take(i), x.name@)->0;
                assert(names[k] == x.name@);
            }
            assert(taken == (find_named(all.take(i), x.name@) is Some));
        }
        let name = x.name.clone();
        let left = match position_of_prop(props, &x.name) {
            Some(p) => p < positional || taken,
            None => true,
        };
        if left {
            assert(named_args_view(out@.push(x)) =~= named_args_view(out@).push(x@));
            out.push(x);
        }
        seen.push(name);
    }
    assert(all.take(all.len() as int) =~= all);
    out
}

fn resolve_call(props: &Vec<PropDef>, c: Call, span: Span) -> (out: Call)
    ensures
        out@ == positional_call(views(props@), c@, span),
{
    let ghost c0 = c@;
    let ghost ps = views(props@);
    let mut args: Vec<Expr> = Vec::new();
    for i in 0..props.len()
        invariant
            ps == views(props@),
            c0 == c@,
            args@.len() == i,
            forall|k: int| 0 <= k < i ==> (#[trigger] args@[k])@ == prop_value(ps, c0, k, span),
    {
        let e = get_prop_value(props, &c, i, span);
        args.push(e);
    }
    proof {
        assert(exprs_view(args@) =~= Seq::new(ps.len(), |i: int| prop_value(ps, c0, i, span)));
    }
    let ghost filled = exprs_view(args@);
    let positional = c.positional_args.len();
    let Call { callee, positional_args, named_args, type_args } = c;
    let mut given = positional_args;
    if given.len() > props.len() {
        let mut more = given.split_off(props.len());
        assert(exprs_view(more@) =~= overflow_args(ps, c0));
        args.append(&mut more);
    }
    assert(exprs_view(args@) =~= filled + overflow_args(ps, c0));
    let named = keep_left(props, positional, named_args);
    Call { callee, positional_args: args, named_args: named, type_args }
}

/// The resolution of named arguments as a rewriting rule.
pub open spec fn named_rule(defs: Seq<ComponentDefinitionV>) -> Rule<()> {
    Rule {
        expr: |st: (), e: ExprV| (named_resolved(defs, e), st),
        block: |s: Seq<StmtV>| s,
    }
}

struct NamedArgs<'a> {
    registry: &'a ComponentRegistry,
}

impl<'a> Rewriter for NamedArgs<'a> {
    type State = ();

    closed spec fn rule(&self) -> Rule<()> {
        named_rule(self.registry@)
    }

    fn apply_expr(&self, st: &mut (), e: Expr) -> (out: Expr) {
        let Expr { kind, ty, span } = e;
        match kind {
            ExprKind::Call(c) => {
                assert(e@.kind == ExprKindV::Call(c@));
                match get_widget_props(self.registry, &c) {
                    Some(props) => Expr {
                        kind: ExprKind::Call(resolve_call(props, c, span)),
                        ty,
                        span,
                    },
                    None => Expr { kind: ExprKind::Call(c), ty, span },
                }
            },
            other => Expr { kind: other, ty, span },
        }
    }

    fn apply_block(&self, s: Vec<Stmt>) -> (out: Vec<Stmt>) {
        s
    }
}

/// A program with the named arguments of its host widgets resolved.
pub open spec fn named_args_resolved(p: ProgramV, defs: Seq<ComponentDefinitionV>) -> ProgramV {
    walk_program(named_rule(defs), (), p).0
}

/// Put the named arguments of host widgets in the places of their properties,
/// with defaults for the properties that are not supplied.
pub fn resolve_extern_widget_named_args(program: &mut Program, registry: &ComponentRegistry)
    ensures
        final(program)@ == named_args_resolved(old(program)@, registry@),
{
    let mut declarations: Vec<Decl> = Vec::new();
    std::mem::swap(&mut program.declarations, &mut declarations);
    let mut st: () = ();
    program.declarations = rewrite_decls(&NamedArgs { registry }, &mut st, declarations);
}

// ---------------------------------------------------------------------------
// Laws
// ---------------------------------------------------------------------------

/// A resolved call passes as many arguments as the widget has properties, or
/// as many as it was given by position, if those are more.
pub proof fn resolved_arity(props: Seq<PropDefV>, c: CallV, span: Span)
    ensures
        positional_call(props, c, span).positional_args.len() == if c.positional_args.len()
            > props.len() {
            c.positional_args.len()
        } else {
            props.len()
        },
{
}

/// The law that a call of a host widget passes every property by position.
pub open spec fn arity_law(defs: Seq<ComponentDefinitionV>) -> Law {
    Law {
        p: |e: ExprV|
            match e.kind {
                ExprKindV::Call(c) => match widget_props(defs, c) {
                    Some(props) => c.positional_args.len() >= props.len(),
                    None => true,
                },
                _ => true,
            },
        q: |s: Seq<StmtV>| true,
    }
}

proof fn found_prop(props: Seq<PropDefV>, name: Seq<char>)
    ensures
        match find_prop(props, name) {
            Some(i) => 0 <= i < props.len() && props[i].name == name,
            None => true,
        },
    decreases props.len(),
{
    if props.len() > 0 {
        found_prop(props.drop_last(), name);
    }
}

/// When every property has a positional argument, nothing is to be done.
proof fn full_call_is_settled(props: Seq<PropDefV>, c: CallV, span: Span)
    requires
        c.positional_args.len() >= props.len(),
    ensures
        positional_call(props, c, span) == c,
{
    let out = positional_call(props, c, span);
    assert(out.positional_args =~= c.positional_args);
    all_left(props, c.positional_args.len(), c.named_args);
}

proof fn all_left(props: Seq<PropDefV>, positional: nat, named: Seq<NamedArgV>)
    requires
        positional >= props.len(),
    ensures
        left_named(props, positional, named) == named,
    decreases named.len(),
{
    if named.len() > 0 {
        all_left(props, positional, named.drop_last());
        found_prop(props, named.last().name);
        assert(named.drop_last().push(named.last()) =~= named);
    } else {
        assert(named =~= seq![]);
    }
}

proof fn left_in_law(
    defs: Seq<ComponentDefinitionV>,
    props: Seq<PropDefV>,
    positional: nat,
    named: Seq<NamedArgV>,
)
    requires
        in_named_args(arity_law(defs), named),
    ensures
        in_named_args(arity_law(defs), left_named(props, positional, named)),
    decreases named.len(),
{
    let l = arity_law(defs);
    if named.len() > 0 {
        let front = named.drop_last();
        assert forall|i: int| 0 <= i < front.len() implies in_expr(
            l,
            (#[trigger] front[i]).value,
        ) by {
            assert(front[i] == named[i]);
        }
        left_in_law(defs, props, positional, front);
        assert(in_expr(l, named[named.len() - 1].value));
    }
}

proof fn resolved_in_law(defs: Seq<ComponentDefinitionV>, e: ExprV)
    requires
        in_expr_kind(arity_law(defs), e.kind),
    ensures
        in_expr(arity_law(defs), named_resolved(defs, e)),
{
    let l = arity_law(defs);
    match e.kind {
        ExprKindV::Call(c) => match widget_props(defs, c) {
            Some(props) => {
                assert(in_call(l, c));
                let out = positional_call(props, c, e.span);
                assert forall|i: int| 0 <= i < out.positional_args.len() implies in_expr(
                    l,
                    #[trigger] out.positional_args[i],
                ) by {
                    if i < props.len() {
                        let v = prop_value(props, c, i, e.span);
                        assert(out.positional_args[i] == v);
                        if i < c.positional_args.len() {
                            assert(v == c.positional_args[i]);
                        } else {
                            found_named(c.named_args, props[i].name);
                            if find_prop(props, props[i].name) == Some(i) && find_named(
                                c.named_args,
                                props[i].name,
                            ) is Some {
                                let k = find_named(c.named_args, props[i].name)->0;
                                assert(in_expr(l, c.named_args[k].value));
                            } else {
                                assert(in_expr_kind(l, v.kind));
                            }
                        }
                    } else {
                        assert(out.positional_args[i] == c.positional_args[i]);
                    }
                }
                left_in_law(defs, props, c.positional_args.len(), c.named_args);
                assert(in_call(l, out));
                assert(widget_props(defs, out) == Some(props));
            },
            None => {},
        },
        _ => {},
    }
}

/// After the pass every call of a host widget passes at least as many
/// arguments as the widget has properties; and a second run of the pass
/// changes nothing.
pub proof fn named_args_stay_resolved(p: ProgramV, defs: Seq<ComponentDefinitionV>)
    ensures
        in_program(arity_law(defs), named_args_resolved(p, defs)),
        named_args_resolved(named_args_resolved(p, defs), defs) == named_args_resolved(p, defs),
{
    let r = named_rule(defs);
    let l = arity_law(defs);
    assert forall|st: (), e: ExprV| in_expr_kind(l, e.kind) implies in_expr(
        l,
        (#[trigger] (r.expr)(st, e)).0,
    ) by {
        resolved_in_law(defs, e);
    }
    establish_program(r, l, any_state::<()>(), (), p);
    assert forall|st: (), e: ExprV| (l.p)(e) implies (#[trigger] (r.expr)(st, e)) == (e, st) by {
        match e.kind {
            ExprKindV::Call(c) => match widget_props(defs, c) {
                Some(props) => {
                    full_call_is_settled(props, c, e.span);
                },
                None => {},
            },
            _ => {},
        }
    }
    settled_program(r, l, (), named_args_resolved(p, defs));
}

} // verus!
