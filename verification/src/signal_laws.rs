//! What becomes of the reads and writes of a signal, by the shape they have.

use vstd::prelude::*;

use crate::ast::{BinaryOp, PrimitiveType};
use crate::decls::{declared_signals, signal_of};
use crate::everywhere::{in_program, Law};
use crate::model::{DeclKindV, DeclV, ExprKindV, ExprV, ProgramV, StmtV, TypeV};
use crate::plain::{filter_is_selection, invokes, is_selection, refers, says, selects, taken_at};
use crate::signals::{
    getter_name, no_access_law, setter_name, signal_access, signal_rule, signal_type,
    signals_are_gone, signals_resolved,
};
use crate::shape::string_expr;
use crate::walk::{walk_expr, walk_expr_kind, walk_program};

verus! {

/// Whether a declaration declares the signal `name`: an external function
/// without parameters, body or symbol whose result is of a primitive type.
pub open spec fn declares(d: DeclV, name: Seq<char>, ty: TypeV) -> bool {
    d.kind matches DeclKindV::Function(f) && {
        &&& f.name == name
        &&& f.return_type == ty
        &&& ty is Primitive
        &&& f.is_external
        &&& f.body is None
        &&& f.params.len() == 0
        &&& f.link_name is None
    }
}

/// Whether a declaration declares a signal.
pub open spec fn declares_some(d: DeclV) -> bool {
    exists|name: Seq<char>, ty: TypeV| #[trigger] declares(d, name, ty)
}

/// Whether a declaration declares the signal `name`, of whatever type.
pub open spec fn declares_name(d: DeclV, name: Seq<char>) -> bool {
    exists|ty: TypeV| #[trigger] declares(d, name, ty)
}

/// Whether the last declaration of the signal `name` gives it a type.
pub open spec fn has_signal(s: Seq<DeclV>, name: Seq<char>, ty: TypeV) -> bool {
    exists|i: int|
        0 <= i < s.len() && declares(#[trigger] s[i], name, ty) && forall|j: int|
            i < j < s.len() ==> !declares_name(#[trigger] s[j], name)
}

/// The ending of the host functions for a type of signal.
pub open spec fn accessor_ending(ty: TypeV) -> Option<Seq<char>> {
    if ty == TypeV::Primitive(PrimitiveType::I32) {
        Some("i32"@)
    } else if ty == TypeV::Primitive(PrimitiveType::F64) {
        Some("f64"@)
    } else if ty == TypeV::Primitive(PrimitiveType::String) {
        Some("string"@)
    } else {
        None
    }
}

/// Whether an expression is `name = v`.
pub open spec fn assigns(e: ExprV, name: Seq<char>, v: ExprV) -> bool {
    e.kind matches ExprKindV::Binary { op, left, right } && op == BinaryOp::Assign && refers(
        *left,
        name,
    ) && *right == v
}

/// Whether an expression is `name.method(args)`, as a method call or as a call
/// of a field.
pub open spec fn applies(
    e: ExprV,
    name: Seq<char>,
    method: Seq<char>,
    args: Seq<ExprV>,
) -> bool {
    ||| (e.kind matches ExprKindV::MethodCall { receiver, method: m, positional_args, .. }
        && refers(*receiver, name) && m == method && positional_args == args)
    ||| (e.kind matches ExprKindV::Call(c) && c.callee.kind matches ExprKindV::Field {
        object,
        field,
    } && refers(*object, name) && field == method && c.positional_args == args)
}

/// Whether an expression writes `v` to the name `name`.
pub open spec fn writes(e: ExprV, name: Seq<char>, v: ExprV) -> bool {
    assigns(e, name, v) || applies(e, name, "set"@, seq![v])
}

/// Whether an expression reads the name `name` as a signal.
pub open spec fn reads(e: ExprV, name: Seq<char>) -> bool {
    applies(e, name, "get"@, seq![])
}

/// Whether an expression reads or writes a declared signal of a type that the
/// host has accessors for.
pub open spec fn uses_signal(s: Seq<DeclV>, e: ExprV) -> bool {
    exists|name: Seq<char>, ty: TypeV| #[trigger]
        has_signal(s, name, ty) && accessor_ending(ty) is Some && (reads(e, name) || exists|
            v: ExprV,
        | #[trigger] writes(e, name, v))
}

/// The law that no expression reads or writes a declared signal.
pub open spec fn no_use_law(s: Seq<DeclV>) -> Law {
    Law { p: |e: ExprV| !uses_signal(s, e), q: |b: Seq<StmtV>| true }
}

proof fn declared_type(s: Seq<DeclV>, name: Seq<char>, ty: TypeV)
    ensures
        has_signal(s, name, ty) <==> signal_type(declared_signals(s), name) == Some(ty),
    decreases s.len(),
{
    if s.len() > 0 {
        let front = s.drop_last();
        let last = s.last();
        declared_type(front, name, ty);
        let all = declared_signals(s);
        if signal_of(last) is Some {
            assert(all.drop_last() =~= declared_signals(front));
            let signal = signal_of(last)->0;
            assert(declares(last, signal.0, signal.1));
        }
        assert(forall|n: Seq<char>, t: TypeV| #[trigger]
            declares(last, n, t) <==> signal_of(last) == Some((n, t)));
        if has_signal(front, name, ty) && !declares_name(last, name) {
            let i = choose|i: int|
                0 <= i < front.len() && declares(#[trigger] front[i], name, ty) && forall|j: int|
                    i < j < front.len() ==> !declares_name(#[trigger] front[j], name);
            assert(s[i] == front[i]);
            assert forall|j: int| i < j < s.len() implies !declares_name(#[trigger] s[j], name) by {
                if j < front.len() {
                    assert(s[j] == front[j]);
                }
            }
            assert(has_signal(s, name, ty));
        }
        if has_signal(s, name, ty) {
            let i = choose|i: int|
                0 <= i < s.len() && declares(#[trigger] s[i], name, ty) && forall|j: int|
                    i < j < s.len() ==> !declares_name(#[trigger] s[j], name);
            if i < front.len() {
                assert(front[i] == s[i]);
                assert forall|j: int| i < j < front.len() implies !declares_name(
                    #[trigger] front[j],
                    name,
                ) by {
                    assert(s[j] == front[j]);
                }
                assert(has_signal(front, name, ty));
                if signal_of(last) is Some {
                    let (n, t) = signal_of(last)->0;
                    assert(n == name ==> declares(s[s.len() - 1], name, t));
                }
            }
        }
        if signal_of(last) == Some((name, ty)) {
            assert(declares(s[s.len() - 1], name, ty));
        }
    }
}

proof fn accessors(ty: TypeV)
    ensures
        accessor_ending(ty) is Some <==> getter_name(ty) is Some,
        accessor_ending(ty) is Some <==> setter_name(ty) is Some,
        accessor_ending(ty) is Some ==> getter_name(ty)->0 == "__signal_get_"@ + accessor_ending(
            ty,
        )->0,
        accessor_ending(ty) is Some ==> setter_name(ty)->0 == "__signal_set_"@ + accessor_ending(
            ty,
        )->0,
{
    reveal_strlit("__signal_get_");
    reveal_strlit("__signal_set_");
    reveal_strlit("i32");
    reveal_strlit("f64");
    reveal_strlit("string");
    reveal_strlit("__signal_get_i32");
    reveal_strlit("__signal_get_f64");
    reveal_strlit("__signal_get_string");
    reveal_strlit("__signal_set_i32");
    reveal_strlit("__signal_set_f64");
    reveal_strlit("__signal_set_string");
    assert("__signal_get_i32"@ =~= "__signal_get_"@ + "i32"@);
    assert("__signal_get_f64"@ =~= "__signal_get_"@ + "f64"@);
    assert("__signal_get_string"@ =~= "__signal_get_"@ + "string"@);
    assert("__signal_set_i32"@ =~= "__signal_set_"@ + "i32"@);
    assert("__signal_set_f64"@ =~= "__signal_set_"@ + "f64"@);
    assert("__signal_set_string"@ =~= "__signal_set_"@ + "string"@);
}

/// A write of a signal becomes a call of `__signal_set_<type>` with the name
/// of the signal and the value, and a read a call of `__signal_get_<type>`
/// with the name. The type is that of the last declaration of the signal.
pub proof fn access_is_host_call(
    s: Seq<DeclV>,
    e: ExprV,
    name: Seq<char>,
    ty: TypeV,
    v: ExprV,
) -> (text: ExprV)
    requires
        has_signal(s, name, ty),
        accessor_ending(ty) is Some,
    ensures
        ({
            let out = (signal_rule(declared_signals(s)).expr)((), e).0;
            let ending = accessor_ending(ty)->0;
            &&& says(text, name)
            &&& writes(e, name, v) ==> invokes(out, "__signal_set_"@ + ending, seq![text, v])
                && out.ty == TypeV::Primitive(PrimitiveType::Unit) && out.span == e.span
            &&& reads(e, name) ==> invokes(out, "__signal_get_"@ + ending, seq![text]) && out.ty
                == ty && out.span == e.span
        }),
{
    declared_type(s, name, ty);
    accessors(ty);
    names_differ();
    let out = (signal_rule(declared_signals(s)).expr)((), e).0;
    let text = out.kind->Call_0.positional_args[0];
    if writes(e, name, v) {
        let c = out.kind->Call_0;
        assert(c.positional_args =~= seq![text, v]);
        text
    } else if reads(e, name) {
        let c = out.kind->Call_0;
        assert(c.positional_args =~= seq![text]);
        text
    } else {
        string_expr(name, e.span)
    }
}

proof fn names_differ()
    ensures
        "get"@ != "set"@,
{
    reveal_strlit("get");
    reveal_strlit("set");
    assert("get"@[0] != "set"@[0]);
}

/// Any other expression stays as it is.
pub proof fn other_expressions_stay(s: Seq<DeclV>, e: ExprV)
    ensures
        uses_signal(s, e) <==> (signal_rule(declared_signals(s)).expr)((), e).0 != e,
{
    let signals = declared_signals(s);
    assert forall|name: Seq<char>, ty: TypeV| #[trigger]
        has_signal(s, name, ty) <==> signal_type(signals, name) == Some(ty) by {
        declared_type(s, name, ty);
    }
    assert forall|ty: TypeV|
        (#[trigger] accessor_ending(ty) is Some <==> getter_name(ty) is Some) && (accessor_ending(
            ty,
        ) is Some <==> setter_name(ty) is Some) by {
        accessors(ty);
    }
    names_differ();
    if uses_signal(s, e) {
        let (name, ty) = choose|name: Seq<char>, ty: TypeV| #[trigger]
            has_signal(s, name, ty) && accessor_ending(ty) is Some && (reads(e, name) || exists|
                v: ExprV,
            | #[trigger] writes(e, name, v));
        assert(signal_type(signals, name) == Some(ty));
        if !reads(e, name) {
            let v = choose|v: ExprV| #[trigger] writes(e, name, v);
            let t = access_is_host_call(s, e, name, ty, v);
        } else {
            let t = access_is_host_call(s, e, name, ty, e);
        }
    }
    if signal_access(signals, e) != e {
        match e.kind {
            ExprKindV::Binary { op, left, right } => {
                assert(assigns(e, left.kind->Variable_0, *right));
                assert(writes(e, left.kind->Variable_0, *right));
                let name = left.kind->Variable_0;
                let ty = signal_type(signals, name)->0;
                assert(has_signal(s, name, ty));
                assert(accessor_ending(ty) is Some);
            },
            ExprKindV::MethodCall { receiver, method, positional_args, .. } => {
                let name = receiver.kind->Variable_0;
                let ty = signal_type(signals, name)->0;
                assert(has_signal(s, name, ty));
                assert(accessor_ending(ty) is Some);
                if method == "get"@ {
                    assert(positional_args =~= seq![]);
                    assert(reads(e, name));
                } else {
                    assert(positional_args =~= seq![positional_args[0]]);
                    assert(writes(e, name, positional_args[0]));
                }
            },
            ExprKindV::Call(c) => match c.callee.kind {
                ExprKindV::Field { object, field } => {
                    let name = object.kind->Variable_0;
                    let ty = signal_type(signals, name)->0;
                    assert(has_signal(s, name, ty));
                    assert(accessor_ending(ty) is Some);
                    if field == "get"@ {
                        assert(c.positional_args =~= seq![]);
                        assert(reads(e, name));
                    } else {
                        assert(c.positional_args =~= seq![c.positional_args[0]]);
                        assert(writes(e, name, c.positional_args[0]));
                    }
                },
                _ => {},
            },
            _ => {},
        }
    }
}

/// An assignment to a signal becomes the call of its setter with its name and
/// with the right side, itself resolved.
pub proof fn assignment_is_resolved(
    s: Seq<DeclV>,
    e: ExprV,
    name: Seq<char>,
    ty: TypeV,
    v: ExprV,
) -> (text: ExprV)
    requires
        has_signal(s, name, ty),
        accessor_ending(ty) is Some,
        assigns(e, name, v),
    ensures
        says(text, name),
        invokes(
            walk_expr(signal_rule(declared_signals(s)), (), e).0,
            "__signal_set_"@ + accessor_ending(ty)->0,
            seq![text, walk_expr(signal_rule(declared_signals(s)), (), v).0],
        ),
{
    let r = signal_rule(declared_signals(s));
    reveal_with_fuel(walk_expr, 3);
    let (kind, st) = walk_expr_kind(r, (), e.kind);
    let inner = ExprV { kind, ty: e.ty, span: e.span };
    let v1 = walk_expr(r, (), v).0;
    match e.kind {
        ExprKindV::Binary { left, .. } => {
            assert(walk_expr(r, (), *left).0 == *left);
        },
        _ => {},
    }
    assert(assigns(inner, name, v1));
    access_is_host_call(s, inner, name, ty, v1)
}

/// After the pass no expression of a program with signals reads or writes a
/// declared signal of a type that the host has accessors for, whatever it
/// writes.
pub proof fn no_signal_is_used(p: ProgramV, i: int)
    requires
        0 <= i < p.declarations.len(),
        declares_some(p.declarations[i]),
    ensures
        in_program(no_use_law(p.declarations), signals_resolved(p)),
{
    let s = p.declarations;
    let signals = declared_signals(s);
    let a = no_access_law(signals);
    let b = no_use_law(s);
    assert forall|e: ExprV| #[trigger] (a.p)(e) == (b.p)(e) by {
        other_expressions_stay(s, e);
    }
    assert(a.p =~= b.p);
    assert(a.q =~= b.q);
    signals_are_gone(p);
    some_declared(s);
}

/// The declarations of signals are gone; the other declarations stand in their
/// order. A program without signals stays as it is.
pub proof fn only_signals_are_dropped(p: ProgramV)
    ensures
        ({
            let walked = walk_program(signal_rule(declared_signals(p.declarations)), (), p).0;
            (exists|i: int| 0 <= i < p.declarations.len() && declares_some(
                #[trigger] p.declarations[i],
            )) ==> is_selection(
                signals_resolved(p).declarations,
                walked.declarations,
                |i: int| !declares_some(walked.declarations[i]),
            )
        }),
        (forall|i: int|
            0 <= i < p.declarations.len() ==> !declares_some(#[trigger] p.declarations[i]))
            ==> signals_resolved(p) == p,
        signals_resolved(p).type_registry == p.type_registry,
{
    let signals = declared_signals(p.declarations);
    some_declared(p.declarations);
    let walked = walk_program(signal_rule(signals), (), p).0;
    let all = walked.declarations;
    let f = |d: DeclV| signal_of(d) is None;
    filter_is_selection(all, f);
    let keep1 = |i: int| f(all[i]);
    let keep = |i: int| !declares_some(all[i]);
    let at = choose|at: Seq<int>| #[trigger]
        selects(at, all.len() as int, keep1) && all.filter(f) == taken_at(all, at);
    assert forall|i: int| 0 <= i < all.len() implies #[trigger] keep(i) == keep1(i) by {
        signal_is(all[i]);
    }
    assert(selects(at, all.len() as int, keep)) by {
        assert forall|k: int| 0 <= k < all.len() && keep(k) implies #[trigger] at.contains(k) by {
            assert(keep1(k));
        }
        assert forall|k: int| 0 <= k < at.len() implies 0 <= #[trigger] at[k] < all.len() && keep(
            at[k],
        ) by {
            assert(keep1(at[k]));
        }
    }
}

proof fn signal_is(d: DeclV)
    ensures
        declares_some(d) <==> signal_of(d) is Some,
{
    if signal_of(d) is Some {
        let (name, ty) = signal_of(d)->0;
        assert(declares(d, name, ty));
    }
}

proof fn some_declared(s: Seq<DeclV>)
    ensures
        declared_signals(s).len() > 0 <==> exists|i: int|
            0 <= i < s.len() && declares_some(#[trigger] s[i]),
    decreases s.len(),
{
    if s.len() > 0 {
        let front = s.drop_last();
        some_declared(front);
        signal_is(s.last());
        assert(s[s.len() - 1] == s.last());
        if exists|i: int| 0 <= i < front.len() && declares_some(#[trigger] front[i]) {
            let i = choose|i: int| 0 <= i < front.len() && declares_some(#[trigger] front[i]);
            assert(s[i] == front[i]);
        }
        if exists|i: int| 0 <= i < s.len() && declares_some(#[trigger] s[i]) {
            let i = choose|i: int| 0 <= i < s.len() && declares_some(#[trigger] s[i]);
            if i < front.len() {
                assert(front[i] == s[i]);
            }
        }
    }
}

} // verus!
