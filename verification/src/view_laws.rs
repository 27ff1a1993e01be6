//! Which views are made to return the widgets that they end in.

use vstd::prelude::*;

use crate::ast::{PrimitiveType, TypeId};
use crate::model::{
    BlockV, DeclKindV, DeclV, ExprKindV, FunctionV, ImplBlockV, MethodV, ProgramV, StmtKindV, StmtV,
    TypeDefinitionV, TypeV,
};
use crate::plain::refers;
use crate::text::{has_prefix, has_suffix};
use crate::value_views::{
    ends_in_widget, functions_converted, impls_converted, methods_converted, nominal_name,
    registered_name, returning_last, views_converted,
};

verus! {

/// Whether a name is one that views have.
pub open spec fn names_view(name: Seq<char>) -> bool {
    name == "render_view"@ || name == "view"@
}

/// Whether a name is that of a host widget: `$Blinc$..$view`.
pub open spec fn names_host_widget(name: Seq<char>) -> bool {
    "$Blinc$"@.is_prefix_of(name) && "$view"@.is_suffix_of(name)
}

/// Whether a body ends in a call of the function `f`.
pub open spec fn ends_in_call(b: Option<BlockV>, f: Seq<char>) -> bool {
    b is Some && b->0.statements.len() > 0 && (b->0.statements.last().kind
        matches StmtKindV::Expression(e) && e.kind matches ExprKindV::Call(c) && refers(
        *c.callee,
        f,
    ))
}

/// Whether a body is the other one with its last expression returned.
pub open spec fn returns_last(out: Option<BlockV>, b: Option<BlockV>) -> bool {
    &&& b is Some && b->0.statements.len() > 0
    &&& b->0.statements.last().kind is Expression
    &&& out is Some
    &&& out->0.span == b->0.span
    &&& out->0.statements.len() == b->0.statements.len()
    &&& out->0.statements.drop_last() == b->0.statements.drop_last()
    &&& out->0.statements.last() == (StmtV {
        kind: StmtKindV::Return(Some(b->0.statements.last().kind->Expression_0)),
        ..b->0.statements.last()
    })
}

/// Whether a method is the other one made to return its widget.
pub open spec fn returns_its_widget(out: MethodV, m: MethodV) -> bool {
    &&& returns_last(out.body, m.body)
    &&& out.return_type == TypeV::Primitive(PrimitiveType::I64)
    &&& out == (MethodV { body: out.body, return_type: out.return_type, ..m })
}

/// Whether a type has a name: an unresolved one its own, and another one that
/// of the last entry of its id.
pub open spec fn is_named(types: Seq<TypeDefinitionV>, ty: TypeV, name: Seq<char>) -> bool {
    match ty {
        TypeV::Unresolved(n) => n == name,
        TypeV::Named { id, .. } => exists|k: int|
            0 <= k < types.len() && (#[trigger] types[k]).id == id && types[k].name == name
                && forall|j: int| k < j < types.len() ==> (#[trigger] types[j]).id != id,
        _ => false,
    }
}

proof fn last_entry(types: Seq<TypeDefinitionV>, id: TypeId)
    ensures
        match registered_name(types, id) {
            Some(name) => exists|k: int|
                0 <= k < types.len() && (#[trigger] types[k]).id == id && types[k].name == name
                    && forall|j: int| k < j < types.len() ==> (#[trigger] types[j]).id != id,
            None => forall|k: int| 0 <= k < types.len() ==> (#[trigger] types[k]).id != id,
        },
    decreases types.len(),
{
    if types.len() > 0 {
        let front = types.drop_last();
        assert(types[types.len() - 1] == types.last());
        if types.last().id != id {
            last_entry(front, id);
            match registered_name(front, id) {
                Some(name) => {
                    let k = choose|k: int|
                        0 <= k < front.len() && (#[trigger] front[k]).id == id && front[k].name
                            == name && forall|j: int|
                            k < j < front.len() ==> (#[trigger] front[j]).id != id;
                    assert(types[k] == front[k]);
                    assert forall|j: int| k < j < types.len() implies (#[trigger] types[j]).id
                        != id by {
                        if j < front.len() {
                            assert(types[j] == front[j]);
                        }
                    }
                },
                None => {
                    assert forall|k: int| 0 <= k < types.len() implies (#[trigger] types[k]).id
                        != id by {
                        if k < front.len() {
                            assert(types[k] == front[k]);
                        }
                    }
                },
            }
        }
    }
}

/// The name of a type is the one that its last entry gives it.
pub proof fn last_entry_names(types: Seq<TypeDefinitionV>, ty: TypeV, name: Seq<char>)
    ensures
        is_named(types, ty, name) <==> nominal_name(types, ty) == Some(name),
{
    match ty {
        TypeV::Named { id, .. } => {
            last_entry(types, id);
            if is_named(types, ty, name) {
                let k = choose|k: int|
                    0 <= k < types.len() && (#[trigger] types[k]).id == id && types[k].name == name
                        && forall|j: int| k < j < types.len() ==> (#[trigger] types[j]).id != id;
                match registered_name(types, id) {
                    Some(other) => {
                        let q = choose|q: int|
                            0 <= q < types.len() && (#[trigger] types[q]).id == id && types[q].name
                                == other && forall|j: int|
                                q < j < types.len() ==> (#[trigger] types[j]).id != id;
                        assert(q == k);
                    },
                    None => {},
                }
            }
        },
        _ => {},
    }
}

/// Whether, where some symbols are known, a body ends in a call that returns a
/// widget.
pub open spec fn yields_widget(known: spec_fn(Seq<char>) -> bool, b: Option<BlockV>) -> bool {
    exists|f: Seq<char>| #[trigger] ends_in_call(b, f) && (names_host_widget(f) || known(f))
}

proof fn widget_is_yielded(symbols: Set<Seq<char>>, b: Option<BlockV>, known: spec_fn(Seq<char>) -> bool)
    requires
        forall|f: Seq<char>| #[trigger] known(f) <==> symbols.contains(f),
    ensures
        yields_widget(known, b) <==> ends_in_widget(symbols, b),
{
    if b is Some && b->0.statements.len() > 0 {
        match b->0.statements.last().kind {
            StmtKindV::Expression(e) => match e.kind {
                ExprKindV::Call(c) => match c.callee.kind {
                    ExprKindV::Variable(f) => {
                        assert(ends_in_call(b, f));
                        assert(known(f) <==> symbols.contains(f));
                        let p = "$Blinc$"@;
                        let q = "$view"@;
                        if names_host_widget(f) {
                            assert(f.take(p.len() as int) =~= p);
                            assert(f.skip(f.len() - q.len()) =~= q);
                        }
                        if has_prefix(f, p) && has_suffix(f, q) {
                            assert(p =~= f.subrange(0, p.len() as int));
                            assert(q =~= f.subrange(f.len() - q.len(), f.len() as int));
                        }
                        assert(names_host_widget(f) <==> has_prefix(f, p) && has_suffix(f, q));
                    },
                    _ => {},
                },
                _ => {},
            },
            _ => {},
        }
    }
}

// ---------------------------------------------------------------------------
// Methods
// ---------------------------------------------------------------------------

/// Whether one of the first `n` methods of a type was made to return its
/// widget and so made `f` known.
pub open spec fn earned(
    types: Seq<TypeDefinitionV>,
    ty: TypeV,
    s: Seq<MethodV>,
    out: Seq<MethodV>,
    n: int,
    f: Seq<char>,
) -> bool {
    exists|m: int, name: Seq<char>|
        0 <= m < n && m < s.len() && #[trigger] is_named(types, ty, name) && (#[trigger] out[m])
            != s[m] && f == name + "$"@ + s[m].name
}

/// Whether the methods of a type are made to return their widgets: those with
/// the name of a view that end in a widget, where the symbols are known that
/// were before or that the methods before made known.
pub open spec fn are_converted(
    types: Seq<TypeDefinitionV>,
    ty: TypeV,
    s: Seq<MethodV>,
    out: Seq<MethodV>,
    known: spec_fn(Seq<char>) -> bool,
) -> bool {
    &&& out.len() == s.len()
    &&& forall|m: int|
        0 <= m < s.len() ==> if names_view(s[m].name) && yields_widget(
            |f: Seq<char>| known(f) || earned(types, ty, s, out, m, f),
            s[m].body,
        ) {
            returns_its_widget(#[trigger] out[m], s[m])
        } else {
            out[m] == s[m]
        }
}

proof fn methods_are_converted(
    types: Seq<TypeDefinitionV>,
    ty: TypeV,
    symbols: Set<Seq<char>>,
    s: Seq<MethodV>,
    known: spec_fn(Seq<char>) -> bool,
)
    requires
        forall|f: Seq<char>| #[trigger] known(f) <==> symbols.contains(f),
    ensures
        ({
            let (out, now) = methods_converted(nominal_name(types, ty), symbols, s);
            &&& are_converted(types, ty, s, out, known)
            &&& forall|f: Seq<char>| #[trigger]
                now.contains(f) <==> known(f) || earned(types, ty, s, out, s.len() as int, f)
        }),
    decreases s.len(),
{
    let owner = nominal_name(types, ty);
    let (out, now) = methods_converted(owner, symbols, s);
    if s.len() > 0 {
        let front = s.drop_last();
        let n = front.len() as int;
        methods_are_converted(types, ty, symbols, front, known);
        let (out0, now0) = methods_converted(owner, symbols, front);
        assert forall|m: int| 0 <= m < n implies out[m] == #[trigger] out0[m] && s[m]
            == front[m] by {}
        assert forall|m: int, f: Seq<char>|
            0 <= m <= n implies #[trigger] earned(types, ty, s, out, m, f) == earned(
            types,
            ty,
            front,
            out0,
            m,
            f,
        ) by {
            if earned(types, ty, s, out, m, f) {
                let (k, name) = choose|k: int, name: Seq<char>|
                    0 <= k < m && k < s.len() && #[trigger] is_named(types, ty, name) && (
                    #[trigger] out[k]) != s[k] && f == name + "$"@ + s[k].name;
                assert(out0[k] != front[k]);
            }
            if earned(types, ty, front, out0, m, f) {
                let (k, name) = choose|k: int, name: Seq<char>|
                    0 <= k < m && k < front.len() && #[trigger] is_named(types, ty, name) && (
                    #[trigger] out0[k]) != front[k] && f == name + "$"@ + front[k].name;
                assert(out[k] != s[k]);
            }
        }
        assert forall|m: int| 0 <= m < s.len() implies if names_view(s[m].name) && yields_widget(
            |f: Seq<char>| known(f) || earned(types, ty, s, out, m, f),
            s[m].body,
        ) {
            returns_its_widget(#[trigger] out[m], s[m])
        } else {
            out[m] == s[m]
        } by {
            let at = |f: Seq<char>| known(f) || earned(types, ty, s, out, m, f);
            if m < n {
                let at0 = |f: Seq<char>| known(f) || earned(types, ty, front, out0, m, f);
                assert(at =~= at0);
                assert(out[m] == out0[m]);
            } else {
                assert forall|f: Seq<char>| #[trigger] at(f) <==> now0.contains(f) by {
                    assert(earned(types, ty, s, out, n, f) == earned(types, ty, front, out0, n, f));
                }
                widget_is_yielded(now0, s[m].body, at);
                let b = s[m].body;
                if ends_in_widget(now0, b) {
                    let b1 = returning_last(b);
                    assert(b1->0.statements.drop_last() =~= b->0.statements.drop_last());
                }
            }
        }
        assert forall|f: Seq<char>| #[trigger]
            now.contains(f) <==> known(f) || earned(types, ty, s, out, s.len() as int, f) by {
            assert(earned(types, ty, s, out, n, f) == earned(types, ty, front, out0, n, f));
            let last = s.last();
            assert(now0.contains(f) <==> known(f) || earned(types, ty, s, out, n, f));
            if earned(types, ty, s, out, n, f) {
                let (k, name) = choose|k: int, name: Seq<char>|
                    0 <= k < n && k < s.len() && #[trigger] is_named(types, ty, name) && (
                    #[trigger] out[k]) != s[k] && f == name + "$"@ + s[k].name;
                assert(earned(types, ty, s, out, s.len() as int, f));
            }
            if earned(types, ty, s, out, s.len() as int, f) {
                let (k, name) = choose|k: int, name: Seq<char>|
                    0 <= k < s.len() && k < s.len() && #[trigger] is_named(types, ty, name) && (
                    #[trigger] out[k]) != s[k] && f == name + "$"@ + s[k].name;
                last_entry_names(types, ty, name);
                if k < n {
                    assert(earned(types, ty, s, out, n, f));
                }
            }
            if now.contains(f) && !now0.contains(f) {
                let t = owner->0;
                last_entry_names(types, ty, t);
                let b = last.body;
                assert(ends_in_widget(now0, b));
                assert(out[n].body->0.statements.last().kind is Return);
                assert(out[n] != s[n]);
            }
        }
    }
}

// ---------------------------------------------------------------------------
// Declarations
// ---------------------------------------------------------------------------

/// Whether a method of one of the first `n` declarations was made to return
/// its widget and so made `f` known.
pub open spec fn earned_by_impl(
    types: Seq<TypeDefinitionV>,
    s: Seq<DeclV>,
    out: Seq<DeclV>,
    n: int,
    f: Seq<char>,
) -> bool {
    exists|i: int|
        0 <= i < n && i < s.len() && s[i].kind is Impl && (#[trigger] out[i]).kind is Impl
            && earned(
            types,
            s[i].kind->Impl_0.for_type,
            s[i].kind->Impl_0.methods,
            out[i].kind->Impl_0.methods,
            s[i].kind->Impl_0.methods.len() as int,
            f,
        )
}

/// Whether the methods of the impls are converted, one impl after the other.
pub open spec fn impls_are_converted(
    types: Seq<TypeDefinitionV>,
    s: Seq<DeclV>,
    out: Seq<DeclV>,
    known: spec_fn(Seq<char>) -> bool,
) -> bool {
    &&& out.len() == s.len()
    &&& forall|i: int|
        0 <= i < s.len() ==> match s[i].kind {
            DeclKindV::Impl(a) => (#[trigger] out[i]).kind matches DeclKindV::Impl(b) && {
                &&& out[i].ty == s[i].ty && out[i].span == s[i].span
                &&& b == ImplBlockV { methods: b.methods, ..a }
                &&& are_converted(
                    types,
                    a.for_type,
                    a.methods,
                    b.methods,
                    |f: Seq<char>| known(f) || earned_by_impl(types, s, out, i, f),
                )
            },
            _ => out[i] == s[i],
        }
}

proof fn converting_impls(
    types: Seq<TypeDefinitionV>,
    symbols: Set<Seq<char>>,
    s: Seq<DeclV>,
    known: spec_fn(Seq<char>) -> bool,
)
    requires
        forall|f: Seq<char>| #[trigger] known(f) <==> symbols.contains(f),
    ensures
        ({
            let (out, now) = impls_converted(types, symbols, s);
            &&& impls_are_converted(types, s, out, known)
            &&& forall|f: Seq<char>| #[trigger]
                now.contains(f) <==> known(f) || earned_by_impl(
                    types,
                    s,
                    out,
                    s.len() as int,
                    f,
                )
        }),
    decreases s.len(),
{
    let (out, now) = impls_converted(types, symbols, s);
    if s.len() > 0 {
        let front = s.drop_last();
        let n = front.len() as int;
        converting_impls(types, symbols, front, known);
        let (out0, now0) = impls_converted(types, symbols, front);
        assert forall|i: int| 0 <= i < n implies out[i] == #[trigger] out0[i] && s[i]
            == front[i] by {}
        assert forall|i: int, f: Seq<char>|
            0 <= i <= n implies #[trigger] earned_by_impl(types, s, out, i, f) == earned_by_impl(
            types,
            front,
            out0,
            i,
            f,
        ) by {
            if earned_by_impl(types, s, out, i, f) {
                let k = choose|k: int|
                    0 <= k < i && k < s.len() && s[k].kind is Impl && (#[trigger] out[k]).kind
                        is Impl && earned(
                        types,
                        s[k].kind->Impl_0.for_type,
                        s[k].kind->Impl_0.methods,
                        out[k].kind->Impl_0.methods,
                        s[k].kind->Impl_0.methods.len() as int,
                        f,
                    );
                assert(out0[k] == out[k]);
            }
            if earned_by_impl(types, front, out0, i, f) {
                let k = choose|k: int|
                    0 <= k < i && k < front.len() && front[k].kind is Impl && (
                    #[trigger] out0[k]).kind is Impl && earned(
                        types,
                        front[k].kind->Impl_0.for_type,
                        front[k].kind->Impl_0.methods,
                        out0[k].kind->Impl_0.methods,
                        front[k].kind->Impl_0.methods.len() as int,
                        f,
                    );
                assert(out0[k] == out[k]);
            }
        }
        let at_last = |f: Seq<char>| known(f) || earned_by_impl(types, s, out, n, f);
        assert forall|f: Seq<char>| #[trigger] at_last(f) <==> now0.contains(f) by {
            assert(earned_by_impl(types, s, out, n, f) == earned_by_impl(
                types,
                front,
                out0,
                n,
                f,
            ));
        }
        match s.last().kind {
            DeclKindV::Impl(a) => {
                methods_are_converted(types, a.for_type, now0, a.methods, at_last);
            },
            _ => {},
        }
        assert forall|i: int| 0 <= i < s.len() implies match s[i].kind {
            DeclKindV::Impl(a) => (#[trigger] out[i]).kind matches DeclKindV::Impl(b) && {
                &&& out[i].ty == s[i].ty && out[i].span == s[i].span
                &&& b == ImplBlockV { methods: b.methods, ..a }
                &&& are_converted(
                    types,
                    a.for_type,
                    a.methods,
                    b.methods,
                    |f: Seq<char>| known(f) || earned_by_impl(types, s, out, i, f),
                )
            },
            _ => out[i] == s[i],
        } by {
            let at = |f: Seq<char>| known(f) || earned_by_impl(types, s, out, i, f);
            if i < n {
                let at0 = |f: Seq<char>| known(f) || earned_by_impl(types, front, out0, i, f);
                assert(at =~= at0);
                assert(out[i] == out0[i]);
            } else {
                assert(at =~= at_last);
            }
        }
        assert forall|f: Seq<char>| #[trigger]
            now.contains(f) <==> known(f) || earned_by_impl(
                types,
                s,
                out,
                s.len() as int,
                f,
            ) by {
            assert(at_last(f) <==> now0.contains(f));
            if earned_by_impl(types, s, out, n, f) {
                let k = choose|k: int|
                    0 <= k < n && k < s.len() && s[k].kind is Impl && (#[trigger] out[k]).kind
                        is Impl && earned(
                        types,
                        s[k].kind->Impl_0.for_type,
                        s[k].kind->Impl_0.methods,
                        out[k].kind->Impl_0.methods,
                        s[k].kind->Impl_0.methods.len() as int,
                        f,
                    );
                assert(out[k].kind is Impl);
            }
            if earned_by_impl(types, s, out, s.len() as int, f) {
                let k = choose|k: int|
                    0 <= k < s.len() && k < s.len() && s[k].kind is Impl && (
                    #[trigger] out[k]).kind is Impl && earned(
                        types,
                        s[k].kind->Impl_0.for_type,
                        s[k].kind->Impl_0.methods,
                        out[k].kind->Impl_0.methods,
                        s[k].kind->Impl_0.methods.len() as int,
                        f,
                    );
                if k < n {
                    assert(earned_by_impl(types, s, out, n, f));
                }
            }
            if now.contains(f) && !now0.contains(f) {
                assert(out[n].kind is Impl);
            }
        }
    }
}

/// Whether a function is the other one made to return its widget.
pub open spec fn function_returns_widget(out: DeclV, d: DeclV) -> bool {
    &&& out.ty == d.ty && out.span == d.span
    &&& d.kind matches DeclKindV::Function(f) && (out.kind matches DeclKindV::Function(g) && {
        &&& returns_last(g.body, f.body)
        &&& g.return_type == TypeV::Primitive(PrimitiveType::I64)
        &&& g == FunctionV { body: g.body, return_type: g.return_type, ..f }
    })
}

/// Whether one of the first `n` functions was made to return its widget and so
/// made `f` known.
pub open spec fn earned_by_function(s: Seq<DeclV>, out: Seq<DeclV>, n: int, f: Seq<char>) -> bool {
    exists|i: int|
        0 <= i < n && i < s.len() && s[i].kind is Function && (#[trigger] out[i]) != s[i] && f
            == s[i].kind->Function_0.name
}

/// Whether the free-standing views are converted, one after the other.
pub open spec fn functions_are_converted(
    s: Seq<DeclV>,
    out: Seq<DeclV>,
    known: spec_fn(Seq<char>) -> bool,
) -> bool {
    &&& out.len() == s.len()
    &&& forall|i: int|
        0 <= i < s.len() ==> if (s[i].kind matches DeclKindV::Function(g) && !g.is_external
            && names_view(g.name) && yields_widget(
            |f: Seq<char>| known(f) || earned_by_function(s, out, i, f),
            g.body,
        )) {
            function_returns_widget(#[trigger] out[i], s[i])
        } else {
            out[i] == s[i]
        }
}

proof fn converting_functions(
    symbols: Set<Seq<char>>,
    s: Seq<DeclV>,
    known: spec_fn(Seq<char>) -> bool,
)
    requires
        forall|f: Seq<char>| #[trigger] known(f) <==> symbols.contains(f),
    ensures
        ({
            let (out, now) = functions_converted(symbols, s);
            &&& functions_are_converted(s, out, known)
            &&& forall|f: Seq<char>| #[trigger]
                now.contains(f) <==> known(f) || earned_by_function(s, out, s.len() as int, f)
        }),
    decreases s.len(),
{
    let (out, now) = functions_converted(symbols, s);
    if s.len() > 0 {
        let front = s.drop_last();
        let n = front.len() as int;
        converting_functions(symbols, front, known);
        let (out0, now0) = functions_converted(symbols, front);
        assert forall|i: int| 0 <= i < n implies out[i] == #[trigger] out0[i] && s[i]
            == front[i] by {}
        assert forall|i: int, f: Seq<char>|
            0 <= i <= n implies #[trigger] earned_by_function(s, out, i, f) == earned_by_function(
            front,
            out0,
            i,
            f,
        ) by {
            if earned_by_function(s, out, i, f) {
                let k = choose|k: int|
                    0 <= k < i && k < s.len() && s[k].kind is Function && (#[trigger] out[k])
                        != s[k] && f == s[k].kind->Function_0.name;
                assert(out0[k] == out[k]);
            }
            if earned_by_function(front, out0, i, f) {
                let k = choose|k: int|
                    0 <= k < i && k < front.len() && front[k].kind is Function && (
                    #[trigger] out0[k]) != front[k] && f == front[k].kind->Function_0.name;
                assert(out0[k] == out[k]);
            }
        }
        let at_last = |f: Seq<char>| known(f) || earned_by_function(s, out, n, f);
        assert forall|f: Seq<char>| #[trigger] at_last(f) <==> now0.contains(f) by {
            assert(earned_by_function(s, out, n, f) == earned_by_function(front, out0, n, f));
        }
        match s.last().kind {
            DeclKindV::Function(g) => {
                widget_is_yielded(now0, g.body, at_last);
                if ends_in_widget(now0, g.body) {
                    let b1 = returning_last(g.body);
                    assert(b1->0.statements.drop_last() =~= g.body->0.statements.drop_last());
                    assert(b1->0.statements.last().kind is Return);
                }
            },
            _ => {},
        }
        assert forall|i: int| 0 <= i < s.len() implies if (s[i].kind matches DeclKindV::Function(g)
            && !g.is_external && names_view(g.name) && yields_widget(
            |f: Seq<char>| known(f) || earned_by_function(s, out, i, f),
            g.body,
        )) {
            function_returns_widget(#[trigger] out[i], s[i])
        } else {
            out[i] == s[i]
        } by {
            let at = |f: Seq<char>| known(f) || earned_by_function(s, out, i, f);
            if i < n {
                let at0 = |f: Seq<char>| known(f) || earned_by_function(front, out0, i, f);
                assert(at =~= at0);
                assert(out[i] == out0[i]);
            } else {
                assert(at =~= at_last);
            }
        }
        assert forall|f: Seq<char>| #[trigger]
            now.contains(f) <==> known(f) || earned_by_function(s, out, s.len() as int, f) by {
            assert(at_last(f) <==> now0.contains(f));
            if earned_by_function(s, out, n, f) {
                let k = choose|k: int|
                    0 <= k < n && k < s.len() && s[k].kind is Function && (#[trigger] out[k])
                        != s[k] && f == s[k].kind->Function_0.name;
                assert(out[k] != s[k]);
            }
            if earned_by_function(s, out, s.len() as int, f) {
                let k = choose|k: int|
                    0 <= k < s.len() && k < s.len() && s[k].kind is Function && (
                    #[trigger] out[k]) != s[k] && f == s[k].kind->Function_0.name;
                if k < n {
                    assert(earned_by_function(s, out, n, f));
                }
            }
            if now.contains(f) && !now0.contains(f) {
                assert(out[n] != s[n]);
            }
        }
    }
}

/// Views return the widgets that they end in. A method or function with the
/// name of a view, whose body ends in a call of a host widget or of a symbol
/// that is known, returns that call as a handle, and its own symbol is known
/// from then on. Methods are looked at first, in their order, and functions
/// after them; nothing else is changed.
pub proof fn views_return_widgets(p: ProgramV, symbols: Set<Seq<char>>) -> (mid: Seq<DeclV>)
    ensures
        ({
            let (out, now) = views_converted(p, symbols);
            let types = p.type_registry;
            let known = |f: Seq<char>| symbols.contains(f);
            let later = |f: Seq<char>|
                known(f) || earned_by_impl(
                    types,
                    p.declarations,
                    mid,
                    p.declarations.len() as int,
                    f,
                );
            &&& out.type_registry == types
            &&& impls_are_converted(types, p.declarations, mid, known)
            &&& functions_are_converted(mid, out.declarations, later)
            &&& forall|f: Seq<char>| #[trigger]
                now.contains(f) <==> later(f) || earned_by_function(
                    mid,
                    out.declarations,
                    mid.len() as int,
                    f,
                )
        }),
{
    let types = p.type_registry;
    let known = |f: Seq<char>| symbols.contains(f);
    converting_impls(types, symbols, p.declarations, known);
    let (mid, symbols1) = impls_converted(types, symbols, p.declarations);
    let later = |f: Seq<char>|
        known(f) || earned_by_impl(types, p.declarations, mid, p.declarations.len() as int, f);
    converting_functions(symbols1, mid, later);
    mid
}

} // verus!
