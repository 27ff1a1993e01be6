//! What becomes of the bodies of functions and methods: the returns at their
//! ends, the properties before their parameters and the decorators at their
//! heads.

use vstd::prelude::*;

use crate::decls::find_method;
use crate::machine_laws::first_method;
use crate::model::{
    BlockV, DeclKindV, DeclV, ExprKindV, ExprV, FunctionV, ImplBlockV, LiteralV, MethodV, ParamV,
    ProgramV, StmtKindV, StmtV,
};
use crate::plain::{kept_below, kept_below_selects, marker_args, marks, selects, taken_at};
use crate::props::{methods_bound, props_bound};
use crate::stateful::{
    body_undecorated, decls_undecorated, marker_names, merged, methods_undecorated,
    nothing_stateful, program_undecorated, string_values, undecorated, StatefulV,
};
use crate::text::distinct;
use crate::unit_return::program_returning;

verus! {

// ---------------------------------------------------------------------------
// Returns
// ---------------------------------------------------------------------------

/// Whether a body is the other one with a return at its end: a body that ends
/// in a return is left as it is, and any other gets a return of nothing.
pub open spec fn is_closed_off(out: Option<BlockV>, b: Option<BlockV>) -> bool {
    match b {
        Some(block) => {
            let s = block.statements;
            if s.len() > 0 && s.last().kind is Return {
                out == b
            } else {
                &&& out is Some
                &&& out->0.span == block.span
                &&& out->0.statements.len() == s.len() + 1
                &&& forall|k: int| 0 <= k < s.len() ==> out->0.statements[k] == #[trigger] s[k]
                &&& out->0.statements.last().kind == StmtKindV::Return(None)
            }
        },
        None => out is None,
    }
}

/// The bodies of the functions and methods of a program are closed off, but
/// for those of external functions, and nothing else is changed.
pub proof fn bodies_are_closed_off(p: ProgramV, i: int)
    requires
        0 <= i < p.declarations.len(),
    ensures
        ({
            let d = p.declarations[i];
            let out = program_returning(p);
            let d1 = out.declarations[i];
            &&& out.declarations.len() == p.declarations.len()
            &&& out.type_registry == p.type_registry
            &&& d1.ty == d.ty && d1.span == d.span
            &&& match d.kind {
                DeclKindV::Function(f) => d1.kind matches DeclKindV::Function(g) && {
                    &&& g == FunctionV { body: g.body, ..f }
                    &&& if f.is_external {
                        g.body == f.body
                    } else {
                        is_closed_off(g.body, f.body)
                    }
                },
                DeclKindV::Impl(a) => d1.kind matches DeclKindV::Impl(b) && {
                    &&& b == ImplBlockV { methods: b.methods, ..a }
                    &&& b.methods.len() == a.methods.len()
                    &&& forall|m: int|
                        0 <= m < a.methods.len() ==> is_closed_off(
                            (#[trigger] b.methods[m]).body,
                            a.methods[m].body,
                        ) && b.methods[m] == (MethodV { body: b.methods[m].body, ..a.methods[m] })
                },
                _ => d1 == d,
            }
        }),
{
}

// ---------------------------------------------------------------------------
// Properties
// ---------------------------------------------------------------------------

/// Whether a method is a marker of properties.
pub open spec fn is_props_marker(m: MethodV) -> bool {
    m.name == "__component_props__"@
}

/// Whether the markers of properties of an impl are bound: its other methods
/// take the properties of the first marker before their own parameters.
pub open spec fn is_bound(
    out: Seq<MethodV>,
    s: Seq<MethodV>,
    marker: int,
    at: Seq<int>,
) -> bool {
    &&& selects(at, s.len() as int, |k: int| !is_props_marker(s[k]))
    &&& out.len() == at.len()
    &&& forall|i: int|
        0 <= i < out.len() ==> {
            let m = s[at[i]];
            (#[trigger] out[i]) == MethodV { params: s[marker].params + m.params, ..m }
        }
}

/// The properties of a component go before the parameters of its methods, and
/// the marker that lists them is dropped.
pub proof fn properties_become_parameters(p: ProgramV, i: int) -> (r: (int, Seq<int>))
    requires
        0 <= i < p.declarations.len(),
    ensures
        ({
            let d = p.declarations[i];
            let out = props_bound(p);
            let d1 = out.declarations[i];
            &&& out.declarations.len() == p.declarations.len()
            &&& out.type_registry == p.type_registry
            &&& match d.kind {
                DeclKindV::Impl(a) => if exists|k: int|
                    0 <= k < a.methods.len() && is_props_marker(#[trigger] a.methods[k]) {
                    &&& d1.ty == d.ty && d1.span == d.span
                    &&& d1.kind matches DeclKindV::Impl(b) && {
                        &&& b == ImplBlockV { methods: b.methods, ..a }
                        &&& 0 <= r.0 < a.methods.len()
                        &&& is_props_marker(a.methods[r.0])
                        &&& forall|j: int|
                            0 <= j < r.0 ==> !is_props_marker(#[trigger] a.methods[j])
                        &&& is_bound(b.methods, a.methods, r.0, r.1)
                    }
                } else {
                    d1 == d
                },
                _ => d1 == d,
            }
        }),
{
    let d = p.declarations[i];
    let none: Seq<int> = seq![];
    match d.kind {
        DeclKindV::Impl(a) => {
            let name = "__component_props__"@;
            let s = a.methods;
            first_method(s, name);
            match find_method(s, name) {
                Some(marker) => {
                    let k = choose|k: int|
                        0 <= k < s.len() && #[trigger] s[k] == marker && marker.name == name
                            && forall|j: int| 0 <= j < k ==> (#[trigger] s[j]).name != name;
                    assert(is_props_marker(s[k]));
                    let keep = |j: int| !is_props_marker(s[j]);
                    kept_below_selects(s.len(), keep);
                    bound_at(s, marker.params, s.len());
                    assert(s.take(s.len() as int) =~= s);
                    (k, kept_below(s.len(), keep))
                },
                None => (0, none),
            }
        },
        _ => (0, none),
    }
}

proof fn bound_at(s: Seq<MethodV>, props: Seq<ParamV>, n: nat)
    requires
        n <= s.len(),
    ensures
        ({
            let at = kept_below(n, |k: int| !is_props_marker(s[k]));
            let out = methods_bound(s.take(n as int), props);
            out.len() == at.len() && forall|i: int|
                0 <= i < out.len() ==> (#[trigger] out[i]) == (MethodV {
                    params: props + s[at[i]].params,
                    ..s[at[i]]
                })
        }),
    decreases n,
{
    if n > 0 {
        let m = (n - 1) as nat;
        bound_at(s, props, m);
        assert(s.take(n as int).drop_last() =~= s.take(m as int));
        assert(s.take(n as int).last() == s[m as int]);
    }
}

// ---------------------------------------------------------------------------
// Decorators
// ---------------------------------------------------------------------------

/// Whether a statement is a decorator of a view.
pub open spec fn decorates(s: StmtV) -> bool {
    marks(s, "__stateful_view__"@) || marks(s, "__fsm_view__"@)
}

/// Whether a body starts with `n` decorators and no more.
pub open spec fn leads_with(s: Seq<StmtV>, n: int) -> bool {
    &&& 0 <= n <= s.len()
    &&& forall|k: int| 0 <= k < n ==> decorates(#[trigger] s[k])
    &&& n < s.len() ==> !decorates(s[n])
}

/// The string literals among some arguments.
pub open spec fn texts(args: Seq<ExprV>) -> Seq<Seq<char>>
    decreases args.len(),
{
    if args.len() == 0 {
        seq![]
    } else {
        match args[0].kind {
            ExprKindV::Literal(LiteralV::String(text)) => seq![text] + texts(args.skip(1)),
            _ => texts(args.skip(1)),
        }
    }
}

/// What the leading decorators of one kind mention, from first to last.
pub open spec fn mentioned(s: Seq<StmtV>, marker: Seq<char>) -> Seq<Seq<char>>
    decreases s.len(),
{
    if s.len() == 0 || !decorates(s[0]) {
        seq![]
    } else if marks(s[0], marker) {
        texts(marker_args(s[0])) + mentioned(s.skip(1), marker)
    } else {
        mentioned(s.skip(1), marker)
    }
}

/// What the decorators of a body mention.
pub open spec fn body_mentions(b: Option<BlockV>, marker: Seq<char>) -> Seq<Seq<char>> {
    match b {
        Some(block) => mentioned(block.statements, marker),
        None => seq![],
    }
}

/// What the decorators of methods mention.
pub open spec fn methods_mention(s: Seq<MethodV>, marker: Seq<char>) -> Seq<Seq<char>>
    decreases s.len(),
{
    if s.len() == 0 {
        seq![]
    } else {
        methods_mention(s.drop_last(), marker) + body_mentions(s.last().body, marker)
    }
}

/// What the decorators of declarations mention.
pub open spec fn decls_mention(s: Seq<DeclV>, marker: Seq<char>) -> Seq<Seq<char>>
    decreases s.len(),
{
    if s.len() == 0 {
        seq![]
    } else {
        decls_mention(s.drop_last(), marker) + match s.last().kind {
            DeclKindV::Function(f) => body_mentions(f.body, marker),
            DeclKindV::Impl(i) => methods_mention(i.methods, marker),
            _ => seq![],
        }
    }
}

/// Whether a list holds every name of another one once, in the order in which
/// the names come up.
pub open spec fn is_first_mentions(out: Seq<Seq<char>>, s: Seq<Seq<char>>) -> bool {
    exists|at: Seq<int>| #[trigger] are_first_mentions(out, s, at)
}

/// Whether a list holds the names at the places where they come up first.
pub open spec fn are_first_mentions(
    out: Seq<Seq<char>>,
    s: Seq<Seq<char>>,
    at: Seq<int>,
) -> bool {
    &&& selects(
        at,
        s.len() as int,
        |k: int| forall|j: int| 0 <= j < k ==> #[trigger] s[j] != s[k],
    )
    &&& out == taken_at(s, at)
}

/// Keeping each name once keeps the first mentions.
pub proof fn distinct_are_first_mentions(s: Seq<Seq<char>>)
    ensures
        is_first_mentions(distinct(s), s),
{
    let keep = |k: int| forall|j: int| 0 <= j < k ==> #[trigger] s[j] != s[k];
    kept_below_selects(s.len(), keep);
    distinct_at(s, s.len());
    assert(s.take(s.len() as int) =~= s);
    assert(are_first_mentions(distinct(s), s, kept_below(s.len(), keep)));
}

proof fn distinct_at(s: Seq<Seq<char>>, n: nat)
    requires
        n <= s.len(),
    ensures
        distinct(s.take(n as int)) == taken_at(
            s,
            kept_below(n, |k: int| forall|j: int| 0 <= j < k ==> #[trigger] s[j] != s[k]),
        ),
        forall|x: Seq<char>|
            distinct(s.take(n as int)).contains(x) <==> #[trigger] s.take(n as int).contains(x),
    decreases n,
{
    let keep = |k: int| forall|j: int| 0 <= j < k ==> #[trigger] s[j] != s[k];
    let now = s.take(n as int);
    if n > 0 {
        let m = (n - 1) as nat;
        distinct_at(s, m);
        let front = s.take(m as int);
        let x = s[m as int];
        assert(now.drop_last() =~= front);
        assert(now.last() == x);
        assert(front.contains(x) <==> !keep(m as int)) by {
            if front.contains(x) {
                let j = choose|j: int| 0 <= j < front.len() && front[j] == x;
                assert(s[j] == x);
            }
            if !keep(m as int) {
                let j = choose|j: int| 0 <= j < m && #[trigger] s[j] == s[m as int];
                assert(front[j] == x);
            }
        }
        assert(distinct(now) =~= taken_at(s, kept_below(n, keep)));
        let before = distinct(front);
        assert forall|y: Seq<char>|
            distinct(now).contains(y) <==> #[trigger] now.contains(y) by {
            if now.contains(y) {
                let j = choose|j: int| 0 <= j < now.len() && now[j] == y;
                if j < m {
                    assert(front[j] == y);
                    assert(front.contains(y));
                }
                if front.contains(y) {
                    let q = choose|q: int| 0 <= q < before.len() && before[q] == y;
                    assert(distinct(now)[q] == y);
                } else {
                    assert(y == x);
                    assert(distinct(now)[before.len() as int] == y);
                }
            }
            if distinct(now).contains(y) {
                let q = choose|q: int| 0 <= q < distinct(now).len() && distinct(now)[q] == y;
                if q < before.len() {
                    assert(before[q] == y);
                    assert(front.contains(y));
                    let j = choose|j: int| 0 <= j < front.len() && front[j] == y;
                    assert(now[j] == y);
                } else {
                    assert(now[m as int] == y);
                }
            }
        }
    } else {
        assert(now =~= Seq::<Seq<char>>::empty());
        assert(distinct(now) =~= taken_at(s, kept_below(0, keep)));
    }
}

/// Adding names to a list keeps each name once, where it came up first.
pub proof fn merging(s: Seq<Seq<char>>, more: Seq<Seq<char>>)
    ensures
        merged(distinct(s), more) == distinct(s + more),
    decreases more.len(),
{
    if more.len() == 0 {
        assert(s + more =~= s);
    } else {
        merging(s, more.drop_last());
        assert((s + more).drop_last() =~= s + more.drop_last());
        assert((s + more).last() == more.last());
    }
}

proof fn texts_are_values(args: Seq<ExprV>)
    ensures
        string_values(args) == texts(args),
    decreases args.len(),
{
    if args.len() > 0 {
        texts_are_values(args.skip(1));
        values_from_front(args);
    }
}

proof fn values_from_front(args: Seq<ExprV>)
    requires
        args.len() > 0,
    ensures
        string_values(args) == string_values(args.take(1)) + string_values(args.skip(1)),
        string_values(args.take(1)) == match args[0].kind {
            ExprKindV::Literal(LiteralV::String(text)) => seq![text],
            _ => seq![],
        },
    decreases args.len(),
{
    let one = args.take(1);
    assert(one.drop_last() =~= Seq::<ExprV>::empty());
    assert(string_values(one.drop_last()) =~= Seq::<Seq<char>>::empty());
    assert(one.last() == args[0]);
    assert(string_values(one) =~= match args[0].kind {
        ExprKindV::Literal(LiteralV::String(text)) => seq![text],
        _ => seq![],
    });
    if args.len() == 1 {
        assert(args =~= one);
        assert(args.skip(1) =~= Seq::<ExprV>::empty());
        assert(string_values(one) + Seq::<Seq<char>>::empty() =~= string_values(one));
    } else {
        let front = args.drop_last();
        values_from_front(front);
        assert(front.take(1) =~= one);
        assert(args.skip(1).drop_last() =~= front.skip(1));
        assert(args.skip(1).last() == args.last());
        assert(string_values(args) =~= string_values(one) + string_values(args.skip(1)));
    }
}

/// Whether what was found grew by what some decorators mention.
spec fn grows(
    now: StatefulV,
    before: StatefulV,
    signals: Seq<Seq<char>>,
    fsms: Seq<Seq<char>>,
) -> bool {
    forall|s: Seq<Seq<char>>, f: Seq<Seq<char>>|
        before.signals == #[trigger] distinct(s) && before.fsms == #[trigger] distinct(f) ==> {
            now.signals == distinct(s + signals) && now.fsms == distinct(f + fsms)
        }
}

proof fn markers_differ()
    ensures
        "__stateful_view__"@ != "__fsm_view__"@,
{
    reveal_strlit("__stateful_view__");
    reveal_strlit("__fsm_view__");
    assert("__stateful_view__"@.len() != "__fsm_view__"@.len());
}

proof fn decorators_of(s: Seq<StmtV>, acc: StatefulV) -> (n: int)
    ensures
        leads_with(s, n),
        undecorated(s, acc).0 == s.skip(n),
        undecorated(s, acc).1.found == (acc.found || n > 0),
        grows(
            undecorated(s, acc).1,
            acc,
            mentioned(s, "__stateful_view__"@),
            mentioned(s, "__fsm_view__"@),
        ),
    decreases s.len(),
{
    let sv = "__stateful_view__"@;
    let fv = "__fsm_view__"@;
    markers_differ();
    let none: Seq<Seq<char>> = seq![];
    if s.len() > 0 && decorates(s[0]) {
        let names = marker_names(s[0]);
        texts_are_values(marker_args(s[0]));
        let next = if marks(s[0], sv) {
            StatefulV { found: true, signals: merged(acc.signals, names), ..acc }
        } else {
            StatefulV { found: true, fsms: merged(acc.fsms, names), ..acc }
        };
        let rest = s.skip(1);
        let n = decorators_of(rest, next);
        assert forall|k: int| 0 <= k < n + 1 implies decorates(#[trigger] s[k]) by {
            if k > 0 {
                assert(rest[k - 1] == s[k]);
            }
        }
        assert(rest.skip(n) =~= s.skip(n + 1));
        let out = undecorated(s, acc).1;
        assert(out == undecorated(rest, next).1);
        assert forall|a: Seq<Seq<char>>, b: Seq<Seq<char>>|
            acc.signals == #[trigger] distinct(a) && acc.fsms == #[trigger] distinct(
                b,
            ) implies out.signals == distinct(a + mentioned(s, sv)) && out.fsms == distinct(
            b + mentioned(s, fv),
        ) by {
            if marks(s[0], sv) {
                merging(a, names);
                assert(next.signals == distinct(a + names));
                assert(a + names + mentioned(rest, sv) =~= a + mentioned(s, sv));
            } else {
                merging(b, names);
                assert(next.fsms == distinct(b + names));
                assert(b + names + mentioned(rest, fv) =~= b + mentioned(s, fv));
            }
        }
        n + 1
    } else {
        assert(s.skip(0) =~= s);
        assert forall|a: Seq<Seq<char>>| #[trigger] distinct(a) == distinct(a + none) by {
            assert(a + none =~= a);
        }
        0
    }
}

/// Whether a body is the other one without its leading decorators.
pub open spec fn is_undecorated(out: Option<BlockV>, b: Option<BlockV>) -> bool {
    match b {
        Some(block) => exists|n: int| #[trigger]
            leads_with(block.statements, n) && out == Some(
                BlockV { statements: block.statements.skip(n), ..block },
            ),
        None => out is None,
    }
}

/// Whether a body starts with a decorator.
pub open spec fn is_decorated(b: Option<BlockV>) -> bool {
    b is Some && b->0.statements.len() > 0 && decorates(b->0.statements[0])
}

proof fn growing(
    a: StatefulV,
    b: StatefulV,
    c: StatefulV,
    s1: Seq<Seq<char>>,
    f1: Seq<Seq<char>>,
    s2: Seq<Seq<char>>,
    f2: Seq<Seq<char>>,
)
    requires
        grows(b, a, s1, f1),
        grows(c, b, s2, f2),
    ensures
        grows(c, a, s1 + s2, f1 + f2),
{
    assert forall|s: Seq<Seq<char>>, f: Seq<Seq<char>>|
        a.signals == #[trigger] distinct(s) && a.fsms == #[trigger] distinct(f) implies c.signals
        == distinct(s + (s1 + s2)) && c.fsms == distinct(f + (f1 + f2)) by {
        assert(b.signals == distinct(s + s1) && b.fsms == distinct(f + f1));
        assert(s + s1 + s2 =~= s + (s1 + s2));
        assert(f + f1 + f2 =~= f + (f1 + f2));
    }
}

proof fn nothing_grows(a: StatefulV)
    ensures
        grows(a, a, seq![], seq![]),
{
    let none: Seq<Seq<char>> = seq![];
    assert forall|s: Seq<Seq<char>>| #[trigger] distinct(s) == distinct(s + none) by {
        assert(s + none =~= s);
    }
}

proof fn body_of(b: Option<BlockV>, acc: StatefulV)
    ensures
        ({
            let (out, now) = body_undecorated(b, acc);
            &&& is_undecorated(out, b)
            &&& now.found == (acc.found || is_decorated(b))
            &&& grows(
                now,
                acc,
                body_mentions(b, "__stateful_view__"@),
                body_mentions(b, "__fsm_view__"@),
            )
        }),
{
    match b {
        Some(block) => {
            let n = decorators_of(block.statements, acc);
            assert(leads_with(block.statements, n));
        },
        None => {
            nothing_grows(acc);
        },
    }
}

proof fn methods_of(s: Seq<MethodV>, acc: StatefulV)
    ensures
        ({
            let (out, now) = methods_undecorated(s, acc);
            &&& out.len() == s.len()
            &&& forall|m: int|
                0 <= m < s.len() ==> is_undecorated((#[trigger] out[m]).body, s[m].body) && out[m]
                    == (MethodV { body: out[m].body, ..s[m] })
            &&& now.found == (acc.found || exists|m: int|
                0 <= m < s.len() && is_decorated((#[trigger] s[m]).body))
            &&& grows(
                now,
                acc,
                methods_mention(s, "__stateful_view__"@),
                methods_mention(s, "__fsm_view__"@),
            )
        }),
    decreases s.len(),
{
    if s.len() > 0 {
        let front = s.drop_last();
        methods_of(front, acc);
        let (out0, acc1) = methods_undecorated(front, acc);
        body_of(s.last().body, acc1);
        let (out, now) = methods_undecorated(s, acc);
        growing(
            acc,
            acc1,
            now,
            methods_mention(front, "__stateful_view__"@),
            methods_mention(front, "__fsm_view__"@),
            body_mentions(s.last().body, "__stateful_view__"@),
            body_mentions(s.last().body, "__fsm_view__"@),
        );
        assert forall|m: int| 0 <= m < s.len() implies is_undecorated(
            (#[trigger] out[m]).body,
            s[m].body,
        ) && out[m] == (MethodV { body: out[m].body, ..s[m] }) by {
            if m < front.len() {
                assert(out[m] == out0[m]);
                assert(front[m] == s[m]);
            }
        }
        if exists|m: int| 0 <= m < s.len() && is_decorated((#[trigger] s[m]).body) {
            let m = choose|m: int| 0 <= m < s.len() && is_decorated((#[trigger] s[m]).body);
            if m < front.len() {
                assert(is_decorated(front[m].body));
            }
        }
        if exists|m: int| 0 <= m < front.len() && is_decorated((#[trigger] front[m]).body) {
            let m = choose|m: int| 0 <= m < front.len() && is_decorated((#[trigger] front[m]).body);
            assert(is_decorated(s[m].body));
        }
        assert(s[s.len() - 1] == s.last());
    } else {
        nothing_grows(acc);
    }
}

/// Whether a declaration is the other one with its bodies undecorated.
pub open spec fn decl_is_undecorated(out: DeclV, d: DeclV) -> bool {
    &&& out.ty == d.ty && out.span == d.span
    &&& match d.kind {
        DeclKindV::Function(f) => out.kind matches DeclKindV::Function(g) && is_undecorated(
            g.body,
            f.body,
        ) && g == (FunctionV { body: g.body, ..f }),
        DeclKindV::Impl(a) => out.kind matches DeclKindV::Impl(b) && {
            &&& b == ImplBlockV { methods: b.methods, ..a }
            &&& b.methods.len() == a.methods.len()
            &&& forall|m: int|
                0 <= m < a.methods.len() ==> is_undecorated(
                    (#[trigger] b.methods[m]).body,
                    a.methods[m].body,
                ) && b.methods[m] == (MethodV { body: b.methods[m].body, ..a.methods[m] })
        },
        _ => out.kind == d.kind,
    }
}

/// Whether a body of a declaration starts with a decorator.
pub open spec fn decl_is_decorated(d: DeclV) -> bool {
    match d.kind {
        DeclKindV::Function(f) => is_decorated(f.body),
        DeclKindV::Impl(i) => exists|m: int|
            0 <= m < i.methods.len() && is_decorated((#[trigger] i.methods[m]).body),
        _ => false,
    }
}

proof fn decls_of(s: Seq<DeclV>, acc: StatefulV)
    ensures
        ({
            let (out, now) = decls_undecorated(s, acc);
            &&& out.len() == s.len()
            &&& forall|i: int| 0 <= i < s.len() ==> decl_is_undecorated(#[trigger] out[i], s[i])
            &&& now.found == (acc.found || exists|i: int|
                0 <= i < s.len() && decl_is_decorated(#[trigger] s[i]))
            &&& grows(
                now,
                acc,
                decls_mention(s, "__stateful_view__"@),
                decls_mention(s, "__fsm_view__"@),
            )
        }),
    decreases s.len(),
{
    let sv = "__stateful_view__"@;
    let fv = "__fsm_view__"@;
    if s.len() > 0 {
        let front = s.drop_last();
        decls_of(front, acc);
        let (out0, acc1) = decls_undecorated(front, acc);
        let (out, now) = decls_undecorated(s, acc);
        match s.last().kind {
            DeclKindV::Function(f) => {
                body_of(f.body, acc1);
                growing(
                    acc,
                    acc1,
                    now,
                    decls_mention(front, sv),
                    decls_mention(front, fv),
                    body_mentions(f.body, sv),
                    body_mentions(f.body, fv),
                );
            },
            DeclKindV::Impl(i) => {
                methods_of(i.methods, acc1);
                growing(
                    acc,
                    acc1,
                    now,
                    decls_mention(front, sv),
                    decls_mention(front, fv),
                    methods_mention(i.methods, sv),
                    methods_mention(i.methods, fv),
                );
            },
            _ => {
                nothing_grows(acc1);
                growing(
                    acc,
                    acc1,
                    now,
                    decls_mention(front, sv),
                    decls_mention(front, fv),
                    seq![],
                    seq![],
                );
            },
        }
        assert(decl_is_undecorated(out.last(), s.last()));
        assert forall|i: int| 0 <= i < s.len() implies decl_is_undecorated(
            #[trigger] out[i],
            s[i],
        ) by {
            if i < front.len() {
                assert(out[i] == out0[i]);
                assert(front[i] == s[i]);
            }
        }
        if exists|i: int| 0 <= i < s.len() && decl_is_decorated(#[trigger] s[i]) {
            let i = choose|i: int| 0 <= i < s.len() && decl_is_decorated(#[trigger] s[i]);
            if i < front.len() {
                assert(decl_is_decorated(front[i]));
            }
        }
        if exists|i: int| 0 <= i < front.len() && decl_is_decorated(#[trigger] front[i]) {
            let i = choose|i: int| 0 <= i < front.len() && decl_is_decorated(#[trigger] front[i]);
            assert(decl_is_decorated(s[i]));
        }
        assert(s[s.len() - 1] == s.last());
    } else {
        nothing_grows(acc);
    }
}

/// Every body loses its leading decorators and nothing else. The signals that
/// `__stateful_view__` mentions and the machines that `__fsm_view__` mentions
/// are listed once each, in the order in which they come up, and the program
/// counts as stateful where a body had a decorator.
pub proof fn decorators_are_collected(p: ProgramV)
    ensures
        ({
            let (out, found) = program_undecorated(p);
            &&& out.type_registry == p.type_registry
            &&& out.declarations.len() == p.declarations.len()
            &&& forall|i: int|
                0 <= i < p.declarations.len() ==> decl_is_undecorated(
                    #[trigger] out.declarations[i],
                    p.declarations[i],
                )
            &&& found.found == exists|i: int|
                0 <= i < p.declarations.len() && decl_is_decorated(#[trigger] p.declarations[i])
            &&& is_first_mentions(
                found.signals,
                decls_mention(p.declarations, "__stateful_view__"@),
            )
            &&& is_first_mentions(found.fsms, decls_mention(p.declarations, "__fsm_view__"@))
        }),
{
    let s = p.declarations;
    let none: Seq<Seq<char>> = seq![];
    decls_of(s, nothing_stateful());
    let a = decls_mention(s, "__stateful_view__"@);
    let b = decls_mention(s, "__fsm_view__"@);
    assert(distinct(none) =~= none);
    assert(nothing_stateful().signals == distinct(none));
    assert(nothing_stateful().fsms == distinct(none));
    assert(none + a =~= a);
    assert(none + b =~= b);
    distinct_are_first_mentions(a);
    distinct_are_first_mentions(b);
}

} // verus!
