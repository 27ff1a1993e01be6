//! Lowering passes keep the machines that a program describes.
//!
//! A declaration describes a machine before a pass exactly when it does so
//! after it, so the number of machines can be read off the parsed program.

use vstd::prelude::*;

use crate::decls::{declared_fsms, declared_signals, find_method, signal_of};
use crate::fsm_calls::{fsm_method_rule, subscriptions_resolved, triggers_resolved};
use crate::fsm_decls::{
    event_enums, fsm_interface, markers_injected, method_wrapped, with_event_enums, with_interfaces,
};
use crate::imports::{imported_view, imports_injected, views_wanted, with_views};
use crate::model::{DeclKindV, DeclV, MethodV, ParamV, ProgramV, TypeDefinitionV};
use crate::populate::{fsm_described, fsms_described};
use crate::props::{methods_bound, props_bound};
use crate::signals::{signal_rule, signals_resolved};
use crate::stateful::{
    decls_undecorated, methods_undecorated, nothing_stateful, program_undecorated, StatefulV,
};
use crate::stylesheet::{is_sheet, without_sheets};
use crate::text::distinct;
use crate::unit_return::{methods_returning, program_returning};
use crate::value_views::{
    function_converted, functions_converted, impl_converted, impls_converted, methods_converted,
    nominal_name, views_converted,
};
use crate::walk::{walk_decls, walk_methods, Rule};

verus! {

/// Whether a declaration describes a machine.
pub open spec fn describes(d: DeclV) -> bool {
    fsm_described(d) is Some
}

/// The number of machines that some declarations describe.
pub open spec fn described_count(s: Seq<DeclV>) -> nat {
    fsms_described(s).len()
}

proof fn count_push(s: Seq<DeclV>, d: DeclV)
    ensures
        described_count(s.push(d)) == described_count(s) + if describes(d) {
            1nat
        } else {
            0nat
        },
{
    assert(s.push(d).drop_last() =~= s);
}

/// Declarations that describe the same, one by one, have the same count.
proof fn same_count(s: Seq<DeclV>, t: Seq<DeclV>)
    requires
        s.len() == t.len(),
        forall|i: int| 0 <= i < s.len() ==> describes(#[trigger] s[i]) == describes(t[i]),
    ensures
        described_count(s) == described_count(t),
    decreases s.len(),
{
    if s.len() > 0 {
        let a = s.drop_last();
        let b = t.drop_last();
        assert forall|i: int| 0 <= i < a.len() implies describes(#[trigger] a[i]) == describes(
            b[i],
        ) by {
            assert(a[i] == s[i]);
            assert(b[i] == t[i]);
        }
        same_count(a, b);
        assert(describes(s[s.len() - 1]) == describes(t[t.len() - 1]));
    }
}

/// Declarations that describe nothing add nothing.
proof fn count_append(s: Seq<DeclV>, more: Seq<DeclV>)
    requires
        forall|i: int| 0 <= i < more.len() ==> !describes(#[trigger] more[i]),
    ensures
        described_count(s + more) == described_count(s),
    decreases more.len(),
{
    if more.len() == 0 {
        assert(s + more =~= s);
    } else {
        let front = more.drop_last();
        assert forall|i: int| 0 <= i < front.len() implies !describes(#[trigger] front[i]) by {
            assert(front[i] == more[i]);
        }
        count_append(s, front);
        assert(s + more =~= (s + front).push(more.last()));
        count_push(s + front, more.last());
        assert(!describes(more[more.len() - 1]));
    }
}

/// Leaving out declarations that describe nothing changes nothing.
proof fn count_filter(s: Seq<DeclV>, keep: spec_fn(DeclV) -> bool)
    requires
        forall|d: DeclV| describes(d) ==> #[trigger] keep(d),
    ensures
        described_count(s.filter(keep)) == described_count(s),
    decreases s.len(),
{
    reveal(Seq::filter);
    if s.len() > 0 {
        count_filter(s.drop_last(), keep);
        count_push(s.drop_last(), s.last());
        assert(s.drop_last().push(s.last()) =~= s);
        if keep(s.last()) {
            count_push(s.drop_last().filter(keep), s.last());
        }
    }
}

/// Whether methods have bodies where they had them before, under their names.
spec fn alike(a: Seq<MethodV>, b: Seq<MethodV>) -> bool {
    a.len() == b.len() && forall|i: int|
        0 <= i < a.len() ==> (#[trigger] a[i]).name == b[i].name && (a[i].body is Some
            == b[i].body is Some)
}

proof fn alike_found(a: Seq<MethodV>, b: Seq<MethodV>, name: Seq<char>)
    requires
        alike(a, b),
    ensures
        find_method(a, name) is Some == find_method(b, name) is Some,
        find_method(a, name) is Some ==> (find_method(a, name)->0.body is Some == find_method(
            b,
            name,
        )->0.body is Some),
    decreases a.len(),
{
    if a.len() > 0 {
        let x = a.drop_last();
        let y = b.drop_last();
        assert forall|i: int| 0 <= i < x.len() implies (#[trigger] x[i]).name == y[i].name && (
        x[i].body is Some == y[i].body is Some) by {
            assert(x[i] == a[i]);
            assert(y[i] == b[i]);
        }
        alike_found(x, y, name);
        assert(a[a.len() - 1].name == b[b.len() - 1].name);
    }
}

proof fn walked_methods_alike<S>(r: Rule<S>, st: S, s: Seq<MethodV>)
    ensures
        alike(walk_methods(r, st, s).0, s),
    decreases s.len(),
{
    if s.len() > 0 {
        walked_methods_alike(r, st, s.drop_last());
        let front = walk_methods(r, st, s.drop_last()).0;
        let out = walk_methods(r, st, s).0;
        assert forall|i: int| 0 <= i < out.len() implies (#[trigger] out[i]).name == s[i].name && (
        out[i].body is Some == s[i].body is Some) by {
            if i < front.len() {
                assert(out[i] == front[i]);
                assert(s.drop_last()[i] == s[i]);
            }
        }
    }
}

/// A walk keeps the machines.
pub proof fn walk_keeps_count<S>(r: Rule<S>, st: S, s: Seq<DeclV>)
    ensures
        described_count(walk_decls(r, st, s).0) == described_count(s),
    decreases s.len(),
{
    if s.len() > 0 {
        let before = s.drop_last();
        walk_keeps_count(r, st, before);
        let (front, st1) = walk_decls(r, st, before);
        let out = walk_decls(r, st, s).0;
        match s.last().kind {
            DeclKindV::Impl(i) => {
                walked_methods_alike(r, st1, i.methods);
                alike_found(walk_methods(r, st1, i.methods).0, i.methods, "__fsm_meta__"@);
            },
            _ => {},
        }
        count_push(front, out.last());
        assert(front.push(out.last()) =~= out);
        count_push(before, s.last());
        assert(before.push(s.last()) =~= s);
    }
}

/// Declaring imported views keeps the machines.
pub proof fn imports_keep_count(p: ProgramV, compiled: Seq<Option<Seq<Seq<char>>>>)
    ensures
        described_count(imports_injected(p, compiled).declarations) == described_count(
            p.declarations,
        ),
{
    views_keep_count(p.declarations, views_wanted(p.declarations, compiled));
}

proof fn views_keep_count(s: Seq<DeclV>, wanted: Seq<Seq<char>>)
    ensures
        described_count(with_views(s, wanted)) == described_count(s),
    decreases wanted.len(),
{
    if wanted.len() > 0 {
        views_keep_count(s, wanted.drop_last());
        count_push(
            with_views(s, wanted.drop_last()),
            imported_view(wanted.last()),
        );
    }
}

proof fn undecorated_methods_alike(s: Seq<MethodV>, acc: StatefulV)
    ensures
        alike(methods_undecorated(s, acc).0, s),
    decreases s.len(),
{
    if s.len() > 0 {
        undecorated_methods_alike(s.drop_last(), acc);
        let front = methods_undecorated(s.drop_last(), acc).0;
        let out = methods_undecorated(s, acc).0;
        assert forall|i: int| 0 <= i < out.len() implies (#[trigger] out[i]).name == s[i].name && (
        out[i].body is Some == s[i].body is Some) by {
            if i < front.len() {
                assert(out[i] == front[i]);
                assert(s.drop_last()[i] == s[i]);
            }
        }
    }
}

proof fn undecorated_decls_keep_count(s: Seq<DeclV>, acc: StatefulV)
    ensures
        described_count(decls_undecorated(s, acc).0) == described_count(s),
    decreases s.len(),
{
    if s.len() > 0 {
        let before = s.drop_last();
        undecorated_decls_keep_count(before, acc);
        let (front, acc1) = decls_undecorated(before, acc);
        let out = decls_undecorated(s, acc).0;
        match s.last().kind {
            DeclKindV::Impl(i) => {
                undecorated_methods_alike(i.methods, acc1);
                alike_found(methods_undecorated(i.methods, acc1).0, i.methods, "__fsm_meta__"@);
            },
            _ => {},
        }
        count_push(front, out.last());
        assert(front.push(out.last()) =~= out);
        count_push(before, s.last());
        assert(before.push(s.last()) =~= s);
    }
}

/// Taking decorators out keeps the machines.
pub proof fn undecorating_keeps_count(p: ProgramV)
    ensures
        described_count(program_undecorated(p).0.declarations) == described_count(p.declarations),
{
    undecorated_decls_keep_count(p.declarations, nothing_stateful());
}

/// Context markers keep the machines.
pub proof fn markers_keep_count(p: ProgramV)
    ensures
        described_count(markers_injected(p).declarations) == described_count(p.declarations),
{
    let t = markers_injected(p).declarations;
    assert forall|i: int| 0 <= i < t.len() implies describes(#[trigger] t[i]) == describes(
        p.declarations[i],
    ) by {
        match p.declarations[i].kind {
            DeclKindV::Impl(imp) => {
                let out = Seq::new(
                    imp.methods.len(),
                    |k: int| method_wrapped(imp.trait_name, imp.methods[k]),
                );
                assert(alike(out, imp.methods));
                alike_found(out, imp.methods, "__fsm_meta__"@);
            },
            _ => {},
        }
    }
    same_count(t, p.declarations);
}

proof fn enums_describe_nothing(s: Seq<DeclV>)
    ensures
        forall|i: int| 0 <= i < event_enums(s).len() ==> !describes(#[trigger] event_enums(s)[i]),
    decreases s.len(),
{
    if s.len() > 0 {
        enums_describe_nothing(s.drop_last());
        let front = event_enums(s.drop_last());
        let now = event_enums(s);
        assert forall|i: int| 0 <= i < now.len() implies !describes(#[trigger] now[i]) by {
            if i < front.len() {
                assert(now[i] == front[i]);
            }
        }
    }
}

/// Event enums and interfaces add no machines.
pub proof fn additions_keep_count(p: ProgramV)
    ensures
        described_count(with_event_enums(p).declarations) == described_count(p.declarations),
        described_count(with_interfaces(p).declarations) == described_count(p.declarations),
{
    enums_describe_nothing(p.declarations);
    count_append(p.declarations, event_enums(p.declarations));
    let names = distinct(declared_fsms(p.declarations));
    count_append(p.declarations, Seq::new(names.len(), |i: int| fsm_interface(names[i])));
}

/// Resolving signals keeps the machines.
pub proof fn signals_keep_count(p: ProgramV)
    ensures
        described_count(signals_resolved(p).declarations) == described_count(p.declarations),
{
    let signals = declared_signals(p.declarations);
    if signals.len() > 0 {
        let r = signal_rule(signals);
        walk_keeps_count(r, (), p.declarations);
        count_filter(walk_decls(r, (), p.declarations).0, |d: DeclV| signal_of(d) is None);
    }
}

/// Resolving machine methods keeps the machines.
pub proof fn methods_keep_count(p: ProgramV)
    ensures
        described_count(triggers_resolved(p).declarations) == described_count(p.declarations),
        described_count(subscriptions_resolved(p).declarations) == described_count(
            p.declarations,
        ),
{
    let fsms = declared_fsms(p.declarations);
    walk_keeps_count(
        fsm_method_rule(fsms, "trigger"@, 1, "__fsm_runtime_trigger__"@),
        (),
        p.declarations,
    );
    walk_keeps_count(
        fsm_method_rule(fsms, "subscribe"@, 2, "__fsm_subscribe__"@),
        (),
        p.declarations,
    );
}

/// Taking stylesheets out keeps the machines.
pub proof fn sheets_keep_count(s: Seq<DeclV>)
    ensures
        described_count(without_sheets(s)) == described_count(s),
{
    count_filter(s, |d: DeclV| !is_sheet(d));
}

proof fn bound_methods_found(s: Seq<MethodV>, props: Seq<ParamV>)
    ensures
        find_method(methods_bound(s, props), "__fsm_meta__"@) is Some == find_method(
            s,
            "__fsm_meta__"@,
        ) is Some,
        find_method(s, "__fsm_meta__"@) is Some ==> find_method(
            methods_bound(s, props),
            "__fsm_meta__"@,
        )->0.body == find_method(s, "__fsm_meta__"@)->0.body,
    decreases s.len(),
{
    if s.len() > 0 {
        bound_methods_found(s.drop_last(), props);
        let front = methods_bound(s.drop_last(), props);
        let out = methods_bound(s, props);
        reveal_strlit("__fsm_meta__");
        reveal_strlit("__component_props__");
        assert("__fsm_meta__"@.len() != "__component_props__"@.len());
        if s.last().name != "__component_props__"@ {
            assert(out.drop_last() =~= front);
        }
    }
}

/// Binding properties keeps the machines.
pub proof fn binding_keeps_count(p: ProgramV)
    ensures
        described_count(props_bound(p).declarations) == described_count(p.declarations),
{
    let t = props_bound(p).declarations;
    assert forall|i: int| 0 <= i < t.len() implies describes(#[trigger] t[i]) == describes(
        p.declarations[i],
    ) by {
        match p.declarations[i].kind {
            DeclKindV::Impl(imp) => match find_method(imp.methods, "__component_props__"@) {
                Some(marker) => {
                    bound_methods_found(imp.methods, marker.params);
                },
                None => {},
            },
            _ => {},
        }
    }
    same_count(t, p.declarations);
}

proof fn converted_methods_alike(
    owner: Option<Seq<char>>,
    symbols: Set<Seq<char>>,
    s: Seq<MethodV>,
)
    ensures
        alike(methods_converted(owner, symbols, s).0, s),
    decreases s.len(),
{
    if s.len() > 0 {
        converted_methods_alike(owner, symbols, s.drop_last());
        let front = methods_converted(owner, symbols, s.drop_last()).0;
        let out = methods_converted(owner, symbols, s).0;
        assert forall|i: int| 0 <= i < out.len() implies (#[trigger] out[i]).name == s[i].name && (
        out[i].body is Some == s[i].body is Some) by {
            if i < front.len() {
                assert(out[i] == front[i]);
                assert(s.drop_last()[i] == s[i]);
            }
        }
    }
}

proof fn converted_impls_keep_count(
    types: Seq<TypeDefinitionV>,
    symbols: Set<Seq<char>>,
    s: Seq<DeclV>,
)
    ensures
        described_count(impls_converted(types, symbols, s).0) == described_count(s),
    decreases s.len(),
{
    if s.len() > 0 {
        let before = s.drop_last();
        converted_impls_keep_count(types, symbols, before);
        let (front, symbols1) = impls_converted(types, symbols, before);
        let last = impl_converted(types, symbols1, s.last()).0;
        match s.last().kind {
            DeclKindV::Impl(i) => {
                let owner = nominal_name(types, i.for_type);
                converted_methods_alike(owner, symbols1, i.methods);
                alike_found(
                    methods_converted(owner, symbols1, i.methods).0,
                    i.methods,
                    "__fsm_meta__"@,
                );
            },
            _ => {},
        }
        count_push(front, last);
        count_push(before, s.last());
        assert(before.push(s.last()) =~= s);
    }
}

proof fn converted_functions_keep_count(symbols: Set<Seq<char>>, s: Seq<DeclV>)
    ensures
        described_count(functions_converted(symbols, s).0) == described_count(s),
    decreases s.len(),
{
    if s.len() > 0 {
        let before = s.drop_last();
        converted_functions_keep_count(symbols, before);
        let (front, symbols1) = functions_converted(symbols, before);
        count_push(front, function_converted(symbols1, s.last()).0);
        count_push(before, s.last());
        assert(before.push(s.last()) =~= s);
    }
}

/// Converting views keeps the machines.
pub proof fn converting_keeps_count(p: ProgramV, symbols: Set<Seq<char>>)
    ensures
        described_count(views_converted(p, symbols).0.declarations) == described_count(
            p.declarations,
        ),
{
    let (first, symbols1) = impls_converted(p.type_registry, symbols, p.declarations);
    converted_impls_keep_count(p.type_registry, symbols, p.declarations);
    converted_functions_keep_count(symbols1, first);
}

/// Ending bodies in returns keeps the machines.
pub proof fn returning_keeps_count(p: ProgramV)
    ensures
        described_count(program_returning(p).declarations) == described_count(p.declarations),
{
    let t = program_returning(p).declarations;
    assert forall|i: int| 0 <= i < t.len() implies describes(#[trigger] t[i]) == describes(
        p.declarations[i],
    ) by {
        match p.declarations[i].kind {
            DeclKindV::Impl(imp) => {
                assert(alike(methods_returning(imp.methods), imp.methods));
                alike_found(methods_returning(imp.methods), imp.methods, "__fsm_meta__"@);
            },
            _ => {},
        }
    }
    same_count(t, p.declarations);
}

/// Declarations that describe nothing have no machines.
pub proof fn nothing_described(s: Seq<DeclV>)
    requires
        forall|i: int| 0 <= i < s.len() ==> !describes(#[trigger] s[i]),
    ensures
        described_count(s) == 0,
{
    count_append(seq![], s);
    assert(Seq::<DeclV>::empty() + s =~= s);
}

} // verus!
