//! What becomes of state machines in the source: the calls of their methods,
//! their markers, the enums of their events and their interfaces.

use vstd::prelude::*;

use crate::ast::{PrimitiveType, Visibility};
use crate::decls::{declared_fsms, find_method, fsm_of};
use crate::everywhere::{in_program, Law};
use crate::fsm_calls::{
    fsm_method_call, fsm_method_resolved, fsm_method_rule, method_calls_are_gone, no_method_law,
    subscriptions_resolved, triggers_resolved,
};
use crate::fsm_decls::{
    event_enums, events_of, markers_injected, meta_body, transition_event, with_event_enums,
    with_interfaces,
};
use crate::machine_laws::{describes, description_of, first_method};
use crate::model::{DeclKindV, DeclV, ExprKindV, ExprV, MethodV, ProgramV, StmtV, TypeV, VariantV};
use crate::plain::{invokes, kept_below, kept_below_selects, marker_args, marks, says, selects};
use crate::shape::string_expr;
use crate::signal_laws::applies;
use crate::text::distinct;
use crate::walk::{walk_program, Rule};

verus! {

/// Whether a declaration is the impl of the state machine `fsm`.
pub open spec fn declares_machine(d: DeclV, fsm: Seq<char>) -> bool {
    d.kind matches DeclKindV::Impl(i) && i.trait_name == fsm && exists|m: int|
        0 <= m < i.methods.len() && (#[trigger] i.methods[m]).name == "__fsm_meta__"@
}

/// Whether a program has the state machine `fsm`.
pub open spec fn has_machine(s: Seq<DeclV>, fsm: Seq<char>) -> bool {
    exists|i: int| 0 <= i < s.len() && declares_machine(#[trigger] s[i], fsm)
}

proof fn machine_is_declared(d: DeclV)
    ensures
        forall|fsm: Seq<char>| #[trigger] declares_machine(d, fsm) <==> fsm_of(d) == Some(fsm),
{
}

proof fn declared_machines(s: Seq<DeclV>, fsm: Seq<char>)
    ensures
        has_machine(s, fsm) <==> declared_fsms(s).contains(fsm),
    decreases s.len(),
{
    if s.len() > 0 {
        let front = s.drop_last();
        let names = declared_fsms(front);
        let all = declared_fsms(s);
        declared_machines(front, fsm);
        machine_is_declared(s.last());
        if has_machine(front, fsm) {
            let i = choose|i: int| 0 <= i < front.len() && declares_machine(#[trigger] front[i], fsm);
            assert(s[i] == front[i]);
            let k = choose|k: int| 0 <= k < names.len() && names[k] == fsm;
            assert(all[k] == fsm);
        }
        if declares_machine(s.last(), fsm) {
            assert(s[s.len() - 1] == s.last());
            assert(all[names.len() as int] == fsm);
        }
        if has_machine(s, fsm) {
            let i = choose|i: int| 0 <= i < s.len() && declares_machine(#[trigger] s[i], fsm);
            if i < front.len() {
                assert(front[i] == s[i]);
            }
        }
        if all.contains(fsm) {
            let k = choose|k: int| 0 <= k < all.len() && all[k] == fsm;
            if k < names.len() {
                assert(names[k] == fsm);
            }
        }
    }
}

// ---------------------------------------------------------------------------
// Methods
// ---------------------------------------------------------------------------

/// Whether an expression calls a method with `arity` arguments on a machine of
/// the program.
pub open spec fn calls_machine(s: Seq<DeclV>, method: Seq<char>, arity: nat, e: ExprV) -> bool {
    exists|fsm: Seq<char>, args: Seq<ExprV>| #[trigger]
        applies(e, fsm, method, args) && args.len() == arity && has_machine(s, fsm)
}

/// The law that no expression calls a method with `arity` arguments on a
/// machine of the program.
pub open spec fn no_call_law(s: Seq<DeclV>, method: Seq<char>, arity: nat) -> Law {
    Law { p: |e: ExprV| !calls_machine(s, method, arity, e), q: |b: Seq<StmtV>| true }
}

/// Whether a rule turns the calls of a method on the machines of a program
/// into calls of a host function, with the name of the machine first, and
/// changes nothing else.
pub open spec fn calls_host(
    r: Rule<()>,
    s: Seq<DeclV>,
    method: Seq<char>,
    arity: nat,
    target: Seq<char>,
) -> bool {
    &&& forall|e: ExprV|
        !calls_machine(s, method, arity, e) ==> (#[trigger] (r.expr)((), e)).0 == e
    &&& forall|e: ExprV, fsm: Seq<char>, args: Seq<ExprV>| #[trigger]
        applies(e, fsm, method, args) && args.len() == arity && has_machine(s, fsm)
            ==> hosts(e, (r.expr)((), e).0, fsm, args, target)
    &&& forall|b: Seq<StmtV>| (#[trigger] (r.block)(b)) == b
}

/// Whether `out` is the call of a host function for a call on a machine.
pub open spec fn hosts(
    e: ExprV,
    out: ExprV,
    fsm: Seq<char>,
    args: Seq<ExprV>,
    target: Seq<char>,
) -> bool {
    exists|text: ExprV| #[trigger]
        says(text, fsm) && invokes(out, target, seq![text] + args) && out.ty == TypeV::Primitive(
            PrimitiveType::Unit,
        ) && out.span == e.span
}

proof fn method_is_hosted(
    s: Seq<DeclV>,
    method: Seq<char>,
    arity: nat,
    target: Seq<char>,
    e: ExprV,
)
    ensures
        calls_machine(s, method, arity, e) <==> fsm_method_call(
            declared_fsms(s),
            method,
            arity,
            target,
            e,
        ) != e,
        forall|fsm: Seq<char>, args: Seq<ExprV>| #[trigger]
            applies(e, fsm, method, args) && args.len() == arity && has_machine(s, fsm) ==> hosts(
                e,
                fsm_method_call(declared_fsms(s), method, arity, target, e),
                fsm,
                args,
                target,
            ),
{
    let fsms = declared_fsms(s);
    assert forall|fsm: Seq<char>| #[trigger] has_machine(s, fsm) <==> fsms.contains(fsm) by {
        declared_machines(s, fsm);
    }
    let out = fsm_method_call(fsms, method, arity, target, e);
    assert forall|fsm: Seq<char>, args: Seq<ExprV>| #[trigger]
        applies(e, fsm, method, args) && args.len() == arity && has_machine(s, fsm) implies hosts(
        e,
        out,
        fsm,
        args,
        target,
    ) by {
        let text = string_expr(fsm, e.span);
        assert(says(text, fsm));
        assert(invokes(out, target, seq![text] + args));
    }
    if out != e {
        match e.kind {
            ExprKindV::MethodCall { receiver, positional_args, .. } => {
                assert(applies(e, receiver.kind->Variable_0, method, positional_args));
            },
            ExprKindV::Call(c) => match c.callee.kind {
                ExprKindV::Field { object, .. } => {
                    assert(applies(e, object.kind->Variable_0, method, c.positional_args));
                },
                _ => {},
            },
            _ => {},
        }
    }
}

proof fn method_law(p: ProgramV, method: Seq<char>, arity: nat, target: Seq<char>)
    ensures
        calls_host(
            fsm_method_rule(declared_fsms(p.declarations), method, arity, target),
            p.declarations,
            method,
            arity,
            target,
        ),
        in_program(
            no_call_law(p.declarations, method, arity),
            fsm_method_resolved(p, method, arity, target),
        ),
{
    let s = p.declarations;
    let fsms = declared_fsms(s);
    let r = fsm_method_rule(fsms, method, arity, target);
    assert forall|e: ExprV|
        !calls_machine(s, method, arity, e) implies (#[trigger] (r.expr)((), e)).0 == e by {
        method_is_hosted(s, method, arity, target, e);
    }
    assert forall|e: ExprV, fsm: Seq<char>, args: Seq<ExprV>| #[trigger]
        applies(e, fsm, method, args) && args.len() == arity && has_machine(s, fsm) implies hosts(
        e,
        (r.expr)((), e).0,
        fsm,
        args,
        target,
    ) by {
        method_is_hosted(s, method, arity, target, e);
    }
    let a = no_method_law(fsms, method, arity, target);
    let b = no_call_law(s, method, arity);
    assert forall|e: ExprV| #[trigger] (a.p)(e) == (b.p)(e) by {
        method_is_hosted(s, method, arity, target, e);
    }
    assert(a.p =~= b.p);
    assert(a.q =~= b.q);
    method_calls_are_gone(p, method, arity, target);
}

/// `Fsm.trigger(path)` on a machine of the program becomes
/// `__fsm_runtime_trigger__("Fsm", path)`, wherever it stands, and nothing
/// else is changed.
pub proof fn triggers_call_the_host(p: ProgramV) -> (r: Rule<()>)
    ensures
        calls_host(r, p.declarations, "trigger"@, 1, "__fsm_runtime_trigger__"@),
        triggers_resolved(p) == walk_program(r, (), p).0,
        in_program(no_call_law(p.declarations, "trigger"@, 1), triggers_resolved(p)),
{
    method_law(p, "trigger"@, 1, "__fsm_runtime_trigger__"@);
    fsm_method_rule(declared_fsms(p.declarations), "trigger"@, 1, "__fsm_runtime_trigger__"@)
}

/// `Fsm.subscribe(path, closure)` on a machine of the program becomes
/// `__fsm_subscribe__("Fsm", path, closure)`, wherever it stands, and nothing
/// else is changed.
pub proof fn subscriptions_call_the_host(p: ProgramV) -> (r: Rule<()>)
    ensures
        calls_host(r, p.declarations, "subscribe"@, 2, "__fsm_subscribe__"@),
        subscriptions_resolved(p) == walk_program(r, (), p).0,
        in_program(no_call_law(p.declarations, "subscribe"@, 2), subscriptions_resolved(p)),
{
    method_law(p, "subscribe"@, 2, "__fsm_subscribe__"@);
    fsm_method_rule(declared_fsms(p.declarations), "subscribe"@, 2, "__fsm_subscribe__"@)
}

// ---------------------------------------------------------------------------
// Markers
// ---------------------------------------------------------------------------

/// Whether statements are those of a description between its markers:
/// `__fsm_begin__("Fsm")` and `__fsm_end__()`. A description that begins with
/// the marker is left as it is.
pub open spec fn is_enclosed(out: Seq<StmtV>, s: Seq<StmtV>, fsm: Seq<char>) -> bool {
    if s.len() > 0 && marks(s[0], "__fsm_begin__"@) {
        out == s
    } else {
        &&& out.len() == s.len() + 2
        &&& marks(out[0], "__fsm_begin__"@)
        &&& marker_args(out[0]).len() == 1
        &&& says(marker_args(out[0])[0], fsm)
        &&& forall|k: int| 0 <= k < s.len() ==> out[k + 1] == #[trigger] s[k]
        &&& marks(out[s.len() as int + 1], "__fsm_end__"@)
        &&& marker_args(out[s.len() as int + 1]).len() == 0
    }
}

/// Whether a method of the impl of `fsm` is the other one with its description
/// enclosed in markers, if it is the one with the description.
pub open spec fn is_marked(out: MethodV, m: MethodV, fsm: Seq<char>) -> bool {
    if m.name == "__fsm_meta__"@ && m.body is Some {
        &&& out.name == m.name && out.params == m.params && out.return_type == m.return_type
        &&& out.details == m.details
        &&& out.body is Some
        &&& out.body->0.span == m.body->0.span
        &&& is_enclosed(out.body->0.statements, m.body->0.statements, fsm)
    } else {
        out == m
    }
}

/// Every description of a machine is enclosed in markers that name the
/// machine; other methods and declarations stay as they are.
pub proof fn descriptions_are_marked(p: ProgramV, i: int)
    requires
        0 <= i < p.declarations.len(),
    ensures
        ({
            let d = p.declarations[i];
            let out = markers_injected(p);
            &&& out.declarations.len() == p.declarations.len()
            &&& out.type_registry == p.type_registry
            &&& out.declarations[i].ty == d.ty && out.declarations[i].span == d.span
            &&& match d.kind {
                DeclKindV::Impl(a) => out.declarations[i].kind matches DeclKindV::Impl(b) && {
                    &&& b.trait_name == a.trait_name && b.for_type == a.for_type && b.details
                        == a.details
                    &&& b.methods.len() == a.methods.len()
                    &&& forall|m: int|
                        0 <= m < a.methods.len() ==> is_marked(
                            #[trigger] b.methods[m],
                            a.methods[m],
                            a.trait_name,
                        )
                },
                _ => out.declarations[i] == d,
            }
        }),
{
}

// ---------------------------------------------------------------------------
// Events
// ---------------------------------------------------------------------------

/// Whether a statement is a transition on an event.
pub open spec fn on_event(s: StmtV, event: Seq<char>) -> bool {
    marks(s, "__fsm_transition__"@) && marker_args(s).len() > 1 && says(marker_args(s)[1], event)
        && event.len() > 0
}

/// Whether statement `k` is the first transition on its event.
pub open spec fn first_on_event(s: Seq<StmtV>, k: int) -> bool {
    exists|event: Seq<char>| #[trigger]
        on_event(s[k], event) && forall|j: int| 0 <= j < k ==> !on_event(#[trigger] s[j], event)
}

/// Whether names are the events of a description, in the order in which they
/// come up first.
pub open spec fn are_events(names: Seq<Seq<char>>, s: Seq<StmtV>, at: Seq<int>) -> bool {
    &&& selects(at, s.len() as int, |k: int| first_on_event(s, k))
    &&& names.len() == at.len()
    &&& forall|i: int| 0 <= i < names.len() ==> on_event(s[at[i]], #[trigger] names[i])
}

/// The names of the variants of an enum.
pub open spec fn variant_names(v: Seq<VariantV>) -> Seq<Seq<char>> {
    Seq::new(v.len(), |i: int| v[i].name)
}

/// Whether a declaration is the public enum `FsmEvent` of the events of a
/// description, one variant for every event.
pub open spec fn is_event_enum(d: DeclV, fsm: Seq<char>, s: Seq<StmtV>) -> bool {
    d.kind matches DeclKindV::Enum(e) && {
        &&& d.ty == TypeV::Unknown
        &&& e.name == fsm + "Event"@
        &&& e.visibility == Visibility::Public
        &&& e.details == 0
        &&& forall|i: int|
            0 <= i < e.variants.len() ==> (#[trigger] e.variants[i]).fields is Unit
                && e.variants[i].discriminant is None
        &&& exists|at: Seq<int>| #[trigger]
            are_events(variant_names(e.variants), s, at)
    }
}

/// Whether a declaration describes a machine with an event.
pub open spec fn has_events(d: DeclV) -> bool {
    exists|fsm: Seq<char>, s: Seq<StmtV>, k: int, event: Seq<char>|
        #![trigger describes(d, fsm, s), on_event(s[k], event)]
        describes(d, fsm, s) && 0 <= k < s.len() && on_event(s[k], event)
}

proof fn event_is(s: StmtV)
    ensures
        forall|event: Seq<char>| #[trigger]
            on_event(s, event) <==> transition_event(s) == Some(event),
{
}

proof fn events_at(s: Seq<StmtV>, n: nat)
    requires
        n <= s.len(),
    ensures
        ({
            let at = kept_below(n, |k: int| first_on_event(s, k));
            let names = events_of(s.take(n as int));
            &&& names.len() == at.len()
            &&& forall|i: int| 0 <= i < names.len() ==> on_event(s[at[i]], #[trigger] names[i])
            &&& forall|k: int, event: Seq<char>|
                0 <= k < n && #[trigger] on_event(s[k], event) ==> names.contains(event)
        }),
    decreases n,
{
    if n > 0 {
        let m = (n - 1) as nat;
        events_at(s, m);
        let last = s[m as int];
        event_is(last);
        assert(s.take(n as int).drop_last() =~= s.take(m as int));
        assert(s.take(n as int).last() == last);
        let before = events_of(s.take(m as int));
        let names = events_of(s.take(n as int));
        let at0 = kept_below(m, |k: int| first_on_event(s, k));
        kept_below_selects(m, |k: int| first_on_event(s, k));
        match transition_event(last) {
            Some(event) => {
                assert(on_event(last, event));
                if before.contains(event) {
                    let i = choose|i: int| 0 <= i < before.len() && before[i] == event;
                    assert(on_event(s[at0[i]], before[i]));
                    assert(0 <= at0[i] < m);
                    assert(!first_on_event(s, m as int));
                } else {
                    assert(first_on_event(s, m as int));
                }
            },
            None => {},
        }
        assert forall|k: int, event: Seq<char>|
            0 <= k < n && #[trigger] on_event(s[k], event) implies names.contains(event) by {
            if k < m || before.contains(event) {
                assert(before.contains(event));
                let i = choose|i: int| 0 <= i < before.len() && before[i] == event;
                assert(names[i] == event);
            } else {
                assert(names[before.len() as int] == event);
            }
        }
    }
}

proof fn event_enums_at(s: Seq<DeclV>, n: nat)
    requires
        n <= s.len(),
    ensures
        ({
            let at = kept_below(n, |i: int| has_events(s[i]));
            let enums = event_enums(s.take(n as int));
            enums.len() == at.len() && forall|m: int, fsm: Seq<char>, b: Seq<StmtV>|
                0 <= m < at.len() && #[trigger] describes(s[at[m]], fsm, b) ==> is_event_enum(
                    enums[m],
                    fsm,
                    b,
                )
        }),
    decreases n,
{
    if n > 0 {
        let m = (n - 1) as nat;
        event_enums_at(s, m);
        let d = s[m as int];
        description_of(d);
        assert(s.take(n as int).drop_last() =~= s.take(m as int));
        assert(s.take(n as int).last() == d);
        let at0 = kept_below(m, |i: int| has_events(s[i]));
        let at = kept_below(n, |i: int| has_events(s[i]));
        let enums0 = event_enums(s.take(m as int));
        let enums = event_enums(s.take(n as int));
        match d.kind {
            DeclKindV::Impl(i) => match meta_body(i) {
                Some(b) => {
                    let st = b.statements;
                    events_at(st, st.len());
                    assert(st.take(st.len() as int) =~= st);
                    let keep = |k: int| first_on_event(st, k);
                    kept_below_selects(st.len(), keep);
                    let first = kept_below(st.len(), keep);
                    let names = events_of(st);
                    body_is(d, i.trait_name, st);
                    if names.len() > 0 {
                        assert(on_event(st[first[0]], names[0]));
                        assert(has_events(d));
                        let e = enums.last().kind->Enum_0;
                        assert(variant_names(e.variants) =~= names);
                        assert(are_events(variant_names(e.variants), st, first));
                        assert(is_event_enum(enums.last(), i.trait_name, st));
                    } else if has_events(d) {
                        let (fsm, s1, k, event) = choose|
                            fsm: Seq<char>,
                            s1: Seq<StmtV>,
                            k: int,
                            event: Seq<char>,
                        |
                            #![trigger describes(d, fsm, s1), on_event(s1[k], event)]
                            describes(d, fsm, s1) && 0 <= k < s1.len() && on_event(s1[k], event);
                        assert(s1 == st);
                        assert(names.contains(event));
                    }
                },
                None => {},
            },
            _ => {},
        }
        assert forall|q: int, fsm: Seq<char>, b: Seq<StmtV>|
            0 <= q < at.len() && #[trigger] describes(s[at[q]], fsm, b) implies is_event_enum(
            enums[q],
            fsm,
            b,
        ) by {
            if q < at0.len() {
                assert(at[q] == at0[q]);
                assert(enums[q] == enums0[q]);
            } else {
                assert(s[at[q]] == d);
            }
        }
    }
}

/// The body of a description is the one that describes the machine.
proof fn body_is(d: DeclV, fsm: Seq<char>, s: Seq<StmtV>)
    requires
        d.kind is Impl,
        d.kind->Impl_0.trait_name == fsm,
        meta_body(d.kind->Impl_0) is Some,
        meta_body(d.kind->Impl_0)->0.statements == s,
    ensures
        describes(d, fsm, s),
        forall|f: Seq<char>, t: Seq<StmtV>| #[trigger] describes(d, f, t) ==> f == fsm && t == s,
{
    first_method(d.kind->Impl_0.methods, "__fsm_meta__"@);
    let i = d.kind->Impl_0;
    let name = "__fsm_meta__"@;
    let k = choose|k: int|
        0 <= k < i.methods.len() && #[trigger] i.methods[k] == find_method(
            i.methods,
            name,
        )->0 && i.methods[k].name == name && forall|j: int|
            0 <= j < k ==> (#[trigger] i.methods[j]).name != name;
    assert(i.methods[k].name == name);
    assert forall|f: Seq<char>, t: Seq<StmtV>| #[trigger] describes(d, f, t) implies f == fsm && t
        == s by {
        let q = choose|q: int|
            0 <= q < i.methods.len() && (#[trigger] i.methods[q]).name == name
                && i.methods[q].body is Some && i.methods[q].body->0.statements == t && forall|
                j: int,
            |
                0 <= j < q ==> (#[trigger] i.methods[j]).name != name;
        assert(q == k);
    }
}

/// Every machine with an event gets the enum of its events. The enums stand
/// after the declarations of the program, in the order of the machines.
pub proof fn machines_get_event_enums(p: ProgramV) -> (at: Seq<int>)
    ensures
        ({
            let n = p.declarations.len();
            let out = with_event_enums(p);
            &&& selects(at, n as int, |i: int| has_events(p.declarations[i]))
            &&& out.type_registry == p.type_registry
            &&& out.declarations.len() == n + at.len()
            &&& out.declarations.take(n as int) == p.declarations
            &&& forall|m: int, fsm: Seq<char>, s: Seq<StmtV>|
                0 <= m < at.len() && #[trigger] describes(p.declarations[at[m]], fsm, s)
                    ==> is_event_enum(out.declarations[n + m], fsm, s)
        }),
{
    let s = p.declarations;
    let keep = |i: int| has_events(s[i]);
    kept_below_selects(s.len(), keep);
    event_enums_at(s, s.len());
    assert(s.take(s.len() as int) =~= s);
    let out = with_event_enums(p);
    assert(out.declarations.take(s.len() as int) =~= s);
    kept_below(s.len(), keep)
}

// ---------------------------------------------------------------------------
// Interfaces
// ---------------------------------------------------------------------------

/// Whether a declaration is the first impl of a machine of its name.
pub open spec fn first_of_machine(s: Seq<DeclV>, i: int) -> bool {
    exists|fsm: Seq<char>| #[trigger]
        declares_machine(s[i], fsm) && forall|j: int|
            0 <= j < i ==> !declares_machine(#[trigger] s[j], fsm)
}

proof fn names_at(s: Seq<DeclV>, n: nat)
    requires
        n <= s.len(),
    ensures
        ({
            let at = kept_below(n, |i: int| first_of_machine(s, i));
            let names = distinct(declared_fsms(s.take(n as int)));
            &&& names.len() == at.len()
            &&& forall|m: int|
                0 <= m < names.len() ==> declares_machine(s[at[m]], #[trigger] names[m])
            &&& forall|i: int, fsm: Seq<char>|
                0 <= i < n && #[trigger] declares_machine(s[i], fsm) ==> names.contains(fsm)
        }),
    decreases n,
{
    if n > 0 {
        let m = (n - 1) as nat;
        names_at(s, m);
        let d = s[m as int];
        machine_is_declared(d);
        let front = s.take(m as int);
        assert(s.take(n as int).drop_last() =~= front);
        assert(s.take(n as int).last() == d);
        let before = distinct(declared_fsms(front));
        let names = distinct(declared_fsms(s.take(n as int)));
        let at0 = kept_below(m, |i: int| first_of_machine(s, i));
        kept_below_selects(m, |i: int| first_of_machine(s, i));
        match fsm_of(d) {
            Some(fsm) => {
                assert(declares_machine(d, fsm));
                assert(declared_fsms(s.take(n as int)).drop_last() =~= declared_fsms(front));
                if before.contains(fsm) {
                    let k = choose|k: int| 0 <= k < before.len() && before[k] == fsm;
                    assert(declares_machine(s[at0[k]], before[k]));
                    assert(0 <= at0[k] < m);
                    assert(!first_of_machine(s, m as int));
                } else {
                    assert(first_of_machine(s, m as int));
                }
            },
            None => {},
        }
        assert forall|i: int, fsm: Seq<char>|
            0 <= i < n && #[trigger] declares_machine(s[i], fsm) implies names.contains(fsm) by {
            if i < m || before.contains(fsm) {
                assert(before.contains(fsm));
                let k = choose|k: int| 0 <= k < before.len() && before[k] == fsm;
                assert(names[k] == fsm);
            } else {
                assert(names[before.len() as int] == fsm);
            }
        }
    }
}

/// Every machine gets a public interface of its name, one for all impls of the
/// name. The interfaces stand after the declarations of the program, in the
/// order in which the names come up.
pub proof fn machines_get_interfaces(p: ProgramV) -> (at: Seq<int>)
    ensures
        ({
            let n = p.declarations.len();
            let out = with_interfaces(p);
            &&& selects(at, n as int, |i: int| first_of_machine(p.declarations, i))
            &&& out.type_registry == p.type_registry
            &&& out.declarations.len() == n + at.len()
            &&& out.declarations.take(n as int) == p.declarations
            &&& forall|m: int|
                0 <= m < at.len() ==> ((#[trigger] out.declarations[n + m]).kind
                    matches DeclKindV::Interface(x) && x.visibility == Visibility::Public
                    && x.details == 0 && declares_machine(p.declarations[at[m]], x.name))
        }),
{
    let s = p.declarations;
    let keep = |i: int| first_of_machine(s, i);
    kept_below_selects(s.len(), keep);
    names_at(s, s.len());
    assert(s.take(s.len() as int) =~= s);
    let out = with_interfaces(p);
    assert(out.declarations.take(s.len() as int) =~= s);
    let names = distinct(declared_fsms(s));
    let at = kept_below(s.len(), keep);
    assert forall|m: int| 0 <= m < at.len() implies ((#[trigger] out.declarations[s.len()
        + m]).kind matches DeclKindV::Interface(x) && x.visibility == Visibility::Public
        && x.details == 0 && declares_machine(s[at[m]], x.name)) by {
        assert(declares_machine(s[at[m]], names[m]));
    }
    at
}

} // verus!
