//! What becomes of the description of a state machine, marker by marker.

use vstd::prelude::*;

use crate::ast::{PrimitiveType, TypeId};
use crate::decls::find_method;
use crate::fsm::{
    changed, distinct_ids, event_target, find_fsm, find_fsm_named, first_transition_wins,
    found_by_name, found_fsm, fsm_def, registry_target, removed, upserted, EventTransitionV,
    FsmDefinitionV, FsmEntryV, FsmIdV, TickGuardV,
};
use crate::fsm_instance::{
    candidates_of, first_firing, first_guard_wins, guards_from, initial_of, instance_of,
    is_tick_step, moved, FsmInstanceV, TickCandidateV, TickStep,
};
use crate::model::{
    DeclKindV, DeclV, EnumDeclV, ExprKindV, ExprV, LiteralV, MethodV, ProgramV, StmtKindV, StmtV,
    TypeDefinitionV, TypeV, VariantFieldsV,
};
use crate::plain::{
    drop_selected, filter_is_selection, is_selection, kept_below, kept_below_selects, marker_args,
    marks, same_selection, says, selects, taken_at,
};
use crate::populate::{
    decl_without_meta, described, described_machines_are_registered, enum_pinned, find_enum,
    fsm_described, fsms_described, guard_function, guards_described, ids_given, populated,
    LiftedGuardV,
};
use crate::text::decimal;

verus! {

// ---------------------------------------------------------------------------
// Markers
// ---------------------------------------------------------------------------

/// Whether a statement is `__fsm_initial__("state")`.
pub open spec fn starts(s: StmtV, state: Seq<char>) -> bool {
    marks(s, "__fsm_initial__"@) && marker_args(s).len() > 0 && says(marker_args(s)[0], state)
}

/// Whether a statement names an initial state.
pub open spec fn starts_some(s: StmtV) -> bool {
    exists|state: Seq<char>| #[trigger] starts(s, state)
}

/// Whether a statement is `__fsm_transition__("from", "event", "to")`.
pub open spec fn moves(s: StmtV, from: Seq<char>, event: Seq<char>, to: Seq<char>) -> bool {
    &&& marks(s, "__fsm_transition__"@)
    &&& marker_args(s).len() > 2
    &&& says(marker_args(s)[0], from)
    &&& says(marker_args(s)[1], event)
    &&& says(marker_args(s)[2], to)
}

/// Whether a statement is a transition.
pub open spec fn moves_some(s: StmtV) -> bool {
    exists|from: Seq<char>, event: Seq<char>, to: Seq<char>| #[trigger] moves(s, from, event, to)
}

/// Whether a statement is `__fsm_tick__("from", guard, "to")`.
pub open spec fn ticks(s: StmtV, from: Seq<char>, guard: ExprV, to: Seq<char>) -> bool {
    &&& marks(s, "__fsm_tick__"@)
    &&& marker_args(s).len() > 2
    &&& says(marker_args(s)[0], from)
    &&& marker_args(s)[1] == guard
    &&& says(marker_args(s)[2], to)
}

/// Whether a statement is a tick.
pub open spec fn ticks_some(s: StmtV) -> bool {
    exists|from: Seq<char>, guard: ExprV, to: Seq<char>| #[trigger] ticks(s, from, guard, to)
}

/// The function of tick number `j` of a machine.
pub open spec fn tick_function(fsm: Seq<char>, j: nat) -> Seq<char> {
    "__fsm_tick_guard_"@ + fsm + "_"@ + decimal(j) + "__"@
}

/// Whether transitions are those of the markers at some places.
pub open spec fn transitions_at(
    t: Seq<EventTransitionV>,
    s: Seq<StmtV>,
    at: Seq<int>,
) -> bool {
    &&& selects(at, s.len() as int, |k: int| moves_some(s[k]))
    &&& t.len() == at.len()
    &&& forall|i: int|
        0 <= i < t.len() ==> moves(s[at[i]], (#[trigger] t[i]).from, t[i].event, t[i].to)
            && t[i].actions.len() == 0
}

/// Whether tick guards are those of the markers at some places.
pub open spec fn ticks_at(
    fsm: Seq<char>,
    t: Seq<TickGuardV>,
    s: Seq<StmtV>,
    at: Seq<int>,
) -> bool {
    &&& selects(at, s.len() as int, |k: int| ticks_some(s[k]))
    &&& t.len() == at.len()
    &&& forall|i: int|
        0 <= i < t.len() ==> ticks(
            s[at[i]],
            (#[trigger] t[i]).from,
            marker_args(s[at[i]])[1],
            t[i].to,
        ) && t[i].guard_fn == Some(tick_function(fsm, i as nat))
}

/// Whether a state is the one that the last marker of an initial state names.
pub open spec fn starts_in(initial: Option<Seq<char>>, s: Seq<StmtV>) -> bool {
    match initial {
        Some(state) => exists|k: int|
            0 <= k < s.len() && starts(#[trigger] s[k], state) && forall|j: int|
                k < j < s.len() ==> !starts_some(#[trigger] s[j]),
        None => forall|k: int| 0 <= k < s.len() ==> !starts_some(#[trigger] s[k]),
    }
}

/// Whether a definition is the machine `fsm` that some markers describe.
pub open spec fn is_machine(def: FsmDefinitionV, fsm: Seq<char>, s: Seq<StmtV>) -> bool {
    &&& def.name == Some(fsm)
    &&& starts_in(def.initial, s)
    &&& exists|at: Seq<int>| #[trigger] transitions_at(def.transitions, s, at)
    &&& exists|at: Seq<int>| #[trigger] ticks_at(fsm, def.tick_guards, s, at)
}

proof fn markers_differ()
    ensures
        "__fsm_initial__"@ != "__fsm_transition__"@,
        "__fsm_initial__"@ != "__fsm_tick__"@,
        "__fsm_transition__"@ != "__fsm_tick__"@,
{
    reveal_strlit("__fsm_initial__");
    reveal_strlit("__fsm_transition__");
    reveal_strlit("__fsm_tick__");
    assert("__fsm_initial__"@.len() != "__fsm_transition__"@.len());
    assert("__fsm_initial__"@.len() != "__fsm_tick__"@.len());
    assert("__fsm_transition__"@.len() != "__fsm_tick__"@.len());
}

proof fn description_at(fsm: Seq<char>, s: Seq<StmtV>, n: nat)
    requires
        n <= s.len(),
    ensures
        ({
            let d = described(fsm, s.take(n as int));
            let moved = kept_below(n, |k: int| moves_some(s[k]));
            let ticked = kept_below(n, |k: int| ticks_some(s[k]));
            &&& d.def.name == Some(fsm)
            &&& d.def.transitions.len() == moved.len()
            &&& forall|i: int|
                0 <= i < moved.len() ==> moves(
                    s[moved[i]],
                    (#[trigger] d.def.transitions[i]).from,
                    d.def.transitions[i].event,
                    d.def.transitions[i].to,
                ) && d.def.transitions[i].actions.len() == 0
            &&& d.def.tick_guards.len() == ticked.len()
            &&& d.guards.len() == ticked.len()
            &&& forall|i: int|
                0 <= i < ticked.len() ==> {
                    &&& ticks(
                        s[ticked[i]],
                        (#[trigger] d.def.tick_guards[i]).from,
                        d.guards[i].guard,
                        d.def.tick_guards[i].to,
                    )
                    &&& d.def.tick_guards[i].guard_fn == Some(tick_function(fsm, i as nat))
                    &&& d.guards[i].name == tick_function(fsm, i as nat)
                }
            &&& match d.def.initial {
                Some(state) => exists|k: int|
                    0 <= k < n && starts(#[trigger] s[k], state) && forall|j: int|
                        k < j < n ==> !starts_some(#[trigger] s[j]),
                None => forall|k: int| 0 <= k < n ==> !starts_some(#[trigger] s[k]),
            }
        }),
    decreases n,
{
    if n > 0 {
        let m = (n - 1) as nat;
        description_at(fsm, s, m);
        markers_differ();
        assert(s.take(n as int).drop_last() =~= s.take(m as int));
        assert(s.take(n as int).last() == s[m as int]);
        let last = s[m as int];
        let args = marker_args(last);
        let before = described(fsm, s.take(m as int));
        let now = described(fsm, s.take(n as int));
        if marks(last, "__fsm_initial__"@) {
            if now.def.initial != before.def.initial || starts_some(last) {
                if now != before {
                    assert(starts(last, now.def.initial->0));
                }
            }
        } else if marks(last, "__fsm_transition__"@) {
            if now.def.transitions.len() > before.def.transitions.len() {
                let t = now.def.transitions.last();
                assert(moves(last, t.from, t.event, t.to));
            }
        } else if marks(last, "__fsm_tick__"@) {
            if now.guards.len() > before.guards.len() {
                let t = now.def.tick_guards.last();
                assert(ticks(last, t.from, now.guards.last().guard, t.to));
            }
        }
        let moved0 = kept_below(m, |k: int| moves_some(s[k]));
        let moved = kept_below(n, |k: int| moves_some(s[k]));
        let ticked0 = kept_below(m, |k: int| ticks_some(s[k]));
        let ticked = kept_below(n, |k: int| ticks_some(s[k]));
        assert forall|i: int| 0 <= i < moved.len() implies moves(
            s[moved[i]],
            (#[trigger] now.def.transitions[i]).from,
            now.def.transitions[i].event,
            now.def.transitions[i].to,
        ) && now.def.transitions[i].actions.len() == 0 by {
            if i < moved0.len() {
                assert(now.def.transitions[i] == before.def.transitions[i]);
            }
        }
        assert forall|i: int| 0 <= i < ticked.len() implies {
            &&& ticks(
                s[ticked[i]],
                (#[trigger] now.def.tick_guards[i]).from,
                now.guards[i].guard,
                now.def.tick_guards[i].to,
            )
            &&& now.def.tick_guards[i].guard_fn == Some(tick_function(fsm, i as nat))
            &&& now.guards[i].name == tick_function(fsm, i as nat)
        } by {
            if i < ticked0.len() {
                assert(now.def.tick_guards[i] == before.def.tick_guards[i]);
                assert(now.guards[i] == before.guards[i]);
            }
        }
    }
}

proof fn described_is_machine(fsm: Seq<char>, s: Seq<StmtV>)
    ensures
        is_machine(described(fsm, s).def, fsm, s),
{
    let moved = kept_below(s.len(), |k: int| moves_some(s[k]));
    let ticked = kept_below(s.len(), |k: int| ticks_some(s[k]));
    kept_below_selects(s.len(), |k: int| moves_some(s[k]));
    kept_below_selects(s.len(), |k: int| ticks_some(s[k]));
    description_at(fsm, s, s.len());
    assert(s.take(s.len() as int) =~= s);
    let d = described(fsm, s).def;
    assert(transitions_at(d.transitions, s, moved));
    assert(ticks_at(fsm, d.tick_guards, s, ticked));
}

// ---------------------------------------------------------------------------
// Declarations
// ---------------------------------------------------------------------------

/// Whether a declaration describes the machine `fsm` by some markers: it is an
/// impl of `fsm` whose first method called `__fsm_meta__` consists of them.
pub open spec fn describes(d: DeclV, fsm: Seq<char>, s: Seq<StmtV>) -> bool {
    d.kind matches DeclKindV::Impl(i) && i.trait_name == fsm && exists|m: int|
        0 <= m < i.methods.len() && (#[trigger] i.methods[m]).name == "__fsm_meta__"@
            && i.methods[m].body is Some && i.methods[m].body->0.statements == s && forall|j: int|
            0 <= j < m ==> (#[trigger] i.methods[j]).name != "__fsm_meta__"@
}

/// Whether a declaration describes a machine.
pub open spec fn describes_some(d: DeclV) -> bool {
    exists|fsm: Seq<char>, s: Seq<StmtV>| #[trigger] describes(d, fsm, s)
}

/// The method that is found is the first of its name.
pub proof fn first_method(s: Seq<MethodV>, name: Seq<char>)
    ensures
        match find_method(s, name) {
            Some(m) => exists|i: int|
                0 <= i < s.len() && #[trigger] s[i] == m && m.name == name && forall|j: int|
                    0 <= j < i ==> (#[trigger] s[j]).name != name,
            None => forall|i: int| 0 <= i < s.len() ==> (#[trigger] s[i]).name != name,
        },
    decreases s.len(),
{
    if s.len() > 0 {
        let front = s.drop_last();
        first_method(front, name);
        match find_method(front, name) {
            Some(m) => {
                let i = choose|i: int|
                    0 <= i < front.len() && #[trigger] front[i] == m && m.name == name
                        && forall|j: int| 0 <= j < i ==> (#[trigger] front[j]).name != name;
                assert(s[i] == m);
                assert forall|j: int| 0 <= j < i implies (#[trigger] s[j]).name != name by {
                    assert(s[j] == front[j]);
                }
            },
            None => {
                assert forall|j: int| 0 <= j < front.len() implies (#[trigger] s[j]).name
                    != name by {
                    assert(s[j] == front[j]);
                }
                assert(s[s.len() - 1] == s.last());
            },
        }
    }
}

/// What a declaration describes is what is read from it.
pub proof fn description_of(d: DeclV)
    ensures
        describes_some(d) <==> fsm_described(d) is Some,
        forall|fsm: Seq<char>, s: Seq<StmtV>| #[trigger]
            describes(d, fsm, s) ==> fsm_described(d) == Some(described(fsm, s)),
{
    let name = "__fsm_meta__"@;
    match d.kind {
        DeclKindV::Impl(i) => {
            first_method(i.methods, name);
            match find_method(i.methods, name) {
                Some(m) => {
                    let k = choose|k: int|
                        0 <= k < i.methods.len() && #[trigger] i.methods[k] == m && m.name == name
                            && forall|j: int|
                            0 <= j < k ==> (#[trigger] i.methods[j]).name != name;
                    assert(i.methods[k].name == name);
                    if m.body is Some {
                        assert(describes(d, i.trait_name, m.body->0.statements));
                    }
                    assert forall|fsm: Seq<char>, s: Seq<StmtV>| #[trigger]
                        describes(d, fsm, s) implies fsm_described(d) == Some(
                        described(fsm, s),
                    ) by {
                        let q = choose|q: int|
                            0 <= q < i.methods.len() && (#[trigger] i.methods[q]).name == name
                                && i.methods[q].body is Some && i.methods[q].body->0.statements == s
                                && forall|j: int|
                                0 <= j < q ==> (#[trigger] i.methods[j]).name != name;
                        assert(q == k);
                    }
                },
                None => {},
            }
        },
        _ => {},
    }
}

proof fn machines_at(s: Seq<DeclV>, n: nat)
    requires
        n <= s.len(),
    ensures
        ({
            let at = kept_below(n, |i: int| describes_some(s[i]));
            let defs = fsms_described(s.take(n as int));
            defs.len() == at.len() && forall|m: int|
                0 <= m < at.len() ==> #[trigger] defs[m] == fsm_described(s[at[m]])->0.def
        }),
    decreases n,
{
    if n > 0 {
        let m = (n - 1) as nat;
        machines_at(s, m);
        description_of(s[m as int]);
        assert(s.take(n as int).drop_last() =~= s.take(m as int));
        assert(s.take(n as int).last() == s[m as int]);
    }
}

/// The machines that a program describes are registered, each with the
/// transitions, ticks and initial state of its markers. The one that the
/// program describes first gets the first id, the next one the next, and
/// machines under other ids stay as they are.
pub proof fn machines_are_registered_in_order(
    p: ProgramV,
    registry: Seq<FsmEntryV>,
    module: Seq<char>,
    ids: Seq<TypeId>,
    other: FsmIdV,
) -> (at: Seq<int>)
    requires
        distinct_ids(registry),
        fsms_described(p.declarations).len() <= ids.len(),
        ids.no_duplicates(),
    ensures
        selects(
            at,
            p.declarations.len() as int,
            |i: int| describes_some(p.declarations[i]),
        ),
        at.len() <= ids.len(),
        forall|m: int, fsm: Seq<char>, s: Seq<StmtV>|
            0 <= m < at.len() && #[trigger] describes(p.declarations[at[m]], fsm, s) ==> {
                let def = fsm_def(
                    populated(p, registry, module, ids).1,
                    (FsmIdV { module, type_id: ids[m] }),
                );
                def is Some && is_machine(def->0, fsm, s)
            },
        (forall|m: int|
            0 <= m < at.len() ==> other != (FsmIdV { module, type_id: #[trigger] ids[m] }))
            ==> fsm_def(populated(p, registry, module, ids).1, other) == fsm_def(registry, other),
{
    let decls = p.declarations;
    let keep = |i: int| describes_some(decls[i]);
    let at = kept_below(decls.len(), keep);
    kept_below_selects(decls.len(), keep);
    machines_at(decls, decls.len());
    assert(decls.take(decls.len() as int) =~= decls);
    let out = populated(p, registry, module, ids).1;
    let free = FsmIdV { module: module.push('x'), type_id: ids[0] };
    assert(module.push('x').len() != module.len());
    assert forall|m: int, fsm: Seq<char>, s: Seq<StmtV>|
        0 <= m < at.len() && #[trigger] describes(decls[at[m]], fsm, s) implies {
        let def = fsm_def(out, (FsmIdV { module, type_id: ids[m] }));
        def is Some && is_machine(def->0, fsm, s)
    } by {
        description_of(decls[at[m]]);
        described_is_machine(fsm, s);
        described_machines_are_registered(p, registry, module, ids, m, free);
        assert(fsms_described(decls)[m] == described(fsm, s).def);
    }
    if forall|m: int|
        0 <= m < at.len() ==> other != (FsmIdV { module, type_id: #[trigger] ids[m] }) {
        if at.len() > 0 {
            described_machines_are_registered(p, registry, module, ids, 0, other);
        } else {
            assert(fsms_described(decls).len() == 0);
        }
    }
    at
}

// ---------------------------------------------------------------------------
// Guards
// ---------------------------------------------------------------------------

/// The number that statements return, where `truth` says which conditions
/// hold: an `if` runs the one branch or the other, the first `return` ends the
/// run, and only integer literals are returned.
pub open spec fn gives_back(s: Seq<StmtV>, truth: spec_fn(ExprV) -> bool, steps: nat) -> Option<i128>
    decreases steps,
{
    if s.len() == 0 || steps == 0 {
        None
    } else {
        let rest = (steps - 1) as nat;
        match s[0].kind {
            StmtKindV::Return(Some(e)) => match e.kind {
                ExprKindV::Literal(LiteralV::Integer(n)) => Some(n),
                _ => None,
            },
            StmtKindV::Return(None) => None,
            StmtKindV::If { condition, then_block, else_block, .. } => {
                let branch = if truth(condition) {
                    then_block.statements
                } else {
                    match else_block {
                        Some(b) => b.statements,
                        None => seq![],
                    }
                };
                gives_back(branch + s.skip(1), truth, rest)
            },
            _ => gives_back(s.skip(1), truth, rest),
        }
    }
}

/// Whether a declaration is a function without parameters that returns, as an
/// `i32`, a number other than 0 where `guard` holds and 0 where it does not.
pub open spec fn evaluates(d: DeclV, name: Seq<char>, guard: ExprV) -> bool {
    d.kind matches DeclKindV::Function(f) && {
        &&& f.name == name
        &&& f.params.len() == 0
        &&& f.return_type == TypeV::Primitive(PrimitiveType::I32)
        &&& !f.is_external && f.link_name is None
        &&& f.details == 0
        &&& f.body is Some
        &&& forall|truth: spec_fn(ExprV) -> bool|
            ({
                let code = #[trigger] gives_back(f.body->0.statements, truth, 3);
                code is Some && (code->0 != 0 <==> truth(guard)) && (code->0 == 0 <==> !truth(
                    guard,
                )) && i32::MIN <= code->0 <= i32::MAX
            })
    }
}

proof fn guard_function_evaluates(g: LiftedGuardV)
    ensures
        evaluates(guard_function(g), g.name, g.guard),
{
    let d = guard_function(g);
    let f = d.kind->Function_0;
    let body = f.body->0.statements;
    assert forall|truth: spec_fn(ExprV) -> bool|
        ({
            let code = #[trigger] gives_back(body, truth, 3);
            code is Some && (code->0 != 0 <==> truth(g.guard)) && (code->0 == 0 <==> !truth(
                g.guard,
            )) && i32::MIN <= code->0 <= i32::MAX
        }) by {
        reveal_with_fuel(gives_back, 3);
        let rest = body.skip(1);
        let none: Seq<StmtV> = seq![];
        assert(none + rest =~= rest);
        match body[0].kind {
            StmtKindV::If { then_block, .. } => {
                assert((then_block.statements + rest)[0] == then_block.statements[0]);
            },
            _ => {},
        }
    }
}

proof fn guards_kept(s: Seq<DeclV>, i: int, j: int) -> (q: int)
    requires
        0 <= i < s.len(),
        fsm_described(s[i]) is Some,
        0 <= j < fsm_described(s[i])->0.guards.len(),
    ensures
        0 <= q < guards_described(s).len(),
        guards_described(s)[q] == fsm_described(s[i])->0.guards[j],
    decreases s.len(),
{
    let front = s.drop_last();
    if i == s.len() - 1 {
        guards_described(front).len() + j
    } else {
        guards_kept(front, i, j)
    }
}

/// Every tick of a machine has its function in the program: the one that the
/// registered machine names evaluates the guard of the marker. It returns a
/// number other than 0 where the guard holds, and 0 where it does not.
pub proof fn tick_functions_evaluate_guards(
    p: ProgramV,
    registry: Seq<FsmEntryV>,
    module: Seq<char>,
    ids: Seq<TypeId>,
    i: int,
    fsm: Seq<char>,
    s: Seq<StmtV>,
) -> (r: (Seq<int>, Seq<int>))
    requires
        0 <= i < p.declarations.len(),
        describes(p.declarations[i], fsm, s),
    ensures
        selects(r.0, s.len() as int, |k: int| ticks_some(s[k])),
        r.1.len() == r.0.len(),
        forall|j: int|
            0 <= j < r.0.len() ==> 0 <= #[trigger] r.1[j] < populated(
                p,
                registry,
                module,
                ids,
            ).0.declarations.len() && evaluates(
                populated(p, registry, module, ids).0.declarations[r.1[j]],
                tick_function(fsm, j as nat),
                marker_args(s[r.0[j]])[1],
            ),
{
    let decls = p.declarations;
    let at = kept_below(s.len(), |k: int| ticks_some(s[k]));
    kept_below_selects(s.len(), |k: int| ticks_some(s[k]));
    description_of(decls[i]);
    description_at(fsm, s, s.len());
    assert(s.take(s.len() as int) =~= s);
    let out = populated(p, registry, module, ids).0.declarations;
    let guards = guards_described(decls);
    let base = out.len() - guards.len();
    let fns = Seq::new(
        at.len(),
        |j: int|
            base + choose|q: int|
                0 <= q < guards.len() && #[trigger] guards[q] == described(fsm, s).guards[j],
    );
    assert forall|j: int| 0 <= j < at.len() implies 0 <= #[trigger] fns[j] < out.len()
        && evaluates(out[fns[j]], tick_function(fsm, j as nat), marker_args(s[at[j]])[1]) by {
        let g = described(fsm, s).guards[j];
        let q0 = guards_kept(decls, i, j);
        assert(guards[q0] == g);
        let q = fns[j] - base;
        assert(guards[q] == g);
        guard_function_evaluates(g);
        assert(out[fns[j]] == guard_function(g));
        let t = described(fsm, s).def.tick_guards[j];
        assert(ticks(s[at[j]], t.from, g.guard, t.to));
    }
    (at, fns)
}

/// The declarations of a program stay in their places. Only the method
/// `__fsm_meta__` of an impl is dropped, and only an enum can get another type.
pub proof fn declarations_stay(
    p: ProgramV,
    registry: Seq<FsmEntryV>,
    module: Seq<char>,
    ids: Seq<TypeId>,
    i: int,
)
    requires
        0 <= i < p.declarations.len(),
    ensures
        ({
            let d = p.declarations[i];
            let out = populated(p, registry, module, ids).0.declarations;
            &&& i < out.len()
            &&& out[i].span == d.span
            &&& !(d.kind is Enum) ==> out[i].ty == d.ty
            &&& !(d.kind is Impl) ==> out[i].kind == d.kind
            &&& d.kind matches DeclKindV::Impl(a) ==> {
                &&& out[i].kind matches DeclKindV::Impl(b) && b.trait_name == a.trait_name
                    && b.for_type == a.for_type && b.details == a.details && is_selection(
                    b.methods,
                    a.methods,
                    |k: int| a.methods[k].name != "__fsm_meta__"@,
                )
            }
        }),
{
    let defs = fsms_described(p.declarations);
    pinned_stay(p, registry, module, defs, ids, defs.len(), i);
    let d = p.declarations[i];
    match d.kind {
        DeclKindV::Impl(a) => {
            let f = |m: MethodV| m.name != "__fsm_meta__"@;
            let kept = a.methods.filter(f);
            filter_is_selection(a.methods, f);
            let keep1 = |k: int| f(a.methods[k]);
            let keep = |k: int| a.methods[k].name != "__fsm_meta__"@;
            let at = choose|at: Seq<int>| #[trigger]
                selects(at, a.methods.len() as int, keep1) && kept == taken_at(a.methods, at);
            assert(selects(at, a.methods.len() as int, keep)) by {
                assert forall|k: int| 0 <= k < a.methods.len() && keep(k) implies
                    #[trigger] at.contains(k) by {
                    assert(keep1(k));
                }
                assert forall|k: int| 0 <= k < at.len() implies 0 <= #[trigger] at[k]
                    < a.methods.len() && keep(at[k]) by {
                    assert(keep1(at[k]));
                }
            }
        },
        _ => {},
    }
}

/// The enum that is found is the first of its name.
pub proof fn first_enum(s: Seq<DeclV>, name: Seq<char>)
    ensures
        match find_enum(s, name) {
            Some(i) => 0 <= i < s.len() && enum_called(s[i], name) && forall|j: int|
                0 <= j < i ==> !enum_called(#[trigger] s[j], name),
            None => forall|j: int| 0 <= j < s.len() ==> !enum_called(#[trigger] s[j], name),
        },
    decreases s.len(),
{
    if s.len() > 0 {
        let front = s.drop_last();
        first_enum(front, name);
        assert forall|j: int| 0 <= j < front.len() implies s[j] == #[trigger] front[j] by {}
        match find_enum(front, name) {
            Some(i) => {
                assert(s[i] == front[i]);
                assert forall|j: int| 0 <= j < i implies !enum_called(#[trigger] s[j], name) by {
                    assert(s[j] == front[j]);
                }
            },
            None => {
                assert forall|j: int| 0 <= j < front.len() implies !enum_called(
                    #[trigger] s[j],
                    name,
                ) by {
                    assert(s[j] == front[j]);
                }
                assert(s[s.len() - 1] == s.last());
            },
        }
    }
}

/// Whether a declaration is the enum called `name`.
pub open spec fn enum_called(d: DeclV, name: Seq<char>) -> bool {
    d.kind matches DeclKindV::Enum(e) && e.name == name
}

proof fn pinned_stay(
    p: ProgramV,
    registry: Seq<FsmEntryV>,
    module: Seq<char>,
    defs: Seq<FsmDefinitionV>,
    ids: Seq<TypeId>,
    n: nat,
    i: int,
)
    requires
        0 <= i < p.declarations.len(),
        n <= defs.len(),
    ensures
        ({
            let out = ids_given(p, registry, module, defs, ids, n).0.declarations;
            &&& out.len() == p.declarations.len()
            &&& out[i].kind == p.declarations[i].kind
            &&& out[i].span == p.declarations[i].span
            &&& !(p.declarations[i].kind is Enum) ==> out[i].ty == p.declarations[i].ty
        }),
    decreases n,
{
    if n > 0 {
        pinned_stay(p, registry, module, defs, ids, (n - 1) as nat, i);
        let p1 = ids_given(p, registry, module, defs, ids, (n - 1) as nat).0;
        first_enum(p1.declarations, defs[n - 1].name->0);
    }
}

// ---------------------------------------------------------------------------
// State enums
// ---------------------------------------------------------------------------

/// Whether an entry of the type registry is that of an enum under an id: its
/// variants are numbered from 0, and those with named fields have none.
pub open spec fn is_entry_of(t: TypeDefinitionV, id: TypeId, e: EnumDeclV) -> bool {
    &&& t.id == id && t.name == e.name && t.span == e.span
    &&& t.variants is Some
    &&& t.variants->0.len() == e.variants.len()
    &&& forall|i: int|
        0 <= i < e.variants.len() ==> {
            let v = #[trigger] t.variants->0[i];
            &&& v.name == e.variants[i].name && v.span == e.variants[i].span
            &&& v.discriminant == Some(i as i64)
            &&& v.fields == if e.variants[i].fields is Named {
                VariantFieldsV::Unit
            } else {
                e.variants[i].fields
            }
        }
}

/// Whether declaration `i` is the first enum of a name.
pub open spec fn leads_enums(s: Seq<DeclV>, i: int, name: Seq<char>) -> bool {
    0 <= i < s.len() && enum_called(s[i], name) && forall|j: int|
        0 <= j < i ==> !enum_called(#[trigger] s[j], name)
}

/// Whether there is an enum of a name.
pub open spec fn has_enum(s: Seq<DeclV>, name: Seq<char>) -> bool {
    exists|i: int| #[trigger] leads_enums(s, i, name)
}

proof fn enum_is_found(s: Seq<DeclV>, name: Seq<char>)
    ensures
        has_enum(s, name) <==> find_enum(s, name) is Some,
        forall|i: int| #[trigger] leads_enums(s, i, name) <==> find_enum(s, name) == Some(i),
{
    first_enum(s, name);
    match find_enum(s, name) {
        Some(k) => {
            assert(leads_enums(s, k, name));
            assert forall|i: int| #[trigger] leads_enums(s, i, name) implies i == k by {
                if i < k {
                    assert(!enum_called(s[i], name));
                } else if k < i {
                    assert(!enum_called(s[k], name));
                }
            }
        },
        None => {},
    }
}

proof fn enums_stay(a: Seq<DeclV>, b: Seq<DeclV>, name: Seq<char>)
    requires
        a.len() == b.len(),
        forall|i: int| 0 <= i < a.len() ==> (#[trigger] a[i]).kind == b[i].kind,
    ensures
        find_enum(a, name) == find_enum(b, name),
{
    enum_is_found(a, name);
    enum_is_found(b, name);
    match find_enum(a, name) {
        Some(i) => {
            assert(leads_enums(a, i, name));
            assert forall|j: int| 0 <= j < i implies !enum_called(#[trigger] b[j], name) by {
                assert(a[j].kind == b[j].kind);
            }
            assert(leads_enums(b, i, name));
        },
        None => match find_enum(b, name) {
            Some(i) => {
                assert(leads_enums(b, i, name));
                assert forall|j: int| 0 <= j < i implies !enum_called(#[trigger] a[j], name) by {
                    assert(a[j].kind == b[j].kind);
                }
                assert(leads_enums(a, i, name));
            },
            None => {},
        },
    }
}

proof fn enums_at(
    p: ProgramV,
    registry: Seq<FsmEntryV>,
    module: Seq<char>,
    defs: Seq<FsmDefinitionV>,
    ids: Seq<TypeId>,
    n: nat,
)
    requires
        n <= defs.len(),
    ensures
        ({
            let s = p.declarations;
            let out = ids_given(p, registry, module, defs, ids, n).0;
            let at = kept_below(n, |k: int| has_enum(s, defs[k].name->0));
            let base = p.type_registry.len();
            &&& out.type_registry.len() == base + at.len()
            &&& out.type_registry.take(base as int) == p.type_registry
            &&& forall|i: int, e: int|
                0 <= i < at.len() && #[trigger] leads_enums(s, e, defs[at[i]].name->0)
                    ==> is_entry_of(
                    out.type_registry[base + i],
                    ids[at[i]],
                    s[e].kind->Enum_0,
                )
            &&& forall|k: int, e: int|
                0 <= k < n && #[trigger] leads_enums(s, e, defs[k].name->0) && (forall|j: int|
                    k < j < n ==> (#[trigger] defs[j]).name->0 != defs[k].name->0)
                    ==> out.declarations[e].ty == (TypeV::Named { id: ids[k], arguments: 0 })
        }),
    decreases n,
{
    let s = p.declarations;
    let base = p.type_registry.len();
    let keep = |k: int| has_enum(s, defs[k].name->0);
    if n > 0 {
        let m = (n - 1) as nat;
        enums_at(p, registry, module, defs, ids, m);
        let before = ids_given(p, registry, module, defs, ids, m).0;
        let out = ids_given(p, registry, module, defs, ids, n).0;
        let name = defs[m as int].name->0;
        assert forall|i: int| 0 <= i < s.len() implies (#[trigger] s[i]).kind
            == before.declarations[i].kind by {
            pinned_stay(p, registry, module, defs, ids, m, i);
        }
        assert(before.declarations.len() == s.len()) by {
            if s.len() > 0 {
                pinned_stay(p, registry, module, defs, ids, m, 0);
            } else {
                empty_stays(p, registry, module, defs, ids, m);
            }
        }
        enums_stay(s, before.declarations, name);
        enum_is_found(s, name);
        let at0 = kept_below(m, keep);
        let at = kept_below(n, keep);
        assert(out == enum_pinned(before, name, ids[m as int]));
        assert(out.type_registry.take(base as int) =~= p.type_registry) by {
            assert forall|i: int| 0 <= i < base implies out.type_registry[i]
                == p.type_registry[i] by {
                assert(before.type_registry.take(base as int)[i] == p.type_registry[i]);
            }
        }
        assert forall|i: int, e: int|
            0 <= i < at.len() && #[trigger] leads_enums(s, e, defs[at[i]].name->0) implies
            is_entry_of(out.type_registry[base + i], ids[at[i]], s[e].kind->Enum_0) by {
            if i < at0.len() {
                assert(at[i] == at0[i]);
                assert(leads_enums(s, e, defs[at0[i]].name->0));
                assert(out.type_registry[base + i] == before.type_registry[base + i]);
            } else {
                assert(find_enum(s, name) == Some(e));
                assert(s[e].kind == before.declarations[e].kind);
            }
        }
        assert forall|k: int, e: int|
            0 <= k < n && #[trigger] leads_enums(s, e, defs[k].name->0) && (forall|j: int|
                k < j < n ==> (#[trigger] defs[j]).name->0 != defs[k].name->0) implies
            out.declarations[e].ty == (TypeV::Named { id: ids[k], arguments: 0 }) by {
            if k < m {
                assert(defs[m as int].name->0 != defs[k].name->0);
                enum_is_found(s, defs[k].name->0);
                if find_enum(s, name) == Some(e) {
                    assert(leads_enums(s, e, name));
                }
                assert(out.declarations[e] == before.declarations[e]);
            } else {
                assert(find_enum(s, name) == Some(e));
            }
        }
    } else {
        assert(p.type_registry.take(base as int) =~= p.type_registry);
    }
}

proof fn empty_stays(
    p: ProgramV,
    registry: Seq<FsmEntryV>,
    module: Seq<char>,
    defs: Seq<FsmDefinitionV>,
    ids: Seq<TypeId>,
    n: nat,
)
    requires
        p.declarations.len() == 0,
    ensures
        ids_given(p, registry, module, defs, ids, n).0.declarations.len() == 0,
    decreases n,
{
    if n > 0 {
        empty_stays(p, registry, module, defs, ids, (n - 1) as nat);
    }
}

/// The first enum that has the name of a machine is the type of its states: it
/// is registered under the id of the machine, after the types that were
/// registered before and in the order of the machines, and it has that type.
/// Where several machines have one name the id of the last counts.
pub proof fn state_enums_are_registered(
    p: ProgramV,
    registry: Seq<FsmEntryV>,
    module: Seq<char>,
    ids: Seq<TypeId>,
) -> (r: (Seq<int>, Seq<Seq<char>>, Seq<int>))
    requires
        fsms_described(p.declarations).len() <= ids.len(),
    ensures
        ({
            let (described, names, at) = r;
            let s = p.declarations;
            let out = populated(p, registry, module, ids).0;
            let base = p.type_registry.len();
            &&& selects(described, s.len() as int, |i: int| describes_some(s[i]))
            &&& names.len() == described.len()
            &&& forall|m: int|
                0 <= m < names.len() ==> #[trigger] names[m]
                    == s[described[m]].kind->Impl_0.trait_name
            &&& selects(at, names.len() as int, |k: int| has_enum(s, names[k]))
            &&& out.type_registry.len() == base + at.len()
            &&& out.type_registry.take(base as int) == p.type_registry
            &&& forall|i: int, e: int|
                0 <= i < at.len() && #[trigger] leads_enums(s, e, names[at[i]]) ==> is_entry_of(
                    out.type_registry[base + i],
                    ids[at[i]],
                    s[e].kind->Enum_0,
                )
            &&& forall|k: int, e: int|
                0 <= k < names.len() && #[trigger] leads_enums(s, e, names[k]) && (forall|j: int|
                    k < j < names.len() ==> (#[trigger] names[j]) != names[k])
                    ==> out.declarations[e].ty == (TypeV::Named { id: ids[k], arguments: 0 })
        }),
{
    let s = p.declarations;
    let keep = |i: int| describes_some(s[i]);
    let described = kept_below(s.len(), keep);
    kept_below_selects(s.len(), keep);
    machines_at(s, s.len());
    assert(s.take(s.len() as int) =~= s);
    let defs = fsms_described(s);
    let names = Seq::new(defs.len(), |m: int| defs[m].name->0);
    assert forall|m: int| 0 <= m < names.len() implies #[trigger] names[m]
        == s[described[m]].kind->Impl_0.trait_name by {
        let d = s[described[m]];
        assert(keep(described[m]));
        description_of(d);
        let (fsm, b) = choose|fsm: Seq<char>, b: Seq<StmtV>| #[trigger] describes(d, fsm, b);
        described_is_machine(fsm, b);
        assert(defs[m] == fsm_described(d)->0.def);
    }
    enums_at(p, registry, module, defs, ids, defs.len());
    let a = |k: int| has_enum(s, defs[k].name->0);
    let b = |k: int| has_enum(s, names[k]);
    let at = kept_below(defs.len(), a);
    kept_below_selects(defs.len(), a);
    same_selection(at, names.len() as int, a, b);
    let out = populated(p, registry, module, ids).0;
    assert forall|i: int, e: int|
        0 <= i < at.len() && #[trigger] leads_enums(s, e, names[at[i]]) implies is_entry_of(
        out.type_registry[p.type_registry.len() + i],
        ids[at[i]],
        s[e].kind->Enum_0,
    ) by {
        assert(leads_enums(s, e, defs[at[i]].name->0));
    }
    assert forall|k: int, e: int|
        0 <= k < names.len() && #[trigger] leads_enums(s, e, names[k]) && (forall|j: int|
            k < j < names.len() ==> (#[trigger] names[j]) != names[k]) implies
        out.declarations[e].ty == (TypeV::Named { id: ids[k], arguments: 0 }) by {
        assert(leads_enums(s, e, defs[k].name->0));
        assert forall|j: int| k < j < defs.len() implies (#[trigger] defs[j]).name->0
            != defs[k].name->0 by {
            assert(names[j] != names[k]);
        }
        let p1 = ids_given(p, registry, module, defs, ids, defs.len()).0;
        pinned_stay(p, registry, module, defs, ids, defs.len(), e);
        assert(out.declarations[e] == decl_without_meta(p1.declarations[e]));
    }
    (described, names, at)
}

// ---------------------------------------------------------------------------
// Ticks
// ---------------------------------------------------------------------------

/// The guards that a tick evaluates are those of the current state that have a
/// function, in the order of the machine.
pub proof fn guards_of_state(t: Seq<TickGuardV>, current: Seq<char>) -> (at: Seq<int>)
    ensures
        selects(at, t.len() as int, |k: int| t[k].from == current && t[k].guard_fn is Some),
        guards_from(t, current).len() == at.len(),
        forall|i: int|
            0 <= i < at.len() ==> (#[trigger] guards_from(t, current)[i]).to == t[at[i]].to && Some(
                guards_from(t, current)[i].guard_fn,
            ) == t[at[i]].guard_fn,
{
    let keep = |k: int| t[k].from == current && t[k].guard_fn is Some;
    kept_below_selects(t.len(), keep);
    guards_at(t, current, t.len());
    assert(t.take(t.len() as int) =~= t);
    kept_below(t.len(), keep)
}

proof fn guards_at(t: Seq<TickGuardV>, current: Seq<char>, n: nat)
    requires
        n <= t.len(),
    ensures
        ({
            let at = kept_below(n, |k: int| t[k].from == current && t[k].guard_fn is Some);
            let out = guards_from(t.take(n as int), current);
            out.len() == at.len() && forall|i: int|
                0 <= i < at.len() ==> (#[trigger] out[i]).to == t[at[i]].to && Some(out[i].guard_fn)
                    == t[at[i]].guard_fn
        }),
    decreases n,
{
    if n > 0 {
        let m = (n - 1) as nat;
        guards_at(t, current, m);
        assert(t.take(n as int).drop_last() =~= t.take(m as int));
        assert(t.take(n as int).last() == t[m as int]);
    }
}

/// A tick goes to the state of the first guard that came to a number other
/// than 0. While there is none it evaluates the next guard, and it stays where
/// all guards came to 0 or had no function.
pub proof fn tick_goes_by_codes(
    candidates: Seq<TickCandidateV>,
    outcomes: Seq<Option<i32>>,
    r: TickStep,
    i: int,
)
    requires
        outcomes.len() <= candidates.len(),
        is_tick_step(candidates, outcomes, r),
    ensures
        0 <= i < outcomes.len() && outcomes[i] is Some && outcomes[i]->0 != 0 && (forall|j: int|
            0 <= j < i ==> (#[trigger] outcomes[j] is None || outcomes[j]->0 == 0)) ==> (
        r matches TickStep::Fire(to) && to@ == candidates[i].to),
        (forall|j: int|
            0 <= j < outcomes.len() ==> (#[trigger] outcomes[j] is None || outcomes[j]->0 == 0))
            ==> r == if outcomes.len() < candidates.len() {
            TickStep::Evaluate(outcomes.len() as usize)
        } else {
            TickStep::Stay
        },
{
    first_guard_wins(outcomes);
    match first_firing(outcomes) {
        Some(k) => {
            assert(outcomes[k] is Some && outcomes[k]->0 != 0);
        },
        None => {},
    }
}

/// The guard decides the tick: where no guard before it fires, a tick that
/// gets the code that the function of a guard returns goes to the state of the
/// guard if the guard holds, and does not go anywhere yet if it does not.
pub proof fn guard_decides_tick(
    d: DeclV,
    name: Seq<char>,
    guard: ExprV,
    truth: spec_fn(ExprV) -> bool,
    candidates: Seq<TickCandidateV>,
    outcomes: Seq<Option<i32>>,
    r: TickStep,
)
    requires
        evaluates(d, name, guard),
        outcomes.len() < candidates.len(),
        forall|j: int|
            0 <= j < outcomes.len() ==> (#[trigger] outcomes[j] is None || outcomes[j]->0 == 0),
        is_tick_step(
            candidates,
            outcomes.push(
                Some(
                    gives_back(d.kind->Function_0.body->0.statements, truth, 3)->0 as i32,
                ),
            ),
            r,
        ),
    ensures
        truth(guard) ==> (r matches TickStep::Fire(to) && to@ == candidates[outcomes.len() as int].to),
        !truth(guard) ==> !(r is Fire),
{
    let code = gives_back(d.kind->Function_0.body->0.statements, truth, 3);
    assert(code is Some);
    let all = outcomes.push(Some(code->0 as i32));
    let n = outcomes.len() as int;
    assert forall|j: int| 0 <= j < n implies (#[trigger] all[j] is None || all[j]->0 == 0) by {
        assert(all[j] == outcomes[j]);
    }
    tick_goes_by_codes(candidates, all, r, n);
}

// ---------------------------------------------------------------------------
// Instances
// ---------------------------------------------------------------------------

/// Whether a machine is registered under an id.
pub open spec fn is_registered(s: Seq<FsmEntryV>, id: FsmIdV, def: FsmDefinitionV) -> bool {
    exists|k: int| 0 <= k < s.len() && (#[trigger] s[k]).id == id && s[k].def == def
}

proof fn registered_is_found(s: Seq<FsmEntryV>, id: FsmIdV, def: FsmDefinitionV)
    requires
        distinct_ids(s),
    ensures
        is_registered(s, id, def) <==> fsm_def(s, id) == Some(def),
{
    found_fsm(s, id);
    if is_registered(s, id, def) {
        let k = choose|k: int| 0 <= k < s.len() && (#[trigger] s[k]).id == id && s[k].def == def;
        let i = find_fsm(s, id)->0;
        if i != k {
            assert(s[i].id != s[k].id);
        }
    }
    if fsm_def(s, id) == Some(def) {
        assert(s[find_fsm(s, id)->0].id == id);
    }
}

/// A new instance is one of the newest machine of its name in its module, in
/// the initial state of the machine. There is none where there is no such
/// machine, or where it has no initial state.
pub proof fn instance_starts_in_initial_state(
    s: Seq<FsmEntryV>,
    module: Seq<char>,
    name: Seq<char>,
    k: int,
)
    requires
        distinct_ids(s),
    ensures
        (forall|j: int|
            0 <= j < s.len() ==> (#[trigger] s[j]).id.module != module || s[j].def.name != Some(
                name,
            )) ==> instance_of(s, module, name) is None,
        0 <= k < s.len() && s[k].id.module == module && s[k].def.name == Some(name) && (forall|
            j: int,
        |
            k < j < s.len() ==> (#[trigger] s[j]).id.module != module || s[j].def.name != Some(
                name,
            )) ==> match s[k].def.initial {
            Some(state) => {
                let i = instance_of(s, module, name);
                i is Some && i->0.id == s[k].id && i->0.current == state
            },
            None => instance_of(s, module, name) is None,
        },
{
    found_by_name(s, module, name);
    match find_fsm_named(s, module, name) {
        Some(id) => {
            let q = choose|q: int|
                0 <= q < s.len() && (#[trigger] s[q]).id == id && id.module == module
                    && s[q].def.name == Some(name) && forall|j: int|
                    q < j < s.len() ==> (#[trigger] s[j]).id.module != module || s[j].def.name
                        != Some(name);
            assert(is_registered(s, id, s[q].def));
            registered_is_found(s, id, s[q].def);
            if 0 <= k < s.len() && s[k].id.module == module && s[k].def.name == Some(name) {
                if q < k {
                    assert(s[k].id.module != module || s[k].def.name != Some(name));
                }
            }
        },
        None => {},
    }
}

/// An event takes an instance along the first transition of its machine from
/// the current state on that event. Where there is none the instance stays,
/// and so it does where its machine is not registered.
pub proof fn event_takes_first_transition(
    s: Seq<FsmEntryV>,
    i: FsmInstanceV,
    def: FsmDefinitionV,
    event: Seq<char>,
    k: int,
)
    requires
        distinct_ids(s),
    ensures
        ({
            let next = moved(i, registry_target(s, i.id, i.current, event));
            let t = def.transitions;
            &&& next.id == i.id
            &&& is_registered(s, i.id, def) && 0 <= k < t.len() && t[k].from == i.current
                && t[k].event == event && (forall|j: int|
                0 <= j < k ==> !((#[trigger] t[j]).from == i.current && t[j].event == event))
                ==> registry_target(s, i.id, i.current, event) is Some && next.current == t[k].to
            &&& is_registered(s, i.id, def) && (forall|j: int|
                0 <= j < t.len() ==> !((#[trigger] t[j]).from == i.current && t[j].event == event))
                ==> registry_target(s, i.id, i.current, event) is None && next == i
            &&& (forall|j: int| 0 <= j < s.len() ==> (#[trigger] s[j]).id != i.id)
                ==> registry_target(s, i.id, i.current, event) is None && next == i
        }),
{
    registered_is_found(s, i.id, def);
    found_fsm(s, i.id);
    let t = def.transitions;
    first_transition_wins(t, i.current, event);
    match event_target(t, i.current, event) {
        Some(to) => {
            let q = choose|q: int|
                0 <= q < t.len() && (#[trigger] t[q]).from == i.current && t[q].event == event
                    && t[q].to == to && forall|j: int|
                    0 <= j < q ==> !((#[trigger] t[j]).from == i.current && t[j].event == event);
            if q < k < t.len() {
                assert(t[q].from == i.current);
            } else if 0 <= k < q {
                assert(!(t[k].from == i.current && t[k].event == event));
            }
        },
        None => {},
    }
}

/// A tick evaluates the guards of the machine that is registered, and none
/// where none is. A reset goes to the initial state of the machine, if it has
/// one.
pub proof fn registered_machine_counts(
    s: Seq<FsmEntryV>,
    i: FsmInstanceV,
    def: FsmDefinitionV,
)
    requires
        distinct_ids(s),
    ensures
        is_registered(s, i.id, def) ==> {
            let back = moved(i, initial_of(s, i.id));
            &&& candidates_of(s, i.id, i.current) == guards_from(def.tick_guards, i.current)
            &&& back.id == i.id
            &&& back.current == match def.initial {
                Some(state) => state,
                None => i.current,
            }
        },
        (forall|j: int| 0 <= j < s.len() ==> (#[trigger] s[j]).id != i.id) ==> {
            &&& candidates_of(s, i.id, i.current).len() == 0
            &&& moved(i, initial_of(s, i.id)) == i
        },
{
    registered_is_found(s, i.id, def);
    found_fsm(s, i.id);
}

/// A definition that is changed in its place is the only one that changes, and
/// machines keep their places.
pub proof fn changed_in_its_place(
    s: Seq<FsmEntryV>,
    id: FsmIdV,
    def: FsmDefinitionV,
    k: int,
)
    requires
        distinct_ids(s),
        0 <= k < s.len(),
    ensures
        changed(s, id, def).len() == s.len(),
        changed(s, id, def)[k].id == s[k].id,
        changed(s, id, def)[k].def == if s[k].id == id {
            def
        } else {
            s[k].def
        },
{
    found_fsm(s, id);
    match find_fsm(s, id) {
        Some(i) => {
            if i != k {
                assert(s[i].id != s[k].id);
            }
        },
        None => {},
    }
}

/// Removing a machine leaves the others in their order, and one that is
/// registered goes after them as the newest.
pub proof fn others_keep_their_order(s: Seq<FsmEntryV>, id: FsmIdV, def: FsmDefinitionV)
    requires
        distinct_ids(s),
    ensures
        is_selection(removed(s, id), s, |k: int| s[k].id != id),
        upserted(s, id, def).len() > 0,
        upserted(s, id, def).last() == (FsmEntryV { id, def }),
        is_selection(upserted(s, id, def).drop_last(), s, |k: int| s[k].id != id),
{
    found_fsm(s, id);
    let n = s.len() as int;
    let all = Seq::new(s.len(), |k: int| k);
    let every = |k: int| true;
    let other = |k: int| s[k].id != id;
    assert forall|k: int| 0 <= k < n && every(k) implies #[trigger] all.contains(k) by {
        assert(all[k] == k);
    }
    assert(selects(all, n, every));
    assert(upserted(s, id, def).drop_last() =~= removed(s, id));
    match find_fsm(s, id) {
        Some(i) => {
            assert forall|k: int| 0 <= k < n implies (#[trigger] other(k) <==> every(k) && k
                != all[i]) by {
                if k != i {
                    assert(s[i].id != s[k].id);
                }
            }
            drop_selected(all, n, every, other, i);
            assert(removed(s, id) =~= taken_at(s, all.remove(i)));
        },
        None => {
            same_selection(all, n, every, other);
            assert(removed(s, id) =~= taken_at(s, all));
        },
    }
}

} // verus!
