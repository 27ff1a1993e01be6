//! What becomes of component calls, argument by argument and child by child.

use vstd::prelude::*;

use crate::ast::Span;
use crate::component::ComponentDefinitionV;
use crate::component_calls::{
    body_args, children_arg, component_rule, ends_in_child, is_slot_close, is_slot_marker,
    named_marker, named_part, open_slot, slot_children, slot_open, slots_used, unfolded,
    unfolded_block, unfolded_body,
};
use crate::model::{BlockV, CallV, ExprKindV, ExprV, LiteralV, NamedArgV, StmtKindV, StmtV, TypeV};
use crate::plain::{
    filter_is_selection, is_selection, kept_below, kept_below_selects, marker_args, marks, refers,
    says, selects, taken_at,
};
use crate::text::has_prefix;
use crate::widget_laws::{defines, definition_is_found, first_definition};

verus! {

// ---------------------------------------------------------------------------
// Where a statement of a body stands
// ---------------------------------------------------------------------------

/// Whether a statement opens the slot `name`.
pub open spec fn opens(s: StmtV, name: Seq<char>) -> bool {
    marks(s, "__slot_open__"@) && marker_args(s).len() > 0 && says(marker_args(s)[0], name)
}

/// Whether a statement opens a slot.
pub open spec fn opens_some(s: StmtV) -> bool {
    exists|name: Seq<char>| #[trigger] opens(s, name)
}

/// Whether a statement closes the open slot.
pub open spec fn closes(s: StmtV) -> bool {
    marks(s, "__slot_close__"@)
}

/// Whether no statement between two others opens or closes a slot.
pub open spec fn undisturbed(s: Seq<StmtV>, from: int, to: int) -> bool {
    forall|m: int| from < m < to ==> !opens_some(#[trigger] s[m]) && !closes(s[m])
}

/// Whether statement `k` of a body is a child in a slot: an expression after
/// the statement that opens the slot, with no other opening or closing between
/// them. A child in the default slot, `None`, stands before all openings or
/// after a closing.
pub open spec fn stands_in(s: Seq<StmtV>, k: int, slot: Option<Seq<char>>) -> bool {
    &&& s[k].kind is Expression
    &&& !opens_some(s[k])
    &&& !closes(s[k])
    &&& match slot {
        Some(name) => exists|o: int|
            0 <= o < k && opens(#[trigger] s[o], name) && undisturbed(s, o, k),
        None => undisturbed(s, -1, k) || exists|o: int|
            0 <= o < k && closes(#[trigger] s[o]) && undisturbed(s, o, k),
    }
}

/// The expression of a statement.
pub open spec fn expression_of(s: StmtV) -> ExprV {
    s.kind->Expression_0
}

/// Whether items are the children of a body that stand in a slot, from the
/// first to the last.
pub open spec fn are_children(items: Seq<ExprV>, s: Seq<StmtV>, slot: Option<Seq<char>>) -> bool {
    exists|at: Seq<int>| #[trigger] are_children_at(items, s, slot, at)
}

/// Whether items are the children in a slot, which stand at the given places.
pub open spec fn are_children_at(
    items: Seq<ExprV>,
    s: Seq<StmtV>,
    slot: Option<Seq<char>>,
    at: Seq<int>,
) -> bool {
    &&& selects(at, s.len() as int, |k: int| stands_in(s, k, slot))
    &&& items.len() == at.len()
    &&& forall|i: int| 0 <= i < items.len() ==> #[trigger] items[i] == expression_of(s[at[i]])
}

/// The argument by which the children of a slot are passed.
pub open spec fn slot_arg(slot: Option<Seq<char>>) -> Seq<char> {
    match slot {
        Some(name) => "slot_"@ + name,
        None => "children"@,
    }
}

/// Whether an argument passes the children of a slot.
pub open spec fn passes_slot(a: NamedArgV, s: Seq<StmtV>, slot: Option<Seq<char>>) -> bool {
    &&& a.name == slot_arg(slot)
    &&& a.value.kind matches ExprKindV::Array(items) && items.len() > 0 && are_children(
        items,
        s,
        slot,
    )
}

/// Whether an argument passes the children of one of the slots.
pub open spec fn passes_some_slot(a: NamedArgV, s: Seq<StmtV>) -> bool {
    exists|slot: Option<Seq<char>>| #[trigger] passes_slot(a, s, slot)
}

/// Whether one of the first `n` statements is a child in a slot.
spec fn occupied(s: Seq<StmtV>, n: nat, slot: Option<Seq<char>>) -> bool {
    exists|k: int| 0 <= k < n && #[trigger] stands_in(s, k, slot)
}

/// Whether arguments pass the children of a body: each passes those of one
/// slot, and there is one for every slot in which a child stands. The default
/// slot comes first, and the others in the order in which they come up.
pub open spec fn pass_body(extra: Seq<NamedArgV>, s: Seq<StmtV>) -> bool {
    &&& forall|i: int|
        0 <= i < extra.len() ==> passes_some_slot(#[trigger] extra[i], s)
    &&& forall|k: int, slot: Option<Seq<char>>|
        0 <= k < s.len() && #[trigger] stands_in(s, k, slot) ==> exists|i: int|
            0 <= i < extra.len() && passes_slot(#[trigger] extra[i], s, slot)
    &&& forall|i: int, j: int|
        0 <= i < j < extra.len() ==> (#[trigger] extra[i]).name != (#[trigger] extra[j]).name
    &&& forall|i: int| 0 < i < extra.len() ==> (#[trigger] extra[i]).name != "children"@
    &&& forall|i: int, j: int, a: Seq<char>, b: Seq<char>|
        0 <= i < j < extra.len() && #[trigger] passes_slot(extra[i], s, Some(a))
            && #[trigger] passes_slot(extra[j], s, Some(b)) ==> comes_up_before(s, a, b)
}

/// Whether a child stands in the slot `a` before any child stands in `b`.
pub open spec fn comes_up_before(s: Seq<StmtV>, a: Seq<char>, b: Seq<char>) -> bool {
    exists|k: int|
        0 <= k < s.len() && #[trigger] stands_in(s, k, Some(a)) && forall|l: int|
            0 <= l < s.len() && #[trigger] stands_in(s, l, Some(b)) ==> k < l
}

proof fn opening(s: StmtV)
    ensures
        forall|name: Seq<char>| #[trigger] opens(s, name) <==> slot_open(s) == Some(name),
        opens_some(s) <==> slot_open(s) is Some,
        closes(s) <==> is_slot_close(s),
{
    if slot_open(s) is Some {
        assert(opens(s, slot_open(s)->0));
    }
}

proof fn standing(s: Seq<StmtV>, k: int)
    requires
        0 <= k <= s.len(),
    ensures
        match open_slot(s.take(k)) {
            Some(name) => exists|o: int|
                0 <= o < k && opens(#[trigger] s[o], name) && undisturbed(s, o, k),
            None => undisturbed(s, -1, k) || exists|o: int|
                0 <= o < k && closes(#[trigger] s[o]) && undisturbed(s, o, k),
        },
    decreases k,
{
    if k > 0 {
        let last = s[k - 1];
        opening(last);
        assert(s.take(k).drop_last() =~= s.take(k - 1));
        assert(s.take(k).last() == last);
        if slot_open(last) is Some {
            assert(opens(s[k - 1], slot_open(last)->0));
            assert(undisturbed(s, k - 1, k));
        } else if is_slot_close(last) {
            assert(closes(s[k - 1]));
            assert(undisturbed(s, k - 1, k));
        } else {
            standing(s, k - 1);
            assert forall|o: int| undisturbed(s, o, k - 1) implies #[trigger] undisturbed(
                s,
                o,
                k,
            ) by {}
            match open_slot(s.take(k - 1)) {
                Some(name) => {
                    let o = choose|o: int|
                        0 <= o < k - 1 && opens(#[trigger] s[o], name) && undisturbed(s, o, k - 1);
                    assert(undisturbed(s, o, k));
                },
                None => {
                    if undisturbed(s, -1, k - 1) {
                        assert(undisturbed(s, -1, k));
                    } else {
                        let o = choose|o: int|
                            0 <= o < k - 1 && closes(#[trigger] s[o]) && undisturbed(s, o, k - 1);
                        assert(undisturbed(s, o, k));
                    }
                },
            }
        }
    }
}

/// A statement stands in one slot: the one that is open before it.
proof fn stands_in_open_slot(s: Seq<StmtV>, k: int, slot: Option<Seq<char>>)
    requires
        0 <= k < s.len(),
    ensures
        stands_in(s, k, slot) <==> ends_in_child(s.take(k + 1)) && open_slot(s.take(k)) == slot,
{
    assert(s.take(k + 1).last() == s[k]);
    opening(s[k]);
    standing(s, k);
    let now = open_slot(s.take(k));
    assert(ends_in_child(s.take(k + 1)) <==> s[k].kind is Expression && !opens_some(s[k])
        && !closes(s[k]));
    if stands_in(s, k, slot) && now != slot {
        // Two markers cannot both be the last one.
        match slot {
            Some(name) => {
                let o = choose|o: int|
                    0 <= o < k && opens(#[trigger] s[o], name) && undisturbed(s, o, k);
                opening(s[o]);
                assert(opens_some(s[o]));
                match now {
                    Some(other) => {
                        let q = choose|q: int|
                            0 <= q < k && opens(#[trigger] s[q], other) && undisturbed(s, q, k);
                        opening(s[q]);
                        assert(opens_some(s[q]));
                        assert(o == q);
                    },
                    None => {
                        if !undisturbed(s, -1, k) {
                            let q = choose|q: int|
                                0 <= q < k && closes(#[trigger] s[q]) && undisturbed(s, q, k);
                            assert(o == q);
                            no_open_close(s[o]);
                        }
                    },
                }
            },
            None => {
                let q = choose|q: int|
                    0 <= q < k && opens(#[trigger] s[q], now->0) && undisturbed(s, q, k);
                opening(s[q]);
                assert(opens_some(s[q]));
                if !undisturbed(s, -1, k) {
                    let o = choose|o: int|
                        0 <= o < k && closes(#[trigger] s[o]) && undisturbed(s, o, k);
                    assert(o == q);
                    no_open_close(s[o]);
                }
            },
        }
    }
}

/// No statement both opens and closes a slot.
proof fn no_open_close(s: StmtV)
    ensures
        !(opens_some(s) && closes(s)),
{
    reveal_strlit("__slot_open__");
    reveal_strlit("__slot_close__");
    assert("__slot_open__"@[7] != "__slot_close__"@[7]);
}

proof fn children_are_selected(s: Seq<StmtV>, slot: Option<Seq<char>>)
    ensures
        are_children(slot_children(s, slot), s, slot),
        forall|k: int|
            0 <= k < s.len() && #[trigger] stands_in(s, k, slot) ==> slot_children(s, slot).len()
                > 0,
{
    let keep = |k: int| stands_in(s, k, slot);
    kept_below_selects(s.len(), keep);
    children_at(s, slot, s.len());
    assert(s.take(s.len() as int) =~= s);
    let at = kept_below(s.len(), keep);
    assert(are_children_at(slot_children(s, slot), s, slot, at));
    assert forall|k: int| 0 <= k < s.len() && #[trigger] stands_in(s, k, slot) implies
        slot_children(s, slot).len() > 0 by {
        assert(keep(k));
        assert(at.contains(k));
    }
}

proof fn children_at(s: Seq<StmtV>, slot: Option<Seq<char>>, n: nat)
    requires
        n <= s.len(),
    ensures
        ({
            let at = kept_below(n, |k: int| stands_in(s, k, slot));
            let items = slot_children(s.take(n as int), slot);
            items.len() == at.len() && forall|i: int|
                0 <= i < items.len() ==> #[trigger] items[i] == expression_of(s[at[i]])
        }),
    decreases n,
{
    if n > 0 {
        let m = (n - 1) as nat;
        children_at(s, slot, m);
        stands_in_open_slot(s, m as int, slot);
        assert(s.take(n as int).drop_last() =~= s.take(m as int));
        assert(s.take(n as int).last() == s[m as int]);
    }
}

// ---------------------------------------------------------------------------
// Bodies
// ---------------------------------------------------------------------------

/// Whether, among the first `n` statements, a child stands in `a` before any
/// stands in `b`.
spec fn leads_below(s: Seq<StmtV>, n: nat, a: Seq<char>, b: Seq<char>) -> bool {
    exists|k: int|
        0 <= k < n && #[trigger] stands_in(s, k, Some(a)) && forall|l: int|
            0 <= l < n && #[trigger] stands_in(s, l, Some(b)) ==> k < l
}

proof fn used_slots(s: Seq<StmtV>, n: nat)
    requires
        n <= s.len(),
    ensures
        ({
            let used = slots_used(s.take(n as int));
            &&& used.no_duplicates()
            &&& forall|i: int|
                0 <= i < used.len() ==> occupied(s, n, Some(#[trigger] used[i]))
            &&& forall|k: int, name: Seq<char>|
                0 <= k < n && #[trigger] stands_in(s, k, Some(name)) ==> used.contains(name)
            &&& forall|i: int, j: int|
                0 <= i < j < used.len() ==> leads_below(
                    s,
                    n,
                    #[trigger] used[i],
                    #[trigger] used[j],
                )
        }),
    decreases n,
{
    if n > 0 {
        let m = (n - 1) as nat;
        used_slots(s, m);
        assert(s.take(n as int).drop_last() =~= s.take(m as int));
        let before = slots_used(s.take(m as int));
        let used = slots_used(s.take(n as int));
        let now = open_slot(s.take(m as int));
        assert forall|slot: Option<Seq<char>>| #[trigger]
            stands_in(s, m as int, slot) <==> ends_in_child(s.take(n as int)) && now == slot by {
            stands_in_open_slot(s, m as int, slot);
        }
        assert forall|i: int| 0 <= i < used.len() implies occupied(
            s,
            n,
            Some(#[trigger] used[i]),
        ) by {
            if i < before.len() {
                assert(used[i] == before[i]);
                assert(occupied(s, m, Some(before[i])));
            } else {
                assert(stands_in(s, m as int, Some(used[i])));
            }
        }
        assert forall|k: int, name: Seq<char>|
            0 <= k < n && #[trigger] stands_in(s, k, Some(name)) implies used.contains(name) by {
            if k < m {
                assert(before.contains(name));
                let i = choose|i: int| 0 <= i < before.len() && before[i] == name;
                assert(used[i] == name);
            } else {
                if before.contains(name) {
                    let i = choose|i: int| 0 <= i < before.len() && before[i] == name;
                    assert(used[i] == name);
                } else {
                    assert(used[before.len() as int] == name);
                }
            }
        }
        assert(used.no_duplicates());
        assert forall|i: int, j: int| 0 <= i < j < used.len() implies leads_below(
            s,
            n,
            #[trigger] used[i],
            #[trigger] used[j],
        ) by {
            assert(used[i] == before[i]);
            if j < before.len() {
                assert(used[j] == before[j]);
                assert(leads_below(s, m, before[i], before[j]));
                let k = choose|k: int|
                    0 <= k < m && #[trigger] stands_in(s, k, Some(before[i])) && forall|l: int|
                        0 <= l < m && #[trigger] stands_in(s, l, Some(before[j])) ==> k < l;
                assert(stands_in(s, k, Some(used[i])));
            } else {
                assert(occupied(s, m, Some(before[i])));
                let k = choose|k: int| 0 <= k < m && #[trigger] stands_in(s, k, Some(before[i]));
                assert forall|l: int| 0 <= l < n && #[trigger] stands_in(
                    s,
                    l,
                    Some(used[j]),
                ) implies k < l by {
                    if l < m {
                        assert(before.contains(used[j]));
                    }
                }
                assert(stands_in(s, k, Some(used[i])));
            }
        }
    }
}

proof fn slot_names_differ(a: Seq<char>, b: Seq<char>)
    ensures
        a != b ==> "slot_"@ + a != "slot_"@ + b,
        "slot_"@ + a != "children"@,
{
    reveal_strlit("slot_");
    reveal_strlit("children");
    let x = "slot_"@ + a;
    let y = "slot_"@ + b;
    assert(x[0] == 's');
    assert("children"@[0] == 'c');
    if x == y {
        assert(x.skip(5) =~= a);
        assert(y.skip(5) =~= b);
    }
}

proof fn body_args_pass_body(s: Seq<StmtV>, span: Span)
    ensures
        pass_body(body_args(s, span), s),
{
    let extra = body_args(s, span);
    let none: Option<Seq<char>> = None;
    let used = slots_used(s);
    let first = slot_children(s, none);
    let d: int = if first.len() > 0 {
        1
    } else {
        0
    };
    assert(s.take(s.len() as int) =~= s);
    used_slots(s, s.len());
    children_are_selected(s, none);
    assert forall|i: int| d <= i < extra.len() implies passes_slot(
        #[trigger] extra[i],
        s,
        Some(used[i - d]),
    ) by {
        let name = used[i - d];
        children_are_selected(s, Some(name));
        assert(name == used[i - d]);
        assert(occupied(s, s.len(), Some(name)));
        assert(extra[i] == children_arg("slot_"@ + name, slot_children(s, Some(name)), span));
    }
    if d == 1 {
        assert(extra[0] == children_arg("children"@, first, span));
        assert(passes_slot(extra[0], s, none));
    }
    assert forall|i: int| 0 <= i < extra.len() implies passes_some_slot(
        #[trigger] extra[i],
        s,
    ) by {
        if i >= d {
            assert(passes_slot(extra[i], s, Some(used[i - d])));
        } else {
            assert(passes_slot(extra[i], s, none));
        }
    }
    assert forall|k: int, slot: Option<Seq<char>>|
        0 <= k < s.len() && #[trigger] stands_in(s, k, slot) implies exists|i: int|
        0 <= i < extra.len() && passes_slot(#[trigger] extra[i], s, slot) by {
        match slot {
            Some(name) => {
                assert(used.contains(name));
                let j = choose|j: int| 0 <= j < used.len() && used[j] == name;
                assert(passes_slot(extra[j + d], s, Some(used[j])));
            },
            None => {
                assert(d == 1);
                assert(passes_slot(extra[0], s, none));
            },
        }
    }
    assert forall|i: int| d <= i < extra.len() implies (#[trigger] extra[i]).name != "children"@
        && extra[i].name == "slot_"@ + used[i - d] by {
        assert(passes_slot(extra[i], s, Some(used[i - d])));
        slot_names_differ(used[i - d], used[i - d]);
    }
    assert forall|i: int, j: int| 0 <= i < j < extra.len() implies (#[trigger] extra[i]).name != (
    #[trigger] extra[j]).name by {
        if i >= d {
            slot_names_differ(used[i - d], used[j - d]);
        }
    }
    assert forall|i: int, j: int, a: Seq<char>, b: Seq<char>|
        0 <= i < j < extra.len() && #[trigger] passes_slot(extra[i], s, Some(a))
            && #[trigger] passes_slot(extra[j], s, Some(b)) implies comes_up_before(s, a, b) by {
        slot_names_differ(a, b);
        assert(i >= d);
        slot_names_differ(a, used[i - d]);
        slot_names_differ(b, used[j - d]);
        assert(extra[i].name == "slot_"@ + used[i - d]);
        assert(extra[j].name == "slot_"@ + used[j - d]);
        assert(leads_below(s, s.len(), used[i - d], used[j - d]));
    }
}

/// Whether a statement is a call of `f` whose last argument is a block: a call
/// with a body.
pub open spec fn has_body(s: StmtV, e: ExprV, c: CallV, f: Seq<char>, b: BlockV) -> bool {
    &&& s.kind == StmtKindV::Expression(e)
    &&& e.kind == ExprKindV::Call(c)
    &&& refers(*c.callee, f)
    &&& c.positional_args.len() > 0
    &&& c.positional_args.last().kind == ExprKindV::Block(b)
}

/// The statement with its call replaced.
pub open spec fn calling(s: StmtV, e: ExprV, c: CallV) -> StmtV {
    StmtV { kind: StmtKindV::Expression(ExprV { kind: ExprKindV::Call(c), ..e }), ..s }
}

/// The body of a host widget becomes its children: the call loses the block
/// and gains an argument for every slot in which a child of the body stands,
/// which lists those children in the order of the body.
pub proof fn widget_takes_its_body(
    defs: Seq<ComponentDefinitionV>,
    s: StmtV,
    e: ExprV,
    c: CallV,
    f: Seq<char>,
    b: BlockV,
) -> (extra: Seq<NamedArgV>)
    requires
        has_body(s, e, c, f, b),
        "$Blinc$"@.is_prefix_of(f),
    ensures
        pass_body(extra, b.statements),
        (component_rule(defs).block)(seq![s]) == seq![
            calling(
                s,
                e,
                CallV {
                    positional_args: c.positional_args.drop_last(),
                    named_args: c.named_args + extra,
                    ..c
                },
            ),
        ],
{
    let extra = body_args(b.statements, c.positional_args.last().span);
    body_args_pass_body(b.statements, c.positional_args.last().span);
    assert(f.take("$Blinc$"@.len() as int) =~= "$Blinc$"@);
    assert(has_prefix(f, "$Blinc$"@));
    single(s);
    extra
}

/// A block of one statement is unfolded as the statement is.
proof fn single(s: StmtV)
    ensures
        unfolded_block(seq![s]) == unfolded(s),
{
    assert(seq![s].drop_last() =~= Seq::<StmtV>::empty());
    assert(unfolded_block(Seq::<StmtV>::empty()) =~= Seq::<StmtV>::empty());
    assert(unfolded_block(seq![s]) =~= unfolded(s));
}

/// The body of a component that is no host widget follows its call: the call
/// loses the block, and the statements of the body but for the slot markers
/// come after it, as they would in a block of their own.
pub proof fn component_body_follows(
    defs: Seq<ComponentDefinitionV>,
    s: StmtV,
    e: ExprV,
    c: CallV,
    f: Seq<char>,
    b: BlockV,
) -> (kept: Seq<StmtV>)
    requires
        has_body(s, e, c, f, b),
        !"$Blinc$"@.is_prefix_of(f),
    ensures
        is_selection(
            kept,
            b.statements,
            |k: int|
                !marks(b.statements[k], "__slot_open__"@) && !marks(
                    b.statements[k],
                    "__slot_close__"@,
                ),
        ),
        (component_rule(defs).block)(seq![s]) == seq![
            calling(s, e, CallV { positional_args: c.positional_args.drop_last(), ..c }),
        ] + (component_rule(defs).block)(kept),
{
    let body = b.statements;
    let f1 = |t: StmtV| !is_slot_marker(t);
    let kept = body.filter(f1);
    let keep = |k: int|
        !marks(body[k], "__slot_open__"@) && !marks(body[k], "__slot_close__"@);
    let keep1 = |k: int| f1(body[k]);
    filter_is_selection(body, f1);
    let at = choose|at: Seq<int>| #[trigger]
        selects(at, body.len() as int, keep1) && kept == taken_at(body, at);
    assert(selects(at, body.len() as int, keep)) by {
        assert forall|k: int| 0 <= k < body.len() && keep(k) implies #[trigger] at.contains(k) by {
            assert(keep1(k));
        }
        assert forall|i: int| 0 <= i < at.len() implies 0 <= #[trigger] at[i] < body.len() && keep(
            at[i],
        ) by {
            assert(keep1(at[i]));
        }
    }
    if has_prefix(f, "$Blinc$"@) {
        assert("$Blinc$"@ =~= f.subrange(0, "$Blinc$"@.len() as int));
    }
    single(s);
    body_without_markers(body);
    assert(c.named_args + Seq::<NamedArgV>::empty() =~= c.named_args);
    kept
}

proof fn body_without_markers(s: Seq<StmtV>)
    ensures
        unfolded_body(s) == unfolded_block(s.filter(|t: StmtV| !is_slot_marker(t))),
    decreases s.len(),
{
    reveal(Seq::filter);
    let f = |t: StmtV| !is_slot_marker(t);
    if s.len() > 0 {
        body_without_markers(s.drop_last());
        let front = s.drop_last().filter(f);
        if !is_slot_marker(s.last()) {
            assert(s.filter(f) == front.push(s.last()));
            assert(front.push(s.last()).drop_last() =~= front);
        }
    } else {
        assert(s.filter(f) =~= Seq::<StmtV>::empty());
    }
}

/// Any other statement stays as it is, and the statements of a block are
/// unfolded one after the other.
pub proof fn other_statements_stay(defs: Seq<ComponentDefinitionV>, a: Seq<StmtV>, b: Seq<StmtV>)
    ensures
        (component_rule(defs).block)(a + b) == (component_rule(defs).block)(a) + (component_rule(
            defs,
        ).block)(b),
        forall|s: StmtV|
            (forall|e: ExprV, c: CallV, body: BlockV|
                !(#[trigger] calls_with_block(s, e, c, body))) ==> (#[trigger] (component_rule(
                defs,
            ).block)(seq![s])) == seq![s],
    decreases b.len(),
{
    if b.len() == 0 {
        assert(a + b =~= a);
        assert(unfolded_block(a) + unfolded_block(b) =~= unfolded_block(a));
    } else {
        other_statements_stay(defs, a, b.drop_last());
        assert((a + b).drop_last() =~= a + b.drop_last());
        assert((a + b).last() == b.last());
        assert(unfolded_block(a + b) =~= unfolded_block(a) + unfolded_block(b));
    }
    assert forall|s: StmtV|
        (forall|e: ExprV, c: CallV, body: BlockV|
            !(#[trigger] calls_with_block(s, e, c, body))) implies (#[trigger] (component_rule(
        defs,
    ).block)(seq![s])) == seq![s] by {
        single(s);
        match s.kind {
            StmtKindV::Expression(e) => match e.kind {
                ExprKindV::Call(c) => {
                    if c.positional_args.len() > 0 {
                        match c.positional_args.last().kind {
                            ExprKindV::Block(body) => {
                                assert(calls_with_block(s, e, c, body));
                            },
                            _ => {},
                        }
                    }
                },
                _ => {},
            },
            _ => {},
        }
    }
}

/// Whether a statement is a call whose last argument is a block.
pub open spec fn calls_with_block(s: StmtV, e: ExprV, c: CallV, body: BlockV) -> bool {
    s.kind == StmtKindV::Expression(e) && e.kind == ExprKindV::Call(c) && c.positional_args.len()
        > 0 && c.positional_args.last().kind == ExprKindV::Block(body)
}

// ---------------------------------------------------------------------------
// Calls
// ---------------------------------------------------------------------------

/// Whether an argument is passed by name: `__named__("name", value)`.
pub open spec fn by_name(e: ExprV) -> bool {
    e.kind matches ExprKindV::Call(c) && refers(*c.callee, "__named__"@) && c.positional_args.len()
        >= 2 && c.positional_args[0].kind matches ExprKindV::Literal(LiteralV::String(_))
}

/// Whether a named argument is the one that `__named__("name", value)` passes.
pub open spec fn names(a: NamedArgV, e: ExprV) -> bool {
    a.span == e.span && (e.kind matches ExprKindV::Call(c) && says(c.positional_args[0], a.name)
        && a.value == c.positional_args[1])
}

/// A component call becomes a call of the component's view function: of the
/// one that the component is registered with, or else of `Name$view`. The
/// arguments after the name keep their order; those that are passed by name
/// become named arguments, before the ones that the call has already.
pub proof fn component_call_is_view_call(
    defs: Seq<ComponentDefinitionV>,
    e: ExprV,
    c: CallV,
    name: Seq<char>,
) -> (named: Seq<int>)
    requires
        e.kind == ExprKindV::Call(c),
        refers(*c.callee, "__component_call__"@),
        c.positional_args.len() > 0,
        says(c.positional_args[0], name),
    ensures
        ({
            let args = c.positional_args.skip(1);
            let out = (component_rule(defs).expr)((), e).0;
            &&& out.ty == e.ty && out.span == e.span
            &&& selects(named, args.len() as int, |k: int| by_name(args[k]))
            &&& out.kind matches ExprKindV::Call(c1) && {
                &&& is_selection(c1.positional_args, args, |k: int| !by_name(args[k]))
                &&& c1.named_args.len() == named.len() + c.named_args.len()
                &&& forall|i: int|
                    0 <= i < named.len() ==> names(#[trigger] c1.named_args[i], args[named[i]])
                &&& c1.named_args.skip(named.len() as int) == c.named_args
                &&& c1.type_args.len() == 0
                &&& c1.callee.ty == TypeV::Any && c1.callee.span == e.span
                &&& forall|d: ComponentDefinitionV| #[trigger]
                    defines(defs, name, d) ==> refers(*c1.callee, d.view_symbol)
                &&& (forall|i: int| 0 <= i < defs.len() ==> (#[trigger] defs[i]).name != name)
                    ==> refers(*c1.callee, name + "$view"@)
            }
        }),
{
    let args = c.positional_args.skip(1);
    let keep = |k: int| by_name(args[k]);
    let f = |a: ExprV| named_marker(a) is None;
    let named = kept_below(args.len(), keep);
    kept_below_selects(args.len(), keep);
    named_at(args, args.len());
    assert(args.take(args.len() as int) =~= args);
    filter_is_selection(args, f);
    let keep1 = |k: int| f(args[k]);
    let keep2 = |k: int| !by_name(args[k]);
    let at = choose|at: Seq<int>| #[trigger]
        selects(at, args.len() as int, keep1) && args.filter(f) == taken_at(args, at);
    assert(selects(at, args.len() as int, keep2)) by {
        assert forall|k: int| 0 <= k < args.len() && keep2(k) implies #[trigger] at.contains(k) by {
            assert(keep1(k));
        }
        assert forall|i: int| 0 <= i < at.len() implies 0 <= #[trigger] at[i] < args.len()
            && keep2(at[i]) by {
            assert(keep1(at[i]));
        }
    }
    let c1 = (component_rule(defs).expr)((), e).0.kind->Call_0;
    assert(c1.named_args.skip(named.len() as int) =~= c.named_args);
    first_definition(defs, name);
    assert forall|d: ComponentDefinitionV| #[trigger] defines(defs, name, d) implies refers(
        *c1.callee,
        d.view_symbol,
    ) by {
        definition_is_found(defs, name, d);
    }
    named
}

proof fn named_at(args: Seq<ExprV>, n: nat)
    requires
        n <= args.len(),
    ensures
        ({
            let at = kept_below(n, |k: int| by_name(args[k]));
            let out = named_part(args.take(n as int));
            out.len() == at.len() && forall|i: int|
                0 <= i < out.len() ==> names(#[trigger] out[i], args[at[i]])
        }),
    decreases n,
{
    if n > 0 {
        let m = (n - 1) as nat;
        named_at(args, m);
        assert(args.take(n as int).drop_last() =~= args.take(m as int));
        assert(args.take(n as int).last() == args[m as int]);
    }
}

/// Only component calls are changed.
pub proof fn other_expressions_stay(defs: Seq<ComponentDefinitionV>, e: ExprV)
    requires
        !(e.kind matches ExprKindV::Call(c) && refers(*c.callee, "__component_call__"@)
            && c.positional_args.len() > 0 && c.positional_args[0].kind matches ExprKindV::Literal(
            LiteralV::String(_),
        )),
    ensures
        (component_rule(defs).expr)((), e).0 == e,
{
}

} // verus!
