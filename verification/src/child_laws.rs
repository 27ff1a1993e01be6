//! What becomes of the children and of the named arguments of a host widget.

use vstd::prelude::*;

use crate::ast::{PrimitiveType, Span};
use crate::children::{children_rule, list_stmts, place_slot, placed, slot_props, PlacedV};
use crate::component::{find_prop, ComponentDefinitionV, PropDefV};
use crate::model::{CallV, ExprKindV, ExprV, LiteralV, NamedArgV, StmtV, TypeV};
use crate::named_args::{last_is_left, left_named, named_rule, positional_call};
use crate::plain::{
    drop_selected, kept_below, kept_below_selects, same_selection, selects, taken_at,
};
use crate::text::{decimal, has_prefix};
use crate::widget_laws::{
    calls_widget, ends_in, hands, makes, passes, passes_null, prop_in_range, widget_has_props,
};
use crate::widgets::{find_named, widget_props};

verus! {

// ---------------------------------------------------------------------------
// Children
// ---------------------------------------------------------------------------

/// Whether a property takes a list of children.
pub open spec fn takes_children(name: Seq<char>) -> bool {
    name == "children"@ || "slot_"@.is_prefix_of(name)
}

/// Whether no two arguments have one name.
pub open spec fn distinct_args(args: Seq<NamedArgV>) -> bool {
    forall|i: int, j: int|
        0 <= i < j < args.len() ==> (#[trigger] args[i]).name != (#[trigger] args[j]).name
}

/// Whether no two properties have one name.
pub open spec fn distinct_props(props: Seq<PropDefV>) -> bool {
    forall|i: int, j: int|
        0 <= i < j < props.len() ==> (#[trigger] props[i]).name != (#[trigger] props[j]).name
}

/// Whether an argument passes a list of widgets under a name.
pub open spec fn passes_list(a: NamedArgV, name: Seq<char>) -> bool {
    a.name == name && a.value.kind is Array
}

/// Whether one of the arguments passes a list under a name.
pub open spec fn has_list(args: Seq<NamedArgV>, name: Seq<char>) -> bool {
    exists|k: int| 0 <= k < args.len() && passes_list(#[trigger] args[k], name)
}

/// The widgets that are passed as a list under a name.
pub open spec fn list_of(args: Seq<NamedArgV>, name: Seq<char>) -> Seq<ExprV> {
    args[choose|k: int| 0 <= k < args.len() && passes_list(#[trigger] args[k], name)].value.kind
        ->Array_0
}

/// How many of the first `n` slots are passed lists.
pub open spec fn lists_before(args: Seq<NamedArgV>, slots: Seq<Seq<char>>, n: nat) -> nat
    decreases n,
{
    if n == 0 {
        0
    } else {
        lists_before(args, slots, (n - 1) as nat) + if has_list(args, slots[n - 1]) {
            1nat
        } else {
            0
        }
    }
}

/// How many statements the lists of the first `n` slots take: one that makes
/// the list and one for every child.
pub open spec fn stmts_before(args: Seq<NamedArgV>, slots: Seq<Seq<char>>, n: nat) -> nat
    decreases n,
{
    if n == 0 {
        0
    } else {
        stmts_before(args, slots, (n - 1) as nat) + if has_list(args, slots[n - 1]) {
            1 + list_of(args, slots[n - 1]).len()
        } else {
            0
        }
    }
}

/// The number of the list of slot `i`: lists are numbered on from `id`.
pub open spec fn list_number(args: Seq<NamedArgV>, slots: Seq<Seq<char>>, id: u32, i: nat) -> u32 {
    ((id + lists_before(args, slots, i)) % 0x1_0000_0000) as u32
}

/// The variable that holds the list of slot `i`.
pub open spec fn list_variable(
    args: Seq<NamedArgV>,
    slots: Seq<Seq<char>>,
    id: u32,
    i: nat,
) -> Seq<char> {
    "__blinc_children_"@ + decimal(list_number(args, slots, id, i) as nat)
}

/// Whether an argument is the one for slot `i`: the null handle where nothing
/// is passed, the variable of its list where a list is passed, and otherwise
/// the argument that is passed.
pub open spec fn fills_slot(
    a: NamedArgV,
    args: Seq<NamedArgV>,
    slots: Seq<Seq<char>>,
    id: u32,
    i: nat,
) -> bool {
    let name = slots[i as int];
    &&& (forall|k: int| 0 <= k < args.len() ==> (#[trigger] args[k]).name != name)
        ==> passes_null(a, name)
    &&& has_list(args, name) ==> passes(a, name, list_variable(args, slots, id, i))
    &&& forall|k: int|
        0 <= k < args.len() && (#[trigger] args[k]).name == name && !(args[k].value.kind is Array)
            ==> a == args[k]
}

/// Whether statements make the list of slot `i`, from its place on, and push
/// the children on it in their order.
pub open spec fn makes_list(
    prelude: Seq<StmtV>,
    args: Seq<NamedArgV>,
    slots: Seq<Seq<char>>,
    id: u32,
    i: nat,
) -> bool {
    let from = stmts_before(args, slots, i) as int;
    let items = list_of(args, slots[i as int]);
    let list = list_variable(args, slots, id, i);
    &&& from + items.len() < prelude.len()
    &&& makes(prelude[from], list, "__new_child_list__"@)
    &&& forall|x: int|
        0 <= x < items.len() ==> hands(
            prelude[from + 1 + x],
            "__push_child__"@,
            list,
            #[trigger] items[x],
        )
}

/// Whether a name is one of the first `n` slots.
pub open spec fn among(slots: Seq<Seq<char>>, n: nat, name: Seq<char>) -> bool {
    exists|i: int| 0 <= i < n && #[trigger] slots[i] == name
}

/// Whether the slots of a call are filled: the arguments that are for no slot
/// keep their order and come first, one argument for every slot follows, and
/// the statements make the lists in the order of the slots.
pub open spec fn slots_filled(
    named: Seq<NamedArgV>,
    prelude: Seq<StmtV>,
    args: Seq<NamedArgV>,
    slots: Seq<Seq<char>>,
    id: u32,
    n: nat,
    at: Seq<int>,
) -> bool {
    &&& selects(at, args.len() as int, |k: int| !among(slots, n, args[k].name))
    &&& named.len() == at.len() + n
    &&& named.take(at.len() as int) == taken_at(args, at)
    &&& forall|i: nat|
        i < n ==> fills_slot(named[(at.len() + i) as int], args, slots, id, i) && (#[trigger] slots[i as int])
            == named[(at.len() + i) as int].name
    &&& prelude.len() == stmts_before(args, slots, n)
    &&& forall|i: nat|
        i < n && has_list(args, #[trigger] slots[i as int]) ==> makes_list(
            prelude,
            args,
            slots,
            id,
            i,
        )
}

proof fn first_named(args: Seq<NamedArgV>, name: Seq<char>)
    ensures
        match find_named(args, name) {
            Some(k) => 0 <= k < args.len() && args[k].name == name && forall|j: int|
                0 <= j < k ==> (#[trigger] args[j]).name != name,
            None => forall|j: int| 0 <= j < args.len() ==> (#[trigger] args[j]).name != name,
        },
    decreases args.len(),
{
    if args.len() > 0 {
        let front = args.drop_last();
        first_named(front, name);
        assert forall|j: int| 0 <= j < front.len() implies args[j] == #[trigger] front[j] by {}
        match find_named(front, name) {
            Some(k) => {
                assert(args[k] == front[k]);
                assert forall|j: int| 0 <= j < k implies (#[trigger] args[j]).name != name by {
                    assert(args[j] == front[j]);
                }
            },
            None => {
                assert forall|j: int| 0 <= j < front.len() implies (#[trigger] args[j]).name
                    != name by {
                    assert(args[j] == front[j]);
                }
                assert(args[args.len() - 1] == args.last());
            },
        }
    }
}

proof fn stmts_grow(args: Seq<NamedArgV>, slots: Seq<Seq<char>>, i: nat, n: nat)
    requires
        i < n,
    ensures
        stmts_before(args, slots, i) + if has_list(args, slots[i as int]) {
            1 + list_of(args, slots[i as int]).len()
        } else {
            0
        } <= stmts_before(args, slots, n),
    decreases n,
{
    if i + 1 < n {
        stmts_grow(args, slots, i, (n - 1) as nat);
    }
}

proof fn among_next(slots: Seq<Seq<char>>, m: nat)
    requires
        m < slots.len(),
        slots.no_duplicates(),
    ensures
        !among(slots, m, slots[m as int]),
        forall|x: Seq<char>| #[trigger]
            among(slots, m + 1, x) <==> (among(slots, m, x) || x == slots[m as int]),
{
    let name = slots[m as int];
    if among(slots, m, name) {
        let i = choose|i: int| 0 <= i < m && #[trigger] slots[i] == name;
        assert(slots[i] != slots[m as int]);
    }
    assert forall|x: Seq<char>| #[trigger]
        among(slots, m + 1, x) <==> (among(slots, m, x) || x == name) by {
        if among(slots, m + 1, x) {
            let i = choose|i: int| 0 <= i < m + 1 && #[trigger] slots[i] == x;
            if i < m {
                assert(slots[i] == x);
            }
        }
        if among(slots, m, x) {
            let i = choose|i: int| 0 <= i < m && #[trigger] slots[i] == x;
            assert(slots[i] == x);
        }
        if x == name {
            assert(slots[m as int] == x);
        }
    }
}

/// The arguments so far are those that are for no slot so far, and then those
/// of the slots so far.
proof fn parts_of_named(
    acc: PlacedV,
    args: Seq<NamedArgV>,
    slots: Seq<Seq<char>>,
    id: u32,
    m: nat,
    at: Seq<int>,
)
    requires
        slots_filled(acc.named, acc.prelude, args, slots, id, m, at),
        m < slots.len(),
        slots.no_duplicates(),
    ensures
        forall|j: int| 0 <= j < at.len() ==> acc.named[j] == args[#[trigger] at[j]],
        forall|j: int|
            at.len() <= j < acc.named.len() ==> (#[trigger] acc.named[j]).name != slots[m as int],
{
    let width = at.len() as int;
    assert forall|j: int| 0 <= j < width implies acc.named[j] == args[#[trigger] at[j]] by {
        assert(acc.named.take(width)[j] == taken_at(args, at)[j]);
    }
    assert forall|j: int| width <= j < acc.named.len() implies (#[trigger] acc.named[j]).name
        != slots[m as int] by {
        let i = (j - width) as nat;
        assert(slots[i as int] == acc.named[(at.len() + i) as int].name);
        assert(slots[i as int] != slots[m as int]);
    }
}

/// A slot that is passed nothing is filled.
proof fn empty_slot_is_filled(
    acc: PlacedV,
    args: Seq<NamedArgV>,
    slots: Seq<Seq<char>>,
    id: u32,
    span: Span,
    m: nat,
    at: Seq<int>,
)
    requires
        distinct_args(args),
        slots.no_duplicates(),
        m < slots.len(),
        slots_filled(acc.named, acc.prelude, args, slots, id, m, at),
        find_named(acc.named, slots[m as int]) is None,
    ensures
        ({
            let now = place_slot(acc, slots[m as int], span);
            slots_filled(now.named, now.prelude, args, slots, id, m + 1, at)
        }),
        !has_list(args, slots[m as int]),
{
    let name = slots[m as int];
    let now = place_slot(acc, name, span);
    let width = at.len() as int;
    let keep0 = |k: int| !among(slots, m, args[k].name);
    let keep = |k: int| !among(slots, m + 1, args[k].name);
    among_next(slots, m);
    parts_of_named(acc, args, slots, id, m, at);
    first_named(acc.named, name);
    assert forall|k: int| 0 <= k < args.len() implies (#[trigger] args[k]).name != name by {
        if args[k].name == name {
            assert(keep0(k));
            assert(at.contains(k));
            let j = choose|j: int| 0 <= j < at.len() && at[j] == k;
            assert(acc.named[j] == args[at[j]]);
        }
    }
    assert forall|k: int| 0 <= k < args.len() implies #[trigger] keep0(k) == keep(k) by {}
    same_selection(at, args.len() as int, keep0, keep);
    keeps_filled(acc, now, args, slots, id, m, at, at);
    assert(now.named.take(width) =~= taken_at(args, at)) by {
        assert(now.named.take(width) =~= acc.named.take(width));
    }
    assert(fills_slot(now.named[width + m], args, slots, id, m));
    assert forall|i: nat| i < m + 1 implies fills_slot(
        now.named[(at.len() + i) as int],
        args,
        slots,
        id,
        i,
    ) && (#[trigger] slots[i as int]) == now.named[(at.len() + i) as int].name by {}
}

/// A slot that is passed something is filled.
proof fn given_slot_is_filled(
    acc: PlacedV,
    args: Seq<NamedArgV>,
    slots: Seq<Seq<char>>,
    id: u32,
    span: Span,
    m: nat,
    at: Seq<int>,
    q: int,
)
    requires
        distinct_args(args),
        slots.no_duplicates(),
        m < slots.len(),
        slots_filled(acc.named, acc.prelude, args, slots, id, m, at),
        acc.next_id == list_number(args, slots, id, m),
        find_named(acc.named, slots[m as int]) == Some(q),
    ensures
        ({
            let now = place_slot(acc, slots[m as int], span);
            slots_filled(now.named, now.prelude, args, slots, id, m + 1, at.remove(q))
        }),
        acc.named[q].value.kind is Array <==> has_list(args, slots[m as int]),
{
    let name = slots[m as int];
    let now = place_slot(acc, name, span);
    let width = at.len() as int;
    let keep0 = |k: int| !among(slots, m, args[k].name);
    let keep = |k: int| !among(slots, m + 1, args[k].name);
    among_next(slots, m);
    parts_of_named(acc, args, slots, id, m, at);
    first_named(acc.named, name);
    assert(q < width) by {
        if q >= width {
            assert(acc.named[q].name != name);
        }
    }
    let k0 = at[q];
    let left = at.remove(q);
    assert(acc.named[q] == args[k0]);
    assert forall|k: int| 0 <= k < args.len() && (#[trigger] args[k]).name == name implies k
        == k0 by {}
    assert forall|k: int| 0 <= k < args.len() implies (#[trigger] keep(k) <==> keep0(k) && k
        != k0) by {
        assert(args[k].name == name <==> k == k0);
    }
    drop_selected(at, args.len() as int, keep0, keep, q);
    assert(now.named.drop_last() =~= acc.named.remove(q));
    given_arguments_stay(acc.named, now.named, args, at, q);
    assert(passes_list(args[k0], name) <==> has_list(args, name));
    if has_list(args, name) {
        assert(list_of(args, name) == args[k0].value.kind->Array_0);
    }
    keeps_filled(acc, now, args, slots, id, m, at, left);
    assert(fills_slot(now.named[width - 1 + m], args, slots, id, m));
    assert forall|i: nat| i < m + 1 implies fills_slot(
        now.named[(left.len() + i) as int],
        args,
        slots,
        id,
        i,
    ) && (#[trigger] slots[i as int]) == now.named[(left.len() + i) as int].name by {}
    if has_list(args, name) {
        assert(now.prelude =~= acc.prelude + list_stmts(acc.next_id, list_of(args, name), span));
        list_is_made(acc.prelude, now.prelude, args, slots, id, span, m);
    }
}

/// The arguments that are for no slot stay when one of them is placed.
proof fn given_arguments_stay(
    before: Seq<NamedArgV>,
    now: Seq<NamedArgV>,
    args: Seq<NamedArgV>,
    at: Seq<int>,
    q: int,
)
    requires
        0 <= q < at.len() <= before.len(),
        now.len() == before.len(),
        forall|j: int| 0 <= j < at.len() ==> before[j] == args[#[trigger] at[j]],
        now.drop_last() == before.remove(q),
    ensures
        now.take(at.len() - 1) == taken_at(args, at.remove(q)),
{
    let left = at.remove(q);
    assert forall|i: int| 0 <= i < at.len() - 1 implies now[i] == args[left[i]] by {
        assert(now.drop_last()[i] == now[i]);
        let j: int = if i < q {
            i
        } else {
            i + 1
        };
        assert(before[j] == args[at[j]]);
    }
    assert(now.take(at.len() - 1) =~= taken_at(args, left));
}

proof fn placing_fills(
    args: Seq<NamedArgV>,
    slots: Seq<Seq<char>>,
    id: u32,
    span: Span,
    n: nat,
) -> (at: Seq<int>)
    requires
        distinct_args(args),
        slots.no_duplicates(),
        n <= slots.len(),
    ensures
        ({
            let acc = placed(args, id, slots.take(n as int), span);
            &&& slots_filled(acc.named, acc.prelude, args, slots, id, n, at)
            &&& acc.next_id == list_number(args, slots, id, n)
            &&& acc.made_list == (lists_before(args, slots, n) > 0)
        }),
    decreases n,
{
    if n == 0 {
        let at = Seq::new(args.len(), |k: int| k);
        assert forall|k: int| 0 <= k < args.len() implies #[trigger] at.contains(k) by {
            assert(at[k] == k);
        }
        assert(slots.take(0) =~= Seq::<Seq<char>>::empty());
        let acc = placed(args, id, slots.take(0), span);
        assert(acc.named.take(at.len() as int) =~= taken_at(args, at));
        at
    } else {
        let m = (n - 1) as nat;
        let at = placing_fills(args, slots, id, span, m);
        let name = slots[m as int];
        let acc = placed(args, id, slots.take(m as int), span);
        assert(slots.take(n as int).drop_last() =~= slots.take(m as int));
        assert(slots.take(n as int).last() == name);
        assert(m + 1 == n);
        match find_named(acc.named, name) {
            None => {
                empty_slot_is_filled(acc, args, slots, id, span, m, at);
                at
            },
            Some(q) => {
                given_slot_is_filled(acc, args, slots, id, span, m, at, q);
                at.remove(q)
            },
        }
    }
}

/// A list that goes to the end of the statements so far is made there.
proof fn list_is_made(
    before: Seq<StmtV>,
    now: Seq<StmtV>,
    args: Seq<NamedArgV>,
    slots: Seq<Seq<char>>,
    id: u32,
    span: Span,
    m: nat,
)
    requires
        before.len() == stmts_before(args, slots, m),
        now == before + list_stmts(
            list_number(args, slots, id, m),
            list_of(args, slots[m as int]),
            span,
        ),
    ensures
        makes_list(now, args, slots, id, m),
{
    let from = before.len() as int;
    let items = list_of(args, slots[m as int]);
    let list = list_stmts(list_number(args, slots, id, m), items, span);
    assert(now[from] == list[0]);
    assert forall|x: int| 0 <= x < items.len() implies hands(
        now[from + 1 + x],
        "__push_child__"@,
        list_variable(args, slots, id, m),
        #[trigger] items[x],
    ) by {
        assert(now[from + 1 + x] == list[1 + x]);
    }
}

/// What is filled already stays filled while one more slot is placed.
proof fn keeps_filled(
    acc: PlacedV,
    now: PlacedV,
    args: Seq<NamedArgV>,
    slots: Seq<Seq<char>>,
    id: u32,
    m: nat,
    at: Seq<int>,
    left: Seq<int>,
)
    requires
        slots_filled(acc.named, acc.prelude, args, slots, id, m, at),
        acc.prelude.len() <= now.prelude.len(),
        forall|x: int| 0 <= x < acc.prelude.len() ==> now.prelude[x] == #[trigger] acc.prelude[x],
        forall|i: nat|
            i < m ==> now.named[(left.len() + i) as int] == #[trigger] acc.named[(at.len() + i) as int],
    ensures
        forall|i: nat|
            i < m ==> fills_slot(now.named[(left.len() + i) as int], args, slots, id, i) && (
            #[trigger] slots[i as int]) == now.named[(left.len() + i) as int].name,
        forall|i: nat|
            i < m && has_list(args, #[trigger] slots[i as int]) ==> makes_list(
                now.prelude,
                args,
                slots,
                id,
                i,
            ),
{
    assert forall|i: nat| i < m implies fills_slot(
        now.named[(left.len() + i) as int],
        args,
        slots,
        id,
        i,
    ) && (#[trigger] slots[i as int]) == now.named[(left.len() + i) as int].name by {
        assert(now.named[(left.len() + i) as int] == acc.named[(at.len() + i) as int]);
    }
    assert forall|i: nat| i < m && has_list(args, #[trigger] slots[i as int]) implies makes_list(
        now.prelude,
        args,
        slots,
        id,
        i,
    ) by {
        assert(makes_list(acc.prelude, args, slots, id, i));
        stmts_grow(args, slots, i, m);
        let from = stmts_before(args, slots, i) as int;
        let items = list_of(args, slots[i as int]);
        assert(now.prelude[from] == acc.prelude[from]);
        assert forall|x: int| 0 <= x < items.len() implies hands(
            now.prelude[from + 1 + x],
            "__push_child__"@,
            list_variable(args, slots, id, i),
            #[trigger] items[x],
        ) by {
            assert(now.prelude[from + 1 + x] == acc.prelude[from + 1 + x]);
        }
    }
}

proof fn slots_at(props: Seq<PropDefV>, n: nat)
    requires
        n <= props.len(),
    ensures
        ({
            let at = kept_below(n, |k: int| takes_children(props[k].name));
            let slots = slot_props(props.take(n as int));
            slots.len() == at.len() && forall|i: int|
                0 <= i < at.len() ==> #[trigger] slots[i] == props[at[i]].name
        }),
    decreases n,
{
    if n > 0 {
        let m = (n - 1) as nat;
        slots_at(props, m);
        assert(props.take(n as int).drop_last() =~= props.take(m as int));
        assert(props.take(n as int).last() == props[m as int]);
        let name = props[m as int].name;
        if has_prefix(name, "slot_"@) {
            assert("slot_"@ =~= name.subrange(0, "slot_"@.len() as int));
        }
        if "slot_"@.is_prefix_of(name) {
            assert(name.take("slot_"@.len() as int) =~= "slot_"@);
        }
    }
}

/// The lists of children that are passed to a host widget become handles. Every
/// property of the widget that takes children gets an argument, in the order
/// of the properties and after the other arguments. A list is made before the
/// call, and its widgets are pushed on it in their order; a property that is
/// passed nothing gets the null handle.
pub proof fn children_become_handles(
    defs: Seq<ComponentDefinitionV>,
    id: u32,
    e: ExprV,
    c: CallV,
    props: Seq<PropDefV>,
) -> (r: (Seq<int>, Seq<int>, Seq<Seq<char>>, Seq<NamedArgV>, Seq<StmtV>))
    requires
        e.kind == ExprKindV::Call(c),
        calls_widget(defs, c, props),
        distinct_args(c.named_args),
        distinct_props(props),
    ensures
        ({
            let (slots_at, at, slots, named, prelude) = r;
            let (out, next) = (children_rule(defs).expr)(id, e);
            &&& selects(
                slots_at,
                props.len() as int,
                |k: int| takes_children(props[k].name),
            )
            &&& slots.len() == slots_at.len()
            &&& forall|i: int|
                0 <= i < slots.len() ==> #[trigger] slots[i] == props[slots_at[i]].name
            &&& slots_filled(named, prelude, c.named_args, slots, id, slots.len(), at)
            &&& out.ty == e.ty && out.span == e.span
            &&& next == list_number(c.named_args, slots, id, slots.len())
            &&& if prelude.len() > 0 {
                ends_in(out, prelude, c, named)
            } else {
                out.kind == ExprKindV::Call(CallV { named_args: named, ..c })
            }
        }),
{
    widget_has_props(defs, c);
    assert(widget_props(defs, c) == Some(props));
    let keep = |k: int| takes_children(props[k].name);
    let chosen = kept_below(props.len(), keep);
    kept_below_selects(props.len(), keep);
    slots_at(props, props.len());
    assert(props.take(props.len() as int) =~= props);
    let slots = slot_props(props);
    assert forall|i: int, j: int| 0 <= i < slots.len() && 0 <= j < slots.len() && i != j implies
        slots[i] != slots[j] by {
        assert(slots[i] == props[chosen[i]].name);
        assert(slots[j] == props[chosen[j]].name);
        if i < j {
            assert(chosen[i] < chosen[j]);
        } else {
            assert(chosen[j] < chosen[i]);
        }
    }
    let at = placing_fills(c.named_args, slots, id, e.span, slots.len());
    assert(slots.take(slots.len() as int) =~= slots);
    let acc = placed(c.named_args, id, slots, e.span);
    some_list(c.named_args, slots, slots.len());
    let out = (children_rule(defs).expr)(id, e).0;
    if acc.made_list {
        let b = out.kind->Block_0;
        assert(b.statements.drop_last() =~= acc.prelude);
    }
    (chosen, at, slots, acc.named, acc.prelude)
}

proof fn some_list(args: Seq<NamedArgV>, slots: Seq<Seq<char>>, n: nat)
    ensures
        lists_before(args, slots, n) > 0 <==> stmts_before(args, slots, n) > 0,
    decreases n,
{
    if n > 0 {
        some_list(args, slots, (n - 1) as nat);
    }
}

/// An expression that is no call of a host widget stays as it is.
pub proof fn childless_stay(defs: Seq<ComponentDefinitionV>, id: u32, e: ExprV)
    requires
        forall|c: CallV, props: Seq<PropDefV>|
            e.kind == ExprKindV::Call(c) ==> !(#[trigger] calls_widget(defs, c, props)),
    ensures
        (children_rule(defs).expr)(id, e) == (e, id),
        (named_rule(defs).expr)((), e).0 == e,
{
    match e.kind {
        ExprKindV::Call(c) => {
            widget_has_props(defs, c);
            match widget_props(defs, c) {
                Some(props) => {
                    assert(calls_widget(defs, c, props));
                },
                None => {},
            }
        },
        _ => {},
    }
}

// ---------------------------------------------------------------------------
// Properties
// ---------------------------------------------------------------------------

/// Whether a property is the first that bears its name.
pub open spec fn leads(props: Seq<PropDefV>, i: int) -> bool {
    forall|j: int| 0 <= j < i ==> (#[trigger] props[j]).name != props[i].name
}

/// Whether argument `k` is the first that bears its name.
pub open spec fn comes_first(args: Seq<NamedArgV>, k: int) -> bool {
    forall|j: int| 0 <= j < k ==> (#[trigger] args[j]).name != args[k].name
}

/// Whether an argument by name is for property `i`, which no argument by
/// position takes.
pub open spec fn goes_to(
    args: Seq<NamedArgV>,
    positional: nat,
    props: Seq<PropDefV>,
    k: int,
    i: int,
) -> bool {
    positional <= i < props.len() && args[k].name == props[i].name && leads(props, i)
        && comes_first(args, k)
}

/// Whether an argument by name finds its property.
pub open spec fn is_placed(
    args: Seq<NamedArgV>,
    positional: nat,
    props: Seq<PropDefV>,
    k: int,
) -> bool {
    exists|i: int| #[trigger] goes_to(args, positional, props, k, i)
}

/// Whether an expression is what a property has when it is passed nothing: an
/// empty string, or the number zero of its type.
pub open spec fn is_blank(e: ExprV, ty: TypeV) -> bool {
    &&& e.ty == ty
    &&& e.kind matches ExprKindV::Literal(l) && l == if ty == TypeV::Primitive(
        PrimitiveType::String,
    ) {
        LiteralV::String(""@)
    } else if ty == TypeV::Primitive(PrimitiveType::F64) {
        LiteralV::Float(0)
    } else {
        LiteralV::Integer(0)
    }
}

/// A call of a host widget passes every property by position, in the order of
/// the properties: what was passed by position stays, what was passed by name
/// goes to the property of that name, and the other properties are blank. Only
/// the arguments that find no property are still passed by name.
pub proof fn properties_are_positional(
    defs: Seq<ComponentDefinitionV>,
    e: ExprV,
    c: CallV,
    props: Seq<PropDefV>,
) -> (left: Seq<int>)
    requires
        e.kind == ExprKindV::Call(c),
        calls_widget(defs, c, props),
    ensures
        ({
            let out = (named_rule(defs).expr)((), e).0;
            let given = c.positional_args;
            let args = c.named_args;
            &&& out.ty == e.ty && out.span == e.span
            &&& selects(
                left,
                args.len() as int,
                |k: int| !is_placed(args, given.len(), props, k),
            )
            &&& out.kind matches ExprKindV::Call(c1) && {
                &&& c1.callee == c.callee && c1.type_args == c.type_args
                &&& c1.named_args == taken_at(args, left)
                &&& c1.positional_args.len() == if given.len() > props.len() {
                    given.len()
                } else {
                    props.len()
                }
                &&& forall|i: int|
                    0 <= i < given.len() ==> #[trigger] c1.positional_args[i] == given[i]
                &&& forall|i: int, k: int|
                    0 <= k < args.len() && #[trigger] goes_to(args, given.len(), props, k, i)
                        ==> c1.positional_args[i] == args[k].value
                &&& forall|i: int|
                    given.len() <= i < props.len() && (forall|k: int|
                        0 <= k < args.len() ==> !(#[trigger] goes_to(
                            args,
                            given.len(),
                            props,
                            k,
                            i,
                        ))) ==> is_blank(#[trigger] c1.positional_args[i], props[i].ty)
            }
        }),
{
    widget_has_props(defs, c);
    assert(widget_props(defs, c) == Some(props));
    let given = c.positional_args;
    let args = c.named_args;
    let out = (named_rule(defs).expr)((), e).0;
    let c1 = out.kind->Call_0;
    assert(c1 == positional_call(props, c, e.span));
    let keep = |k: int| !is_placed(args, given.len(), props, k);
    kept_below_selects(args.len(), keep);
    left_at(props, given.len(), args, args.len());
    assert(args.take(args.len() as int) =~= args);
    let left = kept_below(args.len(), keep);
    assert forall|i: int| 0 <= i < given.len() implies #[trigger] c1.positional_args[i]
        == given[i] by {}
    assert forall|i: int, k: int|
        0 <= k < args.len() && #[trigger] goes_to(args, given.len(), props, k, i) implies
        c1.positional_args[i] == args[k].value by {
        prop_in_range(props, props[i].name);
        first_named(args, props[i].name);
        let p = find_prop(props, props[i].name)->0;
        if p < i {
            assert(props[p].name != props[i].name);
        }
        assert(find_prop(props, props[i].name) == Some(i));
        let q = find_named(args, props[i].name);
        if q is Some && q->0 < k {
            assert(args[q->0].name != args[k].name);
        }
        assert(q == Some(k));
    }
    reveal_strlit("");
    assert(""@ =~= Seq::<char>::empty());
    assert forall|i: int|
        given.len() <= i < props.len() && (forall|k: int|
            0 <= k < args.len() ==> !(#[trigger] goes_to(
                args,
                given.len(),
                props,
                k,
                i,
            ))) implies is_blank(#[trigger] c1.positional_args[i], props[i].ty) by {
        prop_in_range(props, props[i].name);
        first_named(args, props[i].name);
        match find_named(args, props[i].name) {
            Some(k) => {
                assert(!goes_to(args, given.len(), props, k, i));
                assert(comes_first(args, k));
                assert(find_prop(props, props[i].name) != Some(i));
            },
            None => {},
        }
    }
    left
}

proof fn left_at(props: Seq<PropDefV>, positional: nat, args: Seq<NamedArgV>, n: nat)
    requires
        n <= args.len(),
    ensures
        left_named(props, positional, args.take(n as int)) == taken_at(
            args,
            kept_below(n, |k: int| !is_placed(args, positional, props, k)),
        ),
    decreases n,
{
    let keep = |k: int| !is_placed(args, positional, props, k);
    if n > 0 {
        let m = (n - 1) as nat;
        left_at(props, positional, args, m);
        let now = args.take(n as int);
        assert(now.drop_last() =~= args.take(m as int));
        assert(now.last() == args[m as int]);
        let name = args[m as int].name;
        prop_in_range(props, name);
        first_named(args.take(m as int), name);
        match find_named(args.take(m as int), name) {
            Some(j) => {
                assert(args[j].name == args[m as int].name);
                assert(!comes_first(args, m as int));
            },
            None => {
                assert forall|j: int| 0 <= j < m implies (#[trigger] args[j]).name != name by {
                    assert(args.take(m as int)[j] == args[j]);
                }
                assert(comes_first(args, m as int));
            },
        }
        if is_placed(args, positional, props, m as int) {
            let i = choose|i: int| #[trigger] goes_to(args, positional, props, m as int, i);
            let p = find_prop(props, name)->0;
            assert(props[i].name == name);
            if p < i {
                assert(props[p].name != props[i].name);
            }
            assert(p == i);
        } else {
            match find_prop(props, name) {
                Some(i) => {
                    assert(!goes_to(args, positional, props, m as int, i));
                    assert(leads(props, i));
                },
                None => {},
            }
        }
        assert(last_is_left(props, positional, now) == keep(m as int));
        assert(left_named(props, positional, now) =~= taken_at(args, kept_below(n, keep)));
    } else {
        assert(args.take(0) =~= Seq::<NamedArgV>::empty());
        assert(taken_at(args, kept_below(0, keep)) =~= Seq::<NamedArgV>::empty());
    }
}

} // verus!
