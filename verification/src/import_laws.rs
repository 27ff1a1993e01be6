//! Which components a program may call, and which views its imports bring in.

use vstd::prelude::*;

use crate::ast::{PrimitiveType, Visibility};
use crate::body_laws::{distinct_are_first_mentions, is_first_mentions};
use crate::component::ComponentDefinitionV;
use crate::everywhere::{in_program, Law};
use crate::imports::{
    declares_function, import_paths, imports_injected, items_wanted, segments_of, trim_slashes,
    views_wanted, with_views,
};
use crate::model::{DeclKindV, DeclV, ExprKindV, ExprV, ImportItemV, ProgramV, StmtV, TypeV};
use crate::notes::quiet;
use crate::plain::{kept_below, kept_below_selects, refers, same_kept, says, selects};
use crate::text::distinct;
use crate::validate::{
    called_component, component_inspection, component_names, imported_names, is_known,
    valid_means_all_known, validation_errors,
};
use crate::widget_laws::first_definition;

verus! {

// ---------------------------------------------------------------------------
// Component calls
// ---------------------------------------------------------------------------

/// Whether an expression calls a component: `__component_call__("Name", ..)`.
pub open spec fn calls_component(e: ExprV, name: Seq<char>) -> bool {
    e.kind matches ExprKindV::Call(c) && refers(*c.callee, "__component_call__"@)
        && c.positional_args.len() > 0 && says(c.positional_args[0], name)
}

/// Whether an import names an item.
pub open spec fn imports_item(d: DeclV, name: Seq<char>) -> bool {
    d.kind matches DeclKindV::Import(i) && exists|k: int|
        0 <= k < i.items.len() && ((#[trigger] i.items[k]) matches ImportItemV::Named {
            name: n,
            ..
        } && n == name)
}

/// Whether a declaration brings in a component: a class of its name, or an
/// import of it.
pub open spec fn brings(d: DeclV, name: Seq<char>) -> bool {
    (d.kind matches DeclKindV::Class(c) && c.name == name) || imports_item(d, name)
}

/// Whether a component may be called: a declaration brings it in or it is
/// registered.
pub open spec fn may_be_called(
    s: Seq<DeclV>,
    defs: Seq<ComponentDefinitionV>,
    name: Seq<char>,
) -> bool {
    ||| exists|i: int| 0 <= i < s.len() && brings(#[trigger] s[i], name)
    ||| exists|i: int| 0 <= i < defs.len() && (#[trigger] defs[i]).name == name
}

/// The law that every component that is called may be.
pub open spec fn calls_are_known_law(s: Seq<DeclV>, defs: Seq<ComponentDefinitionV>) -> Law {
    Law {
        p: |e: ExprV|
            forall|name: Seq<char>| #[trigger]
                calls_component(e, name) ==> may_be_called(s, defs, name),
        q: |b: Seq<StmtV>| true,
    }
}

proof fn imported(items: Seq<ImportItemV>, name: Seq<char>)
    ensures
        imported_names(items).contains(name) <==> exists|k: int|
            0 <= k < items.len() && ((#[trigger] items[k]) matches ImportItemV::Named { name: n, .. }
                && n == name),
    decreases items.len(),
{
    if items.len() > 0 {
        let front = items.drop_last();
        imported(front, name);
        let a = imported_names(front);
        let b = imported_names(items);
        assert(items[items.len() - 1] == items.last());
        assert forall|k: int| 0 <= k < front.len() implies items[k] == #[trigger] front[k] by {}
        if a.contains(name) {
            let i = choose|i: int| 0 <= i < a.len() && a[i] == name;
            assert(b[i] == name);
            let k = choose|k: int|
                0 <= k < front.len() && ((#[trigger] front[k]) matches ImportItemV::Named {
                    name: n,
                    ..
                } && n == name);
            assert(items[k] == front[k]);
        }
        if b.contains(name) {
            let i = choose|i: int| 0 <= i < b.len() && b[i] == name;
            if i < a.len() {
                assert(a[i] == name);
            }
        }
        if exists|k: int|
            0 <= k < items.len() && ((#[trigger] items[k]) matches ImportItemV::Named { name: n, .. }
                && n == name) {
            let k = choose|k: int|
                0 <= k < items.len() && ((#[trigger] items[k]) matches ImportItemV::Named {
                    name: n,
                    ..
                } && n == name);
            if k < front.len() {
                assert(front[k] == items[k]);
            } else {
                assert(b[a.len() as int] == name);
            }
        }
    }
}

proof fn brought(s: Seq<DeclV>, name: Seq<char>)
    ensures
        component_names(s).contains(name) <==> exists|i: int|
            0 <= i < s.len() && brings(#[trigger] s[i], name),
    decreases s.len(),
{
    if s.len() > 0 {
        let front = s.drop_last();
        let last = s.last();
        brought(front, name);
        let a = component_names(front);
        let b = component_names(s);
        assert(s[s.len() - 1] == last);
        let more = match last.kind {
            DeclKindV::Class(c) => seq![c.name],
            DeclKindV::Import(i) => imported_names(i.items),
            _ => Seq::<Seq<char>>::empty(),
        };
        assert(b =~= a + more);
        assert(more.contains(name) <==> brings(last, name)) by {
            match last.kind {
                DeclKindV::Class(c) => {
                    assert(more[0] == c.name);
                },
                DeclKindV::Import(i) => {
                    imported(i.items, name);
                },
                _ => {},
            }
        }
        if a.contains(name) {
            let k = choose|k: int| 0 <= k < a.len() && a[k] == name;
            assert(b[k] == name);
            let i = choose|i: int| 0 <= i < front.len() && brings(#[trigger] front[i], name);
            assert(s[i] == front[i]);
        }
        if more.contains(name) {
            let k = choose|k: int| 0 <= k < more.len() && more[k] == name;
            assert(b[a.len() + k] == name);
        }
        if b.contains(name) {
            let k = choose|k: int| 0 <= k < b.len() && b[k] == name;
            if k < a.len() {
                assert(a[k] == name);
            } else {
                assert(more[k - a.len()] == name);
            }
        }
        if exists|i: int| 0 <= i < s.len() && brings(#[trigger] s[i], name) {
            let i = choose|i: int| 0 <= i < s.len() && brings(#[trigger] s[i], name);
            if i < front.len() {
                assert(front[i] == s[i]);
            }
        }
    }
}

proof fn known(s: Seq<DeclV>, defs: Seq<ComponentDefinitionV>, name: Seq<char>)
    ensures
        may_be_called(s, defs, name) <==> is_known(
            component_names(s),
            defs,
            name,
        ),
{
    brought(s, name);
    first_definition(defs, name);
}

/// A call of a component that may not be called brings just the message that
/// names it; no other expression brings a message. Validation succeeds where
/// no expression of the program brings one.
pub proof fn unknown_components_are_reported(
    p: ProgramV,
    defs: Seq<ComponentDefinitionV>,
    e: ExprV,
)
    ensures
        ({
            let notes = (component_inspection(component_names(p.declarations), defs).note)(e);
            &&& forall|name: Seq<char>| #[trigger]
                calls_component(e, name) && !may_be_called(p.declarations, defs, name) ==> notes
                    == seq![
                    "unknown component `"@ + name + "` — declare it with `component "@ + name
                        + " { ... }` before use"@,
                ]
            &&& (forall|name: Seq<char>| #[trigger]
                calls_component(e, name) ==> may_be_called(p.declarations, defs, name))
                ==> notes.len() == 0
        }),
        validation_errors(p, defs).len() == 0 <==> in_program(
            calls_are_known_law(p.declarations, defs),
            p,
        ),
{
    let s = p.declarations;
    let c = component_inspection(component_names(s), defs);
    assert forall|name: Seq<char>| #[trigger]
        may_be_called(s, defs, name) <==> is_known(
            component_names(s),
            defs,
            name,
        ) by {
        known(s, defs, name);
    }
    called(e);
    valid_means_all_known(p, defs);
    let a = quiet(c);
    let b = calls_are_known_law(s, defs);
    assert forall|x: ExprV| #[trigger] (a.p)(x) == (b.p)(x) by {
        called(x);
        match called_component(x) {
            Some(name) => {
                assert(calls_component(x, name));
                known(s, defs, name);
                assert((c.note)(x).len() == 0 <==> is_known(component_names(s), defs, name));
                if (a.p)(x) {
                    assert forall|n: Seq<char>| #[trigger] calls_component(x, n) implies
                        may_be_called(s, defs, n) by {}
                }
            },
            None => {
                assert((c.note)(x).len() == 0);
            },
        }
    }
    assert(a.p =~= b.p);
    assert(a.q =~= b.q);
}

proof fn called(e: ExprV)
    ensures
        forall|name: Seq<char>| #[trigger]
            calls_component(e, name) <==> called_component(e) == Some(name),
{
}

// ---------------------------------------------------------------------------
// Import paths
// ---------------------------------------------------------------------------

/// Whether a text is the other one without the slashes that it starts with.
pub open spec fn is_trimmed(out: Seq<char>, s: Seq<char>) -> bool {
    exists|n: int| #[trigger] starts_with_slashes(s, n) && out == s.skip(n)
}

/// Whether a text starts with just `n` slashes.
pub open spec fn starts_with_slashes(s: Seq<char>, n: int) -> bool {
    &&& 0 <= n <= s.len()
    &&& forall|k: int| 0 <= k < n ==> #[trigger] s[k] == '/'
    &&& n < s.len() ==> s[n] != '/'
}

/// Whether segments are those of a path: its parts that are not empty, without
/// the slashes that they start with.
pub open spec fn are_segments(out: Seq<Seq<char>>, path: Seq<Seq<char>>, at: Seq<int>) -> bool {
    &&& selects(at, path.len() as int, |k: int| path[k].len() > 0)
    &&& out.len() == at.len()
    &&& forall|i: int| 0 <= i < out.len() ==> is_trimmed(#[trigger] out[i], path[at[i]])
}

proof fn trimming(s: Seq<char>)
    ensures
        is_trimmed(trim_slashes(s), s),
    decreases s.len(),
{
    if s.len() > 0 && s[0] == '/' {
        let rest = s.skip(1);
        trimming(rest);
        let n = choose|n: int| #[trigger]
            starts_with_slashes(rest, n) && trim_slashes(rest) == rest.skip(n);
        assert(rest.skip(n) =~= s.skip(n + 1));
        assert forall|k: int| 0 <= k < n + 1 implies #[trigger] s[k] == '/' by {
            if k > 0 {
                assert(rest[k - 1] == s[k]);
            }
        }
        assert(starts_with_slashes(s, n + 1));
    } else {
        assert(s.skip(0) =~= s);
        assert(starts_with_slashes(s, 0));
    }
}

proof fn segments_at(path: Seq<Seq<char>>, n: nat)
    requires
        n <= path.len(),
    ensures
        ({
            let at = kept_below(n, |k: int| path[k].len() > 0);
            let out = segments_of(path.take(n as int));
            out.len() == at.len() && forall|i: int|
                0 <= i < out.len() ==> is_trimmed(#[trigger] out[i], path[at[i]])
        }),
    decreases n,
{
    if n > 0 {
        let m = (n - 1) as nat;
        segments_at(path, m);
        trimming(path[m as int]);
        assert(path.take(n as int).drop_last() =~= path.take(m as int));
        assert(path.take(n as int).last() == path[m as int]);
    }
}

/// The segments of an import are the parts of its path that are not empty,
/// without the slashes that they start with.
pub proof fn segments_are_parts(path: Seq<Seq<char>>) -> (at: Seq<int>)
    ensures
        are_segments(segments_of(path), path, at),
{
    let keep = |k: int| path[k].len() > 0;
    kept_below_selects(path.len(), keep);
    segments_at(path, path.len());
    assert(path.take(path.len() as int) =~= path);
    kept_below(path.len(), keep)
}

/// Whether a declaration is an import.
pub open spec fn is_import(d: DeclV) -> bool {
    d.kind is Import
}

proof fn imports_at(s: Seq<DeclV>, n: nat)
    requires
        n <= s.len(),
    ensures
        ({
            let at = kept_below(n, |k: int| is_import(s[k]));
            let out = import_paths(s.take(n as int));
            out.len() == at.len() && forall|i: int|
                0 <= i < out.len() ==> #[trigger] out[i] == segments_of(
                    s[at[i]].kind->Import_0.path_segments,
                )
        }),
    decreases n,
{
    if n > 0 {
        let m = (n - 1) as nat;
        imports_at(s, m);
        assert(s.take(n as int).drop_last() =~= s.take(m as int));
        assert(s.take(n as int).last() == s[m as int]);
    }
}

/// The imports of a program are listed in their order.
pub proof fn imports_are_listed(s: Seq<DeclV>) -> (at: Seq<int>)
    ensures
        selects(at, s.len() as int, |k: int| is_import(s[k])),
        import_paths(s).len() == at.len(),
        forall|i: int|
            0 <= i < at.len() ==> exists|parts: Seq<int>| #[trigger]
                are_segments(
                    import_paths(s)[i],
                    (#[trigger] s[at[i]]).kind->Import_0.path_segments,
                    parts,
                ),
{
    let keep = |k: int| is_import(s[k]);
    kept_below_selects(s.len(), keep);
    imports_at(s, s.len());
    assert(s.take(s.len() as int) =~= s);
    let at = kept_below(s.len(), keep);
    assert forall|i: int| 0 <= i < at.len() implies exists|parts: Seq<int>| #[trigger]
        are_segments(
            import_paths(s)[i],
            (#[trigger] s[at[i]]).kind->Import_0.path_segments,
            parts,
        ) by {
        let parts = segments_are_parts(s[at[i]].kind->Import_0.path_segments);
        assert(import_paths(s)[i] == segments_of(s[at[i]].kind->Import_0.path_segments));
        assert(are_segments(import_paths(s)[i], s[at[i]].kind->Import_0.path_segments, parts));
    }
    at
}

// ---------------------------------------------------------------------------
// Imported views
// ---------------------------------------------------------------------------

/// The views that the items of an import ask for, as far as the module has
/// compiled them: `Name$view` for an item `Name`.
pub open spec fn asked_by_items(items: Seq<ImportItemV>, compiled: Seq<Seq<char>>) -> Seq<Seq<char>>
    decreases items.len(),
{
    if items.len() == 0 {
        seq![]
    } else {
        let rest = asked_by_items(items.drop_first(), compiled);
        match items[0] {
            ImportItemV::Named { name, .. } => if compiled.contains(name + "$view"@) {
                seq![name + "$view"@] + rest
            } else {
                rest
            },
            _ => rest,
        }
    }
}

/// The views that a declaration asks for, where the declarations before it
/// hold `rank` imports: those of the items of an import with a path whose
/// module is known.
pub open spec fn asked_by(
    d: DeclV,
    compiled: Seq<Option<Seq<Seq<char>>>>,
    rank: int,
) -> Seq<Seq<char>> {
    match d.kind {
        DeclKindV::Import(i) => if rank < compiled.len() && compiled[rank] is Some && exists|k: int|
            0 <= k < i.path_segments.len() && (#[trigger] i.path_segments[k]).len() > 0 {
            asked_by_items(i.items, compiled[rank]->0)
        } else {
            seq![]
        },
        _ => seq![],
    }
}

/// The number of imports among the first `n` declarations.
pub open spec fn import_rank(s: Seq<DeclV>, n: nat) -> nat {
    kept_below(n, |k: int| is_import(s[k])).len()
}

/// The views that some declarations ask for, one declaration after the other.
pub open spec fn asked(s: Seq<DeclV>, compiled: Seq<Option<Seq<Seq<char>>>>) -> Seq<Seq<char>> {
    Seq::new(
        s.len(),
        |i: int| asked_by(s[i], compiled, import_rank(s, i as nat) as int),
    ).flatten()
}

proof fn items_from_front(items: Seq<ImportItemV>, compiled: Seq<Seq<char>>)
    requires
        items.len() > 0,
    ensures
        asked_by_items(items, compiled) == asked_by_items(items.drop_last(), compiled)
            + match items.last() {
            ImportItemV::Named { name, .. } => if compiled.contains(name + "$view"@) {
                seq![name + "$view"@]
            } else {
                seq![]
            },
            _ => seq![],
        },
    decreases items.len(),
{
    if items.len() == 1 {
        assert(items.drop_first() =~= Seq::<ImportItemV>::empty());
        assert(items.drop_last() =~= Seq::<ImportItemV>::empty());
        assert(asked_by_items(items.drop_first(), compiled) =~= Seq::<Seq<char>>::empty());
        assert(asked_by_items(items.drop_last(), compiled) =~= Seq::<Seq<char>>::empty());
    } else {
        let rest = items.drop_first();
        items_from_front(rest, compiled);
        assert(rest.drop_last() =~= items.drop_last().drop_first());
        assert(items.drop_last()[0] == items[0]);
        let tail: Seq<Seq<char>> = match items.last() {
            ImportItemV::Named { name, .. } => if compiled.contains(name + "$view"@) {
                seq![name + "$view"@]
            } else {
                seq![]
            },
            _ => seq![],
        };
        let mid = asked_by_items(rest.drop_last(), compiled);
        assert(asked_by_items(rest, compiled) == mid + tail);
        match items[0] {
            ImportItemV::Named { name, .. } => {
                let one = seq![name + "$view"@];
                assert(one + (mid + tail) =~= (one + mid) + tail);
            },
            _ => {},
        }
    }
}

proof fn wanting_items(items: Seq<ImportItemV>, compiled: Seq<Seq<char>>, m: Seq<Seq<char>>)
    ensures
        items_wanted(items, compiled, distinct(m)) == distinct(
            m + asked_by_items(items, compiled),
        ),
    decreases items.len(),
{
    if items.len() == 0 {
        assert(m + asked_by_items(items, compiled) =~= m);
    } else {
        wanting_items(items.drop_last(), compiled, m);
        items_from_front(items, compiled);
        let before = m + asked_by_items(items.drop_last(), compiled);
        let now = m + asked_by_items(items, compiled);
        match items.last() {
            ImportItemV::Named { name, .. } => {
                if compiled.contains(name + "$view"@) {
                    assert(now.drop_last() =~= before);
                    assert(now.last() == name + "$view"@);
                } else {
                    assert(now =~= before);
                }
            },
            _ => {
                assert(now =~= before);
            },
        }
    }
}

proof fn asked_grows(s: Seq<DeclV>, compiled: Seq<Option<Seq<Seq<char>>>>)
    requires
        s.len() > 0,
    ensures
        asked(s, compiled) == asked(s.drop_last(), compiled) + asked_by(
            s.last(),
            compiled,
            import_paths(s.drop_last()).len() as int,
        ),
{
    let front = s.drop_last();
    let n = front.len();
    let a = Seq::new(
        front.len(),
        |i: int| asked_by(front[i], compiled, import_rank(front, i as nat) as int),
    );
    let b = Seq::new(s.len(), |i: int| asked_by(s[i], compiled, import_rank(s, i as nat) as int));
    assert forall|i: int| 0 <= i < n implies a[i] == #[trigger] b[i] by {
        same_kept(
            i as nat,
            |k: int| is_import(front[k]),
            |k: int| is_import(s[k]),
        );
        assert(front[i] == s[i]);
    }
    assert(b.drop_last() =~= a);
    a.lemma_flatten_and_flatten_alt_are_equivalent();
    b.lemma_flatten_and_flatten_alt_are_equivalent();
    imports_at(s, n);
    assert(s.take(n as int) =~= front);
}

proof fn wanting(s: Seq<DeclV>, compiled: Seq<Option<Seq<Seq<char>>>>)
    ensures
        views_wanted(s, compiled) == distinct(asked(s, compiled)),
    decreases s.len(),
{
    let none: Seq<Seq<char>> = seq![];
    if s.len() == 0 {
        assert(asked(s, compiled) =~= none);
        assert(distinct(none) =~= none);
    } else {
        let before = s.drop_last();
        wanting(before, compiled);
        asked_grows(s, compiled);
        let m = asked(before, compiled);
        assert(m + none =~= m);
        match s.last().kind {
            DeclKindV::Import(i) => {
                let k = import_paths(before).len() as int;
                let at = segments_are_parts(i.path_segments);
                let keep = |q: int| i.path_segments[q].len() > 0;
                if segments_of(i.path_segments).len() > 0 {
                    assert(keep(at[0]));
                    assert(i.path_segments[at[0]].len() > 0);
                } else if exists|q: int|
                    0 <= q < i.path_segments.len() && (#[trigger] i.path_segments[q]).len() > 0 {
                    let q = choose|q: int|
                        0 <= q < i.path_segments.len() && (#[trigger] i.path_segments[q]).len()
                            > 0;
                    assert(keep(q));
                    assert(at.contains(q));
                }
                if k < compiled.len() && compiled[k] is Some {
                    wanting_items(i.items, compiled[k]->0, m);
                }
            },
            _ => {},
        }
    }
}

/// Whether a declaration is that of a view that is compiled elsewhere: a public
/// external function without parameters that returns a handle and is linked to
/// the symbol of its name.
pub open spec fn declares_view(d: DeclV, symbol: Seq<char>) -> bool {
    d.kind matches DeclKindV::Function(f) && {
        &&& f.name == symbol
        &&& f.params.len() == 0
        &&& f.return_type == TypeV::Primitive(PrimitiveType::I64)
        &&& f.body is None
        &&& f.visibility == Visibility::Public
        &&& f.is_external
        &&& f.link_name == Some(symbol)
        &&& f.details == 0
    }
}

/// Whether a declaration is a function of a name.
pub open spec fn function_called(d: DeclV, name: Seq<char>) -> bool {
    d.kind matches DeclKindV::Function(f) && f.name == name
}

/// Whether a program has a function of a name.
pub open spec fn has_function(s: Seq<DeclV>, name: Seq<char>) -> bool {
    exists|i: int| 0 <= i < s.len() && function_called(#[trigger] s[i], name)
}

proof fn function_is_declared(s: Seq<DeclV>, name: Seq<char>)
    ensures
        has_function(s, name) <==> declares_function(s, name),
{
    if has_function(s, name) {
        let i = choose|i: int| 0 <= i < s.len() && function_called(#[trigger] s[i], name);
        assert(s[i].kind is Function);
    }
    if declares_function(s, name) {
        let i = choose|i: int|
            0 <= i < s.len() && ((#[trigger] s[i]).kind matches DeclKindV::Function(f) && f.name
                == name);
        assert(function_called(s[i], name));
    }
}

proof fn views_added(s: Seq<DeclV>, wanted: Seq<Seq<char>>, n: nat)
    requires
        n <= wanted.len(),
        wanted.no_duplicates(),
    ensures
        ({
            let at = kept_below(n, |k: int| !has_function(s, wanted[k]));
            let out = with_views(s, wanted.take(n as int));
            &&& out.len() == s.len() + at.len()
            &&& out.take(s.len() as int) == s
            &&& forall|i: int|
                0 <= i < at.len() ==> declares_view(
                    #[trigger] out[s.len() + i],
                    wanted[at[i]],
                )
        }),
    decreases n,
{
    let keep = |k: int| !has_function(s, wanted[k]);
    if n > 0 {
        let m = (n - 1) as nat;
        views_added(s, wanted, m);
        kept_below_selects(m, keep);
        let at0 = kept_below(m, keep);
        let at = kept_below(n, keep);
        let out0 = with_views(s, wanted.take(m as int));
        let out = with_views(s, wanted.take(n as int));
        let name = wanted[m as int];
        assert(wanted.take(n as int).drop_last() =~= wanted.take(m as int));
        assert(wanted.take(n as int).last() == name);
        function_is_declared(out0, name);
        assert(has_function(out0, name) <==> has_function(s, name)) by {
            if has_function(s, name) {
                let i = choose|i: int| 0 <= i < s.len() && function_called(#[trigger] s[i], name);
                assert(out0.take(s.len() as int)[i] == s[i]);
                assert(function_called(out0[i], name));
            }
            if has_function(out0, name) {
                let i = choose|i: int|
                    0 <= i < out0.len() && function_called(#[trigger] out0[i], name);
                if i < s.len() {
                    assert(out0.take(s.len() as int)[i] == s[i]);
                    assert(function_called(s[i], name));
                } else {
                    let j = i - s.len();
                    assert(declares_view(out0[s.len() + j], wanted[at0[j]]));
                    assert(at0[j] < m);
                    assert(wanted[at0[j]] != wanted[m as int]);
                }
            }
        }
        assert(out.take(s.len() as int) =~= s) by {
            assert forall|i: int| 0 <= i < s.len() implies out[i] == s[i] by {
                assert(out0.take(s.len() as int)[i] == s[i]);
            }
        }
        assert forall|i: int| 0 <= i < at.len() implies declares_view(
            #[trigger] out[s.len() + i],
            wanted[at[i]],
        ) by {
            if i < at0.len() {
                assert(out[s.len() + i] == out0[s.len() + i]);
            }
        }
    } else {
        assert(wanted.take(0) =~= Seq::<Seq<char>>::empty());
        assert(s.take(s.len() as int) =~= s);
    }
}

/// The views that the imports of a program ask for are declared after its
/// declarations: each once, in the order in which they come up, and only where
/// the program has no function of the name.
pub proof fn imported_views_are_declared(
    p: ProgramV,
    compiled: Seq<Option<Seq<Seq<char>>>>,
) -> (r: (Seq<Seq<char>>, Seq<int>))
    ensures
        ({
            let (wanted, at) = r;
            let s = p.declarations;
            let out = imports_injected(p, compiled);
            &&& out.type_registry == p.type_registry
            &&& is_first_mentions(wanted, asked(s, compiled))
            &&& selects(at, wanted.len() as int, |k: int| !has_function(s, wanted[k]))
            &&& out.declarations.len() == s.len() + at.len()
            &&& out.declarations.take(s.len() as int) == s
            &&& forall|i: int|
                0 <= i < at.len() ==> declares_view(
                    #[trigger] out.declarations[s.len() + i],
                    wanted[at[i]],
                )
        }),
{
    let s = p.declarations;
    let wanted = views_wanted(s, compiled);
    wanting(s, compiled);
    distinct_are_first_mentions(asked(s, compiled));
    distinct_has_no_duplicates(asked(s, compiled));
    let keep = |k: int| !has_function(s, wanted[k]);
    kept_below_selects(wanted.len(), keep);
    views_added(s, wanted, wanted.len());
    assert(wanted.take(wanted.len() as int) =~= wanted);
    (wanted, kept_below(wanted.len(), keep))
}

proof fn distinct_has_no_duplicates(s: Seq<Seq<char>>)
    ensures
        distinct(s).no_duplicates(),
    decreases s.len(),
{
    if s.len() > 0 {
        distinct_has_no_duplicates(s.drop_last());
    }
}

} // verus!
