//! What becomes of the constructor calls of structs, field by field.

use vstd::prelude::*;

use crate::model::{DeclKindV, DeclV, ExprKindV, ExprV, LiteralV, ProgramV, StmtKindV, TypeV};
use crate::plain::{
    filter_is_selection, is_selection, kept_below, kept_below_selects, refers, same_selection, says,
    selects, taken_at,
};
use crate::struct_literals::{
    constructor_errors, declared_structs, field_marker, filled, literal_rule, marked_struct,
    marked_structs, struct_fields, structs_lowered, supplied, unknown_fields, value_names, value_of,
};
use crate::walk::walk_program;

verus! {

// ---------------------------------------------------------------------------
// Structs
// ---------------------------------------------------------------------------

/// Whether a declaration marks a struct: a function `__blinc_struct_type__`
/// whose body starts with the name of the struct.
pub open spec fn marks_struct(d: DeclV, name: Seq<char>) -> bool {
    d.kind matches DeclKindV::Function(f) && f.name == "__blinc_struct_type__"@ && f.body is Some
        && f.body->0.statements.len() > 0 && (f.body->0.statements[0].kind
        matches StmtKindV::Expression(e) && says(e, name))
}

/// Whether a declaration marks some struct.
pub open spec fn marks_some_struct(d: DeclV) -> bool {
    exists|name: Seq<char>| #[trigger] marks_struct(d, name)
}

/// Whether a struct is marked in a program.
pub open spec fn is_marked_struct(s: Seq<DeclV>, name: Seq<char>) -> bool {
    exists|i: int| 0 <= i < s.len() && marks_struct(#[trigger] s[i], name)
}

/// Whether a declaration is the class of a name.
pub open spec fn class_called(d: DeclV, name: Seq<char>) -> bool {
    d.kind matches DeclKindV::Class(c) && c.name == name
}

/// Whether a program has the struct `name` with these fields: those of the
/// last class of its name, in their order.
pub open spec fn has_struct(s: Seq<DeclV>, name: Seq<char>, fields: Seq<Seq<char>>) -> bool {
    is_marked_struct(s, name) && exists|i: int|
        0 <= i < s.len() && class_called(#[trigger] s[i], name)
            && s[i].kind->Class_0.fields.len() == fields.len() && (forall|k: int|
            0 <= k < fields.len() ==> #[trigger] fields[k] == s[i].kind->Class_0.fields[k].name)
            && forall|j: int| i < j < s.len() ==> !class_called(#[trigger] s[j], name)
}

proof fn marker_is(d: DeclV)
    ensures
        forall|name: Seq<char>| #[trigger] marks_struct(d, name) <==> marked_struct(d) == Some(name),
        marks_some_struct(d) <==> marked_struct(d) is Some,
{
    if marked_struct(d) is Some {
        assert(marks_struct(d, marked_struct(d)->0));
    }
}

proof fn marked(s: Seq<DeclV>)
    ensures
        forall|name: Seq<char>| #[trigger]
            is_marked_struct(s, name) <==> marked_structs(s).contains(name),
        marked_structs(s).len() > 0 <==> exists|i: int|
            0 <= i < s.len() && marks_some_struct(#[trigger] s[i]),
    decreases s.len(),
{
    if s.len() > 0 {
        let front = s.drop_last();
        let last = s.last();
        marked(front);
        marker_is(last);
        let a = marked_structs(front);
        let b = marked_structs(s);
        assert(s[s.len() - 1] == last);
        assert forall|name: Seq<char>| #[trigger]
            is_marked_struct(s, name) <==> b.contains(name) by {
            if is_marked_struct(s, name) {
                let i = choose|i: int| 0 <= i < s.len() && marks_struct(#[trigger] s[i], name);
                if i < front.len() {
                    assert(front[i] == s[i]);
                    assert(is_marked_struct(front, name));
                    let k = choose|k: int| 0 <= k < a.len() && a[k] == name;
                    assert(b[k] == name);
                } else {
                    assert(b[a.len() as int] == name);
                }
            }
            if b.contains(name) {
                let k = choose|k: int| 0 <= k < b.len() && b[k] == name;
                if k < a.len() {
                    assert(a[k] == name);
                    assert(is_marked_struct(front, name));
                    let i = choose|i: int|
                        0 <= i < front.len() && marks_struct(#[trigger] front[i], name);
                    assert(s[i] == front[i]);
                } else {
                    assert(marks_struct(s[s.len() - 1], name));
                }
            }
        }
        if exists|i: int| 0 <= i < front.len() && marks_some_struct(#[trigger] front[i]) {
            let i = choose|i: int| 0 <= i < front.len() && marks_some_struct(#[trigger] front[i]);
            assert(s[i] == front[i]);
        }
        if exists|i: int| 0 <= i < s.len() && marks_some_struct(#[trigger] s[i]) {
            let i = choose|i: int| 0 <= i < s.len() && marks_some_struct(#[trigger] s[i]);
            if i < front.len() {
                assert(front[i] == s[i]);
            }
        }
    }
}

proof fn last_class(s: Seq<DeclV>, names: Seq<Seq<char>>, name: Seq<char>)
    ensures
        match struct_fields(declared_structs(s, names), name) {
            Some(fields) => names.contains(name) && exists|i: int|
                0 <= i < s.len() && class_called(#[trigger] s[i], name)
                    && s[i].kind->Class_0.fields.len() == fields.len() && (forall|k: int|
                    0 <= k < fields.len() ==> #[trigger] fields[k]
                        == s[i].kind->Class_0.fields[k].name) && forall|j: int|
                    i < j < s.len() ==> !class_called(#[trigger] s[j], name),
            None => !names.contains(name) || forall|i: int|
                0 <= i < s.len() ==> !class_called(#[trigger] s[i], name),
        },
    decreases s.len(),
{
    if s.len() > 0 {
        let front = s.drop_last();
        last_class(front, names, name);
        let a = declared_structs(front, names);
        let b = declared_structs(s, names);
        assert(s[s.len() - 1] == s.last());
        if b.len() > a.len() {
            assert(b.drop_last() =~= a);
        }
        if class_called(s.last(), name) && names.contains(name) {
            assert(class_called(s[s.len() - 1], name));
        } else {
            assert(struct_fields(b, name) == struct_fields(a, name));
            match struct_fields(a, name) {
                Some(fields) => {
                    let i = choose|i: int|
                        0 <= i < front.len() && class_called(#[trigger] front[i], name)
                            && front[i].kind->Class_0.fields.len() == fields.len() && (forall|
                            k: int,
                        |
                            0 <= k < fields.len() ==> #[trigger] fields[k]
                                == front[i].kind->Class_0.fields[k].name) && forall|j: int|
                            i < j < front.len() ==> !class_called(#[trigger] front[j], name);
                    assert(s[i] == front[i]);
                    assert forall|j: int| i < j < s.len() implies !class_called(
                        #[trigger] s[j],
                        name,
                    ) by {
                        if j < front.len() {
                            assert(s[j] == front[j]);
                        }
                    }
                },
                None => {
                    if names.contains(name) {
                        assert forall|i: int| 0 <= i < s.len() implies !class_called(
                            #[trigger] s[i],
                            name,
                        ) by {
                            if i < front.len() {
                                assert(s[i] == front[i]);
                            }
                        }
                    }
                },
            }
        }
    }
}

proof fn struct_is_found(s: Seq<DeclV>, name: Seq<char>, fields: Seq<Seq<char>>)
    ensures
        has_struct(s, name, fields) <==> struct_fields(
            declared_structs(s, marked_structs(s)),
            name,
        ) == Some(fields),
{
    marked(s);
    last_class(s, marked_structs(s), name);
    let found = struct_fields(declared_structs(s, marked_structs(s)), name);
    assert(is_marked_struct(s, name) <==> marked_structs(s).contains(name));
    if has_struct(s, name, fields) {
        let i = choose|i: int|
            0 <= i < s.len() && class_called(#[trigger] s[i], name)
                && s[i].kind->Class_0.fields.len() == fields.len() && (forall|k: int|
                0 <= k < fields.len() ==> #[trigger] fields[k]
                    == s[i].kind->Class_0.fields[k].name) && forall|j: int|
                i < j < s.len() ==> !class_called(#[trigger] s[j], name);
        let other = found->0;
        let q = choose|q: int|
            0 <= q < s.len() && class_called(#[trigger] s[q], name)
                && s[q].kind->Class_0.fields.len() == other.len() && (forall|k: int|
                0 <= k < other.len() ==> #[trigger] other[k] == s[q].kind->Class_0.fields[k].name)
                && forall|j: int| q < j < s.len() ==> !class_called(#[trigger] s[j], name);
        assert(i == q);
        assert(other =~= fields);
    }
}

// ---------------------------------------------------------------------------
// Arguments
// ---------------------------------------------------------------------------

/// Whether an argument is `__named__("field", value)`.
pub open spec fn gives(e: ExprV, field: Seq<char>, value: ExprV) -> bool {
    e.kind matches ExprKindV::Call(c) && refers(*c.callee, "__named__"@) && c.positional_args.len()
        == 2 && says(c.positional_args[0], field) && c.positional_args[1] == value
}

/// Whether an argument names a field.
pub open spec fn gives_field(e: ExprV, field: Seq<char>) -> bool {
    exists|value: ExprV| #[trigger] gives(e, field, value)
}

/// Whether an argument names some field.
pub open spec fn gives_some(e: ExprV) -> bool {
    exists|field: Seq<char>| #[trigger] gives_field(e, field)
}

/// Whether argument `k` is the first that names its field.
pub open spec fn gives_first(args: Seq<ExprV>, k: int, field: Seq<char>) -> bool {
    gives_field(args[k], field) && forall|j: int|
        0 <= j < k ==> !gives_field(#[trigger] args[j], field)
}

/// Whether argument `k` is the first that names a field.
pub open spec fn is_first_given(args: Seq<ExprV>, k: int) -> bool {
    exists|field: Seq<char>| #[trigger] gives_first(args, k, field)
}

/// Whether a message is about argument `k`: that it is a body, that it has no
/// name, or that its field was named before.
pub open spec fn is_about_arg(
    message: Seq<char>,
    name: Seq<char>,
    args: Seq<ExprV>,
    k: int,
) -> bool {
    &&& args[k].kind is Block ==> message == "struct `"@ + name
        + "` constructors do not accept child bodies; use `"@ + name + "(field = value)`"@
    &&& !(args[k].kind is Block) && !gives_some(args[k]) ==> message == "struct `"@ + name
        + "` constructors require named fields, e.g. `"@ + name + "(field = value)`"@
    &&& forall|field: Seq<char>|
        gives_field(args[k], field) && !gives_first(args, k, field) ==> #[trigger] given_again(
            message,
            name,
            field,
        )
}

/// The message that a field was named before.
pub open spec fn given_again(message: Seq<char>, name: Seq<char>, field: Seq<char>) -> bool {
    message == "struct `"@ + name + "` field `"@ + field + "` is specified more than once"@
}

/// Whether a field of the struct is given.
pub open spec fn is_given(args: Seq<ExprV>, field: Seq<char>) -> bool {
    exists|k: int| 0 <= k < args.len() && gives_field(#[trigger] args[k], field)
}

proof fn giving(e: ExprV)
    ensures
        forall|field: Seq<char>, value: ExprV| #[trigger]
            gives(e, field, value) <==> field_marker(e) == Some((field, value)),
        forall|field: Seq<char>| #[trigger]
            gives_field(e, field) <==> (field_marker(e) is Some && marker_field(e) == field),
        gives_some(e) <==> field_marker(e) is Some,
        field_marker(e) is Some ==> gives(e, marker_field(e), marker_value(e)),
        gives_some(e) ==> !(e.kind is Block),
{
    if field_marker(e) is Some {
        let (field, value) = field_marker(e)->0;
        assert(gives(e, field, value));
        assert(gives_field(e, field));
    }
}

spec fn marker_field(e: ExprV) -> Seq<char> {
    match field_marker(e) {
        Some((field, _)) => field,
        None => seq![],
    }
}

spec fn marker_value(e: ExprV) -> ExprV {
    match field_marker(e) {
        Some((_, value)) => value,
        None => e,
    }
}

proof fn supplied_at(name: Seq<char>, args: Seq<ExprV>, n: nat)
    requires
        n <= args.len(),
    ensures
        ({
            let given = kept_below(n, |k: int| is_first_given(args, k));
            let wrong = kept_below(n, |k: int| !is_first_given(args, k));
            let s = supplied(name, args.take(n as int));
            &&& s.values.len() == given.len()
            &&& forall|i: int|
                0 <= i < given.len() ==> gives(
                    args[given[i]],
                    (#[trigger] s.values[i]).0,
                    s.values[i].1,
                )
            &&& s.errors.len() == wrong.len()
            &&& forall|i: int|
                0 <= i < wrong.len() ==> is_about_arg(#[trigger] s.errors[i], name, args, wrong[i])
            &&& forall|k: int, field: Seq<char>|
                0 <= k < n && #[trigger] gives_field(args[k], field) ==> value_names(
                    s.values,
                ).contains(field)
        }),
    decreases n,
{
    if n > 0 {
        let m = (n - 1) as nat;
        supplied_at(name, args, m);
        let e = args[m as int];
        giving(e);
        assert(args.take(n as int).drop_last() =~= args.take(m as int));
        assert(args.take(n as int).last() == e);
        let before = supplied(name, args.take(m as int));
        let now = supplied(name, args.take(n as int));
        let given0 = kept_below(m, |k: int| is_first_given(args, k));
        kept_below_selects(m, |k: int| is_first_given(args, k));
        let given = kept_below(n, |k: int| is_first_given(args, k));
        let wrong0 = kept_below(m, |k: int| !is_first_given(args, k));
        let wrong = kept_below(n, |k: int| !is_first_given(args, k));
        let names = value_names(before.values);
        match field_marker(e) {
            Some((field, value)) => {
                assert(gives_field(e, field));
                if names.contains(field) {
                    let i = choose|i: int| 0 <= i < names.len() && names[i] == field;
                    assert(names[i] == before.values[i].0);
                    assert(gives(args[given0[i]], before.values[i].0, before.values[i].1));
                    assert(gives_field(args[given0[i]], field));
                    assert(0 <= given0[i] < m);
                    assert(!gives_first(args, m as int, field));
                    assert(!is_first_given(args, m as int));
                } else {
                    assert forall|j: int| 0 <= j < m implies !gives_field(
                        #[trigger] args[j],
                        field,
                    ) by {
                        if gives_field(args[j], field) {
                            assert(names.contains(field));
                        }
                    }
                    assert(gives_first(args, m as int, field));
                    assert(is_first_given(args, m as int));
                }
            },
            None => {
                assert(!is_first_given(args, m as int));
            },
        }
        assert forall|i: int| 0 <= i < given.len() implies gives(
            args[given[i]],
            (#[trigger] now.values[i]).0,
            now.values[i].1,
        ) by {
            if i < given0.len() {
                assert(now.values[i] == before.values[i]);
                assert(given[i] == given0[i]);
            }
        }
        assert forall|i: int| 0 <= i < wrong.len() implies is_about_arg(
            #[trigger] now.errors[i],
            name,
            args,
            wrong[i],
        ) by {
            if i < wrong0.len() {
                assert(now.errors[i] == before.errors[i]);
                assert(wrong[i] == wrong0[i]);
            }
        }
        let names1 = value_names(now.values);
        assert forall|k: int, field: Seq<char>|
            0 <= k < n && #[trigger] gives_field(args[k], field) implies names1.contains(field) by {
            if k < m || names.contains(field) {
                assert(names.contains(field));
                let i = choose|i: int| 0 <= i < names.len() && names[i] == field;
                assert(names1[i] == field);
            } else {
                assert(names1[before.values.len() as int] == field);
            }
        }
    }
}

// ---------------------------------------------------------------------------
// Messages
// ---------------------------------------------------------------------------

/// Whether messages are those about a constructor call. First come those about
/// its arguments, then one for every field that it names and the struct does
/// not have, and then one for every field of the struct that it does not give,
/// each in their order.
pub open spec fn are_messages(
    messages: Seq<Seq<char>>,
    name: Seq<char>,
    args: Seq<ExprV>,
    fields: Seq<Seq<char>>,
    wrong: Seq<int>,
    unknown: Seq<int>,
    missing: Seq<int>,
) -> bool {
    &&& selects(wrong, args.len() as int, |k: int| !is_first_given(args, k))
    &&& selects(
        unknown,
        args.len() as int,
        |k: int|
            exists|field: Seq<char>| #[trigger]
                gives_first(args, k, field) && !fields.contains(field),
    )
    &&& selects(
        missing,
        fields.len() as int,
        |k: int| !is_given(args, fields[k]) || fields.take(k).contains(fields[k]),
    )
    &&& messages.len() == wrong.len() + unknown.len() + missing.len()
    &&& forall|i: int|
        0 <= i < wrong.len() ==> is_about_arg(#[trigger] messages[i], name, args, wrong[i])
    &&& forall|i: int|
        0 <= i < unknown.len() ==> #[trigger] not_of_struct(
            messages[wrong.len() + i],
            name,
            args[unknown[i]],
        )
    &&& forall|i: int|
        0 <= i < missing.len() ==> messages[wrong.len() + unknown.len() + i] == "struct `"@ + name
            + "` constructor is missing field `"@ + (#[trigger] fields[missing[i]]) + "`"@
}

/// The message that the struct does not have the field that an argument names.
pub open spec fn not_of_struct(message: Seq<char>, name: Seq<char>, e: ExprV) -> bool {
    exists|field: Seq<char>| #[trigger]
        gives_field(e, field) && message == "struct `"@ + name + "` has no field named `"@ + field
            + "`"@
}

proof fn unknown_at(
    name: Seq<char>,
    values: Seq<(Seq<char>, ExprV)>,
    fields: Seq<Seq<char>>,
    n: nat,
)
    requires
        n <= values.len(),
    ensures
        ({
            let at = kept_below(n, |k: int| !fields.contains(values[k].0));
            let out = unknown_fields(name, values.take(n as int), fields);
            out.len() == at.len() && forall|i: int|
                0 <= i < at.len() ==> #[trigger] out[i] == "struct `"@ + name
                    + "` has no field named `"@ + values[at[i]].0 + "`"@
        }),
    decreases n,
{
    if n > 0 {
        let m = (n - 1) as nat;
        unknown_at(name, values, fields, m);
        assert(values.take(n as int).drop_last() =~= values.take(m as int));
        assert(values.take(n as int).last() == values[m as int]);
    }
}

proof fn value_is(values: Seq<(Seq<char>, ExprV)>, field: Seq<char>)
    ensures
        match value_of(values, field) {
            Some(value) => exists|i: int|
                0 <= i < values.len() && #[trigger] values[i] == (field, value),
            None => forall|i: int| 0 <= i < values.len() ==> (#[trigger] values[i]).0 != field,
        },
    decreases values.len(),
{
    if values.len() > 0 {
        let front = values.drop_last();
        value_is(front, field);
        assert(values[values.len() - 1] == values.last());
        assert forall|i: int| 0 <= i < front.len() implies values[i] == #[trigger] front[i] by {}
        if values.last().0 != field {
            match value_of(front, field) {
                Some(value) => {
                    let i = choose|i: int|
                        0 <= i < front.len() && #[trigger] front[i] == (field, value);
                    assert(values[i] == (field, value));
                },
                None => {
                    assert forall|i: int| 0 <= i < values.len() implies (#[trigger] values[i]).0
                        != field by {
                        if i < front.len() {
                            assert(values[i] == front[i]);
                        }
                    }
                },
            }
        } else {
            assert(values[values.len() - 1] == (field, values.last().1));
        }
    }
}

proof fn filled_at(
    name: Seq<char>,
    values: Seq<(Seq<char>, ExprV)>,
    fields: Seq<Seq<char>>,
    n: nat,
)
    requires
        n <= fields.len(),
    ensures
        ({
            let lacks = |k: int|
                value_of(values, fields[k]) is None || fields.take(k).contains(fields[k]);
            let at = kept_below(n, lacks);
            let set = kept_below(n, |k: int| !lacks(k));
            let out = filled(name, values, fields.take(n as int));
            &&& out.errors.len() == at.len()
            &&& forall|i: int|
                0 <= i < at.len() ==> #[trigger] out.errors[i] == "struct `"@ + name
                    + "` constructor is missing field `"@ + fields[at[i]] + "`"@
            &&& out.inits.len() == set.len()
            &&& forall|i: int|
                0 <= i < set.len() ==> (#[trigger] out.inits[i]).name == fields[set[i]]
                    && value_of(values, fields[set[i]]) == Some(out.inits[i].value)
        }),
    decreases n,
{
    if n > 0 {
        let m = (n - 1) as nat;
        filled_at(name, values, fields, m);
        assert(fields.take(n as int).drop_last() =~= fields.take(m as int));
        assert(fields.take(n as int).last() == fields[m as int]);
    }
}

proof fn messages_of(name: Seq<char>, args: Seq<ExprV>, fields: Seq<Seq<char>>) -> (r: (
    Seq<int>,
    Seq<int>,
    Seq<int>,
))
    ensures
        are_messages(
            constructor_errors(name, args, fields),
            name,
            args,
            fields,
            r.0,
            r.1,
            r.2,
        ),
{
    let s = supplied(name, args);
    let first = |k: int| is_first_given(args, k);
    let given = kept_below(args.len(), first);
    kept_below_selects(args.len(), first);
    let is_wrong = |k: int| !is_first_given(args, k);
    let wrong = kept_below(args.len(), is_wrong);
    kept_below_selects(args.len(), is_wrong);
    supplied_at(name, args, args.len());
    assert(args.take(args.len() as int) =~= args);
    // Which of the given fields are unknown.
    let values = s.values;
    let is_unknown = |k: int| !fields.contains(values[k].0);
    let among = kept_below(values.len(), is_unknown);
    kept_below_selects(values.len(), is_unknown);
    unknown_at(name, values, fields, values.len());
    assert(values.take(values.len() as int) =~= values);
    let unknown = taken_at(given, among);
    let strange = |k: int|
        exists|field: Seq<char>| #[trigger]
            gives_first(args, k, field) && !fields.contains(field);
    assert(selects(unknown, args.len() as int, strange)) by {
        assert forall|i: int| 0 <= i < unknown.len() implies 0 <= #[trigger] unknown[i]
            < args.len() && strange(unknown[i]) by {
            let q = among[i];
            assert(0 <= q < values.len() && is_unknown(q));
            assert(unknown[i] == given[q]);
            assert(first(given[q]));
            giving(args[given[q]]);
            assert(gives(args[given[q]], values[q].0, values[q].1));
            let field = choose|field: Seq<char>| #[trigger] gives_first(args, given[q], field);
            assert(field == values[q].0);
            assert(gives_first(args, given[q], field));
        }
        assert forall|i: int, j: int| 0 <= i < j < unknown.len() implies #[trigger] unknown[i]
            < #[trigger] unknown[j] by {
            assert(among[i] < among[j]);
            assert(given[among[i]] < given[among[j]]);
        }
        assert forall|k: int| 0 <= k < args.len() && strange(k) implies
            #[trigger] unknown.contains(k) by {
            let field = choose|field: Seq<char>| #[trigger]
                gives_first(args, k, field) && !fields.contains(field);
            assert(first(k));
            assert(given.contains(k));
            let q = choose|q: int| 0 <= q < given.len() && given[q] == k;
            giving(args[k]);
            assert(gives(args[given[q]], values[q].0, values[q].1));
            assert(is_unknown(q));
            assert(among.contains(q));
            let i = choose|i: int| 0 <= i < among.len() && among[i] == q;
            assert(unknown[i] == k);
        }
    }
    // Which fields are missing.
    let lacks = |k: int|
        value_of(values, fields[k]) is None || fields.take(k).contains(fields[k]);
    let missing = kept_below(fields.len(), lacks);
    kept_below_selects(fields.len(), lacks);
    filled_at(name, values, fields, fields.len());
    assert(fields.take(fields.len() as int) =~= fields);
    let absent = |k: int| !is_given(args, fields[k]) || fields.take(k).contains(fields[k]);
    assert forall|k: int| 0 <= k < fields.len() implies #[trigger] lacks(k) == absent(k) by {
        given_values(name, args, fields[k]);
    }
    same_selection(missing, fields.len() as int, lacks, absent);
    let messages = constructor_errors(name, args, fields);
    let a = s.errors;
    let b = unknown_fields(name, values, fields);
    let c = filled(name, values, fields).errors;
    assert(messages =~= a + b + c);
    assert forall|i: int| 0 <= i < wrong.len() implies is_about_arg(
        #[trigger] messages[i],
        name,
        args,
        wrong[i],
    ) by {
        assert(messages[i] == a[i]);
    }
    assert forall|i: int| 0 <= i < unknown.len() implies #[trigger] not_of_struct(
        messages[wrong.len() + i],
        name,
        args[unknown[i]],
    ) by {
        assert(messages[wrong.len() + i] == b[i]);
        let q = among[i];
        assert(gives(args[given[q]], values[q].0, values[q].1));
        assert(gives_field(args[unknown[i]], values[q].0));
    }
    assert forall|i: int| 0 <= i < missing.len() implies messages[wrong.len() + unknown.len() + i]
        == "struct `"@ + name + "` constructor is missing field `"@ + (
    #[trigger] fields[missing[i]]) + "`"@ by {
        assert(messages[wrong.len() + unknown.len() + i] == c[i]);
    }
    (wrong, unknown, missing)
}

proof fn given_values(name: Seq<char>, args: Seq<ExprV>, field: Seq<char>)
    ensures
        ({
            let values = supplied(name, args).values;
            &&& value_of(values, field) is Some <==> is_given(args, field)
            &&& forall|k: int|
                0 <= k < args.len() && #[trigger] gives_first(args, k, field) ==> gives(
                    args[k],
                    field,
                    value_of(values, field)->0,
                )
        }),
{
    let values = supplied(name, args).values;
    let first = |k: int| is_first_given(args, k);
    let given = kept_below(args.len(), first);
    kept_below_selects(args.len(), first);
    supplied_at(name, args, args.len());
    assert(args.take(args.len() as int) =~= args);
    value_is(values, field);
    match value_of(values, field) {
        Some(value) => {
            let i = choose|i: int| 0 <= i < values.len() && #[trigger] values[i] == (field, value);
            assert(gives(args[given[i]], values[i].0, values[i].1));
            assert(gives_field(args[given[i]], field));
            assert(first(given[i]));
            assert forall|k: int|
                0 <= k < args.len() && #[trigger] gives_first(args, k, field) implies gives(
                args[k],
                field,
                value,
            ) by {
                giving(args[given[i]]);
                let other = choose|other: Seq<char>| #[trigger] gives_first(args, given[i], other);
                assert(other == field);
                if k < given[i] {
                    assert(!gives_field(args[k], field));
                } else if given[i] < k {
                    assert(!gives_field(args[given[i]], field));
                }
                assert(k == given[i]);
            }
        },
        None => {
            if is_given(args, field) {
                let names = value_names(values);
                assert(names.contains(field));
                let i = choose|i: int| 0 <= i < names.len() && names[i] == field;
                assert(values[i].0 == field);
            }
        },
    }
}

// ---------------------------------------------------------------------------
// Laws
// ---------------------------------------------------------------------------

/// Whether an expression constructs the struct `name` by a call with these
/// arguments: `__component_call__("name", args..)`.
pub open spec fn constructs_by_call(e: ExprV, name: Seq<char>, args: Seq<ExprV>) -> bool {
    e.kind matches ExprKindV::Call(c) && refers(*c.callee, "__component_call__"@)
        && c.positional_args.len() > 0 && says(c.positional_args[0], name)
        && c.positional_args.skip(1) == args
}

/// A constructor call of a struct adds the messages about it. Where there are
/// none, of it or of an earlier call, it becomes a struct literal that gives
/// every field, in the order of the struct, the value that the call names for
/// it. Otherwise it stays as it is.
pub proof fn constructor_is_literal(
    s: Seq<DeclV>,
    errors: Seq<Seq<char>>,
    e: ExprV,
    name: Seq<char>,
    args: Seq<ExprV>,
    fields: Seq<Seq<char>>,
) -> (r: (Seq<Seq<char>>, Seq<int>, Seq<int>, Seq<int>))
    requires
        has_struct(s, name, fields),
        constructs_by_call(e, name, args),
    ensures
        ({
            let (messages, wrong, unknown, missing) = r;
            let (out, now) = (literal_rule(declared_structs(s, marked_structs(s))).expr)(errors, e);
            &&& are_messages(messages, name, args, fields, wrong, unknown, missing)
            &&& now == errors + messages
            &&& now.len() > 0 ==> out == e
            &&& now.len() == 0 ==> {
                &&& out.span == e.span
                &&& out.ty == TypeV::Unresolved(name)
                &&& out.kind matches ExprKindV::Struct { name: n, fields: inits } && {
                    &&& n == name
                    &&& inits.len() == fields.len()
                    &&& forall|i: int|
                        0 <= i < fields.len() ==> (#[trigger] inits[i]).name == fields[i]
                    &&& forall|i: int, k: int|
                        0 <= i < fields.len() && 0 <= k < args.len() && #[trigger] gives_first(
                            args,
                            k,
                            fields[i],
                        ) ==> gives(args[k], fields[i], inits[i].value)
                }
            }
        }),
{
    struct_is_found(s, name, fields);
    let (wrong, unknown, missing) = messages_of(name, args, fields);
    let messages = constructor_errors(name, args, fields);
    let (out, now) = (literal_rule(declared_structs(s, marked_structs(s))).expr)(errors, e);
    assert(now == errors + messages);
    if now.len() == 0 {
        let values = supplied(name, args).values;
        filled_at(name, values, fields, fields.len());
        assert(fields.take(fields.len() as int) =~= fields);
        let lacks = |k: int|
            value_of(values, fields[k]) is None || fields.take(k).contains(fields[k]);
        let none = kept_below(fields.len(), lacks);
        kept_below_selects(fields.len(), lacks);
        let has = |k: int| !lacks(k);
        let set = kept_below(fields.len(), has);
        kept_below_selects(fields.len(), has);
        assert(none.len() == 0) by {
            let all = filled(name, values, fields).errors;
            assert(messages.len() == 0);
        }
        assert forall|k: int| 0 <= k < fields.len() implies #[trigger] has(k) by {
            if lacks(k) {
                assert(none.contains(k));
            }
        }
        everything_is_kept(fields.len(), has);
        let inits = filled(name, values, fields).inits;
        assert forall|i: int, k: int|
            0 <= i < fields.len() && 0 <= k < args.len() && #[trigger] gives_first(
                args,
                k,
                fields[i],
            ) implies gives(args[k], fields[i], inits[i].value) by {
            given_values(name, args, fields[i]);
            assert(set[i] == i);
            assert(inits[i].name == fields[set[i]]);
        }
    }
    (messages, wrong, unknown, missing)
}

proof fn everything_is_kept(n: nat, keep: spec_fn(int) -> bool)
    requires
        forall|k: int| 0 <= k < n ==> #[trigger] keep(k),
    ensures
        kept_below(n, keep).len() == n,
        forall|k: int| 0 <= k < n ==> #[trigger] kept_below(n, keep)[k] == k,
    decreases n,
{
    if n > 0 {
        everything_is_kept((n - 1) as nat, keep);
        assert(keep(n - 1));
    }
}

/// An expression that constructs no struct of the program stays as it is and
/// brings no message.
pub proof fn other_expressions_stay(s: Seq<DeclV>, errors: Seq<Seq<char>>, e: ExprV)
    requires
        forall|name: Seq<char>, args: Seq<ExprV>, fields: Seq<Seq<char>>|
            #![trigger constructs_by_call(e, name, args), has_struct(s, name, fields)]
            !(constructs_by_call(e, name, args) && has_struct(s, name, fields)),
    ensures
        (literal_rule(declared_structs(s, marked_structs(s))).expr)(errors, e) == (e, errors),
{
    match e.kind {
        ExprKindV::Call(c) => {
            if refers(*c.callee, "__component_call__"@) && c.positional_args.len() > 0 {
                match c.positional_args[0].kind {
                    ExprKindV::Literal(LiteralV::String(name)) => {
                        assert(constructs_by_call(e, name, c.positional_args.skip(1)));
                        let found = struct_fields(declared_structs(s, marked_structs(s)), name);
                        if found is Some {
                            struct_is_found(s, name, found->0);
                        }
                    },
                    _ => {},
                }
            }
        },
        _ => {},
    }
}

/// The markers of structs are dropped before the constructor calls are looked
/// at; a program without markers stays as it is.
pub proof fn only_markers_are_dropped(p: ProgramV) -> (rest: Seq<DeclV>)
    ensures
        is_selection(
            rest,
            p.declarations,
            |i: int| !marks_some_struct(p.declarations[i]),
        ),
        (exists|i: int|
            0 <= i < p.declarations.len() && marks_some_struct(#[trigger] p.declarations[i]))
            ==> structs_lowered(p) == walk_program(
            literal_rule(declared_structs(p.declarations, marked_structs(p.declarations))),
            seq![],
            (ProgramV { declarations: rest, ..p }),
        ),
        (forall|i: int|
            0 <= i < p.declarations.len() ==> !marks_some_struct(#[trigger] p.declarations[i]))
            ==> structs_lowered(p) == (p, Seq::<Seq<char>>::empty()),
{
    let s = p.declarations;
    marked(s);
    let f = |d: DeclV| marked_struct(d) is None;
    filter_is_selection(s, f);
    let a = |i: int| f(s[i]);
    let b = |i: int| !marks_some_struct(s[i]);
    let at = choose|at: Seq<int>| #[trigger]
        selects(at, s.len() as int, a) && s.filter(f) == taken_at(s, at);
    assert forall|i: int| 0 <= i < s.len() implies #[trigger] a(i) == b(i) by {
        marker_is(s[i]);
    }
    same_selection(at, s.len() as int, a, b);
    s.filter(f)
}

} // verus!
