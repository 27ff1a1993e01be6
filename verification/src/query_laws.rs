//! What an engine answers, and in which order it works.

use vstd::prelude::*;

use crate::abi::{builtin_table, native_of, provides, tag_of, NativeType, TypeTag};
use crate::ast::{PrimitiveType, TypeId};
use crate::children::children_rule;
use crate::component::{lookup, registered_is_found, ComponentDefinitionV, PropDefV};
use crate::component_calls::component_rule;
use crate::decls::{declared_fsms, declared_signals};
use crate::engine::{
    components_lowered, error_text, front_lowered, on_lines, parsed, source_compiled,
    source_lowered, source_noted, widgets_lowered, BlincDslError, BlincDslV, CompiledModuleV,
    CompiledSourceV,
};
use crate::fsm_calls::{subscriptions_resolved, triggers_resolved};
use crate::fsm_decls::{markers_injected, with_event_enums, with_interfaces};
use crate::imports::imports_injected;
use crate::match_blocks::match_rule;
use crate::model::{ProgramV, TypeV};
use crate::named_args::named_args_resolved;
use crate::plain::{
    filter_is_selection, is_selection, kept_below, kept_below_selects, same_selection, selects,
    taken_at,
};
use crate::populate::populated;
use crate::project::{
    after_compile, after_parse, first_open, first_open_is_open, is_open, is_visited, stepped,
    walk_from, ProjectStepV, ProjectWalkV,
};
use crate::props::props_bound;
use crate::publish::{components_published, decls_coded};
use crate::queries::{
    declared_deps, ending_in, first_signal, first_unmapped, is_query_plan, module_names, query_text,
    too_many_params, view_deps, view_fsm, with_widget, without_module, QueryError, QueryPlan,
};
use crate::signals::{getter_name, signals_resolved};
use crate::stateful::{merged, program_undecorated};
use crate::styling::styling_rule;
use crate::stylesheet::{sheets, without_sheets};
use crate::text::{decimal, has_suffix};
use crate::unit_return::program_returning;
use crate::validate::validation_errors;
use crate::value_views::views_converted;
use crate::walk::walk_program;
use crate::widget_laws::{defines, definition_is_found, first_definition};

verus! {

// ---------------------------------------------------------------------------
// Types
// ---------------------------------------------------------------------------

/// Just five types cross the interface to the host. Texts cross as pointers,
/// and each of the others as itself.
pub proof fn five_types_cross(ty: TypeV)
    ensures
        ty == TypeV::Primitive(PrimitiveType::Unit) ==> tag_of(ty) == Some(TypeTag::Void)
            && native_of(ty) == Some(NativeType::Void),
        ty == TypeV::Primitive(PrimitiveType::String) ==> tag_of(ty) == Some(TypeTag::String)
            && native_of(ty) == Some(NativeType::Ptr),
        ty == TypeV::Primitive(PrimitiveType::I32) ==> tag_of(ty) == Some(TypeTag::I32)
            && native_of(ty) == Some(NativeType::I32),
        ty == TypeV::Primitive(PrimitiveType::I64) ==> tag_of(ty) == Some(TypeTag::I64)
            && native_of(ty) == Some(NativeType::I64),
        ty == TypeV::Primitive(PrimitiveType::F64) ==> tag_of(ty) == Some(TypeTag::F64)
            && native_of(ty) == Some(NativeType::F64),
        tag_of(ty) is Some || native_of(ty) is Some ==> {
            ||| ty == TypeV::Primitive(PrimitiveType::Unit)
            ||| ty == TypeV::Primitive(PrimitiveType::String)
            ||| ty == TypeV::Primitive(PrimitiveType::I32)
            ||| ty == TypeV::Primitive(PrimitiveType::I64)
            ||| ty == TypeV::Primitive(PrimitiveType::F64)
        },
{
}

/// Colours are set on an overlay as whole numbers and measures as fractions;
/// texts, numbers and their joining are provided with the types that say so.
/// There are twenty-two host functions.
pub proof fn host_functions_have_their_types()
    ensures
        ({
            let text = TypeV::Primitive(PrimitiveType::String);
            let handle = TypeV::Primitive(PrimitiveType::I64);
            let whole = TypeV::Primitive(PrimitiveType::I32);
            let fraction = TypeV::Primitive(PrimitiveType::F64);
            let unit = TypeV::Primitive(PrimitiveType::Unit);
            &&& builtin_table().len() == 22
            &&& provides("$Blinc$text"@, seq![text], unit)
            &&& provides("$Blinc$text_int"@, seq![whole], unit)
            &&& provides("$Blinc$format_int"@, seq![whole], text)
            &&& provides("$Blinc$string_concat"@, seq![text, text], text)
            &&& provides("$Blinc$Text$view"@, seq![text], handle)
            &&& provides("$Blinc$Div$view"@, seq![handle, handle, text, handle], handle)
            &&& provides("__set_overlay_bg__"@, seq![handle, handle], unit)
            &&& provides("__set_overlay_border_color__"@, seq![handle, handle], unit)
            &&& provides("__set_overlay_opacity__"@, seq![handle, fraction], unit)
            &&& provides("__set_overlay_corner_radius__"@, seq![handle, fraction], unit)
            &&& provides("__set_overlay_border_width__"@, seq![handle, fraction], unit)
        }),
{
    let text = TypeV::Primitive(PrimitiveType::String);
    let handle = TypeV::Primitive(PrimitiveType::I64);
    let whole = TypeV::Primitive(PrimitiveType::I32);
    let fraction = TypeV::Primitive(PrimitiveType::F64);
    let t = builtin_table();
    assert(t[0].param_types =~= seq![text]);
    assert(t[1].param_types =~= seq![whole]);
    assert(t[10].param_types =~= seq![whole]);
    assert(t[11].param_types =~= seq![text, text]);
    assert(t[12].param_types =~= seq![text]);
    assert(t[13].param_types =~= seq![handle, handle, text, handle]);
    assert(t[17].param_types =~= seq![handle, handle]);
    assert(t[18].param_types =~= seq![handle, fraction]);
    assert(t[19].param_types =~= seq![handle, fraction]);
    assert(t[20].param_types =~= seq![handle, fraction]);
    assert(t[21].param_types =~= seq![handle, handle]);
}

// ---------------------------------------------------------------------------
// Widgets from outside
// ---------------------------------------------------------------------------

/// A widget from outside is found under its name, its view returns a widget,
/// and nothing else that the engine knows is changed.
pub proof fn widget_is_added(dsl: BlincDslV, d: ComponentDefinitionV, other: Seq<char>)
    requires
        other != d.name,
    ensures
        ({
            let now = with_widget(dsl, d);
            &&& lookup(now.components, d.name) == Some(d)
            &&& lookup(now.components, other) == lookup(dsl.components, other)
            &&& forall|symbol: Seq<char>| #[trigger]
                now.value_returning_views.contains(symbol) <==> symbol == d.view_symbol
                    || dsl.value_returning_views.contains(symbol)
            &&& now.fsms == dsl.fsms
            &&& now.compiled_modules == dsl.compiled_modules
            &&& now.compiled_stylesheets == dsl.compiled_stylesheets
            &&& now.stylesheets_queued_up_to == dsl.stylesheets_queued_up_to
            &&& now.declared_signals == dsl.declared_signals
            &&& now.declared_fsms == dsl.declared_fsms
            &&& now.has_stateful_view == dsl.has_stateful_view
            &&& now.stateful_view_deps == dsl.stateful_view_deps
            &&& now.stateful_view_fsms == dsl.stateful_view_fsms
        }),
{
    registered_is_found(dsl.components, d, other);
}

/// Whether a type can be passed as a property.
pub open spec fn can_be_passed(ty: TypeV) -> bool {
    ||| ty == TypeV::Primitive(PrimitiveType::Unit)
    ||| ty == TypeV::Primitive(PrimitiveType::String)
    ||| ty == TypeV::Primitive(PrimitiveType::I32)
    ||| ty == TypeV::Primitive(PrimitiveType::I64)
    ||| ty == TypeV::Primitive(PrimitiveType::F64)
}

proof fn first_that_cannot(props: Seq<PropDefV>)
    ensures
        match first_unmapped(props) {
            Some(i) => 0 <= i < props.len() && !can_be_passed(props[i].ty) && forall|j: int|
                0 <= j < i ==> can_be_passed((#[trigger] props[j]).ty),
            None => forall|j: int| 0 <= j < props.len() ==> can_be_passed((#[trigger] props[j]).ty),
        },
    decreases props.len(),
{
    if props.len() > 0 {
        let front = props.drop_last();
        first_that_cannot(front);
        assert forall|j: int|
            #![trigger props[j]]
            #![trigger front[j]]
            0 <= j < front.len() implies props[j] == front[j] by {}
        assert(props[props.len() - 1] == props.last());
    }
}

/// A query finds the first component of the name. It fails where there is
/// none, then where its view returns no widget, then where it has more than
/// sixteen properties, and then at the first property that cannot be passed.
/// Otherwise it plans to call the view with every property, in their order.
pub proof fn query_goes_by_component(
    dsl: BlincDslV,
    name: Seq<char>,
    d: ComponentDefinitionV,
    i: int,
    r: Result<QueryPlan, QueryError>,
)
    requires
        is_query_plan(dsl, name, r),
    ensures
        (forall|k: int|
            0 <= k < dsl.components.len() ==> (#[trigger] dsl.components[k]).name != name) ==> r
            == Err::<QueryPlan, QueryError>(QueryError::Unknown),
        defines(dsl.components, name, d) ==> {
            let returning = dsl.value_returning_views.contains(d.view_symbol);
            let few = d.props.len() <= 16;
            &&& !returning ==> (r matches Err(QueryError::NotValueReturning(symbol)) && symbol@
                == d.view_symbol)
            &&& returning && !few ==> (r matches Err(QueryError::TooManyProps(n)) && n
                == d.props.len())
            &&& returning && few && 0 <= i < d.props.len() && !can_be_passed(d.props[i].ty) && (
            forall|j: int|
                0 <= j < i ==> can_be_passed((#[trigger] d.props[j]).ty)) ==> (r matches Err(
                QueryError::NoNativeType(k),
            ) && k == i)
            &&& returning && few && (forall|j: int|
                0 <= j < d.props.len() ==> can_be_passed((#[trigger] d.props[j]).ty)) ==> (
            r matches Ok(plan) && plan.view_symbol@ == d.view_symbol && plan.params@.len()
                == d.props.len() && forall|j: int|
                0 <= j < d.props.len() ==> Some(#[trigger] plan.params@[j]) == native_of(
                    d.props[j].ty,
                ))
        },
{
    first_definition(dsl.components, name);
    if defines(dsl.components, name, d) {
        definition_is_found(dsl.components, name, d);
        first_that_cannot(d.props);
        match first_unmapped(d.props) {
            Some(k) => {
                if k < i {
                    assert(!can_be_passed(d.props[k].ty));
                } else if 0 <= i < k {
                    assert(can_be_passed(d.props[i].ty));
                }
            },
            None => {
                assert forall|j: int| 0 <= j < d.props.len() implies native_of(
                    (#[trigger] d.props[j]).ty,
                ) is Some by {
                    assert(can_be_passed(d.props[j].ty));
                }
            },
        }
    }
}

/// The messages about queries and widgets from outside name what they are
/// about.
pub proof fn messages_name_their_subject(name: Seq<char>, e: QueryError, n: nat)
    ensures
        too_many_params(name, n) == "register_extern_widget("@ + name + "): parameter count "@
            + decimal(n) + " exceeds ZRTL_MAX_PARAMS (16)"@,
        e is Unknown ==> query_text(name, e) == "query("@ + name + "): "@
            + "no component named `"@ + name
            + "` is registered — compile DSL source that declares it, or call `register_extern_widget` first"@,
        e matches QueryError::NotValueReturning(symbol) ==> query_text(name, e) == "query("@ + name
            + "): "@ + "component's view symbol `"@ + symbol@
            + "` isn't value-returning — only widget-primitive-rooted views can be queried (legacy `text(...)` bodies produce Unit)"@,
        e matches QueryError::TooManyProps(count) ==> query_text(name, e) == "query("@ + name
            + "): "@ + "component declares "@ + decimal(count as nat)
            + " props, exceeds ZRTL_MAX_PARAMS (16)"@,
        e is NoNativeType ==> query_text(name, e) == "query("@ + name + "): "@
            + "no NativeType mapping for prop type "@,
        e is NullHandle ==> query_text(name, e) == "query("@ + name + "): "@
            + "view returned the null handle (extern build failed)"@,
{
}

/// An error is reported after the stage that it arose in.
pub proof fn errors_name_their_stage(e: BlincDslError)
    ensures
        e matches BlincDslError::Grammar(m) ==> error_text(e) == "blinc grammar compile failed: "@
            + m@,
        e matches BlincDslError::Compile(m) ==> error_text(e) == "blinc compile error: "@ + m@,
        e matches BlincDslError::Runtime(m) ==> error_text(e) == "blinc runtime error: "@ + m@,
        e matches BlincDslError::Io(m) ==> error_text(e) == "blinc source io error: "@ + m@,
{
}

/// Messages are put on lines of their own: a line feed stands between each and
/// the next, and nowhere else.
pub proof fn messages_are_on_lines(s: Seq<Seq<char>>)
    ensures
        on_lines(s) == Seq::new(
            s.len(),
            |i: int|
                if i == 0 {
                    s[i]
                } else {
                    seq!['\n'] + s[i]
                },
        ).flatten(),
    decreases s.len(),
{
    let parts = Seq::new(
        s.len(),
        |i: int|
            if i == 0 {
                s[i]
            } else {
                seq!['\n'] + s[i]
            },
    );
    parts.lemma_flatten_and_flatten_alt_are_equivalent();
    reveal_strlit("\n");
    assert("\n"@ =~= seq!['\n']);
    if s.len() > 0 {
        let front = s.drop_last();
        messages_are_on_lines(front);
        let before = Seq::new(
            front.len(),
            |i: int|
                if i == 0 {
                    front[i]
                } else {
                    seq!['\n'] + front[i]
                },
        );
        before.lemma_flatten_and_flatten_alt_are_equivalent();
        assert(parts.drop_last() =~= before);
        if s.len() == 1 {
            assert(before =~= Seq::<Seq<char>>::empty());
            assert(before.flatten() =~= Seq::<char>::empty());
            assert(parts.flatten() =~= s[0]);
        } else {
            assert(parts.last() == seq!['\n'] + s.last());
            assert(on_lines(front) + "\n"@ + s.last() =~= on_lines(front) + (seq!['\n']
                + s.last()));
        }
    } else {
        assert(parts.flatten() =~= Seq::<char>::empty());
    }
}

// ---------------------------------------------------------------------------
// Compiled files
// ---------------------------------------------------------------------------

/// The functions that are found for a file are those that were noted for it
/// last, and none are found for a file that was not noted.
pub proof fn noted_last_is_found(s: Seq<CompiledModuleV>, path: Seq<char>)
    ensures
        match module_names(s, path) {
            Some(names) => exists|k: int|
                0 <= k < s.len() && (#[trigger] s[k]).path == path && s[k].names == names && forall|
                    j: int,
                |
                    k < j < s.len() ==> (#[trigger] s[j]).path != path,
            None => forall|k: int| 0 <= k < s.len() ==> (#[trigger] s[k]).path != path,
        },
        is_selection(without_module(s, path), s, |k: int| s[k].path != path),
    decreases s.len(),
{
    let f = |m: CompiledModuleV| m.path != path;
    filter_is_selection(s, f);
    let a = |k: int| f(s[k]);
    let b = |k: int| s[k].path != path;
    let at = choose|at: Seq<int>| #[trigger]
        selects(at, s.len() as int, a) && s.filter(f) == taken_at(s, at);
    same_selection(at, s.len() as int, a, b);
    if s.len() > 0 {
        let front = s.drop_last();
        assert(s[s.len() - 1] == s.last());
        assert forall|k: int|
            #![trigger s[k]]
            #![trigger front[k]]
            0 <= k < front.len() implies s[k] == front[k] by {}
        if s.last().path != path {
            noted_last_is_found(front, path);
            match module_names(front, path) {
                Some(names) => {
                    let k = choose|k: int|
                        0 <= k < front.len() && (#[trigger] front[k]).path == path && front[k].names
                            == names && forall|j: int|
                            k < j < front.len() ==> (#[trigger] front[j]).path != path;
                    assert(s[k].path == path);
                },
                None => {},
            }
        }
    }
}

/// The names that end in a suffix are kept in their order.
pub proof fn endings_are_selected(s: Seq<Seq<char>>, suffix: Seq<char>)
    ensures
        is_selection(ending_in(s, suffix), s, |k: int| suffix.is_suffix_of(s[k])),
{
    let f = |name: Seq<char>| has_suffix(name, suffix);
    filter_is_selection(s, f);
    let a = |k: int| f(s[k]);
    let b = |k: int| suffix.is_suffix_of(s[k]);
    let at = choose|at: Seq<int>| #[trigger]
        selects(at, s.len() as int, a) && s.filter(f) == taken_at(s, at);
    assert forall|k: int| 0 <= k < s.len() implies #[trigger] a(k) == b(k) by {
        let name = s[k];
        if suffix.is_suffix_of(name) {
            assert(name.skip(name.len() - suffix.len()) =~= suffix);
        }
        if has_suffix(name, suffix) {
            assert(suffix =~= name.subrange(name.len() - suffix.len(), name.len() as int));
        }
    }
    same_selection(at, s.len() as int, a, b);
}

// ---------------------------------------------------------------------------
// Stateful views
// ---------------------------------------------------------------------------

/// Whether views can follow a signal of a type.
pub open spec fn can_be_followed(ty: TypeV) -> bool {
    ||| ty == TypeV::Primitive(PrimitiveType::I32)
    ||| ty == TypeV::Primitive(PrimitiveType::F64)
    ||| ty == TypeV::Primitive(PrimitiveType::String)
}

/// Whether the first declaration of a signal gives it a type.
pub open spec fn first_declared(
    signals: Seq<(Seq<char>, TypeV)>,
    name: Seq<char>,
    ty: TypeV,
) -> bool {
    exists|k: int|
        0 <= k < signals.len() && #[trigger] signals[k] == (name, ty) && forall|j: int|
            0 <= j < k ==> (#[trigger] signals[j]).0 != name
}

/// Whether the first declaration of a signal gives it a type that views can
/// follow.
pub open spec fn can_follow(signals: Seq<(Seq<char>, TypeV)>, name: Seq<char>) -> bool {
    exists|ty: TypeV| #[trigger] first_declared(signals, name, ty) && can_be_followed(ty)
}

proof fn first_type(signals: Seq<(Seq<char>, TypeV)>, name: Seq<char>)
    ensures
        forall|ty: TypeV| #[trigger]
            first_declared(signals, name, ty) <==> first_signal(signals, name) == Some(ty),
    decreases signals.len(),
{
    if signals.len() > 0 {
        let front = signals.drop_last();
        first_type(front, name);
        assert(signals[signals.len() - 1] == signals.last());
        assert forall|k: int|
            #![trigger signals[k]]
            #![trigger front[k]]
            0 <= k < front.len() implies signals[k] == front[k] by {}
        assert forall|ty: TypeV| #[trigger]
            first_declared(signals, name, ty) <==> first_signal(signals, name) == Some(ty) by {
            match first_signal(front, name) {
                Some(t) => {
                    assert(first_declared(front, name, t));
                    let k = choose|k: int|
                        0 <= k < front.len() && #[trigger] front[k] == (name, t) && forall|j: int|
                            0 <= j < k ==> (#[trigger] front[j]).0 != name;
                    assert(signals[k] == (name, t));
                    assert(first_declared(signals, name, t));
                    if first_declared(signals, name, ty) {
                        let q = choose|q: int|
                            0 <= q < signals.len() && #[trigger] signals[q] == (name, ty)
                                && forall|j: int|
                                0 <= j < q ==> (#[trigger] signals[j]).0 != name;
                        assert(q == k);
                    }
                },
                None => {
                    none_before(front, name);
                    if first_declared(signals, name, ty) {
                        let q = choose|q: int|
                            0 <= q < signals.len() && #[trigger] signals[q] == (name, ty)
                                && forall|j: int|
                                0 <= j < q ==> (#[trigger] signals[j]).0 != name;
                        if q < front.len() {
                            assert(front[q].0 == name);
                        }
                    }
                    if first_signal(signals, name) == Some(ty) {
                        assert(signals[signals.len() - 1] == (name, ty));
                    }
                },
            }
        }
    }
}

proof fn none_before(signals: Seq<(Seq<char>, TypeV)>, name: Seq<char>)
    requires
        first_signal(signals, name) is None,
    ensures
        forall|k: int| 0 <= k < signals.len() ==> (#[trigger] signals[k]).0 != name,
    decreases signals.len(),
{
    if signals.len() > 0 {
        let front = signals.drop_last();
        none_before(front, name);
        assert forall|k: int| 0 <= k < signals.len() implies (#[trigger] signals[k]).0 != name by {
            if k < front.len() {
                assert(front[k] == signals[k]);
            }
        }
    }
}

proof fn deps_at(signals: Seq<(Seq<char>, TypeV)>, names: Seq<Seq<char>>, n: nat)
    requires
        n <= names.len(),
    ensures
        ({
            let at = kept_below(n, |k: int| can_follow(signals, names[k]));
            let f = |d: (Seq<char>, TypeV)| getter_name(d.1) is Some;
            let out = declared_deps(signals, names.take(n as int)).filter(f);
            out.len() == at.len() && forall|i: int|
                0 <= i < at.len() ==> (#[trigger] out[i]).0 == names[at[i]] && first_declared(
                    signals,
                    out[i].0,
                    out[i].1,
                )
        }),
    decreases n,
{
    reveal(Seq::filter);
    let f = |d: (Seq<char>, TypeV)| getter_name(d.1) is Some;
    if n > 0 {
        let m = (n - 1) as nat;
        deps_at(signals, names, m);
        let name = names[m as int];
        first_type(signals, name);
        assert(names.take(n as int).drop_last() =~= names.take(m as int));
        assert(names.take(n as int).last() == name);
        let before = declared_deps(signals, names.take(m as int));
        let now = declared_deps(signals, names.take(n as int));
        match first_signal(signals, name) {
            Some(ty) => {
                assert(first_declared(signals, name, ty));
                assert(now.drop_last() =~= before);
                assert(can_follow(signals, name) <==> can_be_followed(ty));
                assert(f(now.last()) <==> can_be_followed(ty));
            },
            None => {
                assert(!can_follow(signals, name));
            },
        }
    } else {
        assert(declared_deps(signals, names.take(0)).filter(f) =~= Seq::<
            (Seq<char>, TypeV),
        >::empty());
    }
}

/// A stateful view follows the signals that decorators name, with the types of
/// their first declarations, in the order in which they are named; where none
/// is named it follows every declaration of a signal. Only signals of the
/// types that the host has accessors for are followed.
pub proof fn view_follows_signals(dsl: BlincDslV) -> (at: Seq<int>)
    ensures
        ({
            let out = view_deps(dsl);
            let signals = dsl.declared_signals;
            let names = dsl.stateful_view_deps;
            if names.len() == 0 {
                is_selection(out, signals, |k: int| can_be_followed(signals[k].1))
            } else {
                &&& selects(at, names.len() as int, |k: int| can_follow(signals, names[k]))
                &&& out.len() == at.len()
                &&& forall|i: int|
                    0 <= i < at.len() ==> (#[trigger] out[i]).0 == names[at[i]] && first_declared(
                        signals,
                        out[i].0,
                        out[i].1,
                    )
            }
        }),
{
    let signals = dsl.declared_signals;
    let names = dsl.stateful_view_deps;
    let f = |d: (Seq<char>, TypeV)| getter_name(d.1) is Some;
    if names.len() == 0 {
        filter_is_selection(signals, f);
        let a = |k: int| f(signals[k]);
        let b = |k: int| can_be_followed(signals[k].1);
        let at = choose|at: Seq<int>| #[trigger]
            selects(at, signals.len() as int, a) && signals.filter(f) == taken_at(signals, at);
        assert forall|k: int| 0 <= k < signals.len() implies #[trigger] a(k) == b(k) by {}
        same_selection(at, signals.len() as int, a, b);
        at
    } else {
        deps_at(signals, names, names.len());
        assert(names.take(names.len() as int) =~= names);
        let keep = |k: int| can_follow(signals, names[k]);
        kept_below_selects(names.len(), keep);
        kept_below(names.len(), keep)
    }
}

/// A stateful view follows the first machine that decorators name, or else the
/// first that is declared.
pub proof fn view_follows_first_machine(dsl: BlincDslV)
    ensures
        ({
            let all = dsl.stateful_view_fsms + dsl.declared_fsms;
            all.len() > 0 ==> view_fsm(dsl) == Some(all[0])
        }),
        view_fsm(dsl) is None <==> dsl.stateful_view_fsms.len() == 0 && dsl.declared_fsms.len()
            == 0,
{
}

// ---------------------------------------------------------------------------
// Projects
// ---------------------------------------------------------------------------

/// Whether an import waits to be visited: it points to a file that is neither
/// compiled nor being visited.
pub open spec fn waits(
    modules: Seq<CompiledModuleV>,
    w: ProjectWalkV,
    target: Option<Seq<char>>,
) -> bool {
    &&& target is Some
    &&& forall|k: int| 0 <= k < modules.len() ==> (#[trigger] modules[k]).path != target->0
    &&& forall|k: int| 0 <= k < w.visits.len() ==> (#[trigger] w.visits[k]).path != target->0
}

proof fn waiting(modules: Seq<CompiledModuleV>, w: ProjectWalkV, target: Option<Seq<char>>)
    ensures
        waits(modules, w, target) <==> is_open(modules, w.visits, target),
{
    if target is Some {
        let path = target->0;
        noted_last_is_found(modules, path);
        if is_visited(w.visits, path) {
            let k = choose|k: int| 0 <= k < w.visits.len() && (#[trigger] w.visits[k]).path == path;
        } else if exists|k: int| 0 <= k < w.visits.len() && (#[trigger] w.visits[k]).path == path {
            assert(is_visited(w.visits, path));
        }
    }
}

/// The file at hand is parsed first. Then its imports are visited from the
/// first to the last, each if it waits to be; when none is left that does, the
/// file is compiled. Without a file at hand the project is finished.
pub proof fn imports_are_visited_in_order(modules: Seq<CompiledModuleV>, w: ProjectWalkV, i: int)
    ensures
        ({
            let (now, step) = stepped(modules, w);
            let v = w.visits.last();
            &&& w.visits.len() == 0 <==> step is Finished
            &&& w.visits.len() > 0 && v.targets is None ==> step == ProjectStepV::Parse(v.path)
                && now == w
            &&& w.visits.len() > 0 && v.targets is Some ==> {
                let targets = v.targets->0;
                &&& v.next <= i < targets.len() && waits(modules, w, targets[i]) && (forall|j: int|
                    v.next <= j < i ==> !waits(modules, w, #[trigger] targets[j])) ==> {
                    &&& step == ProjectStepV::Parse(targets[i]->0)
                    &&& now.visits.len() == w.visits.len() + 1
                    &&& now.visits.last().path == targets[i]->0
                    &&& now.visits.last().targets is None
                }
                &&& (forall|j: int|
                    v.next <= j < targets.len() ==> !waits(modules, w, #[trigger] targets[j]))
                    ==> step == ProjectStepV::Compile(v.path) && now.visits.len() == w.visits.len()
            }
            &&& now.names == w.names
        }),
{
    if w.visits.len() > 0 {
        let v = w.visits.last();
        if v.targets is Some {
            let targets = v.targets->0;
            first_open_is_open(modules, w.visits, targets, v.next as int);
            assert forall|j: int| 0 <= j < targets.len() implies waits(
                modules,
                w,
                #[trigger] targets[j],
            ) == is_open(modules, w.visits, targets[j]) by {
                waiting(modules, w, targets[j]);
            }
            match first_open(modules, w.visits, targets, v.next as int) {
                Some(q) => {
                    assert(waits(modules, w, targets[q]));
                    if v.next <= i < q {
                        assert(!waits(modules, w, targets[i]));
                    }
                },
                None => {
                    if v.next <= i < targets.len() {
                        assert(!waits(modules, w, targets[i]));
                    }
                },
            }
        }
    }
}

/// The functions of a compiled file go after those of the files that were
/// compiled before it, and the file is no longer at hand. A file that was
/// parsed has its imports yet to be visited.
pub proof fn compiled_functions_are_appended(
    w: ProjectWalkV,
    names: Seq<Seq<char>>,
    targets: Seq<Option<Seq<char>>>,
    path: Seq<char>,
)
    requires
        w.visits.len() > 0,
    ensures
        after_compile(w, names).names == w.names + names,
        after_compile(w, names).visits == w.visits.drop_last(),
        after_parse(w, targets).names == w.names,
        after_parse(w, targets).visits.drop_last() == w.visits.drop_last(),
        after_parse(w, targets).visits.last().path == w.visits.last().path,
        after_parse(w, targets).visits.last().targets == Some(targets),
        after_parse(w, targets).visits.last().next == 0,
        walk_from(path).names.len() == 0,
        walk_from(path).visits.len() == 1,
        walk_from(path).visits[0].path == path,
        walk_from(path).visits[0].targets is None,
{
    assert(after_parse(w, targets).visits.drop_last() =~= w.visits.drop_last());
}

// ---------------------------------------------------------------------------
// Passes
// ---------------------------------------------------------------------------

/// A source is worked on in steps. The descriptions of its machines are marked
/// before events and interfaces are made of them. Matches are lowered before
/// signals are resolved, so that their scrutinees are too, and signals before
/// the calls on machines.
pub proof fn front_passes_run_in_order(p: ProgramV) -> (r: (ProgramV, ProgramV, ProgramV, ProgramV))
    ensures
        ({
            let (described, matched, read, triggered) = r;
            &&& described == with_interfaces(with_event_enums(markers_injected(p)))
            &&& matched == walk_program(match_rule(), (), described).0
            &&& read == signals_resolved(matched)
            &&& triggered == triggers_resolved(read)
            &&& front_lowered(p) == subscriptions_resolved(triggered)
        }),
{
    let described = with_interfaces(with_event_enums(markers_injected(p)));
    let matched = walk_program(match_rule(), (), described).0;
    let read = signals_resolved(matched);
    (described, matched, read, triggers_resolved(read))
}

/// Components are lowered before their properties are bound. Of the arguments
/// of a widget, the children are listed before the styling is gathered, and
/// both before the rest is put in the order of the properties; lists and
/// overlays are numbered from 0.
pub proof fn widget_passes_run_in_order(p: ProgramV, defs: Seq<ComponentDefinitionV>) -> (r: (
    ProgramV,
    ProgramV,
    ProgramV,
))
    ensures
        ({
            let (called, listed, styled) = r;
            &&& called == walk_program(component_rule(defs), (), p).0
            &&& components_lowered(p, defs) == props_bound(called)
            &&& listed == walk_program(children_rule(defs), 0, p).0
            &&& styled == walk_program(styling_rule(defs), 0, listed).0
            &&& widgets_lowered(p, defs) == named_args_resolved(styled, defs)
        }),
{
    let listed = walk_program(children_rule(defs), 0, p).0;
    (
        walk_program(component_rule(defs), (), p).0,
        listed,
        walk_program(styling_rule(defs), 0, listed).0,
    )
}

/// A program with an unknown component is not lowered: the messages about it
/// are all that comes of it. Any other one is lowered in full.
pub proof fn unknown_component_stops_parsing(p: ProgramV, defs: Seq<ComponentDefinitionV>)
    ensures
        ({
            let plain = program_undecorated(front_lowered(p)).0;
            let messages = validation_errors(plain, defs);
            let views = views_converted(components_lowered(plain, defs), Set::empty()).0;
            &&& messages.len() > 0 ==> parsed(p, defs) == Err::<ProgramV, Seq<Seq<char>>>(messages)
            &&& messages.len() == 0 ==> parsed(p, defs) == Ok::<ProgramV, Seq<Seq<char>>>(
                widgets_lowered(views, defs),
            )
        }),
{
}

/// What a source declares is noted after what earlier sources declared, as its
/// own program has it: signals and machines before they are resolved, the
/// names of decorators without repeating any, and stylesheets in their order.
pub proof fn source_is_noted(dsl: BlincDslV, p: ProgramV)
    ensures
        ({
            let (now, out) = source_noted(dsl, p);
            let (plain, found) = program_undecorated(p);
            let front = front_lowered(plain);
            &&& now.declared_signals == dsl.declared_signals + declared_signals(p.declarations)
            &&& now.declared_fsms == dsl.declared_fsms + declared_fsms(p.declarations)
            &&& now.has_stateful_view == (dsl.has_stateful_view || found.found)
            &&& now.stateful_view_deps == merged(dsl.stateful_view_deps, found.signals)
            &&& now.stateful_view_fsms == merged(dsl.stateful_view_fsms, found.fsms)
            &&& now.compiled_stylesheets == dsl.compiled_stylesheets + sheets(front.declarations)
            &&& now.stylesheets_queued_up_to == dsl.stylesheets_queued_up_to
            &&& out.declarations == without_sheets(front.declarations)
            &&& out.type_registry == front.type_registry
        }),
{
}

/// A valid source is lowered in steps: its components with those that were
/// known before, then its machines, which are registered in the module `main`
/// and coded for the runtime, then its own components, which are known from
/// then on, then its views and widgets. In the end every body returns.
pub proof fn source_passes_run_in_order(
    dsl: BlincDslV,
    p: ProgramV,
    ids: Seq<TypeId>,
    offset: u32,
) -> (mid: ProgramV)
    ensures
        ({
            let (now, out, coded) = source_lowered(dsl, p, ids, offset);
            let (with_machines, machines) = populated(
                components_lowered(p, dsl.components),
                dsl.fsms,
                "main"@,
                ids,
            );
            let (converted, symbols) = views_converted(mid, dsl.value_returning_views);
            &&& mid == with_machines
            &&& now.fsms == machines
            &&& coded == decls_coded(mid.declarations, machines, offset, mid.declarations)
            &&& now.components == components_published(
                mid.declarations,
                mid.type_registry,
                dsl.components,
                mid.declarations,
            )
            &&& now.value_returning_views == symbols
            &&& out == program_returning(widgets_lowered(converted, now.components))
            &&& now.declared_signals == dsl.declared_signals
            &&& now.declared_fsms == dsl.declared_fsms
            &&& now.compiled_stylesheets == dsl.compiled_stylesheets
            &&& now.has_stateful_view == dsl.has_stateful_view
            &&& now.stateful_view_deps == dsl.stateful_view_deps
            &&& now.stateful_view_fsms == dsl.stateful_view_fsms
        }),
{
    populated(components_lowered(p, dsl.components), dsl.fsms, "main"@, ids).0
}

/// A source is noted with the views that it imports. Where it calls an unknown
/// component, the engine stays as it is then; otherwise it goes on with the
/// lowered source.
pub proof fn unknown_component_stops_compiling(
    dsl: BlincDslV,
    p: ProgramV,
    imported: Seq<Option<Seq<Seq<char>>>>,
    ids: Seq<TypeId>,
    offset: u32,
)
    ensures
        ({
            let (noted, front) = source_noted(dsl, imports_injected(p, imported));
            let (now, outcome) = source_compiled(dsl, p, imported, ids, offset);
            let messages = validation_errors(front, dsl.components);
            let lowered = source_lowered(noted, front, ids, offset);
            &&& messages.len() > 0 ==> now == noted && outcome == Err::<
                CompiledSourceV,
                Seq<Seq<char>>,
            >(messages)
            &&& messages.len() == 0 ==> now == lowered.0 && outcome is Ok && outcome->Ok_0.program
                == lowered.1 && outcome->Ok_0.fsms == lowered.2
        }),
{
}

} // verus!
