//! What is asked of the engine around a compilation: widgets from outside,
//! queries for components, compiled files, and what a view depends on.

use vstd::prelude::*;
use vstd::string::*;

use crate::abi::{
    can_sign, is_signature, native_of, signature_for, type_to_native, NativeType, SymbolSig,
    MAX_PARAMS,
};
use crate::ast::{views, PrimitiveType, Type};
use crate::component::{
    lookup, registered, registered_is_found, ComponentDefinition, ComponentDefinitionV, PropDef,
    PropDefV,
};
use crate::engine::{
    fails_with, BlincDsl, BlincDslError, BlincDslV, CompiledModule, CompiledModuleV,
};
use crate::fsm::FsmId;
use crate::fsm_instance::{
    candidates_of, is_tick_step, next_tick_step, tick_candidates, TickCandidate, TickStep,
};
use crate::model::TypeV;
use crate::signals::getter_name;
use crate::text::{append_decimal, concat, decimal, ends_with, has_suffix, names_view, opt_text};

verus! {

// ---------------------------------------------------------------------------
// Widgets from outside
// ---------------------------------------------------------------------------

/// A widget that is implemented outside of the language.
#[derive(Debug)]
pub struct ExternWidgetSpec {
    pub name: String,
    pub view_symbol: String,
    pub props: Vec<PropDef>,
    pub param_types: Vec<Type>,
    pub return_type: Type,
}

pub open spec fn too_many_params(name: Seq<char>, count: nat) -> Seq<char> {
    "register_extern_widget("@ + name + "): parameter count "@ + decimal(count)
        + " exceeds ZRTL_MAX_PARAMS (16)"@
}

/// An engine that knows the widget.
pub open spec fn with_widget(dsl: BlincDslV, d: ComponentDefinitionV) -> BlincDslV {
    BlincDslV {
        components: registered(dsl.components, d),
        value_returning_views: dsl.value_returning_views.insert(d.view_symbol),
        ..dsl
    }
}

impl BlincDsl {
    /// Make a widget callable and return the signature of its view function.
    /// Fails when it has more parameters than a signature has room for.
    pub fn register_extern_widget_spec(&mut self, spec: ExternWidgetSpec) -> (r: Result<
        SymbolSig,
        BlincDslError,
    >)
        requires
            old(self).wf(),
            spec.param_types@.len() <= MAX_PARAMS ==> can_sign(
                views(spec.param_types@),
                spec.return_type@,
            ),
        ensures
            final(self).wf(),
            if spec.param_types@.len() > MAX_PARAMS {
                final(self)@ == old(self)@ && fails_with(
                    r,
                    too_many_params(spec.name@, spec.param_types@.len()),
                )
            } else {
                &&& final(self)@ == with_widget(
                    old(self)@,
                    (ComponentDefinitionV {
                        name: spec.name@,
                        view_symbol: spec.view_symbol@,
                        props: views(spec.props@),
                    }),
                )
                &&& r matches Ok(sig)
                &&& is_signature(sig, views(spec.param_types@), spec.return_type@)
            },
    {
        let count: usize = spec.param_types.len();
        if count > MAX_PARAMS {
            let mut m: String = "register_extern_widget(".to_owned();
            m.append(spec.name.as_str());
            m.append("): parameter count ");
            append_decimal(&mut m, count as u64);
            m.append(" exceeds ZRTL_MAX_PARAMS (16)");
            return Err(BlincDslError::Compile(m));
        }
        let sig = signature_for(&spec.param_types, &spec.return_type);
        let ExternWidgetSpec { name, view_symbol, props, param_types: _, return_type: _ } = spec;
        self.value_returning_views.insert(view_symbol.clone());
        self.components.register(ComponentDefinition { name, view_symbol, props });
        Ok(sig)
    }
}

// ---------------------------------------------------------------------------
// Queries for components
// ---------------------------------------------------------------------------

/// How a component's view is called: its symbol and the types of its
/// arguments.
#[derive(Debug, PartialEq, Eq)]
pub struct QueryPlan {
    pub view_symbol: String,
    pub params: Vec<NativeType>,
}

/// Why a component cannot be built.
#[derive(Debug, PartialEq, Eq)]
pub enum QueryError {
    /// No component has this name.
    Unknown,
    /// The view of the component, which has this symbol, returns no widget.
    NotValueReturning(String),
    /// The component has this many properties.
    TooManyProps(usize),
    /// The property at this place has a type that cannot be passed.
    NoNativeType(usize),
    /// The view returned the null handle.
    NullHandle,
}

/// The first property whose type cannot be passed.
pub open spec fn first_unmapped(props: Seq<PropDefV>) -> Option<int>
    decreases props.len(),
{
    if props.len() == 0 {
        None
    } else {
        match first_unmapped(props.drop_last()) {
            Some(i) => Some(i),
            None => if native_of(props.last().ty) is None {
                Some(props.len() - 1)
            } else {
                None
            },
        }
    }
}

pub open spec fn natives(props: Seq<PropDefV>) -> Seq<NativeType> {
    Seq::new(props.len(), |i: int| native_of(props[i].ty)->0)
}

fn collect_natives(props: &Vec<PropDef>) -> (r: Result<Vec<NativeType>, usize>)
    ensures
        match r {
            Ok(v) => first_unmapped(views(props@)) is None && v@ == natives(views(props@)),
            Err(i) => first_unmapped(views(props@)) == Some(i as int),
        },
{
    let ghost all = views(props@);
    let mut v: Vec<NativeType> = Vec::new();
    let mut i: usize = 0;
    assert(all.take(0) =~= Seq::<PropDefV>::empty());
    while i < props.len()
        invariant
            i <= props@.len(),
            all == views(props@),
            first_unmapped(all.take(i as int)) is None,
            v@.len() == i,
            forall|k: int| 0 <= k < i ==> #[trigger] v@[k] == natives(all)[k],
        decreases props@.len() - i,
    {
        proof {
            assert(all.take(i + 1).drop_last() =~= all.take(i as int));
            assert(all[i as int] == props@[i as int]@);
        }
        match type_to_native(&props[i].ty) {
            Ok(n) => {
                v.push(n);
            },
            Err(_) => {
                proof {
                    first_unmapped_stable(all, i + 1);
                }
                return Err(i);
            },
        }
        i = i + 1;
    }
    assert(all.take(all.len() as int) =~= all);
    assert(v@ =~= natives(all));
    Ok(v)
}

proof fn first_unmapped_stable(s: Seq<PropDefV>, n: int)
    requires
        0 <= n <= s.len(),
        first_unmapped(s.take(n)) is Some,
    ensures
        first_unmapped(s) == first_unmapped(s.take(n)),
    decreases s.len() - n,
{
    if n < s.len() {
        assert(s.take(n + 1).drop_last() =~= s.take(n));
        first_unmapped_stable(s, n + 1);
    } else {
        assert(s.take(n) =~= s);
    }
}

/// The outcome of planning a query.
pub open spec fn is_query_plan(
    dsl: BlincDslV,
    name: Seq<char>,
    r: Result<QueryPlan, QueryError>,
) -> bool {
    match lookup(dsl.components, name) {
        None => r == Err::<QueryPlan, QueryError>(QueryError::Unknown),
        Some(d) => if !dsl.value_returning_views.contains(d.view_symbol) {
            r matches Err(QueryError::NotValueReturning(symbol)) && symbol@ == d.view_symbol
        } else if d.props.len() > MAX_PARAMS {
            r matches Err(QueryError::TooManyProps(n)) && n == d.props.len()
        } else {
            match first_unmapped(d.props) {
                Some(i) => r matches Err(QueryError::NoNativeType(k)) && k == i,
                None => r matches Ok(plan) && plan.view_symbol@ == d.view_symbol && plan.params@
                    == natives(d.props),
            }
        },
    }
}

/// The message about a query. Where a type cannot be passed, the description
/// of the type is to follow.
pub open spec fn query_text(name: Seq<char>, e: QueryError) -> Seq<char> {
    let start = "query("@ + name + "): "@;
    match e {
        QueryError::Unknown => start + "no component named `"@ + name
            + "` is registered — compile DSL source that declares it, or call `register_extern_widget` first"@,
        QueryError::NotValueReturning(symbol) => start + "component's view symbol `"@ + symbol@
            + "` isn't value-returning — only widget-primitive-rooted views can be queried (legacy `text(...)` bodies produce Unit)"@,
        QueryError::TooManyProps(n) => start + "component declares "@ + decimal(n as nat)
            + " props, exceeds ZRTL_MAX_PARAMS (16)"@,
        QueryError::NoNativeType(_) => start + "no NativeType mapping for prop type "@,
        QueryError::NullHandle => start
            + "view returned the null handle (extern build failed)"@,
    }
}

/// The message about a query that failed.
pub fn query_error_text(name: &String, e: &QueryError) -> (r: String)
    ensures
        r@ == query_text(name@, *e),
{
    let mut m: String = "query(".to_owned();
    m.append(name.as_str());
    m.append("): ");
    match e {
        QueryError::Unknown => {
            m.append("no component named `");
            m.append(name.as_str());
            m.append(
                "` is registered — compile DSL source that declares it, or call `register_extern_widget` first",
            );
        },
        QueryError::NotValueReturning(symbol) => {
            m.append("component's view symbol `");
            m.append(symbol.as_str());
            m.append(
                "` isn't value-returning — only widget-primitive-rooted views can be queried (legacy `text(...)` bodies produce Unit)",
            );
        },
        QueryError::TooManyProps(n) => {
            m.append("component declares ");
            append_decimal(&mut m, *n as u64);
            m.append(" props, exceeds ZRTL_MAX_PARAMS (16)");
        },
        QueryError::NoNativeType(_) => {
            m.append("no NativeType mapping for prop type ");
        },
        QueryError::NullHandle => {
            m.append("view returned the null handle (extern build failed)");
        },
    }
    m
}

/// The handle that a view returned, unless it is null.
pub fn check_handle(handle: i64) -> (r: Result<i64, QueryError>)
    ensures
        r == if handle == 0 {
            Err::<i64, QueryError>(QueryError::NullHandle)
        } else {
            Ok::<i64, QueryError>(handle)
        },
{
    if handle == 0 {
        Err(QueryError::NullHandle)
    } else {
        Ok(handle)
    }
}

impl BlincDsl {
    /// How to call the view of a component to build it. The view must return a
    /// widget, and all properties must be of types that can be passed.
    pub fn query(&self, name: &String) -> (r: Result<QueryPlan, QueryError>)
        ensures
            is_query_plan(self@, name@, r),
    {
        match self.components.get_by_name(name) {
            None => Err(QueryError::Unknown),
            Some(d) => {
                if !self.value_returning_views.contains(&d.view_symbol) {
                    Err(QueryError::NotValueReturning(d.view_symbol.clone()))
                } else if d.props.len() > MAX_PARAMS {
                    Err(QueryError::TooManyProps(d.props.len()))
                } else {
                    match collect_natives(&d.props) {
                        Ok(params) => Ok(
                            QueryPlan { view_symbol: d.view_symbol.clone(), params },
                        ),
                        Err(i) => Err(QueryError::NoNativeType(i)),
                    }
                }
            },
        }
    }

    /// Whether a view function returns a widget handle.
    pub fn is_value_returning(&self, symbol: &String) -> (r: bool)
        ensures
            r == self@.value_returning_views.contains(symbol@),
    {
        self.value_returning_views.contains(symbol)
    }
}

/// The error for a view function that the runtime does not have.
pub fn unregistered_view(symbol: &String) -> (e: BlincDslError)
    ensures
        e matches BlincDslError::Compile(m) && m@ == "view symbol '"@ + symbol@
            + "' not registered in runtime"@,
{
    let mut m: String = "view symbol '".to_owned();
    m.append(symbol.as_str());
    m.append("' not registered in runtime");
    BlincDslError::Compile(m)
}

/// A widget that was registered from outside, with properties that can be
/// passed, can be queried.
pub proof fn registered_widget_can_be_queried(dsl: BlincDslV, d: ComponentDefinitionV)
    requires
        d.props.len() <= MAX_PARAMS,
        first_unmapped(d.props) is None,
    ensures
        forall|r: Result<QueryPlan, QueryError>|
            is_query_plan(with_widget(dsl, d), d.name, r) <==> (r matches Ok(plan)
                && plan.view_symbol@ == d.view_symbol && plan.params@ == natives(d.props)),
{
    // Any other name serves to look up what was registered.
    let other = d.name.push('x');
    assert(other.len() != d.name.len());
    registered_is_found(dsl.components, d, other);
}

/// The symbol of the view of a component.
pub fn component_view_symbol(name: &String) -> (r: String)
    ensures
        r@ == name@ + "$view"@,
{
    concat(name.as_str(), "$view")
}

// ---------------------------------------------------------------------------
// Compiled functions
// ---------------------------------------------------------------------------

/// The names that end in `suffix`.
pub open spec fn ending_in(s: Seq<Seq<char>>, suffix: Seq<char>) -> Seq<Seq<char>> {
    s.filter(|name: Seq<char>| has_suffix(name, suffix))
}

fn names_ending_in(names: &Vec<String>, suffix: &str) -> (r: Vec<String>)
    ensures
        names_view(r@) == ending_in(names_view(names@), suffix@),
{
    let ghost all = names_view(names@);
    let mut r: Vec<String> = Vec::new();
    proof {
        reveal(Seq::filter);
        assert(names_view(r@) =~= ending_in(all.take(0), suffix@));
    }
    for i in 0..names.len()
        invariant
            all == names_view(names@),
            names_view(r@) == ending_in(all.take(i as int), suffix@),
    {
        proof {
            reveal(Seq::filter);
            assert(all.take(i + 1).drop_last() =~= all.take(i as int));
            assert(all[i as int] == names@[i as int]@);
        }
        if ends_with(names[i].as_str(), suffix) {
            let owned = names[i].clone();
            assert(names_view(r@.push(owned)) =~= names_view(r@).push(owned@));
            r.push(owned);
        }
    }
    assert(all.take(all.len() as int) =~= all);
    r
}

/// The view functions among the functions of a source. They are exported, so
/// that later sources can call them.
pub fn view_symbols(names: &Vec<String>) -> (r: Vec<String>)
    ensures
        names_view(r@) == ending_in(names_view(names@), "$view"@),
{
    names_ending_in(names, "$view")
}

/// The initialisers among the functions of a source. They are run once, when
/// the source is compiled.
pub fn init_symbols(names: &Vec<String>) -> (r: Vec<String>)
    ensures
        names_view(r@) == ending_in(names_view(names@), "$__init__"@),
{
    names_ending_in(names, "$__init__")
}

/// The functions of a compiled file.
pub open spec fn module_names(s: Seq<CompiledModuleV>, path: Seq<char>) -> Option<Seq<Seq<char>>>
    decreases s.len(),
{
    if s.len() == 0 {
        None
    } else if s.last().path == path {
        Some(s.last().names)
    } else {
        module_names(s.drop_last(), path)
    }
}

/// The compiled files without the one at `path`.
pub open spec fn without_module(s: Seq<CompiledModuleV>, path: Seq<char>) -> Seq<CompiledModuleV> {
    s.filter(|m: CompiledModuleV| m.path != path)
}

impl BlincDsl {
    /// Note the functions that a file was compiled to, in place of those that
    /// it was compiled to before.
    pub fn record_module(&mut self, path: &String, names: &Vec<String>)
        requires
            old(self).wf(),
        ensures
            final(self).wf(),
            final(self)@ == (BlincDslV {
                compiled_modules: without_module(old(self)@.compiled_modules, path@).push(
                    CompiledModuleV { path: path@, names: names_view(names@) },
                ),
                ..old(self)@
            }),
    {
        let mut modules: Vec<CompiledModule> = Vec::new();
        std::mem::swap(&mut self.compiled_modules, &mut modules);
        let ghost all = views(modules@);
        let ghost modules0 = modules@;
        let mut kept: Vec<CompiledModule> = Vec::new();
        proof {
            reveal(Seq::filter);
            assert(views(kept@) =~= without_module(all.take(0), path@));
        }
        for m in it: modules
            invariant
                it.seq() == modules0,
                all == views(modules0),
                views(kept@) == without_module(all.take(it.index() as int), path@),
        {
            proof {
                reveal(Seq::filter);
                let i = it.index() as int;
                assert(all.take(i + 1).drop_last() =~= all.take(i));
                assert(m@ == all[i]);
            }
            if m.path != *path {
                assert(views(kept@.push(m)) =~= views(kept@).push(m@));
                kept.push(m);
            }
        }
        assert(all.take(all.len() as int) =~= all);
        let m = CompiledModule { path: path.clone(), names: copy_names(names) };
        assert(views(kept@.push(m)) =~= views(kept@).push(m@));
        kept.push(m);
        self.compiled_modules = kept;
    }

    /// The functions that a file was last compiled to.
    pub fn compiled_function_names(&self, path: &String) -> (r: Option<Vec<String>>)
        ensures
            match r {
                Some(names) => module_names(self@.compiled_modules, path@) == Some(
                    names_view(names@),
                ),
                None => module_names(self@.compiled_modules, path@) is None,
            },
    {
        let ghost all = self@.compiled_modules;
        let mut i: usize = self.compiled_modules.len();
        assert(all.take(i as int) =~= all);
        while i > 0
            invariant
                i <= self.compiled_modules@.len(),
                all == self@.compiled_modules,
                module_names(all, path@) == module_names(all.take(i as int), path@),
            decreases i,
        {
            proof {
                assert(all.take(i as int).drop_last() =~= all.take(i - 1));
                assert(all[i - 1] == self.compiled_modules@[i - 1]@);
            }
            i = i - 1;
            if self.compiled_modules[i].path == *path {
                return Some(copy_names(&self.compiled_modules[i].names));
            }
        }
        None
    }

    /// The functions of the files that imports point to, where those are known
    /// and compiled.
    pub fn compiled_imports(&self, paths: &Vec<Option<String>>) -> (r: Vec<Option<Vec<String>>>)
        ensures
            r@.len() == paths@.len(),
            forall|i: int|
                0 <= i < paths@.len() ==> (match #[trigger] r@[i] {
                    Some(names) => paths@[i] is Some && module_names(
                        self@.compiled_modules,
                        paths@[i]->0@,
                    ) == Some(names_view(names@)),
                    None => paths@[i] is None || module_names(
                        self@.compiled_modules,
                        paths@[i]->0@,
                    ) is None,
                }),
    {
        let mut r: Vec<Option<Vec<String>>> = Vec::new();
        for i in 0..paths.len()
            invariant
                r@.len() == i,
                forall|k: int|
                    0 <= k < i ==> (match #[trigger] r@[k] {
                        Some(names) => paths@[k] is Some && module_names(
                            self@.compiled_modules,
                            paths@[k]->0@,
                        ) == Some(names_view(names@)),
                        None => paths@[k] is None || module_names(
                            self@.compiled_modules,
                            paths@[k]->0@,
                        ) is None,
                    }),
        {
            match &paths[i] {
                Some(path) => {
                    r.push(self.compiled_function_names(path));
                },
                None => {
                    r.push(None);
                },
            }
        }
        r
    }
}

pub fn copy_names(v: &Vec<String>) -> (r: Vec<String>)
    ensures
        names_view(r@) == names_view(v@),
{
    let mut r: Vec<String> = Vec::new();
    for i in 0..v.len()
        invariant
            r@.len() == i,
            forall|k: int| 0 <= k < i ==> (#[trigger] r@[k])@ == v@[k]@,
    {
        r.push(v[i].clone());
    }
    assert(names_view(r@) =~= names_view(v@));
    r
}

/// The functions that were noted for a file are those that are found for it,
/// and other files keep theirs.
pub proof fn recorded_module_is_found(
    s: Seq<CompiledModuleV>,
    m: CompiledModuleV,
    other: Seq<char>,
)
    requires
        other != m.path,
    ensures
        module_names(without_module(s, m.path).push(m), m.path) == Some(m.names),
        module_names(without_module(s, m.path).push(m), other) == module_names(s, other),
{
    let kept = without_module(s, m.path);
    assert(kept.push(m).drop_last() =~= kept);
    without_keeps_others(s, m.path, other);
}

proof fn without_keeps_others(s: Seq<CompiledModuleV>, path: Seq<char>, other: Seq<char>)
    requires
        other != path,
    ensures
        module_names(without_module(s, path), other) == module_names(s, other),
    decreases s.len(),
{
    reveal(Seq::filter);
    if s.len() > 0 {
        without_keeps_others(s.drop_last(), path, other);
        let front = without_module(s.drop_last(), path);
        if s.last().path != path {
            assert(without_module(s, path).drop_last() =~= front);
        }
    }
}

// ---------------------------------------------------------------------------
// Stylesheets
// ---------------------------------------------------------------------------

impl BlincDsl {
    /// All stylesheets, in the order of compilation.
    pub fn compiled_stylesheets(&self) -> (r: Vec<String>)
        ensures
            names_view(r@) == self@.compiled_stylesheets,
    {
        copy_names(&self.compiled_stylesheets)
    }

    /// Hand on the stylesheets that were not handed on yet.
    pub fn take_pending_stylesheets(&mut self) -> (r: Vec<String>)
        requires
            old(self).wf(),
        ensures
            final(self).wf(),
            names_view(r@) == pending_stylesheets(old(self)@),
            final(self)@ == all_handed_on(old(self)@),
    {
        let ghost all = self@.compiled_stylesheets;
        let ghost from = self.stylesheets_queued_up_to as int;
        let mut r: Vec<String> = Vec::new();
        assert(names_view(r@) =~= all.subrange(from, from));
        for i in self.stylesheets_queued_up_to..self.compiled_stylesheets.len()
            invariant
                self.wf(),
                all == self@.compiled_stylesheets,
                from == self.stylesheets_queued_up_to,
                names_view(r@) == all.subrange(from, i as int),
        {
            let owned = self.compiled_stylesheets[i].clone();
            proof {
                assert(names_view(r@.push(owned)) =~= names_view(r@).push(owned@));
                assert(all.subrange(from, i + 1) =~= all.subrange(from, i as int).push(
                    all[i as int],
                ));
            }
            r.push(owned);
        }
        assert(all.subrange(from, all.len() as int) =~= all.skip(from));
        self.stylesheets_queued_up_to = self.compiled_stylesheets.len();
        r
    }
}

/// The stylesheets that were not handed on yet.
pub open spec fn pending_stylesheets(dsl: BlincDslV) -> Seq<Seq<char>> {
    dsl.compiled_stylesheets.skip(dsl.stylesheets_queued_up_to as int)
}

/// The engine after all its stylesheets were handed on.
pub open spec fn all_handed_on(dsl: BlincDslV) -> BlincDslV {
    BlincDslV { stylesheets_queued_up_to: dsl.compiled_stylesheets.len() as usize, ..dsl }
}

// ---------------------------------------------------------------------------
// What a view depends on
// ---------------------------------------------------------------------------

/// The type of the first declaration of a signal.
pub open spec fn first_signal(s: Seq<(Seq<char>, TypeV)>, name: Seq<char>) -> Option<TypeV>
    decreases s.len(),
{
    if s.len() == 0 {
        None
    } else {
        match first_signal(s.drop_last(), name) {
            Some(ty) => Some(ty),
            None => if s.last().0 == name {
                Some(s.last().1)
            } else {
                None
            },
        }
    }
}

/// The declared ones among some signal names, in order.
pub open spec fn declared_deps(
    signals: Seq<(Seq<char>, TypeV)>,
    names: Seq<Seq<char>>,
) -> Seq<(Seq<char>, TypeV)>
    decreases names.len(),
{
    if names.len() == 0 {
        seq![]
    } else {
        let front = declared_deps(signals, names.drop_last());
        match first_signal(signals, names.last()) {
            Some(ty) => front.push((names.last(), ty)),
            None => front,
        }
    }
}

/// The signals of types that views can follow.
pub open spec fn followed(s: Seq<(Seq<char>, TypeV)>) -> Seq<(Seq<char>, TypeV)> {
    s.filter(|d: (Seq<char>, TypeV)| getter_name(d.1) is Some)
}

/// The signals that the view follows: those that decorators name, or all
/// declared ones when they name none.
pub open spec fn view_deps(dsl: BlincDslV) -> Seq<(Seq<char>, TypeV)> {
    if dsl.stateful_view_deps.len() == 0 {
        followed(dsl.declared_signals)
    } else {
        followed(declared_deps(dsl.declared_signals, dsl.stateful_view_deps))
    }
}

/// The machine that the view follows: the first that decorators name, or the
/// first declared one when they name none.
pub open spec fn view_fsm(dsl: BlincDslV) -> Option<Seq<char>> {
    if dsl.stateful_view_fsms.len() > 0 {
        Some(dsl.stateful_view_fsms[0])
    } else if dsl.declared_fsms.len() > 0 {
        Some(dsl.declared_fsms[0])
    } else {
        None
    }
}

/// What the view of an engine follows.
#[derive(Debug, PartialEq, Eq)]
pub struct ViewPlan {
    pub deps: Vec<(String, Type)>,
    pub fsm: Option<String>,
}

fn copy_signals(v: &Vec<(String, Type)>) -> (r: Vec<(String, Type)>)
    ensures
        views(r@) == views(v@),
{
    let mut r: Vec<(String, Type)> = Vec::new();
    for i in 0..v.len()
        invariant
            r@.len() == i,
            forall|k: int| 0 <= k < i ==> (#[trigger] r@[k])@ == v@[k]@,
    {
        r.push((v[i].0.clone(), v[i].1.copied()));
    }
    assert(views(r@) =~= views(v@));
    r
}

fn find_first_signal<'a>(v: &'a Vec<(String, Type)>, name: &String) -> (r: Option<&'a Type>)
    ensures
        match r {
            Some(ty) => first_signal(views(v@), name@) == Some(ty@),
            None => first_signal(views(v@), name@) is None,
        },
{
    let ghost all = views(v@);
    let mut found: Option<usize> = None;
    for i in 0..v.len()
        invariant
            all == views(v@),
            match found {
                Some(k) => k < v@.len() && first_signal(all.take(i as int), name@) == Some(
                    v@[k as int].1@,
                ),
                None => first_signal(all.take(i as int), name@) is None,
            },
    {
        proof {
            assert(all.take(i + 1).drop_last() =~= all.take(i as int));
            assert(all[i as int] == (v@[i as int].0@, v@[i as int].1@));
        }
        if found.is_none() && v[i].0 == *name {
            found = Some(i);
        }
    }
    assert(all.take(all.len() as int) =~= all);
    match found {
        Some(k) => Some(&v[k].1),
        None => None,
    }
}

fn collect_declared_deps(signals: &Vec<(String, Type)>, names: &Vec<String>) -> (r: Vec<
    (String, Type),
>)
    ensures
        views(r@) == declared_deps(views(signals@), names_view(names@)),
{
    let ghost all = names_view(names@);
    let ghost known = views(signals@);
    let mut r: Vec<(String, Type)> = Vec::new();
    assert(views(r@) =~= declared_deps(known, all.take(0)));
    for i in 0..names.len()
        invariant
            all == names_view(names@),
            known == views(signals@),
            views(r@) == declared_deps(known, all.take(i as int)),
    {
        proof {
            assert(all.take(i + 1).drop_last() =~= all.take(i as int));
            assert(all[i as int] == names@[i as int]@);
        }
        match find_first_signal(signals, &names[i]) {
            Some(ty) => {
                let d = (names[i].clone(), ty.copied());
                assert(views(r@.push(d)) =~= views(r@).push(d@));
                r.push(d);
            },
            None => {},
        }
    }
    assert(all.take(all.len() as int) =~= all);
    r
}

fn keep_followed(v: Vec<(String, Type)>) -> (r: Vec<(String, Type)>)
    ensures
        views(r@) == followed(views(v@)),
{
    let ghost all = views(v@);
    let ghost v0 = v@;
    let mut r: Vec<(String, Type)> = Vec::new();
    proof {
        reveal(Seq::filter);
        assert(views(r@) =~= followed(all.take(0)));
    }
    for x in it: v
        invariant
            it.seq() == v0,
            all == views(v0),
            views(r@) == followed(all.take(it.index() as int)),
    {
        proof {
            reveal(Seq::filter);
            let i = it.index() as int;
            assert(all.take(i + 1).drop_last() =~= all.take(i));
            assert(x@ == all[i]);
            assert(x@ == (x.0@, x.1@));
        }
        let follows = match x.1 {
            Type::Primitive(PrimitiveType::I32) => true,
            Type::Primitive(PrimitiveType::F64) => true,
            Type::Primitive(PrimitiveType::String) => true,
            _ => false,
        };
        if follows {
            assert(views(r@.push(x)) =~= views(r@).push(x@));
            r.push(x);
        }
    }
    assert(all.take(all.len() as int) =~= all);
    r
}

impl BlincDsl {
    /// The signals that sources declared.
    pub fn declared_signals(&self) -> (r: Vec<(String, Type)>)
        ensures
            views(r@) == self@.declared_signals,
    {
        copy_signals(&self.declared_signals)
    }

    /// The machines that sources declared.
    pub fn declared_fsms(&self) -> (r: Vec<String>)
        ensures
            names_view(r@) == self@.declared_fsms,
    {
        copy_names(&self.declared_fsms)
    }

    /// What the view follows. There is nothing to follow, and the view is built
    /// once, when no view is decorated as stateful.
    pub fn view_plan(&self) -> (r: Option<ViewPlan>)
        ensures
            match r {
                Some(plan) => self@.has_stateful_view && views(plan.deps@) == view_deps(self@)
                    && opt_text(plan.fsm) == view_fsm(self@),
                None => !self@.has_stateful_view,
            },
    {
        if !self.has_stateful_view {
            return None;
        }
        proof {
            assert(self@.stateful_view_deps.len() == self.stateful_view_deps@.len());
            assert(self@.stateful_view_fsms.len() == self.stateful_view_fsms@.len());
            assert(self@.declared_fsms.len() == self.declared_fsms@.len());
        }
        let pool = if self.stateful_view_deps.len() == 0 {
            copy_signals(&self.declared_signals)
        } else {
            collect_declared_deps(&self.declared_signals, &self.stateful_view_deps)
        };
        let deps = keep_followed(pool);
        let fsm: Option<String> = if self.stateful_view_fsms.len() > 0 {
            Some(self.stateful_view_fsms[0].clone())
        } else if self.declared_fsms.len() > 0 {
            Some(self.declared_fsms[0].clone())
        } else {
            None
        };
        Some(ViewPlan { deps, fsm })
    }
}

// ---------------------------------------------------------------------------
// Ticks
// ---------------------------------------------------------------------------

impl BlincDsl {
    /// The guards that a tick evaluates for a machine in the state `current`.
    pub fn tick_candidates(&self, id: &FsmId, current: &str) -> (r: Vec<TickCandidate>)
        requires
            self.wf(),
        ensures
            views(r@) == candidates_of(self@.fsms, id@, current@),
    {
        tick_candidates(&self.fsms, id, current)
    }

    /// What a tick of a machine in the state `current` does next, after its
    /// guards so far came to `outcomes`. Guards are evaluated in order, and the
    /// first that fires decides.
    pub fn step_tick(&self, id: &FsmId, current: &str, outcomes: &Vec<Option<i32>>) -> (r: TickStep)
        requires
            self.wf(),
            outcomes@.len() <= candidates_of(self@.fsms, id@, current@).len(),
        ensures
            is_tick_step(candidates_of(self@.fsms, id@, current@), outcomes@, r),
    {
        let candidates = tick_candidates(&self.fsms, id, current);
        assert(views(candidates@).len() == candidates@.len());
        next_tick_step(&candidates, outcomes)
    }
}

} // verus!
