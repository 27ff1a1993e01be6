//! Views that return the widget they build.

use vstd::prelude::*;

use crate::ast::{
    opt_view, stmts_view, views, Block, Decl, DeclKind, Function, ImplBlock, Method, PrimitiveType,
    Program, Stmt, StmtKind, Type, TypeDefinition, TypeId,
};
use crate::model::{
    BlockV, DeclKindV, DeclV, FunctionV, ImplBlockV, MethodV, ProgramV, StmtKindV, StmtV,
    TypeDefinitionV, TypeV,
};
use crate::name_set::NameSet;
use crate::shape::{callee_name, get_callee_name, get_stmt_call, prim, stmt_call};
use crate::text::{concat, ends_with, has_prefix, has_suffix, opt_text, same, starts_with};

verus! {

// ---------------------------------------------------------------------------
// Names of types
// ---------------------------------------------------------------------------

/// The name under which a type is registered; the last entry of an id counts.
pub open spec fn registered_name(types: Seq<TypeDefinitionV>, id: TypeId) -> Option<Seq<char>>
    decreases types.len(),
{
    if types.len() == 0 {
        None
    } else if types.last().id == id {
        Some(types.last().name)
    } else {
        registered_name(types.drop_last(), id)
    }
}

/// The name of a nominal type.
pub open spec fn nominal_name(types: Seq<TypeDefinitionV>, ty: TypeV) -> Option<Seq<char>> {
    match ty {
        TypeV::Unresolved(name) => Some(name),
        TypeV::Named { id, arguments: _ } => registered_name(types, id),
        _ => None,
    }
}

fn get_registered_name(types: &Vec<TypeDefinition>, id: TypeId) -> (r: Option<String>)
    ensures
        opt_text(r) == registered_name(views(types@), id),
{
    let ghost all = views(types@);
    let mut i: usize = types.len();
    assert(all.take(i as int) =~= all);
    while i > 0
        invariant
            i <= types@.len(),
            all == views(types@),
            registered_name(all, id) == registered_name(all.take(i as int), id),
        decreases i,
    {
        proof {
            assert(all.take(i as int).drop_last() =~= all.take(i - 1));
        }
        i = i - 1;
        if types[i].id == id {
            return Some(types[i].name.clone());
        }
    }
    None
}

pub fn get_nominal_name(types: &Vec<TypeDefinition>, ty: &Type) -> (r: Option<String>)
    ensures
        opt_text(r) == nominal_name(views(types@), ty@),
{
    match ty {
        Type::Unresolved(name) => Some(name.clone()),
        Type::Named { id, arguments: _ } => get_registered_name(types, *id),
        _ => None,
    }
}

// ---------------------------------------------------------------------------
// Bodies
// ---------------------------------------------------------------------------

pub open spec fn is_view_name(name: Seq<char>) -> bool {
    name == "render_view"@ || name == "view"@
}

/// Whether a function returns a widget: a host widget, or a view that is
/// known to.
pub open spec fn returns_widget(symbols: Set<Seq<char>>, name: Seq<char>) -> bool {
    (has_prefix(name, "$Blinc$"@) && has_suffix(name, "$view"@)) || symbols.contains(name)
}

/// Whether a statement is a call of a function that returns a widget.
pub open spec fn is_widget_call(symbols: Set<Seq<char>>, s: StmtV) -> bool {
    match stmt_call(s) {
        Some(c) => match callee_name(c) {
            Some(name) => returns_widget(symbols, name),
            None => false,
        },
        None => false,
    }
}

/// Whether a body ends in a call that returns a widget.
pub open spec fn ends_in_widget(symbols: Set<Seq<char>>, b: Option<BlockV>) -> bool {
    match b {
        Some(block) => block.statements.len() > 0 && is_widget_call(
            symbols,
            block.statements.last(),
        ),
        None => false,
    }
}

/// A body whose last statement, an expression, is returned.
pub open spec fn returning_last(b: Option<BlockV>) -> Option<BlockV> {
    match b {
        Some(block) => {
            let last = block.statements.last();
            Some(
                BlockV {
                    statements: block.statements.drop_last().push(
                        StmtV { kind: StmtKindV::Return(Some(last.kind->Expression_0)), ..last },
                    ),
                    ..block
                },
            )
        },
        None => None,
    }
}

/// A method after the pass, and the symbols that are known to return widgets.
pub open spec fn method_converted(
    owner: Option<Seq<char>>,
    symbols: Set<Seq<char>>,
    m: MethodV,
) -> (MethodV, Set<Seq<char>>) {
    if is_view_name(m.name) && ends_in_widget(symbols, m.body) {
        (
            MethodV { body: returning_last(m.body), return_type: prim(PrimitiveType::I64), ..m },
            match owner {
                Some(t) => symbols.insert(t + "$"@ + m.name),
                None => symbols,
            },
        )
    } else {
        (m, symbols)
    }
}

pub open spec fn methods_converted(
    owner: Option<Seq<char>>,
    symbols: Set<Seq<char>>,
    s: Seq<MethodV>,
) -> (Seq<MethodV>, Set<Seq<char>>)
    decreases s.len(),
{
    if s.len() == 0 {
        (seq![], symbols)
    } else {
        let (front, symbols1) = methods_converted(owner, symbols, s.drop_last());
        let (last, symbols2) = method_converted(owner, symbols1, s.last());
        (front.push(last), symbols2)
    }
}

/// A declaration after the methods of impl blocks are converted.
pub open spec fn impl_converted(
    types: Seq<TypeDefinitionV>,
    symbols: Set<Seq<char>>,
    d: DeclV,
) -> (DeclV, Set<Seq<char>>) {
    match d.kind {
        DeclKindV::Impl(i) => {
            let (methods, symbols1) = methods_converted(
                nominal_name(types, i.for_type),
                symbols,
                i.methods,
            );
            (DeclV { kind: DeclKindV::Impl(ImplBlockV { methods, ..i }), ..d }, symbols1)
        },
        _ => (d, symbols),
    }
}

/// A declaration after free-standing views are converted.
pub open spec fn function_converted(symbols: Set<Seq<char>>, d: DeclV) -> (DeclV, Set<Seq<char>>) {
    match d.kind {
        DeclKindV::Function(f) => if !f.is_external && is_view_name(f.name) && ends_in_widget(
            symbols,
            f.body,
        ) {
            (
                DeclV {
                    kind: DeclKindV::Function(
                        FunctionV {
                            body: returning_last(f.body),
                            return_type: prim(PrimitiveType::I64),
                            ..f
                        },
                    ),
                    ..d
                },
                symbols.insert(f.name),
            )
        } else {
            (d, symbols)
        },
        _ => (d, symbols),
    }
}

pub open spec fn impls_converted(
    types: Seq<TypeDefinitionV>,
    symbols: Set<Seq<char>>,
    s: Seq<DeclV>,
) -> (Seq<DeclV>, Set<Seq<char>>)
    decreases s.len(),
{
    if s.len() == 0 {
        (seq![], symbols)
    } else {
        let (front, symbols1) = impls_converted(types, symbols, s.drop_last());
        let (last, symbols2) = impl_converted(types, symbols1, s.last());
        (front.push(last), symbols2)
    }
}

pub open spec fn functions_converted(symbols: Set<Seq<char>>, s: Seq<DeclV>) -> (
    Seq<DeclV>,
    Set<Seq<char>>,
)
    decreases s.len(),
{
    if s.len() == 0 {
        (seq![], symbols)
    } else {
        let (front, symbols1) = functions_converted(symbols, s.drop_last());
        let (last, symbols2) = function_converted(symbols1, s.last());
        (front.push(last), symbols2)
    }
}

/// A program whose views return the widgets they end in, first those of impl
/// blocks and then the free-standing ones, and the symbols that are known to
/// return widgets afterwards.
pub open spec fn views_converted(p: ProgramV, symbols: Set<Seq<char>>) -> (
    ProgramV,
    Set<Seq<char>>,
) {
    let (first, symbols1) = impls_converted(p.type_registry, symbols, p.declarations);
    let (second, symbols2) = functions_converted(symbols1, first);
    (ProgramV { declarations: second, ..p }, symbols2)
}

// ---------------------------------------------------------------------------
// Carrying it out
// ---------------------------------------------------------------------------

fn named_like_view(name: &String) -> (r: bool)
    ensures
        r == is_view_name(name@),
{
    same(name, "render_view") || same(name, "view")
}

fn body_ends_in_widget(symbols: &NameSet, b: &Option<Block>) -> (r: bool)
    ensures
        r == ends_in_widget(symbols@, opt_view(*b)),
{
    match b {
        Some(block) => {
            assert(opt_view(*b) == Some(block@));
            let n = block.statements.len();
            if n == 0 {
                return false;
            }
            assert(block@.statements.last() == block.statements@[n - 1]@);
            match get_stmt_call(&block.statements[n - 1]) {
                Some(c) => match get_callee_name(c) {
                    Some(name) => (starts_with(name.as_str(), "$Blinc$") && ends_with(
                        name.as_str(),
                        "$view",
                    )) || symbols.contains(name),
                    None => false,
                },
                None => false,
            }
        },
        None => false,
    }
}

fn return_last(b: Option<Block>, Ghost(symbols): Ghost<Set<Seq<char>>>) -> (out: Option<Block>)
    requires
        ends_in_widget(symbols, opt_view(b)),
    ensures
        opt_view(out) == returning_last(opt_view(b)),
{
    match b {
        Some(block) => {
            let ghost b0 = block@;
            let Block { statements, span } = block;
            let mut statements = statements;
            match statements.pop() {
                Some(last) => {
                    assert(stmts_view(statements@) =~= b0.statements.drop_last());
                    let ghost front = stmts_view(statements@);
                    let ghost last0 = last@;
                    let Stmt { kind, ty, span: last_span } = last;
                    match kind {
                        StmtKind::Expression(e) => {
                            assert(last0.kind == StmtKindV::Expression(e@));
                            let s = Stmt { kind: StmtKind::Return(Some(e)), ty, span: last_span };
                            assert(s@.kind == StmtKindV::Return(Some(e@)));
                            statements.push(s);
                            assert(stmts_view(statements@) =~= front.push(s@));
                        },
                        other => {
                            assert(last0 == b0.statements.last());
                            assert(false);
                            statements.push(Stmt { kind: other, ty, span: last_span });
                        },
                    }
                    let r = Block { statements, span };
                    assert(r@ == BlockV { statements: stmts_view(statements@), span });
                    Some(r)
                },
                None => Some(Block { statements, span }),
            }
        },
        None => None,
    }
}

fn convert_method(owner: &Option<String>, symbols: &mut NameSet, m: Method) -> (out: Method)
    ensures
        (out@, final(symbols)@) == method_converted(opt_text(*owner), old(symbols)@, m@),
{
    if named_like_view(&m.name) && body_ends_in_widget(symbols, &m.body) {
        let ghost known = symbols@;
        match owner {
            Some(t) => {
                let prefix = concat(t.as_str(), "$");
                symbols.insert(concat(prefix.as_str(), m.name.as_str()));
            },
            None => {},
        }
        let Method { name, params, return_type: _, body, details } = m;
        Method {
            name,
            params,
            return_type: Type::Primitive(PrimitiveType::I64),
            body: return_last(body, Ghost(known)),
            details,
        }
    } else {
        m
    }
}

fn convert_methods(owner: &Option<String>, symbols: &mut NameSet, v: Vec<Method>) -> (out: Vec<
    Method,
>)
    ensures
        (views(out@), final(symbols)@) == methods_converted(
            opt_text(*owner),
            old(symbols)@,
            views(v@),
        ),
{
    let ghost all = views(v@);
    let ghost v0 = v@;
    let mut out: Vec<Method> = Vec::new();
    assert(views(out@) =~= Seq::<MethodV>::empty());
    for x in it: v
        invariant
            it.seq() == v0,
            all == views(v0),
            (views(out@), symbols@) == methods_converted(
                opt_text(*owner),
                old(symbols)@,
                all.take(it.index() as int),
            ),
    {
        proof {
            let i = it.index() as int;
            assert(all.take(i + 1).drop_last() =~= all.take(i));
            assert(x@ == all[i]);
        }
        let y = convert_method(owner, symbols, x);
        assert(views(out@.push(y)) =~= views(out@).push(y@));
        out.push(y);
    }
    assert(all.take(all.len() as int) =~= all);
    out
}

fn convert_impl(types: &Vec<TypeDefinition>, symbols: &mut NameSet, d: Decl) -> (out: Decl)
    ensures
        (out@, final(symbols)@) == impl_converted(views(types@), old(symbols)@, d@),
{
    let Decl { kind, ty, span } = d;
    match kind {
        DeclKind::Impl(i) => {
            let ImplBlock { trait_name, for_type, methods, details } = i;
            let owner = get_nominal_name(types, &for_type);
            let methods1 = convert_methods(&owner, symbols, methods);
            Decl {
                kind: DeclKind::Impl(
                    ImplBlock { trait_name, for_type, methods: methods1, details },
                ),
                ty,
                span,
            }
        },
        other => Decl { kind: other, ty, span },
    }
}

fn convert_function(symbols: &mut NameSet, d: Decl) -> (out: Decl)
    ensures
        (out@, final(symbols)@) == function_converted(old(symbols)@, d@),
{
    let Decl { kind, ty, span } = d;
    match kind {
        DeclKind::Function(f) => {
            if !f.is_external && named_like_view(&f.name) && body_ends_in_widget(
                symbols,
                &f.body,
            ) {
                let ghost known = symbols@;
                symbols.insert(f.name.clone());
                let mut f1 = f;
                let body = f1.body;
                f1.body = return_last(body, Ghost(known));
                f1.return_type = Type::Primitive(PrimitiveType::I64);
                Decl { kind: DeclKind::Function(f1), ty, span }
            } else {
                Decl { kind: DeclKind::Function(f), ty, span }
            }
        },
        other => Decl { kind: other, ty, span },
    }
}

fn convert_impls(types: &Vec<TypeDefinition>, symbols: &mut NameSet, v: Vec<Decl>) -> (out: Vec<
    Decl,
>)
    ensures
        (views(out@), final(symbols)@) == impls_converted(
            views(types@),
            old(symbols)@,
            views(v@),
        ),
{
    let ghost all = views(v@);
    let ghost v0 = v@;
    let mut out: Vec<Decl> = Vec::new();
    assert(views(out@) =~= Seq::<DeclV>::empty());
    for x in it: v
        invariant
            it.seq() == v0,
            all == views(v0),
            (views(out@), symbols@) == impls_converted(
                views(types@),
                old(symbols)@,
                all.take(it.index() as int),
            ),
    {
        proof {
            let i = it.index() as int;
            assert(all.take(i + 1).drop_last() =~= all.take(i));
            assert(x@ == all[i]);
        }
        let y = convert_impl(types, symbols, x);
        assert(views(out@.push(y)) =~= views(out@).push(y@));
        out.push(y);
    }
    assert(all.take(all.len() as int) =~= all);
    out
}

fn convert_functions(symbols: &mut NameSet, v: Vec<Decl>) -> (out: Vec<Decl>)
    ensures
        (views(out@), final(symbols)@) == functions_converted(old(symbols)@, views(v@)),
{
    let ghost all = views(v@);
    let ghost v0 = v@;
    let mut out: Vec<Decl> = Vec::new();
    assert(views(out@) =~= Seq::<DeclV>::empty());
    for x in it: v
        invariant
            it.seq() == v0,
            all == views(v0),
            (views(out@), symbols@) == functions_converted(
                old(symbols)@,
                all.take(it.index() as int),
            ),
    {
        proof {
            let i = it.index() as int;
            assert(all.take(i + 1).drop_last() =~= all.take(i));
            assert(x@ == all[i]);
        }
        let y = convert_function(symbols, x);
        assert(views(out@.push(y)) =~= views(out@).push(y@));
        out.push(y);
    }
    assert(all.take(all.len() as int) =~= all);
    out
}

/// Make views that end in a call of a widget return that widget's handle, and
/// note their symbols.
pub fn lower_view_to_value_returning(program: &mut Program, symbols: &mut NameSet)
    ensures
        (final(program)@, final(symbols)@) == views_converted(old(program)@, old(symbols)@),
{
    let mut declarations: Vec<Decl> = Vec::new();
    std::mem::swap(&mut program.declarations, &mut declarations);
    let first = convert_impls(&program.type_registry, symbols, declarations);
    program.declarations = convert_functions(symbols, first);
}

// ---------------------------------------------------------------------------
// Laws
// ---------------------------------------------------------------------------

proof fn methods_keep_symbols(owner: Option<Seq<char>>, symbols: Set<Seq<char>>, s: Seq<MethodV>)
    ensures
        symbols.subset_of(methods_converted(owner, symbols, s).1),
    decreases s.len(),
{
    if s.len() > 0 {
        methods_keep_symbols(owner, symbols, s.drop_last());
    }
}

proof fn impls_keep_symbols(types: Seq<TypeDefinitionV>, symbols: Set<Seq<char>>, s: Seq<DeclV>)
    ensures
        symbols.subset_of(impls_converted(types, symbols, s).1),
    decreases s.len(),
{
    if s.len() > 0 {
        impls_keep_symbols(types, symbols, s.drop_last());
        match s.last().kind {
            DeclKindV::Impl(i) => {
                methods_keep_symbols(
                    nominal_name(types, i.for_type),
                    impls_converted(types, symbols, s.drop_last()).1,
                    i.methods,
                );
            },
            _ => {},
        }
    }
}

proof fn functions_keep_symbols(symbols: Set<Seq<char>>, s: Seq<DeclV>)
    ensures
        symbols.subset_of(functions_converted(symbols, s).1),
    decreases s.len(),
{
    if s.len() > 0 {
        functions_keep_symbols(symbols, s.drop_last());
    }
}

/// A symbol that is known to return a widget stays known.
pub proof fn symbols_stay_known(p: ProgramV, symbols: Set<Seq<char>>)
    ensures
        symbols.subset_of(views_converted(p, symbols).1),
{
    impls_keep_symbols(p.type_registry, symbols, p.declarations);
    let (first, symbols1) = impls_converted(p.type_registry, symbols, p.declarations);
    functions_keep_symbols(symbols1, first);
}

} // verus!
