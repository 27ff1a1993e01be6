//! State machines from their descriptions to the registry.

use vstd::prelude::*;
use vstd::string::*;

use crate::ast::{
    copy_types, no_span, stmts_view, views, Block, Call, Decl, DeclKind, EnumDecl, Expr, Function,
    ImplBlock, Method, Param, PrimitiveType, Program, Span, Stmt, StmtKind, Type, TypeDefinition,
    TypeId, Variant, VariantFields, Visibility,
};
use crate::decls::{find_method_has, has_method, map_decls, DeclPass};
use crate::fsm::{
    distinct_ids, empty_fsm, fsm_def, upserted, upserted_is_found, upserting_keeps_ids_distinct,
    EventTransition, EventTransitionV, FsmDefinition, FsmDefinitionV, FsmEntryV, FsmId, FsmIdV,
    FsmRegistry, TickGuard, TickGuardV,
};
use crate::fsm_decls::{get_meta_body, meta_body};
use crate::model::{
    BlockV, CallV, DeclKindV, DeclV, EnumDeclV, ExprV, FunctionV, ImplBlockV, MethodV, ParamV,
    ProgramV, StmtKindV, StmtV, TypeDefinitionV, TypeV, VariantFieldsV, VariantV,
};
use crate::shape::{
    callee_name, calls, get_stmt_call, get_string_arg, integer_expr, new_integer, prim, stmt_call,
    string_arg,
};
use crate::text::{append_decimal, decimal, decimal_injective, same};

verus! {

// ---------------------------------------------------------------------------
// Reading a description
// ---------------------------------------------------------------------------

/// The name of the function that evaluates guard number `index` of a machine.
pub open spec fn guard_name(fsm: Seq<char>, index: nat) -> Seq<char> {
    "__fsm_tick_guard_"@ + fsm + "_"@ + decimal(index) + "__"@
}

/// A guard expression and the name of the function that is to evaluate it.
pub struct LiftedGuardV {
    pub name: Seq<char>,
    pub guard: ExprV,
}

/// A machine with the guards of its ticks.
pub struct DescribedV {
    pub def: FsmDefinitionV,
    pub guards: Seq<LiftedGuardV>,
}

/// A description with one more marker taken into account.
pub open spec fn with_marker(fsm: Seq<char>, d: DescribedV, c: CallV) -> DescribedV {
    let from = string_arg(c, 0);
    let to = string_arg(c, 2);
    if callee_name(c) == Some("__fsm_initial__"@) {
        if from is Some {
            DescribedV { def: FsmDefinitionV { initial: from, ..d.def }, ..d }
        } else {
            d
        }
    } else if callee_name(c) == Some("__fsm_transition__"@) {
        let event = string_arg(c, 1);
        if from is Some && event is Some && to is Some {
            DescribedV {
                def: FsmDefinitionV {
                    transitions: d.def.transitions.push(
                        EventTransitionV {
                            from: from->0,
                            event: event->0,
                            to: to->0,
                            actions: seq![],
                        },
                    ),
                    ..d.def
                },
                ..d
            }
        } else {
            d
        }
    } else if callee_name(c) == Some("__fsm_tick__"@) {
        if from is Some && to is Some {
            let name = guard_name(fsm, d.def.tick_guards.len());
            DescribedV {
                def: FsmDefinitionV {
                    tick_guards: d.def.tick_guards.push(
                        TickGuardV { from: from->0, to: to->0, guard_fn: Some(name) },
                    ),
                    ..d.def
                },
                guards: d.guards.push(LiftedGuardV { name, guard: c.positional_args[1] }),
            }
        } else {
            d
        }
    } else {
        d
    }
}

/// The machine that the statements of a description describe.
pub open spec fn described(fsm: Seq<char>, s: Seq<StmtV>) -> DescribedV
    decreases s.len(),
{
    if s.len() == 0 {
        DescribedV {
            def: FsmDefinitionV { name: Some(fsm), ..empty_fsm() },
            guards: seq![],
        }
    } else {
        let front = described(fsm, s.drop_last());
        match stmt_call(s.last()) {
            Some(c) => with_marker(fsm, front, c),
            None => front,
        }
    }
}

/// The machine that a declaration describes.
pub open spec fn fsm_described(d: DeclV) -> Option<DescribedV> {
    match d.kind {
        DeclKindV::Impl(i) => match meta_body(i) {
            Some(b) => Some(described(i.trait_name, b.statements)),
            None => None,
        },
        _ => None,
    }
}

/// The machines that a list of declarations describes, in order.
pub open spec fn fsms_described(s: Seq<DeclV>) -> Seq<FsmDefinitionV>
    decreases s.len(),
{
    if s.len() == 0 {
        seq![]
    } else {
        let front = fsms_described(s.drop_last());
        match fsm_described(s.last()) {
            Some(d) => front.push(d.def),
            None => front,
        }
    }
}

/// The guards of those machines, in order.
pub open spec fn guards_described(s: Seq<DeclV>) -> Seq<LiftedGuardV>
    decreases s.len(),
{
    if s.len() == 0 {
        seq![]
    } else {
        let front = guards_described(s.drop_last());
        match fsm_described(s.last()) {
            Some(d) => front + d.guards,
            None => front,
        }
    }
}

struct LiftedGuard {
    name: String,
    guard: Expr,
}

impl View for LiftedGuard {
    type V = LiftedGuardV;

    closed spec fn view(&self) -> LiftedGuardV {
        LiftedGuardV { name: self.name@, guard: self.guard@ }
    }
}

fn new_guard_name(fsm: &String, index: usize) -> (r: String)
    ensures
        r@ == guard_name(fsm@, index as nat),
{
    let mut r: String = "__fsm_tick_guard_".to_owned();
    r.append(fsm.as_str());
    r.append("_");
    append_decimal(&mut r, index as u64);
    r.append("__");
    r
}

fn take_marker(fsm: &String, def: &mut FsmDefinition, guards: &mut Vec<LiftedGuard>, c: &Call)
    ensures
        (DescribedV { def: final(def)@, guards: views(final(guards)@) }) == with_marker(
            fsm@,
            (DescribedV { def: old(def)@, guards: views(old(guards)@) }),
            c@,
        ),
{
    let ghost def0 = def@;
    let ghost guards0 = views(guards@);
    if calls(c, "__fsm_initial__") {
        match get_string_arg(c, 0) {
            Some(state) => {
                def.initial = Some(state.clone());
            },
            None => {},
        }
    } else if calls(c, "__fsm_transition__") {
        match (get_string_arg(c, 0), get_string_arg(c, 1), get_string_arg(c, 2)) {
            (Some(from), Some(event), Some(to)) => {
                let actions: Vec<u64> = Vec::new();
                assert(actions@ =~= Seq::<u64>::empty());
                let t = EventTransition {
                    from: from.clone(),
                    event: event.clone(),
                    to: to.clone(),
                    actions,
                };
                def.transitions.push(t);
                assert(views(def.transitions@) =~= def0.transitions.push(t@));
            },
            _ => {},
        }
    } else if calls(c, "__fsm_tick__") {
        match (get_string_arg(c, 0), get_string_arg(c, 2)) {
            (Some(from), Some(to)) => {
                let name = new_guard_name(fsm, def.tick_guards.len());
                assert(c@.positional_args[1] == c.positional_args@[1]@);
                let lifted = LiftedGuard {
                    name: name.clone(),
                    guard: c.positional_args[1].copied(),
                };
                guards.push(lifted);
                assert(views(guards@) =~= guards0.push(lifted@));
                let g = TickGuard { from: from.clone(), to: to.clone(), guard_fn: Some(name) };
                def.tick_guards.push(g);
                assert(views(def.tick_guards@) =~= def0.tick_guards.push(g@));
            },
            _ => {},
        }
    }
}

fn read_description(fsm: &String, statements: &Vec<Stmt>, guards: &mut Vec<LiftedGuard>) -> (def:
    FsmDefinition)
    ensures
        def@ == described(fsm@, stmts_view(statements@)).def,
        views(final(guards)@) == views(old(guards)@) + described(
            fsm@,
            stmts_view(statements@),
        ).guards,
{
    let ghost all = stmts_view(statements@);
    let ghost guards0 = views(guards@);
    let mut def = FsmDefinition::default();
    def.name = Some(fsm.clone());
    let mut mine: Vec<LiftedGuard> = Vec::new();
    assert(views(mine@) =~= described(fsm@, all.take(0)).guards);
    for i in 0..statements.len()
        invariant
            all == stmts_view(statements@),
            (DescribedV { def: def@, guards: views(mine@) }) == described(
                fsm@,
                all.take(i as int),
            ),
    {
        proof {
            assert(all.take(i + 1).drop_last() =~= all.take(i as int));
            assert(all[i as int] == statements@[i as int]@);
        }
        match get_stmt_call(&statements[i]) {
            Some(c) => {
                take_marker(fsm, &mut def, &mut mine, c);
            },
            None => {},
        }
    }
    assert(all.take(all.len() as int) =~= all);
    let ghost added = views(mine@);
    guards.append(&mut mine);
    assert(views(guards@) =~= guards0 + added);
    def
}

fn read_descriptions(decls: &Vec<Decl>, guards: &mut Vec<LiftedGuard>) -> (defs: Vec<
    FsmDefinition,
>)
    ensures
        views(defs@) == fsms_described(views(decls@)),
        views(final(guards)@) == views(old(guards)@) + guards_described(views(decls@)),
{
    let ghost all = views(decls@);
    let ghost guards0 = views(guards@);
    let mut defs: Vec<FsmDefinition> = Vec::new();
    proof {
        assert(views(defs@) =~= fsms_described(all.take(0)));
        assert(guards0 + guards_described(all.take(0)) =~= guards0);
    }
    for i in 0..decls.len()
        invariant
            all == views(decls@),
            views(defs@) == fsms_described(all.take(i as int)),
            views(guards@) == guards0 + guards_described(all.take(i as int)),
    {
        proof {
            assert(all.take(i + 1).drop_last() =~= all.take(i as int));
        }
        match &decls[i].kind {
            DeclKind::Impl(imp) => match get_meta_body(imp) {
                Some(b) => {
                    let ghost before = views(guards@);
                    let def = read_description(&imp.trait_name, &b.statements, guards);
                    proof {
                        assert(fsm_described(all[i as int]) == Some(
                            described(imp.trait_name@, stmts_view(b.statements@)),
                        ));
                        assert(views(defs@.push(def)) =~= views(defs@).push(def@));
                        assert(views(guards@) =~= guards0 + guards_described(all.take(i + 1)));
                    }
                    defs.push(def);
                },
                None => {},
            },
            _ => {},
        }
    }
    assert(all.take(all.len() as int) =~= all);
    defs
}

/// How many machines a program describes: as many type ids
/// [`populate_fsm_registry_pass`] uses.
pub fn count_described(program: &Program) -> (n: usize)
    ensures
        n == fsms_described(program@.declarations).len(),
{
    let mut guards: Vec<LiftedGuard> = Vec::new();
    let defs = read_descriptions(&program.declarations, &mut guards);
    assert(views(defs@).len() == defs@.len());
    defs.len()
}

// ---------------------------------------------------------------------------
// State enums
// ---------------------------------------------------------------------------

/// The position of the first enum called `name`.
pub open spec fn find_enum(s: Seq<DeclV>, name: Seq<char>) -> Option<int>
    decreases s.len(),
{
    if s.len() == 0 {
        None
    } else {
        match find_enum(s.drop_last(), name) {
            Some(i) => Some(i),
            None => match s.last().kind {
                DeclKindV::Enum(e) => if e.name == name {
                    Some(s.len() - 1)
                } else {
                    None
                },
                _ => None,
            },
        }
    }
}

/// A variant of a state enum in the type registry: numbered, and without
/// named fields.
pub open spec fn registered_variant(v: VariantV, i: int) -> VariantV {
    VariantV {
        fields: match v.fields {
            VariantFieldsV::Named(_) => VariantFieldsV::Unit,
            other => other,
        },
        discriminant: Some(i as i64),
        ..v
    }
}

/// The entry of a state enum in the type registry.
pub open spec fn registered_enum(id: TypeId, e: EnumDeclV) -> TypeDefinitionV {
    TypeDefinitionV {
        id,
        name: e.name,
        variants: Some(
            Seq::new(e.variants.len(), |i: int| registered_variant(e.variants[i], i)),
        ),
        span: e.span,
    }
}

/// A program whose first enum called `name` has the type `id` and is
/// registered under it.
pub open spec fn enum_pinned(p: ProgramV, name: Seq<char>, id: TypeId) -> ProgramV {
    match find_enum(p.declarations, name) {
        Some(i) => {
            let d = p.declarations[i];
            ProgramV {
                declarations: p.declarations.update(
                    i,
                    DeclV { ty: TypeV::Named { id, arguments: 0 }, ..d },
                ),
                type_registry: p.type_registry.push(registered_enum(id, d.kind->Enum_0)),
            }
        },
        None => p,
    }
}

/// A program and a registry after the first `n` machines got their ids.
pub open spec fn ids_given(
    p: ProgramV,
    registry: Seq<FsmEntryV>,
    module: Seq<char>,
    defs: Seq<FsmDefinitionV>,
    ids: Seq<TypeId>,
    n: nat,
) -> (ProgramV, Seq<FsmEntryV>)
    decreases n,
{
    if n == 0 {
        (p, registry)
    } else {
        let (p1, r1) = ids_given(p, registry, module, defs, ids, (n - 1) as nat);
        let def = defs[n - 1];
        let id = ids[n - 1];
        (
            enum_pinned(p1, def.name->0, id),
            upserted(r1, FsmIdV { module, type_id: id }, def),
        )
    }
}

fn position_of_enum(decls: &Vec<Decl>, name: &String) -> (r: Option<usize>)
    ensures
        match r {
            Some(i) => i < decls@.len() && find_enum(views(decls@), name@) == Some(i as int)
                && decls@[i as int].kind is Enum,
            None => find_enum(views(decls@), name@) is None,
        },
{
    let ghost all = views(decls@);
    let mut found: Option<usize> = None;
    for i in 0..decls.len()
        invariant
            all == views(decls@),
            match found {
                Some(k) => k < decls@.len() && find_enum(all.take(i as int), name@) == Some(
                    k as int,
                ) && decls@[k as int].kind is Enum,
                None => find_enum(all.take(i as int), name@) is None,
            },
    {
        proof {
            assert(all.take(i + 1).drop_last() =~= all.take(i as int));
        }
        if found.is_none() {
            match &decls[i].kind {
                DeclKind::Enum(e) => {
                    if e.name == *name {
                        found = Some(i);
                    }
                },
                _ => {},
            }
        }
    }
    assert(all.take(all.len() as int) =~= all);
    found
}

/// The first enum called `name`.
pub fn get_enum<'a>(decls: &'a Vec<Decl>, name: &String) -> (r: Option<&'a EnumDecl>)
    ensures
        match r {
            Some(e) => find_enum(views(decls@), name@) is Some && views(decls@)[find_enum(
                views(decls@),
                name@,
            )->0].kind == DeclKindV::Enum(e@),
            None => find_enum(views(decls@), name@) is None,
        },
{
    match position_of_enum(decls, name) {
        Some(i) => {
            assert(views(decls@)[i as int] == decls@[i as int]@);
            match &decls[i].kind {
                DeclKind::Enum(e) => Some(e),
                _ => {
                    assert(false);
                    None
                },
            }
        },
        None => None,
    }
}

fn register_variants(variants: &Vec<Variant>) -> (r: Vec<Variant>)
    ensures
        views(r@) == Seq::new(
            variants@.len(),
            |i: int| registered_variant(views(variants@)[i], i),
        ),
{
    let mut r: Vec<Variant> = Vec::new();
    for i in 0..variants.len()
        invariant
            r@.len() == i,
            forall|k: int|
                0 <= k < i ==> (#[trigger] r@[k])@ == registered_variant(variants@[k]@, k),
    {
        let v = &variants[i];
        let fields = match &v.fields {
            VariantFields::Unit => VariantFields::Unit,
            VariantFields::Tuple(types) => VariantFields::Tuple(copy_types(types)),
            VariantFields::Named(_) => VariantFields::Unit,
        };
        r.push(
            Variant {
                name: v.name.clone(),
                fields,
                discriminant: Some(#[verifier::truncate] (i as i64)),
                span: v.span,
            },
        );
    }
    assert(views(r@) =~= Seq::new(
        variants@.len(),
        |i: int| registered_variant(views(variants@)[i], i),
    ));
    r
}

fn pin_enum(program: &mut Program, name: &String, id: TypeId)
    ensures
        final(program)@ == enum_pinned(old(program)@, name@, id),
{
    let ghost before = program@;
    match position_of_enum(&program.declarations, name) {
        Some(i) => {
            let mut d = program.declarations.remove(i);
            let ghost d0 = d@;
            assert(d0 == before.declarations[i as int]);
            match &d.kind {
                DeclKind::Enum(e) => {
                    let def = TypeDefinition {
                        id,
                        name: e.name.clone(),
                        variants: Some(register_variants(&e.variants)),
                        span: e.span,
                    };
                    assert(def@ == registered_enum(id, e@));
                    program.type_registry.push(def);
                    assert(views(program.type_registry@) =~= before.type_registry.push(def@));
                },
                _ => {
                    assert(false);
                },
            }
            d.ty = Type::Named { id, arguments: 0 };
            program.declarations.insert(i, d);
            assert(views(program.declarations@) =~= before.declarations.update(
                i as int,
                DeclV { ty: TypeV::Named { id, arguments: 0 }, ..d0 },
            ));
        },
        None => {},
    }
}

// ---------------------------------------------------------------------------
// Guard functions
// ---------------------------------------------------------------------------

/// `return n;` of type `i32`.
pub open spec fn return_code(n: i128) -> StmtV {
    StmtV {
        kind: StmtKindV::Return(Some(integer_expr(n, prim(PrimitiveType::I32), no_span()))),
        ty: prim(PrimitiveType::I32),
        span: no_span(),
    }
}

/// The function `fn name() -> i32 { if guard { return 1; } return 0; }`.
pub open spec fn guard_function(g: LiftedGuardV) -> DeclV {
    let test = StmtV {
        kind: StmtKindV::If {
            condition: g.guard,
            then_block: BlockV { statements: seq![return_code(1)], span: no_span() },
            else_block: None,
            span: no_span(),
        },
        ty: prim(PrimitiveType::Unit),
        span: no_span(),
    };
    DeclV {
        kind: DeclKindV::Function(
            FunctionV {
                name: g.name,
                params: seq![],
                return_type: prim(PrimitiveType::I32),
                body: Some(BlockV { statements: seq![test, return_code(0)], span: no_span() }),
                visibility: Visibility::Default,
                is_external: false,
                link_name: None,
                details: 0,
            },
        ),
        ty: TypeV::Unknown,
        span: no_span(),
    }
}

fn new_return_code(n: i128) -> (s: Stmt)
    ensures
        s@ == return_code(n),
{
    let e = new_integer(n, Type::Primitive(PrimitiveType::I32), Span::default());
    Stmt {
        kind: StmtKind::Return(Some(e)),
        ty: Type::Primitive(PrimitiveType::I32),
        span: Span::default(),
    }
}

fn new_guard_function(g: LiftedGuard) -> (d: Decl)
    ensures
        d@ == guard_function(g@),
{
    let LiftedGuard { name, guard } = g;
    let mut inner: Vec<Stmt> = Vec::new();
    inner.push(new_return_code(1));
    assert(stmts_view(inner@) =~= seq![return_code(1)]);
    let then_block = Block { statements: inner, span: Span::default() };
    assert(then_block@ == BlockV { statements: seq![return_code(1)], span: no_span() });
    let test = Stmt {
        kind: StmtKind::If {
            condition: guard,
            then_block,
            else_block: None,
            span: Span::default(),
        },
        ty: Type::Primitive(PrimitiveType::Unit),
        span: Span::default(),
    };
    let mut statements: Vec<Stmt> = Vec::new();
    statements.push(test);
    statements.push(new_return_code(0));
    assert(stmts_view(statements@) =~= seq![test@, return_code(0)]);
    let params: Vec<Param> = Vec::new();
    assert(views(params@) =~= Seq::<ParamV>::empty());
    let f = Function {
        name,
        params,
        return_type: Type::Primitive(PrimitiveType::I32),
        body: Some(Block { statements, span: Span::default() }),
        visibility: Visibility::Default,
        is_external: false,
        link_name: None,
        details: 0,
    };
    Decl { kind: DeclKind::Function(f), ty: Type::Unknown, span: Span::default() }
}

// ---------------------------------------------------------------------------
// The pass
// ---------------------------------------------------------------------------

/// A declaration without machine descriptions.
pub open spec fn decl_without_meta(d: DeclV) -> DeclV {
    match d.kind {
        DeclKindV::Impl(i) => DeclV {
            kind: DeclKindV::Impl(
                ImplBlockV {
                    methods: i.methods.filter(|m: MethodV| m.name != "__fsm_meta__"@),
                    ..i
                },
            ),
            ..d
        },
        _ => d,
    }
}

/// A program and a registry after the machines of the program were registered
/// in `module` under `ids`: their enums have their types, their guards are
/// functions at the end, and their descriptions are gone.
pub open spec fn populated(
    p: ProgramV,
    registry: Seq<FsmEntryV>,
    module: Seq<char>,
    ids: Seq<TypeId>,
) -> (ProgramV, Seq<FsmEntryV>) {
    let defs = fsms_described(p.declarations);
    let guards = guards_described(p.declarations);
    let (p1, r1) = ids_given(p, registry, module, defs, ids, defs.len());
    let all = p1.declarations + Seq::new(guards.len(), |i: int| guard_function(guards[i]));
    (
        ProgramV {
            declarations: Seq::new(all.len(), |i: int| decl_without_meta(all[i])),
            ..p1
        },
        r1,
    )
}

struct StripMeta {}

impl DeclPass for StripMeta {
    closed spec fn result(&self, d: DeclV) -> DeclV {
        decl_without_meta(d)
    }

    fn apply(&self, d: Decl) -> (out: Decl) {
        let Decl { kind, ty, span } = d;
        match kind {
            DeclKind::Impl(i) => {
                let ImplBlock { trait_name, for_type, methods, details } = i;
                Decl {
                    kind: DeclKind::Impl(
                        ImplBlock { trait_name, for_type, methods: strip_meta(methods), details },
                    ),
                    ty,
                    span,
                }
            },
            other => Decl { kind: other, ty, span },
        }
    }
}

fn strip_meta(methods: Vec<Method>) -> (out: Vec<Method>)
    ensures
        views(out@) == views(methods@).filter(|m: MethodV| m.name != "__fsm_meta__"@),
{
    let ghost all = views(methods@);
    let ghost methods0 = methods@;
    let mut out: Vec<Method> = Vec::new();
    proof {
        reveal(Seq::filter);
        assert(views(out@) =~= all.take(0).filter(|m: MethodV| m.name != "__fsm_meta__"@));
    }
    for m in it: methods
        invariant
            it.seq() == methods0,
            all == views(methods0),
            views(out@) == all.take(it.index() as int).filter(
                |m: MethodV| m.name != "__fsm_meta__"@,
            ),
    {
        proof {
            reveal(Seq::filter);
            let i = it.index() as int;
            assert(all.take(i + 1).drop_last() =~= all.take(i));
            assert(m@ == all[i]);
        }
        if !same(&m.name, "__fsm_meta__") {
            assert(views(out@.push(m)) =~= views(out@).push(m@));
            out.push(m);
        }
    }
    assert(all.take(all.len() as int) =~= all);
    out
}

/// Register the machines that a program describes. `ids` holds a fresh type id
/// for every machine.
pub fn populate_fsm_registry_pass(
    program: &mut Program,
    module: &String,
    ids: &Vec<TypeId>,
    registry: &mut FsmRegistry,
)
    requires
        old(registry).wf(),
        fsms_described(old(program)@.declarations).len() <= ids@.len(),
    ensures
        final(registry).wf(),
        (final(program)@, final(registry)@) == populated(
            old(program)@,
            old(registry)@,
            module@,
            ids@,
        ),
{
    let ghost p0 = program@;
    let ghost r0 = registry@;
    let mut guards: Vec<LiftedGuard> = Vec::new();
    let defs = read_descriptions(&program.declarations, &mut guards);
    let ghost all_defs = views(defs@);
    let ghost all_guards = views(guards@);
    proof {
        assert(all_guards =~= guards_described(p0.declarations));
        described_are_named(p0.declarations);
    }
    let ghost defs0 = defs@;
    let mut i: usize = 0;
    for def in it: defs
        invariant
            it.seq() == defs0,
            all_defs == views(defs0),
            i == it.index(),
            all_defs.len() <= ids@.len(),
            forall|k: int| 0 <= k < all_defs.len() ==> (#[trigger] all_defs[k]).name is Some,
            registry.wf(),
            (program@, registry@) == ids_given(p0, r0, module@, all_defs, ids@, i as nat),
    {
        assert(def@ == all_defs[i as int]);
        let given: usize = ids.len();
        assert(i < given);
        let id: TypeId = ids[i];
        match &def.name {
            Some(name) => {
                pin_enum(program, name, id);
            },
            None => {
                assert(false);
            },
        }
        registry.upsert(FsmId { module: module.clone(), type_id: id }, def);
        i = i + 1;
    }
    let ghost p1 = program@;
    let ghost guards0 = guards@;
    let ghost lifted = Seq::new(
        all_guards.len(),
        |k: int| guard_function(all_guards[k]),
    );
    assert(p1.declarations + lifted.take(0) =~= p1.declarations);
    for g in it: guards
        invariant
            it.seq() == guards0,
            all_guards == views(guards0),
            lifted == Seq::new(all_guards.len(), |k: int| guard_function(all_guards[k])),
            program@.type_registry == p1.type_registry,
            program@.declarations == p1.declarations + lifted.take(it.index() as int),
    {
        let ghost k = it.index() as int;
        let ghost before = program@.declarations;
        assert(g@ == all_guards[k]);
        let d = new_guard_function(g);
        program.declarations.push(d);
        proof {
            assert(program@.declarations =~= before.push(d@));
            assert(lifted.take(k + 1) =~= lifted.take(k).push(lifted[k]));
            assert(program@.declarations =~= p1.declarations + lifted.take(k + 1));
        }
    }
    assert(lifted.take(lifted.len() as int) =~= lifted);
    let mut declarations: Vec<Decl> = Vec::new();
    std::mem::swap(&mut program.declarations, &mut declarations);
    program.declarations = map_decls(&StripMeta {  }, declarations);
    proof {
        let all = p1.declarations + lifted;
        assert(program@.declarations =~= Seq::new(all.len(), |k: int| decl_without_meta(all[k])));
    }
}

proof fn described_is_named(fsm: Seq<char>, s: Seq<StmtV>)
    ensures
        described(fsm, s).def.name == Some(fsm),
    decreases s.len(),
{
    if s.len() > 0 {
        described_is_named(fsm, s.drop_last());
    }
}

proof fn described_are_named(s: Seq<DeclV>)
    ensures
        forall|k: int|
            0 <= k < fsms_described(s).len() ==> (#[trigger] fsms_described(s)[k]).name is Some,
    decreases s.len(),
{
    if s.len() > 0 {
        described_are_named(s.drop_last());
        match s.last().kind {
            DeclKindV::Impl(i) => match meta_body(i) {
                Some(b) => {
                    described_is_named(i.trait_name, b.statements);
                },
                None => {},
            },
            _ => {},
        }
    }
}

// ---------------------------------------------------------------------------
// Laws
// ---------------------------------------------------------------------------

/// The guards of a machine have functions of different names, numbered in the
/// order of the guards.
pub proof fn guard_names_differ(fsm: Seq<char>, a: nat, b: nat)
    requires
        a != b,
    ensures
        guard_name(fsm, a) != guard_name(fsm, b),
{
    if guard_name(fsm, a) == guard_name(fsm, b) {
        let n = ("__fsm_tick_guard_"@ + fsm + "_"@).len() as int;
        let t = "__"@.len() as int;
        let x = guard_name(fsm, a);
        let y = guard_name(fsm, b);
        assert(x.subrange(n, x.len() - t) =~= decimal(a));
        assert(y.subrange(n, y.len() - t) =~= decimal(b));
        decimal_injective(a, b);
    }
}

/// Every guard of a described machine has its function: guard number `k` is
/// evaluated by the `k`-th lifted guard, under the same name.
pub proof fn guards_have_functions(fsm: Seq<char>, s: Seq<StmtV>)
    ensures
        described(fsm, s).guards.len() == described(fsm, s).def.tick_guards.len(),
        forall|k: int|
            0 <= k < described(fsm, s).guards.len() ==> (#[trigger] described(
                fsm,
                s,
            ).def.tick_guards[k]).guard_fn == Some(described(fsm, s).guards[k].name)
                && described(fsm, s).guards[k].name == guard_name(fsm, k as nat),
    decreases s.len(),
{
    if s.len() > 0 {
        guards_have_functions(fsm, s.drop_last());
        let front = described(fsm, s.drop_last());
        let now = described(fsm, s);
        assert forall|k: int| 0 <= k < now.guards.len() implies (
        #[trigger] now.def.tick_guards[k]).guard_fn == Some(now.guards[k].name)
            && now.guards[k].name == guard_name(fsm, k as nat) by {
            if k < front.guards.len() {
                assert(now.def.tick_guards[k] == front.def.tick_guards[k]);
                assert(now.guards[k] == front.guards[k]);
            }
        }
    }
}

/// Every machine that a program describes is registered under its id, and the
/// machines with other ids stay as they were.
pub proof fn described_machines_are_registered(
    p: ProgramV,
    registry: Seq<FsmEntryV>,
    module: Seq<char>,
    ids: Seq<TypeId>,
    k: int,
    other: FsmIdV,
)
    requires
        distinct_ids(registry),
        fsms_described(p.declarations).len() <= ids.len(),
        ids.no_duplicates(),
        0 <= k < fsms_described(p.declarations).len(),
        forall|j: int|
            0 <= j < fsms_described(p.declarations).len() ==> other != (FsmIdV {
                module,
                type_id: #[trigger] ids[j],
            }),
    ensures
        fsm_def(
            populated(p, registry, module, ids).1,
            (FsmIdV { module, type_id: ids[k] }),
        ) == Some(fsms_described(p.declarations)[k]),
        fsm_def(populated(p, registry, module, ids).1, other) == fsm_def(registry, other),
        distinct_ids(populated(p, registry, module, ids).1),
{
    let defs = fsms_described(p.declarations);
    given_ids_are_found(p, registry, module, defs, ids, defs.len(), k, other);
}

proof fn given_ids_are_found(
    p: ProgramV,
    registry: Seq<FsmEntryV>,
    module: Seq<char>,
    defs: Seq<FsmDefinitionV>,
    ids: Seq<TypeId>,
    n: nat,
    k: int,
    other: FsmIdV,
)
    requires
        distinct_ids(registry),
        n <= defs.len() <= ids.len(),
        ids.no_duplicates(),
        forall|j: int|
            0 <= j < n ==> other != (FsmIdV { module, type_id: #[trigger] ids[j] }),
    ensures
        distinct_ids(ids_given(p, registry, module, defs, ids, n).1),
        0 <= k < n ==> fsm_def(
            ids_given(p, registry, module, defs, ids, n).1,
            (FsmIdV { module, type_id: ids[k] }),
        ) == Some(defs[k]),
        fsm_def(ids_given(p, registry, module, defs, ids, n).1, other) == fsm_def(registry, other),
    decreases n,
{
    if n > 0 {
        let m = (n - 1) as nat;
        given_ids_are_found(p, registry, module, defs, ids, m, k, other);
        let before = ids_given(p, registry, module, defs, ids, m).1;
        let id = FsmIdV { module, type_id: ids[n - 1] };
        upserting_keeps_ids_distinct(before, id, defs[n - 1]);
        upserted_is_found(before, id, defs[n - 1], other);
        if 0 <= k < n - 1 {
            assert(ids[k] != ids[n - 1]);
            upserted_is_found(
                before,
                id,
                defs[n - 1],
                FsmIdV { module, type_id: ids[k] },
            );
        }
    }
}

/// After the pass no declaration describes a machine.
pub proof fn descriptions_are_gone(d: DeclV)
    ensures
        fsm_described(decl_without_meta(d)) is None,
        decl_without_meta(decl_without_meta(d)) == decl_without_meta(d),
{
    match d.kind {
        DeclKindV::Impl(i) => {
            no_meta_left(i.methods);
            let kept = i.methods.filter(|m: MethodV| m.name != "__fsm_meta__"@);
            find_method_has(kept, "__fsm_meta__"@);
        },
        _ => {},
    }
}

proof fn no_meta_left(s: Seq<MethodV>)
    ensures
        !has_method(
            s.filter(|m: MethodV| m.name != "__fsm_meta__"@),
            "__fsm_meta__"@,
        ),
        s.filter(|m: MethodV| m.name != "__fsm_meta__"@).filter(
            |m: MethodV| m.name != "__fsm_meta__"@,
        ) == s.filter(|m: MethodV| m.name != "__fsm_meta__"@),
    decreases s.len(),
{
    reveal(Seq::filter);
    let keep = |m: MethodV| m.name != "__fsm_meta__"@;
    if s.len() > 0 {
        let front = s.drop_last();
        no_meta_left(front);
        let out = s.filter(keep);
        let before = front.filter(keep);
        if has_method(out, "__fsm_meta__"@) {
            let k = choose|k: int|
                0 <= k < out.len() && (#[trigger] out[k]).name == "__fsm_meta__"@;
            if k < before.len() {
                assert(before[k] == out[k]);
            }
        }
        if keep(s.last()) {
            assert(out.drop_last() =~= before);
        }
    }
}

} // verus!
