//! View decorators: which signals and machines a view depends on.

use vstd::prelude::*;

use crate::ast::{
    exprs_view, opt_view, stmts_view, views, Block, Decl, DeclKind, Expr, ImplBlock, Method,
    Program, Stmt,
};
use crate::model::{
    BlockV, DeclKindV, DeclV, ExprV, FunctionV, ImplBlockV, MethodV, ProgramV, StmtV,
};
use crate::shape::{
    get_stmt_call, get_string_value, is_stmt_call_of, stmt_call, stmt_calls, string_value,
};
use crate::text::{contains_name, names_view};

verus! {

/// What the decorators of a program ask for.
pub struct StatefulV {
    /// Whether there is a decorator at all.
    pub found: bool,
    /// The signals that views subscribe to, in the order of first mention.
    pub signals: Seq<Seq<char>>,
    /// The machines that views subscribe to, in the order of first mention.
    pub fsms: Seq<Seq<char>>,
}

/// The texts of the string literals among some expressions, in order.
pub open spec fn string_values(s: Seq<ExprV>) -> Seq<Seq<char>>
    decreases s.len(),
{
    if s.len() == 0 {
        seq![]
    } else {
        let front = string_values(s.drop_last());
        match string_value(s.last()) {
            Some(text) => front.push(text),
            None => front,
        }
    }
}

/// A list of names with those of `more` added that are not yet in it.
pub open spec fn merged(list: Seq<Seq<char>>, more: Seq<Seq<char>>) -> Seq<Seq<char>>
    decreases more.len(),
{
    if more.len() == 0 {
        list
    } else {
        let front = merged(list, more.drop_last());
        if front.contains(more.last()) {
            front
        } else {
            front.push(more.last())
        }
    }
}

/// The names that a marker statement passes.
pub open spec fn marker_names(s: StmtV) -> Seq<Seq<char>> {
    string_values(stmt_call(s)->0.positional_args)
}

/// The statements after the leading decorators, and what those ask for on top
/// of `acc`. Decorators of both kinds may come in any order.
pub open spec fn undecorated(s: Seq<StmtV>, acc: StatefulV) -> (Seq<StmtV>, StatefulV)
    decreases s.len(),
{
    if s.len() == 0 {
        (s, acc)
    } else if is_stmt_call_of(s[0], "__stateful_view__"@) {
        undecorated(
            s.skip(1),
            StatefulV { found: true, signals: merged(acc.signals, marker_names(s[0])), ..acc },
        )
    } else if is_stmt_call_of(s[0], "__fsm_view__"@) {
        undecorated(
            s.skip(1),
            StatefulV { found: true, fsms: merged(acc.fsms, marker_names(s[0])), ..acc },
        )
    } else {
        (s, acc)
    }
}

pub open spec fn body_undecorated(b: Option<BlockV>, acc: StatefulV) -> (
    Option<BlockV>,
    StatefulV,
) {
    match b {
        Some(block) => {
            let (statements, acc1) = undecorated(block.statements, acc);
            (Some(BlockV { statements, ..block }), acc1)
        },
        None => (None, acc),
    }
}

pub open spec fn methods_undecorated(s: Seq<MethodV>, acc: StatefulV) -> (Seq<MethodV>, StatefulV)
    decreases s.len(),
{
    if s.len() == 0 {
        (seq![], acc)
    } else {
        let (front, acc1) = methods_undecorated(s.drop_last(), acc);
        let (body, acc2) = body_undecorated(s.last().body, acc1);
        (front.push(MethodV { body, ..s.last() }), acc2)
    }
}

pub open spec fn decl_undecorated(d: DeclV, acc: StatefulV) -> (DeclV, StatefulV) {
    match d.kind {
        DeclKindV::Function(f) => {
            let (body, acc1) = body_undecorated(f.body, acc);
            (DeclV { kind: DeclKindV::Function(FunctionV { body, ..f }), ..d }, acc1)
        },
        DeclKindV::Impl(i) => {
            let (methods, acc1) = methods_undecorated(i.methods, acc);
            (DeclV { kind: DeclKindV::Impl(ImplBlockV { methods, ..i }), ..d }, acc1)
        },
        _ => (d, acc),
    }
}

pub open spec fn decls_undecorated(s: Seq<DeclV>, acc: StatefulV) -> (Seq<DeclV>, StatefulV)
    decreases s.len(),
{
    if s.len() == 0 {
        (seq![], acc)
    } else {
        let (front, acc1) = decls_undecorated(s.drop_last(), acc);
        let (last, acc2) = decl_undecorated(s.last(), acc1);
        (front.push(last), acc2)
    }
}

pub open spec fn nothing_stateful() -> StatefulV {
    StatefulV { found: false, signals: seq![], fsms: seq![] }
}

/// A program without its view decorators, and what those ask for.
pub open spec fn program_undecorated(p: ProgramV) -> (ProgramV, StatefulV) {
    let (declarations, found) = decls_undecorated(p.declarations, nothing_stateful());
    (ProgramV { declarations, ..p }, found)
}

struct Stateful {
    found: bool,
    signals: Vec<String>,
    fsms: Vec<String>,
}

impl View for Stateful {
    type V = StatefulV;

    closed spec fn view(&self) -> StatefulV {
        StatefulV {
            found: self.found,
            signals: names_view(self.signals@),
            fsms: names_view(self.fsms@),
        }
    }
}

fn collect_string_values(v: &Vec<Expr>) -> (r: Vec<String>)
    ensures
        names_view(r@) == string_values(exprs_view(v@)),
{
    let ghost all = exprs_view(v@);
    let mut r: Vec<String> = Vec::new();
    assert(names_view(r@) =~= string_values(all.take(0)));
    for i in 0..v.len()
        invariant
            all == exprs_view(v@),
            names_view(r@) == string_values(all.take(i as int)),
    {
        proof {
            assert(all.take(i + 1).drop_last() =~= all.take(i as int));
            assert(all[i as int] == v@[i as int]@);
        }
        match get_string_value(&v[i]) {
            Some(text) => {
                let owned = text.clone();
                assert(names_view(r@.push(owned)) =~= names_view(r@).push(owned@));
                r.push(owned);
            },
            None => {},
        }
    }
    assert(all.take(all.len() as int) =~= all);
    r
}

pub fn merge_names(list: &mut Vec<String>, more: Vec<String>)
    ensures
        names_view(final(list)@) == merged(names_view(old(list)@), names_view(more@)),
{
    let ghost all = names_view(more@);
    let ghost more0 = more@;
    let ghost list0 = names_view(list@);
    for x in it: more
        invariant
            it.seq() == more0,
            all == names_view(more0),
            names_view(list@) == merged(list0, all.take(it.index() as int)),
    {
        proof {
            let i = it.index() as int;
            assert(all.take(i + 1).drop_last() =~= all.take(i));
            assert(x@ == all[i]);
        }
        if !contains_name(list, &x) {
            assert(names_view(list@.push(x)) =~= names_view(list@).push(x@));
            list.push(x);
        }
    }
    assert(all.take(all.len() as int) =~= all);
}

fn get_marker_names(s: &Stmt) -> (r: Vec<String>)
    requires
        stmt_call(s@) is Some,
    ensures
        names_view(r@) == marker_names(s@),
{
    match get_stmt_call(s) {
        Some(c) => collect_string_values(&c.positional_args),
        None => Vec::new(),
    }
}

fn strip_decorators(b: Block, acc: &mut Stateful) -> (out: Block)
    ensures
        (Some(out@), final(acc)@) == body_undecorated(Some(b@), old(acc)@),
{
    let ghost b0 = b@;
    let ghost acc0 = acc@;
    let Block { statements, span } = b;
    let mut statements = statements;
    loop
        invariant
            undecorated(b0.statements, acc0) == undecorated(stmts_view(statements@), acc@),
        ensures
            undecorated(b0.statements, acc0) == (stmts_view(statements@), acc@),
        decreases statements@.len(),
    {
        let ghost now = stmts_view(statements@);
        if statements.len() == 0 {
            break;
        }
        assert(now[0] == statements@[0]@);
        if stmt_calls(&statements[0], "__stateful_view__") {
            let names = get_marker_names(&statements[0]);
            acc.found = true;
            merge_names(&mut acc.signals, names);
        } else if stmt_calls(&statements[0], "__fsm_view__") {
            let names = get_marker_names(&statements[0]);
            acc.found = true;
            merge_names(&mut acc.fsms, names);
        } else {
            break;
        }
        let _marker = statements.remove(0);
        assert(stmts_view(statements@) =~= now.skip(1));
    }
    Block { statements, span }
}

fn strip_body(b: Option<Block>, acc: &mut Stateful) -> (out: Option<Block>)
    ensures
        (opt_view(out), final(acc)@) == body_undecorated(opt_view(b), old(acc)@),
{
    match b {
        Some(block) => {
            let r = strip_decorators(block, acc);
            Some(r)
        },
        None => None,
    }
}

fn strip_methods(v: Vec<Method>, acc: &mut Stateful) -> (out: Vec<Method>)
    ensures
        (views(out@), final(acc)@) == methods_undecorated(views(v@), old(acc)@),
{
    let ghost all = views(v@);
    let ghost v0 = v@;
    let mut out: Vec<Method> = Vec::new();
    assert(views(out@) =~= Seq::<MethodV>::empty());
    for x in it: v
        invariant
            it.seq() == v0,
            all == views(v0),
            (views(out@), acc@) == methods_undecorated(all.take(it.index() as int), old(acc)@),
    {
        proof {
            let i = it.index() as int;
            assert(all.take(i + 1).drop_last() =~= all.take(i));
            assert(x@ == all[i]);
        }
        let Method { name, params, return_type, body, details } = x;
        let body1 = strip_body(body, acc);
        let y = Method { name, params, return_type, body: body1, details };
        assert(views(out@.push(y)) =~= views(out@).push(y@));
        out.push(y);
    }
    assert(all.take(all.len() as int) =~= all);
    out
}

fn strip_decl(d: Decl, acc: &mut Stateful) -> (out: Decl)
    ensures
        (out@, final(acc)@) == decl_undecorated(d@, old(acc)@),
{
    let Decl { kind, ty, span } = d;
    match kind {
        DeclKind::Function(f) => {
            let mut f1 = f;
            let body = f1.body;
            f1.body = strip_body(body, acc);
            Decl { kind: DeclKind::Function(f1), ty, span }
        },
        DeclKind::Impl(i) => {
            let ImplBlock { trait_name, for_type, methods, details } = i;
            let methods1 = strip_methods(methods, acc);
            Decl {
                kind: DeclKind::Impl(
                    ImplBlock { trait_name, for_type, methods: methods1, details },
                ),
                ty,
                span,
            }
        },
        other => Decl { kind: other, ty, span },
    }
}

/// Take the view decorators out of a program. Returns whether there were any,
/// and the signals and machines that they name. No signal with a decorator
/// there means that views depend on all declared signals.
pub fn detect_and_strip_stateful_views(program: &mut Program) -> (r: (
    bool,
    Vec<String>,
    Vec<String>,
))
    ensures
        final(program)@ == program_undecorated(old(program)@).0,
        program_undecorated(old(program)@).1 == (StatefulV {
            found: r.0,
            signals: names_view(r.1@),
            fsms: names_view(r.2@),
        }),
{
    let mut declarations: Vec<Decl> = Vec::new();
    std::mem::swap(&mut program.declarations, &mut declarations);
    let mut acc = Stateful { found: false, signals: Vec::new(), fsms: Vec::new() };
    let ghost all = views(declarations@);
    let ghost decls0 = declarations@;
    let mut out: Vec<Decl> = Vec::new();
    proof {
        assert(acc@.signals =~= Seq::<Seq<char>>::empty());
        assert(acc@.fsms =~= Seq::<Seq<char>>::empty());
        assert(views(out@) =~= Seq::<DeclV>::empty());
    }
    for x in it: declarations
        invariant
            it.seq() == decls0,
            all == views(decls0),
            (views(out@), acc@) == decls_undecorated(
                all.take(it.index() as int),
                nothing_stateful(),
            ),
    {
        proof {
            let i = it.index() as int;
            assert(all.take(i + 1).drop_last() =~= all.take(i));
            assert(x@ == all[i]);
        }
        let y = strip_decl(x, &mut acc);
        assert(views(out@.push(y)) =~= views(out@).push(y@));
        out.push(y);
    }
    assert(all.take(all.len() as int) =~= all);
    program.declarations = out;
    (acc.found, acc.signals, acc.fsms)
}

// ---------------------------------------------------------------------------
// Laws
// ---------------------------------------------------------------------------

proof fn merged_stays_distinct(list: Seq<Seq<char>>, more: Seq<Seq<char>>)
    requires
        list.no_duplicates(),
    ensures
        merged(list, more).no_duplicates(),
    decreases more.len(),
{
    if more.len() > 0 {
        merged_stays_distinct(list, more.drop_last());
    }
}

proof fn undecorated_stays_distinct(s: Seq<StmtV>, acc: StatefulV)
    requires
        acc.signals.no_duplicates(),
        acc.fsms.no_duplicates(),
    ensures
        undecorated(s, acc).1.signals.no_duplicates(),
        undecorated(s, acc).1.fsms.no_duplicates(),
        undecorated(s, acc).0.len() > 0 ==> !is_stmt_call_of(
            undecorated(s, acc).0[0],
            "__stateful_view__"@,
        ) && !is_stmt_call_of(undecorated(s, acc).0[0], "__fsm_view__"@),
    decreases s.len(),
{
    if s.len() > 0 {
        if is_stmt_call_of(s[0], "__stateful_view__"@) {
            merged_stays_distinct(acc.signals, marker_names(s[0]));
            undecorated_stays_distinct(
                s.skip(1),
                StatefulV { found: true, signals: merged(acc.signals, marker_names(s[0])), ..acc },
            );
        } else if is_stmt_call_of(s[0], "__fsm_view__"@) {
            merged_stays_distinct(acc.fsms, marker_names(s[0]));
            undecorated_stays_distinct(
                s.skip(1),
                StatefulV { found: true, fsms: merged(acc.fsms, marker_names(s[0])), ..acc },
            );
        }
    }
}

proof fn methods_stay_distinct(s: Seq<MethodV>, acc: StatefulV)
    requires
        acc.signals.no_duplicates(),
        acc.fsms.no_duplicates(),
    ensures
        methods_undecorated(s, acc).1.signals.no_duplicates(),
        methods_undecorated(s, acc).1.fsms.no_duplicates(),
    decreases s.len(),
{
    if s.len() > 0 {
        methods_stay_distinct(s.drop_last(), acc);
        let acc1 = methods_undecorated(s.drop_last(), acc).1;
        match s.last().body {
            Some(b) => {
                undecorated_stays_distinct(b.statements, acc1);
            },
            None => {},
        }
    }
}

proof fn decls_stay_distinct(s: Seq<DeclV>, acc: StatefulV)
    requires
        acc.signals.no_duplicates(),
        acc.fsms.no_duplicates(),
    ensures
        decls_undecorated(s, acc).1.signals.no_duplicates(),
        decls_undecorated(s, acc).1.fsms.no_duplicates(),
    decreases s.len(),
{
    if s.len() > 0 {
        decls_stay_distinct(s.drop_last(), acc);
        let acc1 = decls_undecorated(s.drop_last(), acc).1;
        match s.last().kind {
            DeclKindV::Function(f) => match f.body {
                Some(b) => {
                    undecorated_stays_distinct(b.statements, acc1);
                },
                None => {},
            },
            DeclKindV::Impl(i) => {
                methods_stay_distinct(i.methods, acc1);
            },
            _ => {},
        }
    }
}

/// No signal and no machine is listed twice.
pub proof fn dependencies_are_distinct(p: ProgramV)
    ensures
        program_undecorated(p).1.signals.no_duplicates(),
        program_undecorated(p).1.fsms.no_duplicates(),
{
    decls_stay_distinct(p.declarations, nothing_stateful());
}

} // verus!
