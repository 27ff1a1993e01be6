//! Reads and writes of signals as calls of host functions.

use vstd::prelude::*;

use crate::ast::{
    copy_exprs, exprs_view, views, BinaryOp, Decl, DeclKind, Expr, ExprKind, PrimitiveType, Program,
    Span, Stmt, Type,
};
use crate::decls::{collect_signals, declared_signals, is_signal_decl, signal_of};
use crate::everywhere::{
    any_state, establish_program, in_call, in_decl, in_decls, in_expr, in_expr_kind, in_exprs,
    in_program, Law,
};
use crate::model::{DeclV, ExprKindV, ExprV, ProgramV, StmtV, TypeV};
use crate::shape::{
    get_receiver_call, get_variable_name, host_call, new_host_call, one, prim, receiver_call,
    string_expr, variable_name,
};
use crate::text::same;
use crate::walk::{rewrite_decls, walk_program, Rewriter, Rule};

verus! {

/// The type of a signal: that of its last declaration.
pub open spec fn signal_type(signals: Seq<(Seq<char>, TypeV)>, name: Seq<char>) -> Option<TypeV>
    decreases signals.len(),
{
    if signals.len() == 0 {
        None
    } else if signals.last().0 == name {
        Some(signals.last().1)
    } else {
        signal_type(signals.drop_last(), name)
    }
}

/// The host function that reads a signal of a type.
pub open spec fn getter_name(ty: TypeV) -> Option<Seq<char>> {
    match ty {
        TypeV::Primitive(PrimitiveType::I32) => Some("__signal_get_i32"@),
        TypeV::Primitive(PrimitiveType::F64) => Some("__signal_get_f64"@),
        TypeV::Primitive(PrimitiveType::String) => Some("__signal_get_string"@),
        _ => None,
    }
}

/// The host function that writes a signal of a type.
pub open spec fn setter_name(ty: TypeV) -> Option<Seq<char>> {
    match ty {
        TypeV::Primitive(PrimitiveType::I32) => Some("__signal_set_i32"@),
        TypeV::Primitive(PrimitiveType::F64) => Some("__signal_set_f64"@),
        TypeV::Primitive(PrimitiveType::String) => Some("__signal_set_string"@),
        _ => None,
    }
}

/// The type of the signal `name` with the host function that writes it.
pub open spec fn signal_setter(signals: Seq<(Seq<char>, TypeV)>, name: Seq<char>) -> Option<
    Seq<char>,
> {
    match signal_type(signals, name) {
        Some(ty) => setter_name(ty),
        None => None,
    }
}

/// `name = value`, `name.set(value)` and `name.get()` on a signal as calls of
/// the host functions for its type; any other expression as it is.
pub open spec fn signal_access(signals: Seq<(Seq<char>, TypeV)>, e: ExprV) -> ExprV {
    match e.kind {
        ExprKindV::Binary { op: BinaryOp::Assign, left, right } => match variable_name(*left) {
            Some(name) => match signal_setter(signals, name) {
                Some(f) => host_call(f, name, seq![*right], prim(PrimitiveType::Unit), e.span),
                None => e,
            },
            None => e,
        },
        _ => match receiver_call(e) {
            Some(c) => match signal_type(signals, c.receiver) {
                Some(ty) => if c.method == "get"@ && c.args.len() == 0 {
                    match getter_name(ty) {
                        Some(f) => host_call(f, c.receiver, seq![], ty, e.span),
                        None => e,
                    }
                } else if c.method == "set"@ && c.args.len() == 1 {
                    match setter_name(ty) {
                        Some(f) => host_call(
                            f,
                            c.receiver,
                            c.args,
                            prim(PrimitiveType::Unit),
                            e.span,
                        ),
                        None => e,
                    }
                } else {
                    e
                },
                None => e,
            },
            None => e,
        },
    }
}

fn find_signal<'a>(signals: &'a Vec<(String, Type)>, name: &String) -> (r: Option<&'a Type>)
    ensures
        match r {
            Some(ty) => signal_type(views(signals@), name@) == Some(ty@),
            None => signal_type(views(signals@), name@) is None,
        },
{
    let ghost all = views(signals@);
    let mut i: usize = signals.len();
    assert(all.take(i as int) =~= all);
    while i > 0
        invariant
            i <= signals@.len(),
            all == views(signals@),
            signal_type(all, name@) == signal_type(all.take(i as int), name@),
        decreases i,
    {
        proof {
            assert(all.take(i as int).drop_last() =~= all.take(i - 1));
            assert(all[i - 1] == (signals@[i - 1].0@, signals@[i - 1].1@));
        }
        i = i - 1;
        if signals[i].0 == *name {
            return Some(&signals[i].1);
        }
    }
    None
}

fn get_getter_name(ty: &Type) -> (r: Option<&'static str>)
    ensures
        match r {
            Some(f) => getter_name(ty@) == Some(f@),
            None => getter_name(ty@) is None,
        },
{
    match ty {
        Type::Primitive(PrimitiveType::I32) => Some("__signal_get_i32"),
        Type::Primitive(PrimitiveType::F64) => Some("__signal_get_f64"),
        Type::Primitive(PrimitiveType::String) => Some("__signal_get_string"),
        _ => None,
    }
}

fn get_setter_name(ty: &Type) -> (r: Option<&'static str>)
    ensures
        match r {
            Some(f) => setter_name(ty@) == Some(f@),
            None => setter_name(ty@) is None,
        },
{
    match ty {
        Type::Primitive(PrimitiveType::I32) => Some("__signal_set_i32"),
        Type::Primitive(PrimitiveType::F64) => Some("__signal_set_f64"),
        Type::Primitive(PrimitiveType::String) => Some("__signal_set_string"),
        _ => None,
    }
}

fn resolve_access(signals: &Vec<(String, Type)>, e: Expr) -> (out: Expr)
    ensures
        out@ == signal_access(views(signals@), e@),
{
    let unit = Type::Primitive(PrimitiveType::Unit);
    match &e.kind {
        ExprKind::Binary { op, left, right } => {
            if *op == BinaryOp::Assign {
                match get_variable_name(left) {
                    Some(name) => match find_signal(signals, name) {
                        Some(ty) => match get_setter_name(ty) {
                            Some(f) => {
                                return new_host_call(
                                    f,
                                    name.clone(),
                                    one(right.copied()),
                                    unit,
                                    e.span,
                                );
                            },
                            None => {},
                        },
                        None => {},
                    },
                    None => {},
                }
            }
        },
        _ => match get_receiver_call(&e) {
            Some(c) => match find_signal(signals, c.receiver) {
                Some(ty) => {
                    if same(c.method, "get") && c.args.len() == 0 {
                        match get_getter_name(ty) {
                            Some(f) => {
                                let none: Vec<Expr> = Vec::new();
                                assert(exprs_view(none@) =~= Seq::<ExprV>::empty());
                                return new_host_call(
                                    f,
                                    c.receiver.clone(),
                                    none,
                                    ty.copied(),
                                    e.span,
                                );
                            },
                            None => {},
                        }
                    } else if same(c.method, "set") && c.args.len() == 1 {
                        match get_setter_name(ty) {
                            Some(f) => {
                                return new_host_call(
                                    f,
                                    c.receiver.clone(),
                                    copy_exprs(c.args),
                                    unit,
                                    e.span,
                                );
                            },
                            None => {},
                        }
                    }
                },
                None => {},
            },
            None => {},
        },
    }
    e
}

/// The resolution of signal accesses as a rewriting rule.
pub open spec fn signal_rule(signals: Seq<(Seq<char>, TypeV)>) -> Rule<()> {
    Rule {
        expr: |st: (), e: ExprV| (signal_access(signals, e), st),
        block: |s: Seq<StmtV>| s,
    }
}

struct SignalAccess<'a> {
    signals: &'a Vec<(String, Type)>,
}

impl<'a> Rewriter for SignalAccess<'a> {
    type State = ();

    closed spec fn rule(&self) -> Rule<()> {
        signal_rule(views(self.signals@))
    }

    fn apply_expr(&self, st: &mut (), e: Expr) -> (out: Expr) {
        resolve_access(self.signals, e)
    }

    fn apply_block(&self, s: Vec<Stmt>) -> (out: Vec<Stmt>) {
        s
    }
}

/// The declarations that declare no signal.
pub open spec fn without_signals(s: Seq<DeclV>) -> Seq<DeclV> {
    s.filter(|d: DeclV| signal_of(d) is None)
}

/// A program with its signal accesses resolved and its signal declarations
/// taken out.
pub open spec fn signals_resolved(p: ProgramV) -> ProgramV {
    let signals = declared_signals(p.declarations);
    if signals.len() == 0 {
        p
    } else {
        let walked = walk_program(signal_rule(signals), (), p).0;
        ProgramV { declarations: without_signals(walked.declarations), ..walked }
    }
}

fn strip_signals(decls: Vec<Decl>) -> (out: Vec<Decl>)
    ensures
        views(out@) == without_signals(views(decls@)),
{
    let ghost all = views(decls@);
    let ghost decls0 = decls@;
    let mut out: Vec<Decl> = Vec::new();
    proof {
        reveal(Seq::filter);
        assert(views(out@) =~= without_signals(all.take(0)));
    }
    for d in it: decls
        invariant
            it.seq() == decls0,
            all == views(decls0),
            views(out@) == without_signals(all.take(it.index() as int)),
    {
        proof {
            reveal(Seq::filter);
            let i = it.index() as int;
            assert(all.take(i + 1).drop_last() =~= all.take(i));
            assert(d@ == all[i]);
        }
        let declares = match &d.kind {
            DeclKind::Function(f) => is_signal_decl(f),
            _ => false,
        };
        if !declares {
            assert(views(out@.push(d)) =~= views(out@).push(d@));
            out.push(d);
        }
    }
    assert(all.take(all.len() as int) =~= all);
    out
}

/// Rewrite `<signal>.get()`, `<signal>.set(v)` and `<signal> = v` into calls
/// of the host's accessors and drop the signal declarations.
pub fn resolve_signal_calls(program: &mut Program)
    ensures
        final(program)@ == signals_resolved(old(program)@),
{
    let signals = collect_signals(&program.declarations);
    if signals.len() == 0 {
        assert(views(signals@).len() == 0);
        return;
    }
    assert(views(signals@).len() > 0);
    let mut declarations: Vec<Decl> = Vec::new();
    std::mem::swap(&mut program.declarations, &mut declarations);
    let rule = SignalAccess { signals: &signals };
    let mut st: () = ();
    let walked = rewrite_decls(&rule, &mut st, declarations);
    program.declarations = strip_signals(walked);
}

// ---------------------------------------------------------------------------
// Laws
// ---------------------------------------------------------------------------

/// The law that no expression is an access of a signal that the host knows
/// how to make.
pub open spec fn no_access_law(signals: Seq<(Seq<char>, TypeV)>) -> Law {
    Law {
        p: |e: ExprV| signal_access(signals, e) == e,
        q: |s: Seq<StmtV>| true,
    }
}

proof fn host_call_in_law(
    signals: Seq<(Seq<char>, TypeV)>,
    f: Seq<char>,
    name: Seq<char>,
    args: Seq<ExprV>,
    ty: TypeV,
    span: Span,
)
    requires
        in_exprs(no_access_law(signals), args),
    ensures
        in_expr(no_access_law(signals), host_call(f, name, args, ty, span)),
{
    let l = no_access_law(signals);
    let e = host_call(f, name, args, ty, span);
    match e.kind {
        ExprKindV::Call(c) => {
            assert((l.p)(*c.callee));
            assert(in_expr_kind(l, c.callee.kind));
            assert(in_expr(l, *c.callee));
            assert forall|i: int| 0 <= i < c.positional_args.len() implies in_expr(
                l,
                #[trigger] c.positional_args[i],
            ) by {
                if i == 0 {
                    assert(c.positional_args[0] == string_expr(name, span));
                    assert((l.p)(c.positional_args[0]));
                    assert(in_expr_kind(l, c.positional_args[0].kind));
                } else {
                    assert(c.positional_args[i] == args[i - 1]);
                }
            }
            assert(in_call(l, c));
            assert(receiver_call(e) is None);
            assert((l.p)(e));
        },
        _ => {},
    }
}

proof fn access_in_law(signals: Seq<(Seq<char>, TypeV)>, e: ExprV)
    requires
        in_expr_kind(no_access_law(signals), e.kind),
    ensures
        in_expr(no_access_law(signals), signal_access(signals, e)),
{
    let l = no_access_law(signals);
    let unit = prim(PrimitiveType::Unit);
    match e.kind {
        ExprKindV::Binary { op: BinaryOp::Assign, left, right } => match variable_name(*left) {
            Some(name) => match signal_setter(signals, name) {
                Some(f) => {
                    assert(in_expr(l, *right));
                    assert(in_exprs(l, seq![*right]));
                    host_call_in_law(signals, f, name, seq![*right], unit, e.span);
                },
                None => {},
            },
            None => {},
        },
        _ => match receiver_call(e) {
            Some(c) => {
                assert(in_exprs(l, c.args)) by {
                    match e.kind {
                        ExprKindV::Call(call) => {
                            assert(in_call(l, call));
                        },
                        _ => {},
                    }
                }
                match signal_type(signals, c.receiver) {
                    Some(ty) => {
                        if c.method == "get"@ && c.args.len() == 0 {
                            match getter_name(ty) {
                                Some(f) => {
                                    assert(in_exprs(l, Seq::<ExprV>::empty()));
                                    host_call_in_law(signals, f, c.receiver, seq![], ty, e.span);
                                },
                                None => {},
                            }
                        } else if c.method == "set"@ && c.args.len() == 1 {
                            match setter_name(ty) {
                                Some(f) => {
                                    host_call_in_law(
                                        signals,
                                        f,
                                        c.receiver,
                                        c.args,
                                        unit,
                                        e.span,
                                    );
                                },
                                None => {},
                            }
                        }
                    },
                    None => {},
                }
            },
            None => {},
        },
    }
}

proof fn filtered_keeps(l: Law, s: Seq<DeclV>)
    requires
        in_decls(l, s),
    ensures
        in_decls(l, without_signals(s)),
        forall|i: int|
            0 <= i < without_signals(s).len() ==> signal_of(#[trigger] without_signals(s)[i])
                is None,
    decreases s.len(),
{
    reveal(Seq::filter);
    if s.len() > 0 {
        assert forall|i: int| 0 <= i < s.drop_last().len() implies in_decl(
            l,
            #[trigger] s.drop_last()[i],
        ) by {
            assert(s.drop_last()[i] == s[i]);
        }
        filtered_keeps(l, s.drop_last());
        assert(in_decl(l, s.last()));
    }
}

/// Once signals are resolved, no declaration declares a signal, and no
/// expression that the pass visits reads or writes a declared one.
pub proof fn signals_are_gone(p: ProgramV)
    ensures
        forall|i: int|
            0 <= i < signals_resolved(p).declarations.len() ==> signal_of(
                #[trigger] signals_resolved(p).declarations[i],
            ) is None,
        declared_signals(p.declarations).len() > 0 ==> in_program(
            no_access_law(declared_signals(p.declarations)),
            signals_resolved(p),
        ),
{
    let signals = declared_signals(p.declarations);
    if signals.len() == 0 {
        none_declared(p.declarations);
    } else {
        let r = signal_rule(signals);
        let l = no_access_law(signals);
        assert forall|st: (), e: ExprV| in_expr_kind(l, e.kind) implies in_expr(
            l,
            (#[trigger] (r.expr)(st, e)).0,
        ) by {
            access_in_law(signals, e);
        }
        establish_program(r, l, any_state::<()>(), (), p);
        filtered_keeps(l, walk_program(r, (), p).0.declarations);
    }
}

proof fn none_declared(s: Seq<DeclV>)
    requires
        declared_signals(s).len() == 0,
    ensures
        forall|i: int| 0 <= i < s.len() ==> signal_of(#[trigger] s[i]) is None,
    decreases s.len(),
{
    if s.len() > 0 {
        none_declared(s.drop_last());
        assert forall|i: int| 0 <= i < s.len() implies signal_of(#[trigger] s[i]) is None by {
            if i < s.len() - 1 {
                assert(s[i] == s.drop_last()[i]);
            }
        }
    }
}

proof fn no_signals_none_declared(s: Seq<DeclV>)
    requires
        forall|i: int| 0 <= i < s.len() ==> signal_of(#[trigger] s[i]) is None,
    ensures
        declared_signals(s).len() == 0,
    decreases s.len(),
{
    if s.len() > 0 {
        assert forall|i: int| 0 <= i < s.drop_last().len() implies signal_of(
            #[trigger] s.drop_last()[i],
        ) is None by {
            assert(s.drop_last()[i] == s[i]);
        }
        no_signals_none_declared(s.drop_last());
    }
}

/// Resolving signals twice does what resolving them once does.
pub proof fn resolving_signals_twice(p: ProgramV)
    ensures
        signals_resolved(signals_resolved(p)) == signals_resolved(p),
{
    signals_are_gone(p);
    no_signals_none_declared(signals_resolved(p).declarations);
}

} // verus!
