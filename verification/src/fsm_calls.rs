//! `trigger` and `subscribe` on state machines as calls of host functions.

use vstd::prelude::*;

use crate::ast::{copy_exprs, Decl, Expr, PrimitiveType, Program, Stmt, Type};
use crate::decls::{collect_fsms, declared_fsms, has_method};
use crate::everywhere::{
    any_state, establish_program, in_call, in_expr, in_expr_kind, in_exprs, in_program,
    settled_program, Law,
};
use crate::model::{DeclKindV, DeclV, ExprKindV, ExprV, MethodV, ProgramV, StmtV};
use crate::shape::{get_receiver_call, host_call, new_host_call, prim, receiver_call, string_expr};
use crate::text::{contains_name, names_view, same};
use crate::walk::{rewrite_decls, walk_decls, walk_methods, walk_program, Rewriter, Rule};

verus! {

/// A method that state machines have, and the host function behind it.
#[derive(Clone, Copy)]
pub struct FsmMethod {
    pub name: &'static str,
    pub arity: usize,
    pub target: &'static str,
}

/// `<Fsm>.name(args..)` on a declared state machine, with `arity` arguments,
/// as the call `target("<Fsm>", args..)`; any other expression as it is.
pub open spec fn fsm_method_call(
    fsms: Seq<Seq<char>>,
    name: Seq<char>,
    arity: nat,
    target: Seq<char>,
    e: ExprV,
) -> ExprV {
    match receiver_call(e) {
        Some(c) => if c.args.len() == arity && fsms.contains(c.receiver) && c.method == name {
            host_call(target, c.receiver, c.args, prim(PrimitiveType::Unit), e.span)
        } else {
            e
        },
        None => e,
    }
}

/// The resolution of one method of state machines as a rewriting rule.
pub open spec fn fsm_method_rule(
    fsms: Seq<Seq<char>>,
    name: Seq<char>,
    arity: nat,
    target: Seq<char>,
) -> Rule<()> {
    Rule {
        expr: |st: (), e: ExprV| (fsm_method_call(fsms, name, arity, target, e), st),
        block: |s: Seq<StmtV>| s,
    }
}

/// A program with the calls of one method of its state machines resolved.
pub open spec fn fsm_method_resolved(
    p: ProgramV,
    name: Seq<char>,
    arity: nat,
    target: Seq<char>,
) -> ProgramV {
    let fsms = declared_fsms(p.declarations);
    walk_program(fsm_method_rule(fsms, name, arity, target), (), p).0
}

/// A program with its `trigger` calls resolved.
pub open spec fn triggers_resolved(p: ProgramV) -> ProgramV {
    fsm_method_resolved(p, "trigger"@, 1, "__fsm_runtime_trigger__"@)
}

/// A program with its `subscribe` calls resolved.
pub open spec fn subscriptions_resolved(p: ProgramV) -> ProgramV {
    fsm_method_resolved(p, "subscribe"@, 2, "__fsm_subscribe__"@)
}

struct FsmMethodCalls<'a> {
    fsms: &'a Vec<String>,
    method: FsmMethod,
}

impl<'a> Rewriter for FsmMethodCalls<'a> {
    type State = ();

    closed spec fn rule(&self) -> Rule<()> {
        fsm_method_rule(
            names_view(self.fsms@),
            self.method.name@,
            self.method.arity as nat,
            self.method.target@,
        )
    }

    fn apply_expr(&self, st: &mut (), e: Expr) -> (out: Expr) {
        match get_receiver_call(&e) {
            Some(c) => {
                if c.args.len() == self.method.arity && contains_name(self.fsms, c.receiver)
                    && same(c.method, self.method.name) {
                    let name = c.receiver.clone();
                    let args = copy_exprs(c.args);
                    let unit = Type::Primitive(PrimitiveType::Unit);
                    return new_host_call(self.method.target, name, args, unit, e.span);
                }
            },
            None => {},
        }
        e
    }

    fn apply_block(&self, s: Vec<Stmt>) -> (out: Vec<Stmt>) {
        s
    }
}

fn resolve_method(program: &mut Program, method: FsmMethod)
    ensures
        final(program)@ == fsm_method_resolved(
            old(program)@,
            method.name@,
            method.arity as nat,
            method.target@,
        ),
{
    let fsms = collect_fsms(&program.declarations);
    let mut declarations: Vec<Decl> = Vec::new();
    std::mem::swap(&mut program.declarations, &mut declarations);
    let rule = FsmMethodCalls { fsms: &fsms, method };
    let mut st: () = ();
    program.declarations = rewrite_decls(&rule, &mut st, declarations);
}

/// Rewrite `<Fsm>.trigger(path)` into `__fsm_runtime_trigger__("<Fsm>", path)`.
pub fn resolve_fsm_trigger_calls(program: &mut Program)
    ensures
        final(program)@ == triggers_resolved(old(program)@),
{
    resolve_method(
        program,
        FsmMethod { name: "trigger", arity: 1, target: "__fsm_runtime_trigger__" },
    );
}

/// Rewrite `<Fsm>.subscribe(path, closure)` into
/// `__fsm_subscribe__("<Fsm>", path, closure)`.
pub fn resolve_fsm_subscribe_calls(program: &mut Program)
    ensures
        final(program)@ == subscriptions_resolved(old(program)@),
{
    resolve_method(
        program,
        FsmMethod { name: "subscribe", arity: 2, target: "__fsm_subscribe__" },
    );
}

// ---------------------------------------------------------------------------
// Laws
// ---------------------------------------------------------------------------

/// The law that no expression is a call of the method on a listed machine.
pub open spec fn no_method_law(
    fsms: Seq<Seq<char>>,
    name: Seq<char>,
    arity: nat,
    target: Seq<char>,
) -> Law {
    Law {
        p: |e: ExprV| fsm_method_call(fsms, name, arity, target, e) == e,
        q: |s: Seq<StmtV>| true,
    }
}

proof fn method_call_in_law(
    fsms: Seq<Seq<char>>,
    name: Seq<char>,
    arity: nat,
    target: Seq<char>,
    e: ExprV,
)
    requires
        in_expr_kind(no_method_law(fsms, name, arity, target), e.kind),
    ensures
        in_expr(
            no_method_law(fsms, name, arity, target),
            fsm_method_call(fsms, name, arity, target, e),
        ),
{
    let l = no_method_law(fsms, name, arity, target);
    let out = fsm_method_call(fsms, name, arity, target, e);
    match receiver_call(e) {
        Some(rc) => {
            if rc.args.len() == arity && fsms.contains(rc.receiver) && rc.method == name {
                assert(in_exprs(l, rc.args)) by {
                    match e.kind {
                        ExprKindV::Call(call) => {
                            assert(in_call(l, call));
                        },
                        _ => {},
                    }
                }
                match out.kind {
                    ExprKindV::Call(c) => {
                        assert((l.p)(*c.callee));
                        assert(in_expr_kind(l, c.callee.kind));
                        assert(in_expr(l, *c.callee));
                        assert forall|i: int| 0 <= i < c.positional_args.len() implies in_expr(
                            l,
                            #[trigger] c.positional_args[i],
                        ) by {
                            if i == 0 {
                                assert(c.positional_args[0] == string_expr(rc.receiver, e.span));
                                assert((l.p)(c.positional_args[0]));
                                assert(in_expr_kind(l, c.positional_args[0].kind));
                            } else {
                                assert(c.positional_args[i] == rc.args[i - 1]);
                            }
                        }
                        assert(in_call(l, c));
                        assert(receiver_call(out) is None);
                        assert((l.p)(out));
                    },
                    _ => {},
                }
            }
        },
        None => {},
    }
}

/// Once a method is resolved, no expression that the pass visits calls it on
/// a declared state machine.
pub proof fn method_calls_are_gone(p: ProgramV, name: Seq<char>, arity: nat, target: Seq<char>)
    ensures
        in_program(
            no_method_law(declared_fsms(p.declarations), name, arity, target),
            fsm_method_resolved(p, name, arity, target),
        ),
{
    let fsms = declared_fsms(p.declarations);
    let r = fsm_method_rule(fsms, name, arity, target);
    let l = no_method_law(fsms, name, arity, target);
    assert forall|st: (), e: ExprV| in_expr_kind(l, e.kind) implies in_expr(
        l,
        (#[trigger] (r.expr)(st, e)).0,
    ) by {
        method_call_in_law(fsms, name, arity, target, e);
    }
    establish_program(r, l, any_state::<()>(), (), p);
}

proof fn walk_keeps_method_names<S>(r: Rule<S>, st: S, s: Seq<MethodV>)
    ensures
        walk_methods(r, st, s).0.len() == s.len(),
        forall|i: int|
            0 <= i < s.len() ==> (#[trigger] walk_methods(r, st, s).0[i]).name == s[i].name,
    decreases s.len(),
{
    if s.len() > 0 {
        walk_keeps_method_names(r, st, s.drop_last());
        assert forall|i: int| 0 <= i < s.len() implies (#[trigger] walk_methods(
            r,
            st,
            s,
        ).0[i]).name == s[i].name by {
            if i < s.len() - 1 {
                assert(walk_methods(r, st, s).0[i] == walk_methods(r, st, s.drop_last()).0[i]);
                assert(s.drop_last()[i] == s[i]);
            }
        }
    }
}

/// A walk over a program leaves its state machines declared.
pub proof fn walk_keeps_fsms<S>(r: Rule<S>, st: S, s: Seq<DeclV>)
    ensures
        declared_fsms(walk_decls(r, st, s).0) == declared_fsms(s),
    decreases s.len(),
{
    if s.len() > 0 {
        walk_keeps_fsms(r, st, s.drop_last());
        let (front, st1) = walk_decls(r, st, s.drop_last());
        let out = walk_decls(r, st, s).0;
        assert(out.drop_last() =~= front);
        match s.last().kind {
            DeclKindV::Impl(i) => {
                walk_keeps_method_names(r, st1, i.methods);
                let after = walk_methods(r, st1, i.methods).0;
                let meta = "__fsm_meta__"@;
                if has_method(i.methods, meta) {
                    let k = choose|k: int|
                        0 <= k < i.methods.len() && (#[trigger] i.methods[k]).name == meta;
                    assert(after[k].name == meta);
                }
                if has_method(after, meta) {
                    let k = choose|k: int|
                        0 <= k < after.len() && (#[trigger] after[k]).name == meta;
                    assert(i.methods[k].name == meta);
                }
            },
            _ => {},
        }
    }
}

/// Resolving a method twice does what resolving it once does.
pub proof fn resolving_methods_twice(p: ProgramV, name: Seq<char>, arity: nat, target: Seq<char>)
    ensures
        fsm_method_resolved(fsm_method_resolved(p, name, arity, target), name, arity, target)
            == fsm_method_resolved(p, name, arity, target),
{
    let fsms = declared_fsms(p.declarations);
    let r = fsm_method_rule(fsms, name, arity, target);
    method_calls_are_gone(p, name, arity, target);
    walk_keeps_fsms(r, (), p.declarations);
    settled_program(
        r,
        no_method_law(fsms, name, arity, target),
        (),
        fsm_method_resolved(p, name, arity, target),
    );
}

} // verus!
