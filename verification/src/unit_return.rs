//! Bodies end in a return.

use vstd::prelude::*;

use crate::ast::{
    no_span, opt_view, stmts_view, views, Block, Decl, DeclKind, Function, ImplBlock, Method,
    PrimitiveType, Program, Span, Stmt, StmtKind, Type,
};
use crate::decls::{map_decls, DeclPass};
use crate::model::{
    BlockV, DeclKindV, DeclV, FunctionV, ImplBlockV, MethodV, ProgramV, StmtKindV, StmtV,
};
use crate::shape::prim;
use crate::value_views::{ends_in_widget, returning_last};

verus! {

/// Whether the last statement is a return.
pub open spec fn ends_in_return(s: Seq<StmtV>) -> bool {
    s.len() > 0 && s.last().kind is Return
}

/// A return of nothing that stands nowhere in the source.
pub open spec fn unit_return() -> StmtV {
    StmtV { kind: StmtKindV::Return(None), ty: prim(PrimitiveType::Unit), span: no_span() }
}

/// A body that ends in a return.
pub open spec fn returning(b: Option<BlockV>) -> Option<BlockV> {
    match b {
        Some(block) => if ends_in_return(block.statements) {
            b
        } else {
            Some(BlockV { statements: block.statements.push(unit_return()), ..block })
        },
        None => None,
    }
}

pub open spec fn methods_returning(s: Seq<MethodV>) -> Seq<MethodV> {
    Seq::new(s.len(), |i: int| MethodV { body: returning(s[i].body), ..s[i] })
}

pub open spec fn decl_returning(d: DeclV) -> DeclV {
    match d.kind {
        DeclKindV::Function(f) => if f.is_external {
            d
        } else {
            DeclV {
                kind: DeclKindV::Function(FunctionV { body: returning(f.body), ..f }),
                ..d
            }
        },
        DeclKindV::Impl(i) => DeclV {
            kind: DeclKindV::Impl(ImplBlockV { methods: methods_returning(i.methods), ..i }),
            ..d
        },
        _ => d,
    }
}

/// A program whose functions and methods all end in a return.
pub open spec fn program_returning(p: ProgramV) -> ProgramV {
    ProgramV {
        declarations: Seq::new(p.declarations.len(), |i: int| decl_returning(p.declarations[i])),
        ..p
    }
}

fn end_in_return(b: Option<Block>) -> (out: Option<Block>)
    ensures
        opt_view(out) == returning(opt_view(b)),
{
    match b {
        Some(block) => {
            let ghost b0 = block@;
            let n = block.statements.len();
            let done = if n > 0 {
                assert(b0.statements.last() == block.statements@[n - 1]@);
                match &block.statements[n - 1].kind {
                    StmtKind::Return(_) => true,
                    _ => false,
                }
            } else {
                false
            };
            if done {
                Some(block)
            } else {
                let Block { statements, span } = block;
                let mut statements = statements;
                let s = Stmt {
                    kind: StmtKind::Return(None),
                    ty: Type::Primitive(PrimitiveType::Unit),
                    span: Span::default(),
                };
                statements.push(s);
                assert(stmts_view(statements@) =~= b0.statements.push(unit_return()));
                Some(Block { statements, span })
            }
        },
        None => None,
    }
}

fn end_methods(v: Vec<Method>) -> (out: Vec<Method>)
    ensures
        views(out@) == methods_returning(views(v@)),
{
    let ghost all = views(v@);
    let ghost v0 = v@;
    let mut out: Vec<Method> = Vec::new();
    for x in it: v
        invariant
            it.seq() == v0,
            all == views(v0),
            out@.len() == it.index(),
            forall|k: int|
                0 <= k < out@.len() ==> (#[trigger] out@[k])@ == methods_returning(all)[k],
    {
        assert(x@ == all[it.index() as int]);
        let Method { name, params, return_type, body, details } = x;
        out.push(Method { name, params, return_type, body: end_in_return(body), details });
    }
    assert(views(out@) =~= methods_returning(all));
    out
}

fn end_decl(d: Decl) -> (out: Decl)
    ensures
        out@ == decl_returning(d@),
{
    let Decl { kind, ty, span } = d;
    match kind {
        DeclKind::Function(f) => {
            if f.is_external {
                Decl { kind: DeclKind::Function(f), ty, span }
            } else {
                let mut f1 = f;
                let body = f1.body;
                f1.body = end_in_return(body);
                Decl { kind: DeclKind::Function(f1), ty, span }
            }
        },
        DeclKind::Impl(i) => {
            let ImplBlock { trait_name, for_type, methods, details } = i;
            Decl {
                kind: DeclKind::Impl(
                    ImplBlock { trait_name, for_type, methods: end_methods(methods), details },
                ),
                ty,
                span,
            }
        },
        other => Decl { kind: other, ty, span },
    }
}

struct UnitReturn {}

impl DeclPass for UnitReturn {
    closed spec fn result(&self, d: DeclV) -> DeclV {
        decl_returning(d)
    }

    fn apply(&self, d: Decl) -> (out: Decl) {
        end_decl(d)
    }
}

/// Append a return to every body that does not end in one.
pub fn ensure_unit_return(program: &mut Program)
    ensures
        final(program)@ == program_returning(old(program)@),
{
    let mut declarations: Vec<Decl> = Vec::new();
    std::mem::swap(&mut program.declarations, &mut declarations);
    program.declarations = map_decls(&UnitReturn {  }, declarations);
    assert(program@.declarations =~= program_returning(old(program)@).declarations);
}

// ---------------------------------------------------------------------------
// Laws
// ---------------------------------------------------------------------------

/// Whether the bodies that a declaration brings all end in a return.
pub open spec fn all_return(d: DeclV) -> bool {
    match d.kind {
        DeclKindV::Function(f) => f.is_external || f.body is None || ends_in_return(
            f.body->0.statements,
        ),
        DeclKindV::Impl(i) => forall|k: int|
            0 <= k < i.methods.len() ==> (#[trigger] i.methods[k]).body is None || ends_in_return(
                i.methods[k].body->0.statements,
            ),
        _ => true,
    }
}

/// After the pass every body ends in a return, and a second run of the pass
/// changes nothing.
pub proof fn bodies_end_in_return(p: ProgramV)
    ensures
        forall|k: int|
            0 <= k < p.declarations.len() ==> all_return(
                #[trigger] program_returning(p).declarations[k],
            ),
        program_returning(program_returning(p)) == program_returning(p),
{
    let once = program_returning(p);
    let twice = program_returning(once);
    assert forall|k: int| 0 <= k < p.declarations.len() implies all_return(
        #[trigger] once.declarations[k],
    ) && twice.declarations[k] == once.declarations[k] by {
        let d = once.declarations[k];
        match d.kind {
            DeclKindV::Impl(i) => {
                assert(methods_returning(i.methods) =~= i.methods);
            },
            _ => {},
        }
    }
    assert(twice.declarations =~= once.declarations);
}

/// A body that was made to return its widget is left alone.
pub proof fn widget_return_is_kept(symbols: Set<Seq<char>>, b: Option<BlockV>)
    requires
        ends_in_widget(symbols, b),
    ensures
        returning(returning_last(b)) == returning_last(b),
{
}

} // verus!
