//! Calls of the widgets that the host provides.

use vstd::prelude::*;

use crate::ast::{
    expr_kind_view, exprs_view, named_args_view, stmts_view, views, Block, Call, Expr, ExprKind,
    NamedArg, PrimitiveType, Span, Stmt, StmtKind, Type,
};
use crate::component::{lookup, ComponentDefinitionV, ComponentRegistry, PropDef, PropDefV};
use crate::model::{BlockV, CallV, ExprKindV, ExprV, NamedArgV, StmtKindV, StmtV, TypeV};
use crate::shape::{
    call_of, callee_name, expr_stmt, get_callee_name, integer_expr, new_call, new_expr_stmt,
    new_integer, new_variable, prim, two, variable_expr,
};
use crate::text::{append_decimal, decimal, decimal_injective, strip_both, stripped};

verus! {

/// The properties of the host widget `X` that a call of `$Blinc$X$view`
/// names.
pub open spec fn widget_props(defs: Seq<ComponentDefinitionV>, c: CallV) -> Option<Seq<PropDefV>> {
    match callee_name(c) {
        Some(symbol) => match stripped(symbol, "$Blinc$"@, "$view"@) {
            Some(name) => match lookup(defs, name) {
                Some(d) => Some(d.props),
                None => None,
            },
            None => None,
        },
        None => None,
    }
}

pub fn get_widget_props<'a>(registry: &'a ComponentRegistry, c: &Call) -> (r: Option<
    &'a Vec<PropDef>,
>)
    ensures
        match r {
            Some(props) => widget_props(registry@, c@) == Some(views(props@)),
            None => widget_props(registry@, c@) is None,
        },
{
    match get_callee_name(c) {
        Some(symbol) => match strip_both(symbol.as_str(), "$Blinc$", "$view") {
            Some(name) => match registry.get_by_name(&name) {
                Some(d) => Some(&d.props),
                None => None,
            },
            None => None,
        },
        None => None,
    }
}

// ---------------------------------------------------------------------------
// Handles
// ---------------------------------------------------------------------------

pub open spec fn handle_type() -> TypeV {
    prim(PrimitiveType::I64)
}

pub open spec fn unit_type() -> TypeV {
    prim(PrimitiveType::Unit)
}

/// A numbered name.
pub open spec fn numbered(prefix: Seq<char>, id: u32) -> Seq<char> {
    prefix + decimal(id as nat)
}

pub fn new_numbered(prefix: &str, id: u32) -> (r: String)
    ensures
        r@ == numbered(prefix@, id),
{
    let mut r: String = prefix.to_owned();
    append_decimal(&mut r, id as u64);
    r
}

/// Different numbers give different names.
pub proof fn numbered_names_differ(prefix: Seq<char>, a: u32, b: u32)
    requires
        a != b,
    ensures
        numbered(prefix, a) != numbered(prefix, b),
{
    if numbered(prefix, a) == numbered(prefix, b) {
        let n = prefix.len() as int;
        assert(numbered(prefix, a).skip(n) =~= decimal(a as nat));
        assert(numbered(prefix, b).skip(n) =~= decimal(b as nat));
        decimal_injective(a as nat, b as nat);
    }
}

/// `let name = maker();`, a handle.
pub open spec fn handle_let(name: Seq<char>, maker: Seq<char>, span: Span) -> StmtV {
    StmtV {
        kind: StmtKindV::Let {
            name,
            ty: handle_type(),
            mutable: false,
            initializer: Some(
                ExprV {
                    kind: call_of(variable_expr(maker, TypeV::Any, span), seq![]),
                    ty: handle_type(),
                    span,
                },
            ),
            span,
        },
        ty: unit_type(),
        span,
    }
}

/// `target(handle, value);`.
pub open spec fn handle_call(
    target: Seq<char>,
    handle: Seq<char>,
    value: ExprV,
    span: Span,
) -> StmtV {
    expr_stmt(
        ExprV {
            kind: call_of(
                variable_expr(target, TypeV::Any, span),
                seq![variable_expr(handle, handle_type(), span), value],
            ),
            ty: unit_type(),
            span,
        },
        unit_type(),
        span,
    )
}

/// The argument `name = handle`.
pub open spec fn handle_arg(name: Seq<char>, handle: Seq<char>, span: Span) -> NamedArgV {
    NamedArgV { name, value: variable_expr(handle, handle_type(), span), span }
}

/// The argument `name = 0`, the null handle.
pub open spec fn null_arg(name: Seq<char>, span: Span) -> NamedArgV {
    NamedArgV { name, value: integer_expr(0, handle_type(), span), span }
}

/// A block that ends in a call, whose value is its value.
pub open spec fn block_ending_in(prelude: Seq<StmtV>, c: CallV, span: Span) -> ExprKindV {
    ExprKindV::Block(
        BlockV {
            statements: prelude.push(
                expr_stmt(
                    ExprV { kind: ExprKindV::Call(c), ty: handle_type(), span },
                    handle_type(),
                    span,
                ),
            ),
            span,
        },
    )
}

pub fn new_handle_let(name: String, maker: &str, span: Span) -> (s: Stmt)
    ensures
        s@ == handle_let(name@, maker@, span),
{
    let args: Vec<Expr> = Vec::new();
    assert(exprs_view(args@) =~= Seq::<ExprV>::empty());
    let callee = new_variable(maker.to_owned(), Type::Any, span);
    let value = Expr {
        kind: new_call(callee, args),
        ty: Type::Primitive(PrimitiveType::I64),
        span,
    };
    assert(value@ == ExprV {
        kind: call_of(variable_expr(maker@, TypeV::Any, span), seq![]),
        ty: handle_type(),
        span,
    });
    Stmt {
        kind: StmtKind::Let {
            name,
            ty: Type::Primitive(PrimitiveType::I64),
            mutable: false,
            initializer: Some(value),
            span,
        },
        ty: Type::Primitive(PrimitiveType::Unit),
        span,
    }
}

pub fn new_handle_call(target: &str, handle: &String, value: Expr, span: Span) -> (s: Stmt)
    ensures
        s@ == handle_call(target@, handle@, value@, span),
{
    let callee = new_variable(target.to_owned(), Type::Any, span);
    let first = new_variable(handle.clone(), Type::Primitive(PrimitiveType::I64), span);
    let call = Expr {
        kind: new_call(callee, two(first, value)),
        ty: Type::Primitive(PrimitiveType::Unit),
        span,
    };
    new_expr_stmt(call, Type::Primitive(PrimitiveType::Unit), span)
}

pub fn new_handle_arg(name: String, handle: String, span: Span) -> (a: NamedArg)
    ensures
        a@ == handle_arg(name@, handle@, span),
{
    let value = new_variable(handle, Type::Primitive(PrimitiveType::I64), span);
    NamedArg { name, value, span }
}

pub fn new_null_arg(name: String, span: Span) -> (a: NamedArg)
    ensures
        a@ == null_arg(name@, span),
{
    let value = new_integer(0, Type::Primitive(PrimitiveType::I64), span);
    NamedArg { name, value, span }
}

pub fn new_block_ending_in(prelude: Vec<Stmt>, c: Call, span: Span) -> (k: ExprKind)
    ensures
        expr_kind_view(k) == block_ending_in(stmts_view(prelude@), c@, span),
{
    let mut statements = prelude;
    let call = Expr {
        kind: ExprKind::Call(c),
        ty: Type::Primitive(PrimitiveType::I64),
        span,
    };
    assert(call@ == ExprV { kind: ExprKindV::Call(c@), ty: handle_type(), span });
    let last = new_expr_stmt(call, Type::Primitive(PrimitiveType::I64), span);
    statements.push(last);
    assert(stmts_view(statements@) =~= stmts_view(prelude@).push(last@));
    let b = Block { statements, span };
    assert(b@ == BlockV { statements: stmts_view(statements@), span });
    ExprKind::Block(b)
}

/// The position of the first argument with a name.
pub open spec fn find_named(s: Seq<NamedArgV>, name: Seq<char>) -> Option<int>
    decreases s.len(),
{
    if s.len() == 0 {
        None
    } else {
        match find_named(s.drop_last(), name) {
            Some(i) => Some(i),
            None => if s.last().name == name {
                Some(s.len() - 1)
            } else {
                None
            },
        }
    }
}

pub fn position_of_named(v: &Vec<NamedArg>, name: &String) -> (r: Option<usize>)
    ensures
        match r {
            Some(i) => i < v@.len() && find_named(named_args_view(v@), name@) == Some(i as int),
            None => find_named(named_args_view(v@), name@) is None,
        },
{
    let ghost all = named_args_view(v@);
    let mut found: Option<usize> = None;
    for i in 0..v.len()
        invariant
            all == named_args_view(v@),
            match found {
                Some(k) => k < v@.len() && find_named(all.take(i as int), name@) == Some(k as int),
                None => find_named(all.take(i as int), name@) is None,
            },
    {
        proof {
            assert(all.take(i + 1).drop_last() =~= all.take(i as int));
        }
        if found.is_none() && v[i].name == *name {
            found = Some(i);
        }
    }
    assert(all.take(all.len() as int) =~= all);
    found
}

/// What `find_named` finds is in range and has the name.
pub proof fn found_named(s: Seq<NamedArgV>, name: Seq<char>)
    ensures
        match find_named(s, name) {
            Some(i) => 0 <= i < s.len() && s[i].name == name,
            None => forall|i: int| 0 <= i < s.len() ==> (#[trigger] s[i]).name != name,
        },
    decreases s.len(),
{
    if s.len() > 0 {
        found_named(s.drop_last(), name);
        if find_named(s, name) is None {
            assert forall|i: int| 0 <= i < s.len() implies (#[trigger] s[i]).name != name by {
                if i < s.len() - 1 {
                    assert(s[i] == s.drop_last()[i]);
                }
            }
        }
    }
}

} // verus!
