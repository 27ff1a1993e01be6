//! The nodes that the passes build, each with its type and its place.

use vstd::prelude::*;

use crate::abi::{can_sign, is_signature, SymbolSig, TypeTag};
use crate::ast::{BinaryOp, PrimitiveType, Span};
use crate::component::{lookup, registered, ComponentDefinitionV};
use crate::component_calls::children_arg;
use crate::engine::fresh_engine;
use crate::fsm_decls::marker_stmt;
use crate::match_blocks::{arm_stmt, ArmV};
use crate::model::{BlockV, CallV, ExprKindV, ExprV, LiteralV, NamedArgV, StmtKindV, StmtV, TypeV};
use crate::populate::return_code;
use crate::publish_laws::layout_widgets_are_known;
use crate::shape::host_call;
use crate::unit_return::unit_return;
use crate::widget_laws::first_definition;
use crate::widgets::{block_ending_in, handle_arg, handle_call, handle_let, null_arg};

verus! {

/// Whether an expression has a type and a place.
pub open spec fn is_typed(e: ExprV, ty: PrimitiveType, span: Span) -> bool {
    e.ty == TypeV::Primitive(ty) && e.span == span
}

/// Whether a statement has a type and a place.
pub open spec fn stmt_is_typed(s: StmtV, ty: PrimitiveType, span: Span) -> bool {
    s.ty == TypeV::Primitive(ty) && s.span == span
}

/// Handles are 64-bit numbers: so are the variables that hold them, the calls
/// that make them, the null handle and the call of a widget. The statements
/// that make a handle or hand something to it are of no value. All of them
/// stand where the widget stands.
pub proof fn handles_are_typed(
    name: Seq<char>,
    f: Seq<char>,
    value: ExprV,
    c: CallV,
    prelude: Seq<StmtV>,
    span: Span,
)
    ensures
        ({
            let s = handle_let(name, f, span);
            &&& stmt_is_typed(s, PrimitiveType::Unit, span)
            &&& s.kind matches StmtKindV::Let { ty, mutable, initializer, span: at, .. } && {
                &&& ty == TypeV::Primitive(PrimitiveType::I64)
                &&& !mutable
                &&& at == span
                &&& initializer is Some && is_typed(initializer->0, PrimitiveType::I64, span)
            }
        }),
        ({
            let s = handle_call(f, name, value, span);
            &&& stmt_is_typed(s, PrimitiveType::Unit, span)
            &&& s.kind matches StmtKindV::Expression(e) && is_typed(e, PrimitiveType::Unit, span)
                && (e.kind matches ExprKindV::Call(x) && is_typed(
                x.positional_args[0],
                PrimitiveType::I64,
                span,
            ) && x.type_args.len() == 0)
        }),
        is_typed(handle_arg(name, f, span).value, PrimitiveType::I64, span),
        handle_arg(name, f, span).span == span,
        is_typed(null_arg(name, span).value, PrimitiveType::I64, span),
        null_arg(name, span).span == span,
        block_ending_in(prelude, c, span) matches ExprKindV::Block(b) && b.span == span && (
        stmt_is_typed(b.statements.last(), PrimitiveType::I64, span)) && (
        b.statements.last().kind matches StmtKindV::Expression(e) && is_typed(
            e,
            PrimitiveType::I64,
            span,
        )),
{
}

/// The comparison of a match is a truth value, its `if` is of no value, and
/// both stand where the arm stands. The code that a guard returns is a 32-bit
/// number. Names that are passed to the host are texts.
pub proof fn decisions_are_typed(
    x: ExprV,
    arm: ArmV,
    otherwise: Option<BlockV>,
    n: i128,
    f: Seq<char>,
    name: Seq<char>,
    args: Seq<ExprV>,
    ty: TypeV,
    span: Span,
)
    ensures
        ({
            let s = arm_stmt(x, arm, otherwise);
            let at = arm.body.span;
            &&& stmt_is_typed(s, PrimitiveType::Unit, at)
            &&& s.kind matches StmtKindV::If { condition, span: inner, .. } && inner == at
                && is_typed(condition, PrimitiveType::Bool, at) && (condition.kind
                matches ExprKindV::Binary { op, right, .. } && op == BinaryOp::Eq && is_typed(
                *right,
                PrimitiveType::String,
                at,
            ))
        }),
        ({
            let s = return_code(n);
            &&& s.ty == TypeV::Primitive(PrimitiveType::I32)
            &&& s.kind matches StmtKindV::Return(Some(e)) && e.ty == TypeV::Primitive(
                PrimitiveType::I32,
            ) && e.kind == ExprKindV::Literal(LiteralV::Integer(n))
        }),
        ({
            let e = host_call(f, name, args, ty, span);
            &&& e.ty == ty && e.span == span
            &&& e.kind matches ExprKindV::Call(c) && c.callee.ty == TypeV::Unknown && c.callee.span
                == span && is_typed(c.positional_args[0], PrimitiveType::String, span)
        }),
        unit_return().ty == TypeV::Primitive(PrimitiveType::Unit),
        marker_stmt(f, args).ty == TypeV::Primitive(PrimitiveType::Unit),
{
}

/// Children are passed as a list of any type, in the place of the body that
/// they come from.
pub proof fn children_are_untyped(name: Seq<char>, items: Seq<ExprV>, span: Span)
    ensures
        children_arg(name, items, span) == (NamedArgV {
            name,
            value: ExprV { kind: ExprKindV::Array(items), ty: TypeV::Any, span },
            span,
        }),
{
}

/// A component that is registered takes the place of the first of its name,
/// and goes to the end where there is none.
pub proof fn registering_keeps_places(
    s: Seq<ComponentDefinitionV>,
    d: ComponentDefinitionV,
    i: int,
)
    ensures
        0 <= i < s.len() && s[i].name == d.name && (forall|j: int|
            0 <= j < i ==> (#[trigger] s[j]).name != d.name) ==> registered(s, d) == s.update(i, d),
        (forall|j: int| 0 <= j < s.len() ==> (#[trigger] s[j]).name != d.name) ==> registered(s, d)
            == s.push(d),
    decreases s.len(),
{
    if s.len() > 0 {
        let front = s.drop_last();
        registering_keeps_places(front, d, i);
        first_definition(front, d.name);
        assert(s[s.len() - 1] == s.last());
        assert forall|j: int|
            #![trigger s[j]]
            #![trigger front[j]]
            0 <= j < front.len() implies s[j] == front[j] by {}
        if 0 <= i < s.len() && s[i].name == d.name && (forall|j: int|
            0 <= j < i ==> (#[trigger] s[j]).name != d.name) {
            if i < front.len() {
                assert(front[i].name == d.name);
                assert(front.update(i, d).push(s.last()) =~= s.update(i, d));
            } else {
                assert(front.push(d) =~= s.update(i, d));
            }
        }
        if forall|j: int| 0 <= j < s.len() ==> (#[trigger] s[j]).name != d.name {
            match lookup(front, d.name) {
                Some(other) => {
                    let k = choose|k: int|
                        0 <= k < front.len() && #[trigger] front[k] == other && other.name
                            == d.name && forall|j: int|
                            0 <= j < k ==> (#[trigger] front[j]).name != d.name;
                    assert(s[k].name == d.name);
                },
                None => {},
            }
        }
    } else {
        assert(registered(s, d) =~= s.push(d));
    }
}

/// A new engine knows the layout widgets and nothing else.
pub proof fn new_engine_knows_layout(other: Seq<char>)
    requires
        other != "Div"@,
        other != "Text"@,
    ensures
        lookup(fresh_engine().components, "Div"@) is Some,
        lookup(fresh_engine().components, "Text"@) is Some,
        lookup(fresh_engine().components, other) is None,
        fresh_engine().fsms.len() == 0,
        fresh_engine().value_returning_views =~= Set::empty(),
        fresh_engine().compiled_modules.len() == 0,
        fresh_engine().compiled_stylesheets.len() == 0,
        fresh_engine().stylesheets_queued_up_to == 0,
        fresh_engine().declared_signals.len() == 0,
        fresh_engine().declared_fsms.len() == 0,
        !fresh_engine().has_stateful_view,
        fresh_engine().stateful_view_deps.len() == 0,
        fresh_engine().stateful_view_fsms.len() == 0,
{
    layout_widgets_are_known(seq![], other);
}

/// The tag of a type that crosses the interface.
pub open spec fn is_tag(ty: TypeV, tag: TypeTag) -> bool {
    ||| ty == TypeV::Primitive(PrimitiveType::Unit) && tag == TypeTag::Void
    ||| ty == TypeV::Primitive(PrimitiveType::String) && tag == TypeTag::String
    ||| ty == TypeV::Primitive(PrimitiveType::I32) && tag == TypeTag::I32
    ||| ty == TypeV::Primitive(PrimitiveType::I64) && tag == TypeTag::I64
    ||| ty == TypeV::Primitive(PrimitiveType::F64) && tag == TypeTag::F64
}

/// A signature has the tags of the parameters in their order, filled up with
/// void to sixteen, the number of parameters, the tag of the result, and no
/// flags. There is one where there are no more than sixteen parameters, all of
/// types that cross the interface, and so is the result.
pub proof fn signature_has_tags(sig: SymbolSig, params: Seq<TypeV>, result: TypeV, i: int)
    ensures
        can_sign(params, result) ==> params.len() <= 16,
        can_sign(params, result) && is_signature(sig, params, result) ==> {
            &&& sig.param_count == params.len()
            &&& sig.flags == 0
            &&& is_tag(result, sig.return_type)
            &&& sig.params@.len() == 16
            &&& 0 <= i < params.len() ==> is_tag(params[i], sig.params@[i])
            &&& params.len() <= i < 16 ==> sig.params@[i] == TypeTag::Void
        },
        params.len() <= 16 && (exists|tag: TypeTag| #[trigger] is_tag(result, tag)) && (forall|
            k: int,
        |
            0 <= k < params.len() ==> exists|tag: TypeTag| is_tag(#[trigger] params[k], tag))
            ==> can_sign(params, result),
{
}

} // verus!
