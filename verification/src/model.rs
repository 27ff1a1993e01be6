//! Mathematical counterparts of the syntax tree.
//!
//! Every executable node of [`crate::ast`] has a view in this module. Names
//! become sequences of characters and vectors become sequences, so two trees
//! are equal exactly when they read the same.

use vstd::prelude::*;

use crate::ast::{BinaryOp, PrimitiveType, Span, TypeId, Visibility};

verus! {

/// View of [`crate::ast::Type`].
pub enum TypeV {
    Primitive(PrimitiveType),
    Named { id: TypeId, arguments: u64 },
    Unresolved(Seq<char>),
    Any,
    Unknown,
    Other(u64),
}

/// View of [`crate::ast::Literal`].
pub enum LiteralV {
    Integer(i128),
    Float(u64),
    String(Seq<char>),
    Other(u64),
}

/// View of [`crate::ast::Expr`].
pub struct ExprV {
    pub kind: ExprKindV,
    pub ty: TypeV,
    pub span: Span,
}

/// View of [`crate::ast::Call`].
pub struct CallV {
    pub callee: Box<ExprV>,
    pub positional_args: Seq<ExprV>,
    pub named_args: Seq<NamedArgV>,
    pub type_args: Seq<TypeV>,
}

/// View of [`crate::ast::NamedArg`].
pub struct NamedArgV {
    pub name: Seq<char>,
    pub value: ExprV,
    pub span: Span,
}

/// View of [`crate::ast::FieldInit`].
pub struct FieldInitV {
    pub name: Seq<char>,
    pub value: ExprV,
}

/// View of [`crate::ast::LambdaBody`].
pub enum LambdaBodyV {
    Expression(Box<ExprV>),
    Block(BlockV),
}

/// View of [`crate::ast::ExprKind`].
pub enum ExprKindV {
    Literal(LiteralV),
    Variable(Seq<char>),
    Binary { op: BinaryOp, left: Box<ExprV>, right: Box<ExprV> },
    Unary { operator: u32, operand: Box<ExprV> },
    Call(CallV),
    Field { object: Box<ExprV>, field: Seq<char> },
    Index { object: Box<ExprV>, index: Box<ExprV> },
    Array(Seq<ExprV>),
    Tuple(Seq<ExprV>),
    Struct { name: Seq<char>, fields: Seq<FieldInitV> },
    MethodCall {
        receiver: Box<ExprV>,
        method: Seq<char>,
        positional_args: Seq<ExprV>,
        named_args: Seq<NamedArgV>,
        type_args: Seq<TypeV>,
    },
    Block(BlockV),
    If { condition: Box<ExprV>, then_branch: Box<ExprV>, else_branch: Box<ExprV> },
    Lambda { params: u64, body: LambdaBodyV },
    Opaque(u64),
}

/// View of [`crate::ast::Block`].
pub struct BlockV {
    pub statements: Seq<StmtV>,
    pub span: Span,
}

/// View of [`crate::ast::Stmt`].
pub struct StmtV {
    pub kind: StmtKindV,
    pub ty: TypeV,
    pub span: Span,
}

/// View of [`crate::ast::StmtKind`].
pub enum StmtKindV {
    Expression(ExprV),
    Let { name: Seq<char>, ty: TypeV, mutable: bool, initializer: Option<ExprV>, span: Span },
    Return(Option<ExprV>),
    If { condition: ExprV, then_block: BlockV, else_block: Option<BlockV>, span: Span },
    While { condition: ExprV, body: BlockV, span: Span },
    Block(BlockV),
    Continue,
    Opaque(u64),
}

/// View of [`crate::ast::Param`].
pub struct ParamV {
    pub name: Seq<char>,
    pub ty: TypeV,
    pub is_self: bool,
    pub details: u64,
}

/// View of [`crate::ast::Function`].
pub struct FunctionV {
    pub name: Seq<char>,
    pub params: Seq<ParamV>,
    pub return_type: TypeV,
    pub body: Option<BlockV>,
    pub visibility: Visibility,
    pub is_external: bool,
    pub link_name: Option<Seq<char>>,
    pub details: u64,
}

/// View of [`crate::ast::Method`].
pub struct MethodV {
    pub name: Seq<char>,
    pub params: Seq<ParamV>,
    pub return_type: TypeV,
    pub body: Option<BlockV>,
    pub details: u64,
}

/// View of [`crate::ast::ImplBlock`].
pub struct ImplBlockV {
    pub trait_name: Seq<char>,
    pub for_type: TypeV,
    pub methods: Seq<MethodV>,
    pub details: u64,
}

/// View of [`crate::ast::Field`].
pub struct FieldV {
    pub name: Seq<char>,
    pub ty: TypeV,
    pub details: u64,
}

/// View of [`crate::ast::Class`].
pub struct ClassV {
    pub name: Seq<char>,
    pub fields: Seq<FieldV>,
    pub details: u64,
}

/// View of [`crate::ast::VariantFields`].
pub enum VariantFieldsV {
    Unit,
    Tuple(Seq<TypeV>),
    Named(u64),
}

/// View of [`crate::ast::Variant`].
pub struct VariantV {
    pub name: Seq<char>,
    pub fields: VariantFieldsV,
    pub discriminant: Option<i64>,
    pub span: Span,
}

/// View of [`crate::ast::EnumDecl`].
pub struct EnumDeclV {
    pub name: Seq<char>,
    pub variants: Seq<VariantV>,
    pub visibility: Visibility,
    pub span: Span,
    pub details: u64,
}

/// View of [`crate::ast::Interface`].
pub struct InterfaceV {
    pub name: Seq<char>,
    pub visibility: Visibility,
    pub span: Span,
    pub details: u64,
}

/// View of [`crate::ast::ImportItem`].
pub enum ImportItemV {
    Named { name: Seq<char>, details: u64 },
    Other(u64),
}

/// View of [`crate::ast::Import`].
pub struct ImportV {
    pub path_segments: Seq<Seq<char>>,
    pub items: Seq<ImportItemV>,
    pub details: u64,
}

/// View of [`crate::ast::DeclKind`].
pub enum DeclKindV {
    Function(FunctionV),
    Impl(ImplBlockV),
    Class(ClassV),
    Enum(EnumDeclV),
    Interface(InterfaceV),
    Import(ImportV),
    Opaque(u64),
}

/// View of [`crate::ast::Decl`].
pub struct DeclV {
    pub kind: DeclKindV,
    pub ty: TypeV,
    pub span: Span,
}

/// View of [`crate::ast::TypeDefinition`].
pub struct TypeDefinitionV {
    pub id: TypeId,
    pub name: Seq<char>,
    pub variants: Option<Seq<VariantV>>,
    pub span: Span,
}

/// View of [`crate::ast::Program`].
pub struct ProgramV {
    pub declarations: Seq<DeclV>,
    pub type_registry: Seq<TypeDefinitionV>,
}

} // verus!
