//! The typed syntax tree that the lowering passes work on.
//!
//! Names are plain strings. Parts of the tree that no pass looks into are
//! carried as numeric tokens (`Opaque`, `Other`, `details`): the front end
//! hands them out and resolves them again after lowering.

use vstd::prelude::*;

use crate::model::{
    BlockV, CallV, ClassV, DeclKindV, DeclV, EnumDeclV, ExprKindV, ExprV, FieldInitV, FieldV,
    FunctionV, ImplBlockV, ImportItemV, ImportV, InterfaceV, LambdaBodyV, LiteralV, MethodV,
    NamedArgV, ParamV, ProgramV, StmtKindV, StmtV, TypeDefinitionV, TypeV, VariantFieldsV, VariantV,
};

verus! {

/// Byte range of a node in its source file.
#[derive(Clone, Copy, Debug, PartialEq, Eq, Structural)]
pub struct Span {
    pub start: usize,
    pub end: usize,
}

/// The span of a node that has no place in the source.
pub open spec fn no_span() -> Span {
    Span { start: 0, end: 0 }
}

impl Default for Span {
    fn default() -> (s: Span)
        ensures
            s == no_span(),
    {
        Span { start: 0, end: 0 }
    }
}

/// Scalar types that the runtime interface knows.
#[derive(Clone, Copy, Debug, PartialEq, Eq, Structural)]
pub enum PrimitiveType {
    Unit,
    Bool,
    I32,
    I64,
    F64,
    String,
    Other(u32),
}

/// Identity of a nominal type in the type registry.
#[derive(Clone, Copy, Debug, PartialEq, Eq, Hash, Structural)]
pub struct TypeId {
    pub raw: u32,
}

impl TypeId {
    pub fn new(raw: u32) -> (id: TypeId)
        ensures
            id.raw == raw,
    {
        TypeId { raw }
    }
}

#[derive(Clone, Copy, Debug, PartialEq, Eq, Structural)]
pub enum BinaryOp {
    Add,
    Sub,
    Mul,
    Div,
    Rem,
    Eq,
    Ne,
    Lt,
    Le,
    Gt,
    Ge,
    And,
    Or,
    Assign,
    Other(u32),
}

#[derive(Clone, Copy, Debug, PartialEq, Eq, Structural)]
pub enum Visibility {
    /// Whatever a declaration without a modifier has.
    Default,
    Public,
    Other(u32),
}

/// A type as the front end has left it. `arguments` stands for the
/// arguments of a nominal type, 0 for none.
#[derive(Debug, PartialEq, Eq)]
pub enum Type {
    Primitive(PrimitiveType),
    Named { id: TypeId, arguments: u64 },
    Unresolved(String),
    Any,
    Unknown,
    Other(u64),
}

/// A literal. A float is held by its bit pattern.
#[derive(Debug, PartialEq, Eq)]
pub enum Literal {
    Integer(i128),
    Float(u64),
    String(String),
    Other(u64),
}

#[derive(Debug, PartialEq, Eq)]
pub struct Expr {
    pub kind: ExprKind,
    pub ty: Type,
    pub span: Span,
}

#[derive(Debug, PartialEq, Eq)]
pub struct Call {
    pub callee: Box<Expr>,
    pub positional_args: Vec<Expr>,
    pub named_args: Vec<NamedArg>,
    pub type_args: Vec<Type>,
}

#[derive(Debug, PartialEq, Eq)]
pub struct NamedArg {
    pub name: String,
    pub value: Expr,
    pub span: Span,
}

#[derive(Debug, PartialEq, Eq)]
pub struct FieldInit {
    pub name: String,
    pub value: Expr,
}

#[derive(Debug, PartialEq, Eq)]
pub enum LambdaBody {
    Expression(Box<Expr>),
    Block(Block),
}

#[derive(Debug, PartialEq, Eq)]
pub enum ExprKind {
    Literal(Literal),
    Variable(String),
    Binary { op: BinaryOp, left: Box<Expr>, right: Box<Expr> },
    Unary { operator: u32, operand: Box<Expr> },
    Call(Call),
    Field { object: Box<Expr>, field: String },
    Index { object: Box<Expr>, index: Box<Expr> },
    Array(Vec<Expr>),
    Tuple(Vec<Expr>),
    Struct { name: String, fields: Vec<FieldInit> },
    MethodCall {
        receiver: Box<Expr>,
        method: String,
        positional_args: Vec<Expr>,
        named_args: Vec<NamedArg>,
        type_args: Vec<Type>,
    },
    Block(Block),
    If { condition: Box<Expr>, then_branch: Box<Expr>, else_branch: Box<Expr> },
    Lambda { params: u64, body: LambdaBody },
    Opaque(u64),
}

#[derive(Debug, PartialEq, Eq)]
pub struct Block {
    pub statements: Vec<Stmt>,
    pub span: Span,
}

#[derive(Debug, PartialEq, Eq)]
pub struct Stmt {
    pub kind: StmtKind,
    pub ty: Type,
    pub span: Span,
}

#[derive(Debug, PartialEq, Eq)]
pub enum StmtKind {
    Expression(Expr),
    Let { name: String, ty: Type, mutable: bool, initializer: Option<Expr>, span: Span },
    Return(Option<Expr>),
    If { condition: Expr, then_block: Block, else_block: Option<Block>, span: Span },
    While { condition: Expr, body: Block, span: Span },
    Block(Block),
    Continue,
    Opaque(u64),
}

/// A parameter of a function or a method.
#[derive(Debug, PartialEq, Eq)]
pub struct Param {
    pub name: String,
    pub ty: Type,
    pub is_self: bool,
    pub details: u64,
}

/// A top-level function. One that is implemented elsewhere is `is_external`
/// and has no body; `link_name` is the symbol it is linked to.
#[derive(Debug, PartialEq, Eq)]
pub struct Function {
    pub name: String,
    pub params: Vec<Param>,
    pub return_type: Type,
    pub body: Option<Block>,
    pub visibility: Visibility,
    pub is_external: bool,
    pub link_name: Option<String>,
    pub details: u64,
}

#[derive(Debug, PartialEq, Eq)]
pub struct Method {
    pub name: String,
    pub params: Vec<Param>,
    pub return_type: Type,
    pub body: Option<Block>,
    pub details: u64,
}

#[derive(Debug, PartialEq, Eq)]
pub struct ImplBlock {
    pub trait_name: String,
    pub for_type: Type,
    pub methods: Vec<Method>,
    pub details: u64,
}

#[derive(Debug, PartialEq, Eq)]
pub struct Field {
    pub name: String,
    pub ty: Type,
    pub details: u64,
}

/// A `component` or a `struct`: a name with fields.
#[derive(Debug, PartialEq, Eq)]
pub struct Class {
    pub name: String,
    pub fields: Vec<Field>,
    pub details: u64,
}

#[derive(Debug, PartialEq, Eq)]
pub enum VariantFields {
    Unit,
    Tuple(Vec<Type>),
    Named(u64),
}

#[derive(Debug, PartialEq, Eq)]
pub struct Variant {
    pub name: String,
    pub fields: VariantFields,
    pub discriminant: Option<i64>,
    pub span: Span,
}

#[derive(Debug, PartialEq, Eq)]
pub struct EnumDecl {
    pub name: String,
    pub variants: Vec<Variant>,
    pub visibility: Visibility,
    pub span: Span,
    pub details: u64,
}

#[derive(Debug, PartialEq, Eq)]
pub struct Interface {
    pub name: String,
    pub visibility: Visibility,
    pub span: Span,
    pub details: u64,
}

#[derive(Debug, PartialEq, Eq)]
pub enum ImportItem {
    Named { name: String, details: u64 },
    Other(u64),
}

#[derive(Debug, PartialEq, Eq)]
pub struct Import {
    pub path_segments: Vec<String>,
    pub items: Vec<ImportItem>,
    pub details: u64,
}

#[derive(Debug, PartialEq, Eq)]
pub enum DeclKind {
    Function(Function),
    Impl(ImplBlock),
    Class(Class),
    Enum(EnumDecl),
    Interface(Interface),
    Import(Import),
    Opaque(u64),
}

#[derive(Debug, PartialEq, Eq)]
pub struct Decl {
    pub kind: DeclKind,
    pub ty: Type,
    pub span: Span,
}

/// An entry of the type registry. `variants` is there for an enum.
#[derive(Debug, PartialEq, Eq)]
pub struct TypeDefinition {
    pub id: TypeId,
    pub name: String,
    pub variants: Option<Vec<Variant>>,
    pub span: Span,
}

/// A parsed source file with the types it knows. A later entry of the type
/// registry replaces an earlier one with the same id.
#[derive(Debug, PartialEq, Eq)]
pub struct Program {
    pub declarations: Vec<Decl>,
    pub type_registry: Vec<TypeDefinition>,
}

// ---------------------------------------------------------------------------
// Views
// ---------------------------------------------------------------------------

/// The views of the items of a sequence, in order.
pub open spec fn views<T: View>(s: Seq<T>) -> Seq<T::V> {
    Seq::new(s.len(), |i: int| s[i]@)
}

/// The view of an optional value.
pub open spec fn opt_view<T: View>(o: Option<T>) -> Option<T::V> {
    match o {
        Some(t) => Some(t@),
        None => None,
    }
}

impl View for Type {
    type V = TypeV;

    open spec fn view(&self) -> TypeV {
        match *self {
            Type::Primitive(p) => TypeV::Primitive(p),
            Type::Named { id, arguments } => TypeV::Named { id, arguments },
            Type::Unresolved(name) => TypeV::Unresolved(name@),
            Type::Any => TypeV::Any,
            Type::Unknown => TypeV::Unknown,
            Type::Other(token) => TypeV::Other(token),
        }
    }
}

impl View for Literal {
    type V = LiteralV;

    open spec fn view(&self) -> LiteralV {
        match *self {
            Literal::Integer(n) => LiteralV::Integer(n),
            Literal::Float(bits) => LiteralV::Float(bits),
            Literal::String(s) => LiteralV::String(s@),
            Literal::Other(token) => LiteralV::Other(token),
        }
    }
}

pub open spec fn expr_view(e: Expr) -> ExprV
    decreases e,
{
    ExprV { kind: expr_kind_view(e.kind), ty: e.ty@, span: e.span }
}

pub open spec fn exprs_view(s: Seq<Expr>) -> Seq<ExprV>
    decreases s,
{
    Seq::new(
        s.len(),
        |i: int|
            if 0 <= i < s.len() {
                expr_view(s[i])
            } else {
                arbitrary()
            },
    )
}

pub open spec fn named_arg_view(a: NamedArg) -> NamedArgV
    decreases a,
{
    NamedArgV { name: a.name@, value: expr_view(a.value), span: a.span }
}

pub open spec fn named_args_view(s: Seq<NamedArg>) -> Seq<NamedArgV>
    decreases s,
{
    Seq::new(
        s.len(),
        |i: int|
            if 0 <= i < s.len() {
                named_arg_view(s[i])
            } else {
                arbitrary()
            },
    )
}

pub open spec fn field_init_view(f: FieldInit) -> FieldInitV
    decreases f,
{
    FieldInitV { name: f.name@, value: expr_view(f.value) }
}

pub open spec fn field_inits_view(s: Seq<FieldInit>) -> Seq<FieldInitV>
    decreases s,
{
    Seq::new(
        s.len(),
        |i: int|
            if 0 <= i < s.len() {
                field_init_view(s[i])
            } else {
                arbitrary()
            },
    )
}

pub open spec fn call_view(c: Call) -> CallV
    decreases c,
{
    CallV {
        callee: Box::new(expr_view(*c.callee)),
        positional_args: exprs_view(c.positional_args@),
        named_args: named_args_view(c.named_args@),
        type_args: views(c.type_args@),
    }
}

pub open spec fn lambda_body_view(b: LambdaBody) -> LambdaBodyV
    decreases b,
{
    match b {
        LambdaBody::Expression(e) => LambdaBodyV::Expression(Box::new(expr_view(*e))),
        LambdaBody::Block(block) => LambdaBodyV::Block(block_view(block)),
    }
}

pub open spec fn expr_kind_view(k: ExprKind) -> ExprKindV
    decreases k,
{
    match k {
        ExprKind::Literal(l) => ExprKindV::Literal(l@),
        ExprKind::Variable(name) => ExprKindV::Variable(name@),
        ExprKind::Binary { op, left, right } => ExprKindV::Binary {
            op,
            left: Box::new(expr_view(*left)),
            right: Box::new(expr_view(*right)),
        },
        ExprKind::Unary { operator, operand } => ExprKindV::Unary {
            operator,
            operand: Box::new(expr_view(*operand)),
        },
        ExprKind::Call(call) => ExprKindV::Call(call_view(call)),
        ExprKind::Field { object, field } => ExprKindV::Field {
            object: Box::new(expr_view(*object)),
            field: field@,
        },
        ExprKind::Index { object, index } => ExprKindV::Index {
            object: Box::new(expr_view(*object)),
            index: Box::new(expr_view(*index)),
        },
        ExprKind::Array(items) => ExprKindV::Array(exprs_view(items@)),
        ExprKind::Tuple(items) => ExprKindV::Tuple(exprs_view(items@)),
        ExprKind::Struct { name, fields } => ExprKindV::Struct {
            name: name@,
            fields: field_inits_view(fields@),
        },
        ExprKind::MethodCall { receiver, method, positional_args, named_args, type_args } =>
            ExprKindV::MethodCall {
            receiver: Box::new(expr_view(*receiver)),
            method: method@,
            positional_args: exprs_view(positional_args@),
            named_args: named_args_view(named_args@),
            type_args: views(type_args@),
        },
        ExprKind::Block(block) => ExprKindV::Block(block_view(block)),
        ExprKind::If { condition, then_branch, else_branch } => ExprKindV::If {
            condition: Box::new(expr_view(*condition)),
            then_branch: Box::new(expr_view(*then_branch)),
            else_branch: Box::new(expr_view(*else_branch)),
        },
        ExprKind::Lambda { params, body } => ExprKindV::Lambda {
            params,
            body: lambda_body_view(body),
        },
        ExprKind::Opaque(token) => ExprKindV::Opaque(token),
    }
}

pub open spec fn block_view(b: Block) -> BlockV
    decreases b,
{
    BlockV { statements: stmts_view(b.statements@), span: b.span }
}

pub open spec fn stmts_view(s: Seq<Stmt>) -> Seq<StmtV>
    decreases s,
{
    Seq::new(
        s.len(),
        |i: int|
            if 0 <= i < s.len() {
                stmt_view(s[i])
            } else {
                arbitrary()
            },
    )
}

pub open spec fn stmt_view(s: Stmt) -> StmtV
    decreases s,
{
    StmtV { kind: stmt_kind_view(s.kind), ty: s.ty@, span: s.span }
}

pub open spec fn stmt_kind_view(k: StmtKind) -> StmtKindV
    decreases k,
{
    match k {
        StmtKind::Expression(e) => StmtKindV::Expression(expr_view(e)),
        StmtKind::Let { name, ty, mutable, initializer, span } => StmtKindV::Let {
            name: name@,
            ty: ty@,
            mutable,
            initializer: match initializer {
                Some(e) => Some(expr_view(e)),
                None => None,
            },
            span,
        },
        StmtKind::Return(value) => StmtKindV::Return(
            match value {
                Some(e) => Some(expr_view(e)),
                None => None,
            },
        ),
        StmtKind::If { condition, then_block, else_block, span } => StmtKindV::If {
            condition: expr_view(condition),
            then_block: block_view(then_block),
            else_block: match else_block {
                Some(b) => Some(block_view(b)),
                None => None,
            },
            span,
        },
        StmtKind::While { condition, body, span } => StmtKindV::While {
            condition: expr_view(condition),
            body: block_view(body),
            span,
        },
        StmtKind::Block(block) => StmtKindV::Block(block_view(block)),
        StmtKind::Continue => StmtKindV::Continue,
        StmtKind::Opaque(token) => StmtKindV::Opaque(token),
    }
}

impl View for Expr {
    type V = ExprV;

    open spec fn view(&self) -> ExprV {
        expr_view(*self)
    }
}

impl View for NamedArg {
    type V = NamedArgV;

    open spec fn view(&self) -> NamedArgV {
        named_arg_view(*self)
    }
}

impl View for FieldInit {
    type V = FieldInitV;

    open spec fn view(&self) -> FieldInitV {
        field_init_view(*self)
    }
}

impl View for Call {
    type V = CallV;

    open spec fn view(&self) -> CallV {
        call_view(*self)
    }
}

impl View for Block {
    type V = BlockV;

    open spec fn view(&self) -> BlockV {
        block_view(*self)
    }
}

impl View for Stmt {
    type V = StmtV;

    open spec fn view(&self) -> StmtV {
        stmt_view(*self)
    }
}

impl View for Param {
    type V = ParamV;

    open spec fn view(&self) -> ParamV {
        ParamV { name: self.name@, ty: self.ty@, is_self: self.is_self, details: self.details }
    }
}

impl View for Function {
    type V = FunctionV;

    open spec fn view(&self) -> FunctionV {
        FunctionV {
            name: self.name@,
            params: views(self.params@),
            return_type: self.return_type@,
            body: opt_view(self.body),
            visibility: self.visibility,
            is_external: self.is_external,
            link_name: opt_view(self.link_name),
            details: self.details,
        }
    }
}

impl View for Method {
    type V = MethodV;

    open spec fn view(&self) -> MethodV {
        MethodV {
            name: self.name@,
            params: views(self.params@),
            return_type: self.return_type@,
            body: opt_view(self.body),
            details: self.details,
        }
    }
}

impl View for ImplBlock {
    type V = ImplBlockV;

    open spec fn view(&self) -> ImplBlockV {
        ImplBlockV {
            trait_name: self.trait_name@,
            for_type: self.for_type@,
            methods: views(self.methods@),
            details: self.details,
        }
    }
}

impl View for Field {
    type V = FieldV;

    open spec fn view(&self) -> FieldV {
        FieldV { name: self.name@, ty: self.ty@, details: self.details }
    }
}

impl View for Class {
    type V = ClassV;

    open spec fn view(&self) -> ClassV {
        ClassV { name: self.name@, fields: views(self.fields@), details: self.details }
    }
}

impl View for VariantFields {
    type V = VariantFieldsV;

    open spec fn view(&self) -> VariantFieldsV {
        match *self {
            VariantFields::Unit => VariantFieldsV::Unit,
            VariantFields::Tuple(types) => VariantFieldsV::Tuple(views(types@)),
            VariantFields::Named(token) => VariantFieldsV::Named(token),
        }
    }
}

impl View for Variant {
    type V = VariantV;

    open spec fn view(&self) -> VariantV {
        VariantV {
            name: self.name@,
            fields: self.fields@,
            discriminant: self.discriminant,
            span: self.span,
        }
    }
}

impl View for EnumDecl {
    type V = EnumDeclV;

    open spec fn view(&self) -> EnumDeclV {
        EnumDeclV {
            name: self.name@,
            variants: views(self.variants@),
            visibility: self.visibility,
            span: self.span,
            details: self.details,
        }
    }
}

impl View for Interface {
    type V = InterfaceV;

    open spec fn view(&self) -> InterfaceV {
        InterfaceV {
            name: self.name@,
            visibility: self.visibility,
            span: self.span,
            details: self.details,
        }
    }
}

impl View for ImportItem {
    type V = ImportItemV;

    open spec fn view(&self) -> ImportItemV {
        match *self {
            ImportItem::Named { name, details } => ImportItemV::Named { name: name@, details },
            ImportItem::Other(token) => ImportItemV::Other(token),
        }
    }
}

impl View for Import {
    type V = ImportV;

    open spec fn view(&self) -> ImportV {
        ImportV {
            path_segments: views(self.path_segments@),
            items: views(self.items@),
            details: self.details,
        }
    }
}

impl View for Decl {
    type V = DeclV;

    open spec fn view(&self) -> DeclV {
        DeclV {
            kind: match self.kind {
                DeclKind::Function(f) => DeclKindV::Function(f@),
                DeclKind::Impl(i) => DeclKindV::Impl(i@),
                DeclKind::Class(c) => DeclKindV::Class(c@),
                DeclKind::Enum(e) => DeclKindV::Enum(e@),
                DeclKind::Interface(i) => DeclKindV::Interface(i@),
                DeclKind::Import(i) => DeclKindV::Import(i@),
                DeclKind::Opaque(token) => DeclKindV::Opaque(token),
            },
            ty: self.ty@,
            span: self.span,
        }
    }
}

impl View for TypeDefinition {
    type V = TypeDefinitionV;

    open spec fn view(&self) -> TypeDefinitionV {
        TypeDefinitionV {
            id: self.id,
            name: self.name@,
            variants: match self.variants {
                Some(v) => Some(views(v@)),
                None => None,
            },
            span: self.span,
        }
    }
}

impl View for Program {
    type V = ProgramV;

    open spec fn view(&self) -> ProgramV {
        ProgramV {
            declarations: views(self.declarations@),
            type_registry: views(self.type_registry@),
        }
    }
}

// ---------------------------------------------------------------------------
// Copies
// ---------------------------------------------------------------------------

impl Type {
    /// A copy that reads the same.
    pub fn copied(&self) -> (r: Type)
        ensures
            r@ == self@,
    {
        match self {
            Type::Primitive(p) => Type::Primitive(*p),
            Type::Named { id, arguments } => Type::Named { id: *id, arguments: *arguments },
            Type::Unresolved(name) => Type::Unresolved(name.clone()),
            Type::Any => Type::Any,
            Type::Unknown => Type::Unknown,
            Type::Other(token) => Type::Other(*token),
        }
    }
}

impl Param {
    /// A copy that reads the same.
    pub fn copied(&self) -> (r: Param)
        ensures
            r@ == self@,
    {
        Param {
            name: self.name.clone(),
            ty: self.ty.copied(),
            is_self: self.is_self,
            details: self.details,
        }
    }
}

pub fn copy_params(v: &Vec<Param>) -> (r: Vec<Param>)
    ensures
        views(r@) == views(v@),
{
    let mut r: Vec<Param> = Vec::new();
    for i in 0..v.len()
        invariant
            r@.len() == i,
            forall|k: int| 0 <= k < i ==> (#[trigger] r@[k])@ == v@[k]@,
    {
        r.push(v[i].copied());
    }
    assert(views(r@) =~= views(v@));
    r
}

pub fn copy_types(v: &Vec<Type>) -> (r: Vec<Type>)
    ensures
        views(r@) == views(v@),
{
    let mut r: Vec<Type> = Vec::new();
    for i in 0..v.len()
        invariant
            r@.len() == i,
            forall|k: int| 0 <= k < i ==> (#[trigger] r@[k])@ == v@[k]@,
    {
        r.push(v[i].copied());
    }
    r
}

impl Literal {
    /// A copy that reads the same.
    pub fn copied(&self) -> (r: Literal)
        ensures
            r@ == self@,
    {
        match self {
            Literal::Integer(n) => Literal::Integer(*n),
            Literal::Float(bits) => Literal::Float(*bits),
            Literal::String(s) => Literal::String(s.clone()),
            Literal::Other(token) => Literal::Other(*token),
        }
    }
}

impl Expr {
    /// A copy that reads the same.
    pub fn copied(&self) -> (r: Expr)
        ensures
            r@ == self@,
        decreases self,
    {
        Expr { kind: copy_expr_kind(&self.kind), ty: self.ty.copied(), span: self.span }
    }
}

pub fn copy_exprs(v: &Vec<Expr>) -> (r: Vec<Expr>)
    ensures
        exprs_view(r@) == exprs_view(v@),
    decreases v,
{
    let mut r: Vec<Expr> = Vec::new();
    for i in 0..v.len()
        invariant
            r@.len() == i,
            forall|k: int| 0 <= k < i ==> expr_view(#[trigger] r@[k]) == expr_view(v@[k]),
    {
        r.push(v[i].copied());
    }
    r
}

fn copy_named_args(v: &Vec<NamedArg>) -> (r: Vec<NamedArg>)
    ensures
        named_args_view(r@) == named_args_view(v@),
    decreases v,
{
    let mut r: Vec<NamedArg> = Vec::new();
    for i in 0..v.len()
        invariant
            r@.len() == i,
            forall|k: int| 0 <= k < i ==> named_arg_view(#[trigger] r@[k]) == named_arg_view(v@[k]),
    {
        let a: &NamedArg = &v[i];
        r.push(NamedArg { name: a.name.clone(), value: a.value.copied(), span: a.span });
    }
    r
}

fn copy_field_inits(v: &Vec<FieldInit>) -> (r: Vec<FieldInit>)
    ensures
        field_inits_view(r@) == field_inits_view(v@),
    decreases v,
{
    let mut r: Vec<FieldInit> = Vec::new();
    for i in 0..v.len()
        invariant
            r@.len() == i,
            forall|k: int|
                0 <= k < i ==> field_init_view(#[trigger] r@[k]) == field_init_view(v@[k]),
    {
        let f: &FieldInit = &v[i];
        r.push(FieldInit { name: f.name.clone(), value: f.value.copied() });
    }
    r
}

fn copy_lambda_body(b: &LambdaBody) -> (r: LambdaBody)
    ensures
        lambda_body_view(r) == lambda_body_view(*b),
    decreases b,
{
    match b {
        LambdaBody::Expression(e) => LambdaBody::Expression(Box::new(e.copied())),
        LambdaBody::Block(block) => LambdaBody::Block(block.copied()),
    }
}

fn copy_expr_kind(k: &ExprKind) -> (r: ExprKind)
    ensures
        expr_kind_view(r) == expr_kind_view(*k),
    decreases k,
{
    match k {
        ExprKind::Literal(l) => ExprKind::Literal(l.copied()),
        ExprKind::Variable(name) => ExprKind::Variable(name.clone()),
        ExprKind::Binary { op, left, right } => ExprKind::Binary {
            op: *op,
            left: Box::new(left.copied()),
            right: Box::new(right.copied()),
        },
        ExprKind::Unary { operator, operand } => ExprKind::Unary {
            operator: *operator,
            operand: Box::new(operand.copied()),
        },
        ExprKind::Call(call) => ExprKind::Call(
            Call {
                callee: Box::new(call.callee.copied()),
                positional_args: copy_exprs(&call.positional_args),
                named_args: copy_named_args(&call.named_args),
                type_args: copy_types(&call.type_args),
            },
        ),
        ExprKind::Field { object, field } => ExprKind::Field {
            object: Box::new(object.copied()),
            field: field.clone(),
        },
        ExprKind::Index { object, index } => ExprKind::Index {
            object: Box::new(object.copied()),
            index: Box::new(index.copied()),
        },
        ExprKind::Array(items) => ExprKind::Array(copy_exprs(items)),
        ExprKind::Tuple(items) => ExprKind::Tuple(copy_exprs(items)),
        ExprKind::Struct { name, fields } => ExprKind::Struct {
            name: name.clone(),
            fields: copy_field_inits(fields),
        },
        ExprKind::MethodCall { receiver, method, positional_args, named_args, type_args } =>
            ExprKind::MethodCall {
            receiver: Box::new(receiver.copied()),
            method: method.clone(),
            positional_args: copy_exprs(positional_args),
            named_args: copy_named_args(named_args),
            type_args: copy_types(type_args),
        },
        ExprKind::Block(block) => ExprKind::Block(block.copied()),
        ExprKind::If { condition, then_branch, else_branch } => ExprKind::If {
            condition: Box::new(condition.copied()),
            then_branch: Box::new(then_branch.copied()),
            else_branch: Box::new(else_branch.copied()),
        },
        ExprKind::Lambda { params, body } => ExprKind::Lambda {
            params: *params,
            body: copy_lambda_body(body),
        },
        ExprKind::Opaque(token) => ExprKind::Opaque(*token),
    }
}

impl Block {
    /// A copy that reads the same.
    pub fn copied(&self) -> (r: Block)
        ensures
            r@ == self@,
        decreases self,
    {
        Block { statements: copy_stmts(&self.statements), span: self.span }
    }
}

fn copy_stmts(v: &Vec<Stmt>) -> (r: Vec<Stmt>)
    ensures
        stmts_view(r@) == stmts_view(v@),
    decreases v,
{
    let mut r: Vec<Stmt> = Vec::new();
    for i in 0..v.len()
        invariant
            r@.len() == i,
            forall|k: int| 0 <= k < i ==> stmt_view(#[trigger] r@[k]) == stmt_view(v@[k]),
    {
        r.push(v[i].copied());
    }
    r
}

impl Stmt {
    /// A copy that reads the same.
    pub fn copied(&self) -> (r: Stmt)
        ensures
            r@ == self@,
        decreases self,
    {
        Stmt { kind: copy_stmt_kind(&self.kind), ty: self.ty.copied(), span: self.span }
    }
}

fn copy_stmt_kind(k: &StmtKind) -> (r: StmtKind)
    ensures
        stmt_kind_view(r) == stmt_kind_view(*k),
    decreases k,
{
    match k {
        StmtKind::Expression(e) => StmtKind::Expression(e.copied()),
        StmtKind::Let { name, ty, mutable, initializer, span } => StmtKind::Let {
            name: name.clone(),
            ty: ty.copied(),
            mutable: *mutable,
            initializer: match initializer {
                Some(e) => Some(e.copied()),
                None => None,
            },
            span: *span,
        },
        StmtKind::Return(value) => StmtKind::Return(
            match value {
                Some(e) => Some(e.copied()),
                None => None,
            },
        ),
        StmtKind::If { condition, then_block, else_block, span } => StmtKind::If {
            condition: condition.copied(),
            then_block: then_block.copied(),
            else_block: match else_block {
                Some(b) => Some(b.copied()),
                None => None,
            },
            span: *span,
        },
        StmtKind::While { condition, body, span } => StmtKind::While {
            condition: condition.copied(),
            body: body.copied(),
            span: *span,
        },
        StmtKind::Block(block) => StmtKind::Block(block.copied()),
        StmtKind::Continue => StmtKind::Continue,
        StmtKind::Opaque(token) => StmtKind::Opaque(*token),
    }
}

} // verus!
