//! The syntax tree produced by the parser.

use vstd::prelude::*;

use crate::span::Span;

verus! {

/// An identifier as written, with its span.
#[derive(Debug, Clone)]
pub struct Name {
    pub span: Span,
    pub value: String,
}

/// The statements of a source file, in order.
pub type Ast = Vec<StmtRef>;

#[derive(Debug, Clone, Copy, PartialEq, Eq, Structural)]
pub enum Visibility {
    /// Public everywhere.
    Public,
    /// Public within related modules but not globally.
    Shared,
    /// Completely private.
    Private,
}

#[derive(Debug)]
pub struct Expr {
    pub span: Span,
    pub data: ExprData,
}

pub type ExprRef = Box<Expr>;

#[derive(Debug)]
pub enum ExprData {
    Integer(i64),
    /// A floating-point literal, kept as its source spelling.
    Float(String),
    String(StringExpr),
    Bool(bool),
    Cast(TypeRef, ExprRef),
    Call(Call),
    Initializer(Vec<(Option<Name>, ExprRef)>),
    Index { reciever: ExprRef, index: ExprRef },
    MemberAccess { reciever: ExprRef, member: Name },
    Identifier(String),
    Block(Block),
    Yeild(ExprRef),
    BinaryOperation(BinaryOperation),
    UnaryOperation(UnaryOperation),
    Tuple(Vec<ExprRef>),
    /// The empty tuple `()`.
    Unit,
}

#[derive(Debug, Clone)]
pub struct StringExpr {
    kind: StringKind,
    value: String,
}

#[derive(Debug, Clone, Copy, PartialEq, Eq, Structural)]
pub enum StringKind {
    Nullterminated,
    Raw,
    Plain,
}

#[derive(Debug)]
pub enum CallArgument {
    Expr(ExprRef),
    Assign(Name, ExprRef),
}

#[derive(Debug)]
pub struct Call {
    pub callee: ExprRef,
    pub arguments: Vec<CallArgument>,
}

#[derive(Debug)]
pub struct Block {
    pub stmts: Vec<StmtRef>,
}

#[derive(Debug)]
pub struct BinaryOperation {
    pub left: ExprRef,
    pub right: ExprRef,
    pub operator: BinaryOperator,
}

#[derive(Debug)]
pub struct UnaryOperation {
    pub operand: ExprRef,
    pub operator: UnaryOperator,
}

#[derive(Debug, Clone, Copy, PartialEq, Eq, Structural)]
pub enum BinaryOperator {
    Add,
    Sub,
    Mul,
    Div,
    Mod,
    Equal,
    NotEqual,
    LessThan,
    LessThanEqual,
    GreaterThan,
    GreaterThanEqual,
    And,
    Or,
}

#[derive(Debug, Clone, Copy, PartialEq, Eq, Structural)]
pub enum UnaryOperator {
    Plus,
    Minus,
    Not,
}

/// Grammar: `(`, [ expr, { `,`, expr }* ], `)`
#[derive(Debug)]
pub struct Tuple {
    members: Vec<ExprRef>,
}

impl Expr {
    pub fn span(&self) -> (r: Span)
        ensures
            r == self.span,
    {
        self.span
    }

    pub fn data(&self) -> (r: &ExprData)
        ensures
            *r == self.data,
    {
        &self.data
    }

    pub fn new(span: Span, data: ExprData) -> (r: ExprRef)
        ensures
            r.span == span,
            r.data == data,
    {
        Box::new(Expr { span, data })
    }

    pub fn new_tuple(span: Span, members: Vec<ExprRef>) -> (r: ExprRef)
        ensures
            r.span == span,
            r.data == ExprData::Tuple(members),
    {
        Self::new(span, ExprData::Tuple(members))
    }

    pub fn new_binary(span: Span, left: ExprRef, right: ExprRef, operator: BinaryOperator) -> (r:
        ExprRef)
        ensures
            r.span == span,
            r.data == ExprData::BinaryOperation(BinaryOperation { left, right, operator }),
    {
        Self::new(span, ExprData::BinaryOperation(BinaryOperation { left, right, operator }))
    }

    pub fn new_unary(span: Span, operand: ExprRef, operator: UnaryOperator) -> (r: ExprRef)
        ensures
            r.span == span,
            r.data == ExprData::UnaryOperation(UnaryOperation { operand, operator }),
    {
        Self::new(span, ExprData::UnaryOperation(UnaryOperation { operand, operator }))
    }

    pub fn new_call(span: Span, callee: ExprRef, arguments: Vec<CallArgument>) -> (r: ExprRef)
        ensures
            r.span == span,
            r.data == ExprData::Call(Call { callee, arguments }),
    {
        Self::new(span, ExprData::Call(Call { callee, arguments }))
    }

    pub fn new_index(span: Span, reciever: ExprRef, index: ExprRef) -> (r: ExprRef)
        ensures
            r.span == span,
            r.data == (ExprData::Index { reciever, index }),
    {
        Self::new(span, ExprData::Index { reciever, index })
    }

    pub fn new_member_access(span: Span, reciever: ExprRef, member: Name) -> (r: ExprRef)
        ensures
            r.span == span,
            r.data == (ExprData::MemberAccess { reciever, member }),
    {
        Self::new(span, ExprData::MemberAccess { reciever, member })
    }

    pub fn is_identifier(&self) -> (r: bool)
        ensures
            r == (self.data is Identifier),
    {
        match self.data() {
            ExprData::Identifier(_) => true,
            _ => false,
        }
    }
}

impl BinaryOperator {
    /// The operator as it is written in C and in Qu.
    pub fn symbol(&self) -> (r: &'static str)
        ensures
            r@ == binary_operator_symbol(*self),
    {
        match self {
            BinaryOperator::Add => "+",
            BinaryOperator::Sub => "-",
            BinaryOperator::Mul => "*",
            BinaryOperator::Div => "/",
            BinaryOperator::Mod => "%",
            BinaryOperator::Equal => "==",
            BinaryOperator::NotEqual => "!=",
            BinaryOperator::LessThan => "<",
            BinaryOperator::LessThanEqual => "<=",
            BinaryOperator::GreaterThan => ">",
            BinaryOperator::GreaterThanEqual => ">=",
            BinaryOperator::And => "&&",
            BinaryOperator::Or => "||",
        }
    }
}

pub open spec fn binary_operator_symbol(op: BinaryOperator) -> Seq<char> {
    match op {
        BinaryOperator::Add => "+"@,
        BinaryOperator::Sub => "-"@,
        BinaryOperator::Mul => "*"@,
        BinaryOperator::Div => "/"@,
        BinaryOperator::Mod => "%"@,
        BinaryOperator::Equal => "=="@,
        BinaryOperator::NotEqual => "!="@,
        BinaryOperator::LessThan => "<"@,
        BinaryOperator::LessThanEqual => "<="@,
        BinaryOperator::GreaterThan => ">"@,
        BinaryOperator::GreaterThanEqual => ">="@,
        BinaryOperator::And => "&&"@,
        BinaryOperator::Or => "||"@,
    }
}

#[derive(Debug)]
pub struct Stmt {
    pub span: Span,
    pub data: StmtData,
}

pub type StmtRef = Box<Stmt>;

#[derive(Debug)]
pub enum StmtData {
    VariableDecl(VariableDecl),
    FunctionDefinition(FunctionDefinition),
    TypeDefinition(TypeDefinition),
    UseDecl(UseDecl),
    ModuleSpec(ModuleSpec),
    Return(Return),
    Expr(ExprRef),
}

#[derive(Debug)]
pub struct VariableDecl {
    pub mutability: Mutability,
    pub name: Name,
    pub type_hint: Option<TypeRef>,
    pub initializer: ExprRef,
}

#[derive(Debug)]
pub struct FunctionParameter {
    pub takes_ownership: bool,
    pub name: Name,
    pub type_hint: Option<TypeRef>,
    pub default_value: Option<ExprRef>,
}

#[derive(Debug)]
pub struct FunctionPrototype {
    pub parameters: Vec<FunctionParameter>,
    pub return_type: Option<TypeRef>,
}

#[derive(Debug, Clone, Copy, PartialEq, Eq, Structural)]
pub enum FunctionDeclKind {
    Extern,
    Free,
}

#[derive(Debug)]
pub struct FunctionDefinition {
    pub visibility: Visibility,
    pub mutability: Mutability,
    pub kind: FunctionDeclKind,
    pub name: Name,
    pub generics: Generics,
    pub prototype: FunctionPrototype,
    pub body: Option<ExprRef>,
}

#[derive(Debug)]
pub struct TypeDefinition {
    pub name: Name,
    pub is_distinct: bool,
    pub is_opaque: bool,
    pub value: TypeRef,
}

#[derive(Debug)]
pub enum UsePath {
    /// `use std;`
    Name(Name),
    /// `use Std.Fs;`, `use Std.Fs.Path;`, `use Std.String.{Builder, Util};`
    Pair(Name, Box<UsePath>),
    /// `use Std.{Fs, String, Vec};`
    Many(Vec<UsePath>),
}

#[derive(Debug)]
pub struct UseDecl {
    pub path: UsePath,
}

#[derive(Debug, Clone)]
pub struct ModuleSpec {
    pub name: Name,
}

#[derive(Debug)]
pub struct Return {
    pub expr: ExprRef,
}

impl Stmt {
    pub open spec fn spec_span(&self) -> Span {
        self.span
    }

    pub open spec fn spec_data(&self) -> StmtData {
        self.data
    }

    pub fn span(&self) -> (r: &Span)
        ensures
            *r == self.spec_span(),
    {
        &self.span
    }

    pub fn data(&self) -> (r: &StmtData)
        ensures
            *r == self.spec_data(),
    {
        &self.data
    }

    pub fn is_expr(&self) -> (r: bool)
        ensures
            r == (self.spec_data() is Expr),
    {
        matches!(self.data, StmtData::Expr(_))
    }

    pub fn new(span: Span, data: StmtData) -> (r: StmtRef)
        ensures
            r.spec_span() == span,
            r.spec_data() == data,
    {
        Box::new(Stmt { span, data })
    }

    pub fn new_return(span: Span, expr: ExprRef) -> (r: StmtRef)
        ensures
            r.spec_span() == span,
            r.spec_data() == StmtData::Return(Return { expr }),
    {
        Self::new(span, StmtData::Return(Return { expr }))
    }

    pub fn new_expr(span: Span, expr: ExprRef) -> (r: StmtRef)
        ensures
            r.spec_span() == span,
            r.spec_data() == StmtData::Expr(expr),
    {
        Self::new(span, StmtData::Expr(expr))
    }

    /// A function definition.  A `mut` function is an error, an implicitly immutable
    /// one is ordinary, and a `const` one is evaluated at compile time.
    pub fn new_function_definition(
        span: Span,
        visibility: Visibility,
        mutability: Mutability,
        kind: FunctionDeclKind,
        name: Name,
        generics: Generics,
        prototype: FunctionPrototype,
        body: Option<ExprRef>,
    ) -> (r: StmtRef)
        ensures
            r.spec_span() == span,
            r.spec_data() == StmtData::FunctionDefinition(
                FunctionDefinition {
                    visibility,
                    mutability,
                    kind,
                    name,
                    generics,
                    prototype,
                    body,
                },
            ),
    {
        Self::new(
            span,
            StmtData::FunctionDefinition(
                FunctionDefinition { visibility, mutability, kind, name, generics, prototype, body },
            ),
        )
    }

    pub fn new_variable_decl(
        span: Span,
        mutability: Mutability,
        name: Name,
        type_hint: Option<TypeRef>,
        initializer: ExprRef,
    ) -> (r: StmtRef)
        ensures
            r.spec_span() == span,
            r.spec_data() == StmtData::VariableDecl(
                VariableDecl { mutability, name, type_hint, initializer },
            ),
    {
        Self::new(
            span,
            StmtData::VariableDecl(VariableDecl { mutability, name, type_hint, initializer }),
        )
    }

    pub fn new_module_spec(span: Span, name: Name) -> (r: StmtRef)
        ensures
            r.spec_span() == span,
            r.spec_data() == StmtData::ModuleSpec(ModuleSpec { name }),
    {
        Self::new(span, StmtData::ModuleSpec(ModuleSpec { name }))
    }

    pub fn new_use_decl(span: Span, path: UsePath) -> (r: StmtRef)
        ensures
            r.spec_span() == span,
            r.spec_data() == StmtData::UseDecl(UseDecl { path }),
    {
        Self::new(span, StmtData::UseDecl(UseDecl { path }))
    }

    pub fn new_type_definition(
        span: Span,
        name: Name,
        is_distinct: bool,
        is_opaque: bool,
        value: TypeRef,
    ) -> (r: StmtRef)
        ensures
            r.spec_span() == span,
            r.spec_data() == StmtData::TypeDefinition(
                TypeDefinition { name, is_distinct, is_opaque, value },
            ),
    {
        Self::new(
            span,
            StmtData::TypeDefinition(TypeDefinition { name, is_distinct, is_opaque, value }),
        )
    }
}

impl FunctionPrototype {
    pub fn new(parameters: Vec<FunctionParameter>, return_type: Option<TypeRef>) -> (r: Self)
        ensures
            r == (FunctionPrototype { parameters, return_type }),
    {
        Self { parameters, return_type }
    }
}

#[derive(Debug)]
pub struct Type {
    pub span: Span,
    pub data: TypeData,
    pub mutability: Mutability,
}

#[derive(Debug, Clone, Copy, PartialEq, Eq, Structural, Default)]
pub enum Mutability {
    Mutable,
    Immutable,
    #[default]
    ImplicitlyImmutable,
}

pub type TypeRef = Box<Type>;

#[derive(Debug)]
pub enum TypeData {
    SignedInteger(IntegerWidth),
    UnsignedInteger(IntegerWidth),
    String,
    Char,
    Bool,
    Void,
    Pointer(TypeRef),
    Reference(TypeRef),
    Array(Array),
    Enum(Enum),
    Record(Record),
    Named(Name),
}

#[derive(Debug, Clone, Copy, PartialEq, Eq, Structural)]
pub enum IntegerWidth {
    Int8,
    Int16,
    Int32,
    Int64,
}

#[derive(Debug)]
pub struct Array {
    count: usize,
    elem_type: TypeRef,
}

#[derive(Debug)]
pub struct EnumPayload {
    is_record: bool,
    data: TypeRef,
}

#[derive(Debug)]
pub struct EnumField {
    name: Name,
    payload: Option<EnumPayload>,
}

/// A sum type such as `type Expr = Int(i64) | String(string) | Call { callee: *const Expr,
/// args: []*Expr };`.
#[derive(Debug)]
pub struct Enum {
    generics: Generics,
    fields: Vec<EnumField>,
}

#[derive(Debug)]
pub struct Record {
    generics: Generics,
    fields: Vec<(Name, TypeRef)>,
}

impl Type {
    pub fn new(span: Span, data: TypeData, mutability: Mutability) -> (r: Box<Self>)
        ensures
            r.span == span,
            r.data == data,
            r.mutability == mutability,
    {
        Box::new(Self { span, data, mutability })
    }
}

#[derive(Debug, Clone, Copy, PartialEq, Eq, Structural)]
pub enum GenericParameter {
    Type,
    Integer,
    Bool,
    String,
}

#[derive(Debug, Clone)]
pub struct Generics(pub Vec<GenericParameter>);

impl Generics {
    pub fn new() -> (r: Self)
        ensures
            r.0@ == Seq::<GenericParameter>::empty(),
    {
        Self(Vec::new())
    }
}

} // verus!
