//! Type checking: gives every function, parameter, variable and expression a type in
//! the module's type table, and reports values that do not fit where they are used.

use vstd::prelude::*;

use crate::ast::{
    Ast, Block, Call, CallArgument, Expr, ExprData, FunctionDefinition, IntegerWidth, Name, Stmt,
    StmtData, Type, TypeData, VariableDecl,
};
use crate::diagnostics::{Diagnostic, DiagnosticView, LabelView, Severity};
use crate::layout::{
    is_numeric_kind, kinds_equal, name_key, numeric_width, same_kind, width_score, TypeId, TypeKind,
    TypeLayout,
};
use crate::parser::scalar_type_named;
use crate::text::decimal;
use crate::module::Module;
use crate::span::Span;
use crate::symbol::{Symbol, SymbolData};
use crate::text::string_of;

verus! {

pub const TYPEID_CHAR: usize = 0;
pub const TYPEID_STRING: usize = 1;
pub const TYPEID_BOOL: usize = 2;
pub const TYPEID_I8: usize = 3;
pub const TYPEID_I16: usize = 4;
pub const TYPEID_I32: usize = 5;
pub const TYPEID_I64: usize = 6;
pub const TYPEID_U8: usize = 7;
pub const TYPEID_U16: usize = 8;
pub const TYPEID_U32: usize = 9;
pub const TYPEID_U64: usize = 10;
pub const TYPEID_F32: usize = 11;
pub const TYPEID_F64: usize = 12;
/// The last of the built-in ids.
pub const TYPEID_VOID: usize = 13;

/// The kind of the built-in type with id `i`.
pub open spec fn builtin_kind(i: int) -> TypeKind {
    if i == 0 { TypeKind::Char }
    else if i == 1 { TypeKind::String }
    else if i == 2 { TypeKind::Bool }
    else if i == 3 { TypeKind::I8 }
    else if i == 4 { TypeKind::I16 }
    else if i == 5 { TypeKind::I32 }
    else if i == 6 { TypeKind::I64 }
    else if i == 7 { TypeKind::U8 }
    else if i == 8 { TypeKind::U16 }
    else if i == 9 { TypeKind::U32 }
    else if i == 10 { TypeKind::U64 }
    else if i == 11 { TypeKind::F32 }
    else if i == 12 { TypeKind::F64 }
    else { TypeKind::Void }
}

/// The layouts of the built-in types, in id order.
pub open spec fn builtin_layouts() -> Seq<TypeLayout> {
    Seq::new((TYPEID_VOID + 1) as nat, |i: int| TypeLayout { kind: builtin_kind(i), span: None })
}

/// Every type id that `k` refers to is below `bound`.
pub open spec fn refs_below(k: TypeKind, bound: int) -> bool {
    match k {
        TypeKind::Pointer(t) => t.0 < bound,
        TypeKind::Array { type_hint, .. } => type_hint.0 < bound,
        TypeKind::Placeholder(Some(t)) => t.0 < bound,
        TypeKind::Tuple(v) => forall|j: int| 0 <= j < v@.len() ==> (#[trigger] v@[j]).0 < bound,
        TypeKind::Function { return_type, parameter_types, .. } => return_type.0 < bound
            && forall|j: int|
            0 <= j < parameter_types@.len() ==> (#[trigger] parameter_types@[j]).0 < bound,
        _ => true,
    }
}

/// Every type refers only to types that come before it in the table.
pub open spec fn types_acyclic(pool: Seq<TypeLayout>) -> bool {
    forall|i: int| 0 <= i < pool.len() ==> refs_below(#[trigger] pool[i].kind, i)
}

/// `new` holds `old` as its prefix.
pub open spec fn grows<T>(new: Seq<T>, old: Seq<T>) -> bool {
    old.len() <= new.len() && new.subrange(0, old.len() as int) == old
}

/// The name under which type `id` is shown.
pub open spec fn type_text(pool: Seq<TypeLayout>, id: int) -> Seq<char>
    decreases id + 1, 0int,
{
    if !(0 <= id < pool.len()) {
        Seq::empty()
    } else {
        match pool[id].kind {
            TypeKind::I8 => "i8"@,
            TypeKind::I16 => "i16"@,
            TypeKind::I32 => "i32"@,
            TypeKind::I64 => "i64"@,
            TypeKind::U8 => "u8"@,
            TypeKind::U16 => "u16"@,
            TypeKind::U32 => "u32"@,
            TypeKind::U64 => "u64"@,
            TypeKind::F32 => "f32"@,
            TypeKind::F64 => "f64"@,
            TypeKind::Usize => "usize"@,
            TypeKind::Isize => "isize"@,
            TypeKind::String => "string"@,
            TypeKind::Char => "char"@,
            TypeKind::Void => "void"@,
            TypeKind::Bool => "bool"@,
            TypeKind::Function { return_type, parameter_types, .. } => "fn("@ + joined_names(
                pool,
                parameter_types@,
                id,
            ) + ") -> "@ + if return_type.0 < id {
                type_text(pool, return_type.0 as int)
            } else {
                Seq::empty()
            },
            TypeKind::Pointer(inner) => "*"@ + if inner.0 < id {
                type_text(pool, inner.0 as int)
            } else {
                Seq::empty()
            },
            TypeKind::Tuple(_) => "tuple"@,
            TypeKind::Array { .. } => "array"@,
            TypeKind::Placeholder(_) => "_"@,
            TypeKind::Named(n) => n@,
        }
    }
}

/// The names of the types `ids` (each below `owner`), separated by `", "`.
pub open spec fn joined_names(pool: Seq<TypeLayout>, ids: Seq<TypeId>, owner: int) -> Seq<char>
    decreases owner, ids.len(),
{
    if ids.len() == 0 {
        Seq::empty()
    } else {
        let last = if 0 <= ids.last().0 < owner {
            type_text(pool, ids.last().0 as int)
        } else {
            Seq::empty()
        };
        if ids.len() == 1 {
            last
        } else {
            joined_names(pool, ids.drop_last(), owner) + ", "@ + last
        }
    }
}

/// Expressions the checker handles: blocks, identifiers, integers, calls and binary
/// operations, with all their parts handled too.
pub open spec fn checkable_expr(e: Expr) -> bool
    decreases e,
{
    match e.data {
        ExprData::Block(b) => checkable_stmts(b.stmts@),
        ExprData::Identifier(_) => true,
        ExprData::Integer(_) => true,
        ExprData::Call(c) => checkable_expr(*c.callee) && checkable_args(c.arguments@),
        ExprData::BinaryOperation(b) => checkable_expr(*b.left) && checkable_expr(*b.right),
        _ => false,
    }
}

pub open spec fn checkable_args(args: Seq<CallArgument>) -> bool
    decreases args,
{
    if args.len() == 0 {
        true
    } else {
        checkable_args(args.drop_last()) && match args.last() {
            CallArgument::Expr(v) => checkable_expr(*v),
            CallArgument::Assign(_, v) => checkable_expr(*v),
        }
    }
}

pub open spec fn checkable_stmts(s: Seq<crate::ast::StmtRef>) -> bool
    decreases s,
{
    if s.len() == 0 {
        true
    } else {
        checkable_stmts(s.drop_last()) && checkable_stmt(*s.last())
    }
}

/// A parameter has a type hint, a default value or both, each of them handled.
pub open spec fn checkable_params(ps: Seq<crate::ast::FunctionParameter>) -> bool
    decreases ps,
{
    if ps.len() == 0 {
        true
    } else {
        checkable_params(ps.drop_last()) && match (ps.last().type_hint, ps.last().default_value) {
            (Some(t), None) => resolvable_type(*t),
            (None, Some(e)) => checkable_expr(*e),
            (Some(t), Some(e)) => resolvable_type(*t) && checkable_expr(*e),
            (None, None) => false,
        }
    }
}

pub open spec fn checkable_function(f: FunctionDefinition) -> bool
    decreases f,
{
    &&& match f.prototype.return_type {
        Some(t) => resolvable_type(*t),
        None => true,
    }
    &&& checkable_params(f.prototype.parameters@)
    &&& match f.body {
        Some(b) => checkable_expr(*b),
        None => true,
    }
}

/// Statements the checker handles: function definitions, variable declarations,
/// returns and expressions, with their type hints resolvable.
pub open spec fn checkable_stmt(s: Stmt) -> bool
    decreases s,
{
    match s.data {
        StmtData::FunctionDefinition(f) => checkable_function(f),
        StmtData::VariableDecl(v) => checkable_expr(*v.initializer) && match v.type_hint {
            Some(t) => resolvable_type(*t),
            None => true,
        },
        StmtData::Return(r) => checkable_expr(*r.expr),
        StmtData::Expr(e) => checkable_expr(*e),
        _ => false,
    }
}

pub proof fn lemma_checkable_stmts_index(s: Seq<crate::ast::StmtRef>, i: int)
    requires
        checkable_stmts(s),
        0 <= i < s.len(),
    ensures
        checkable_stmt(*s[i]),
    decreases s.len(),
{
    if i < s.len() - 1 {
        lemma_checkable_stmts_index(s.drop_last(), i);
    }
}

pub proof fn lemma_checkable_args_index(s: Seq<CallArgument>, i: int)
    requires
        checkable_args(s),
        0 <= i < s.len(),
    ensures
        match s[i] {
            CallArgument::Expr(v) => checkable_expr(*v),
            CallArgument::Assign(_, v) => checkable_expr(*v),
        },
    decreases s.len(),
{
    if i < s.len() - 1 {
        lemma_checkable_args_index(s.drop_last(), i);
    }
}

pub proof fn lemma_checkable_params_index(ps: Seq<crate::ast::FunctionParameter>, i: int)
    requires
        checkable_params(ps),
        0 <= i < ps.len(),
    ensures
        match (ps[i].type_hint, ps[i].default_value) {
            (Some(t), None) => resolvable_type(*t),
            (None, Some(e)) => checkable_expr(*e),
            (Some(t), Some(e)) => resolvable_type(*t) && checkable_expr(*e),
            (None, None) => false,
        },
    decreases ps.len(),
{
    if i < ps.len() - 1 {
        lemma_checkable_params_index(ps.drop_last(), i);
    }
}

/// The ids of the symbols that are functions.
pub open spec fn function_ids(syms: Seq<Symbol>) -> Set<int> {
    Set::new(|i: int| 0 <= i < syms.len() && syms[i].data is Function)
}

/// A symbol id below `n` is recorded at `span`.
pub open spec fn symbol_at(keys: Map<Span, usize>, n: nat, span: Span) -> bool {
    keys.contains_key(span) && keys[span] < n
}

/// Every name used in `e` has a symbol recorded at its span, and every function or
/// variable defined in it a symbol at its name (a function one for a function):
/// `keys` maps spans to symbol ids below `n`, and `fns` holds the ids of functions.
pub open spec fn ready_expr(keys: Map<Span, usize>, n: nat, fns: Set<int>, e: Expr) -> bool
    decreases e,
{
    match e.data {
        ExprData::Block(b) => ready_stmts(keys, n, fns, b.stmts@),
        ExprData::Identifier(_) => symbol_at(keys, n, e.span),
        ExprData::Call(c) => ready_expr(keys, n, fns, *c.callee) && ready_args(keys, n, fns, c.arguments@),
        ExprData::BinaryOperation(b) => ready_expr(keys, n, fns, *b.left) && ready_expr(keys, n, fns, *b.right),
        _ => true,
    }
}

pub open spec fn ready_args(keys: Map<Span, usize>, n: nat, fns: Set<int>, args: Seq<CallArgument>) -> bool
    decreases args,
{
    if args.len() == 0 {
        true
    } else {
        ready_args(keys, n, fns, args.drop_last()) && match args.last() {
            CallArgument::Expr(v) => ready_expr(keys, n, fns, *v),
            CallArgument::Assign(_, v) => ready_expr(keys, n, fns, *v),
        }
    }
}

pub open spec fn ready_stmts(keys: Map<Span, usize>, n: nat, fns: Set<int>, s: Seq<crate::ast::StmtRef>) -> bool
    decreases s,
{
    if s.len() == 0 {
        true
    } else {
        ready_stmts(keys, n, fns, s.drop_last()) && ready_stmt(keys, n, fns, *s.last())
    }
}

/// The default values of parameters `ps` are ready.
pub open spec fn ready_params(keys: Map<Span, usize>, n: nat, fns: Set<int>, ps: Seq<crate::ast::FunctionParameter>) -> bool
    decreases ps,
{
    if ps.len() == 0 {
        true
    } else {
        ready_params(keys, n, fns, ps.drop_last()) && match ps.last().default_value {
            Some(e) => ready_expr(keys, n, fns, *e),
            None => true,
        }
    }
}

pub open spec fn ready_function(keys: Map<Span, usize>, n: nat, fns: Set<int>, f: FunctionDefinition) -> bool
    decreases f,
{
    &&& symbol_at(keys, n, f.name.span)
    &&& fns.contains(keys[f.name.span] as int)
    &&& ready_params(keys, n, fns, f.prototype.parameters@)
    &&& match f.body {
        Some(b) => ready_expr(keys, n, fns, *b),
        None => true,
    }
}

pub open spec fn ready_stmt(keys: Map<Span, usize>, n: nat, fns: Set<int>, s: Stmt) -> bool
    decreases s,
{
    match s.data {
        StmtData::FunctionDefinition(f) => ready_function(keys, n, fns, f),
        StmtData::VariableDecl(v) => symbol_at(keys, n, v.name.span) && ready_expr(keys, n, fns, *v.initializer),
        StmtData::Return(r) => ready_expr(keys, n, fns, *r.expr),
        StmtData::Expr(e) => ready_expr(keys, n, fns, *e),
        _ => true,
    }
}

/// Every name used in `ast` has a symbol recorded at its span in `m`, and every
/// function or variable defined in it one at its name (a function one for a function).
pub open spec fn symbols_ready(m: Module, ast: Seq<crate::ast::StmtRef>) -> bool {
    ready_stmts(m.symbols.key_map(), m.symbols.pool@.len(), function_ids(m.symbols.pool@), ast)
}

pub proof fn lemma_ready_stmts_index(
    keys: Map<Span, usize>,
    n: nat,
    fns: Set<int>,
    s: Seq<crate::ast::StmtRef>,
    i: int,
)
    requires
        ready_stmts(keys, n, fns, s),
        0 <= i < s.len(),
    ensures
        ready_stmt(keys, n, fns, *s[i]),
    decreases s.len(),
{
    if i < s.len() - 1 {
        lemma_ready_stmts_index(keys, n, fns, s.drop_last(), i);
    }
}

pub proof fn lemma_ready_args_index(keys: Map<Span, usize>, n: nat, fns: Set<int>, s: Seq<CallArgument>, i: int)
    requires
        ready_args(keys, n, fns, s),
        0 <= i < s.len(),
    ensures
        match s[i] {
            CallArgument::Expr(v) => ready_expr(keys, n, fns, *v),
            CallArgument::Assign(_, v) => ready_expr(keys, n, fns, *v),
        },
    decreases s.len(),
{
    if i < s.len() - 1 {
        lemma_ready_args_index(keys, n, fns, s.drop_last(), i);
    }
}

pub proof fn lemma_ready_params_index(
    keys: Map<Span, usize>,
    n: nat,
    fns: Set<int>,
    ps: Seq<crate::ast::FunctionParameter>,
    i: int,
)
    requires
        ready_params(keys, n, fns, ps),
        0 <= i < ps.len(),
    ensures
        match ps[i].default_value {
            Some(e) => ready_expr(keys, n, fns, *e),
            None => true,
        },
    decreases ps.len(),
{
    if i < ps.len() - 1 {
        lemma_ready_params_index(keys, n, fns, ps.drop_last(), i);
    }
}

/// Every identifier, call and binary operation in `e` has a type recorded at its span
/// (`keys` holds the spans that have one).
pub open spec fn typed_expr(keys: Set<Span>, e: Expr) -> bool
    decreases e,
{
    match e.data {
        ExprData::Block(b) => typed_stmts(keys, b.stmts@),
        ExprData::Identifier(_) => keys.contains(e.span),
        ExprData::Call(c) => keys.contains(e.span) && typed_expr(keys, *c.callee) && typed_args(keys, c.arguments@),
        ExprData::BinaryOperation(b) => keys.contains(e.span) && typed_expr(keys, *b.left) && typed_expr(keys, *b.right),
        _ => true,
    }
}

pub open spec fn typed_args(keys: Set<Span>, args: Seq<CallArgument>) -> bool
    decreases args,
{
    if args.len() == 0 {
        true
    } else {
        typed_args(keys, args.drop_last()) && match args.last() {
            CallArgument::Expr(v) => typed_expr(keys, *v),
            CallArgument::Assign(_, v) => typed_expr(keys, *v),
        }
    }
}

pub open spec fn typed_stmts(keys: Set<Span>, s: Seq<crate::ast::StmtRef>) -> bool
    decreases s,
{
    if s.len() == 0 {
        true
    } else {
        typed_stmts(keys, s.drop_last()) && typed_stmt(keys, *s.last())
    }
}

/// The expressions of `s` are typed, and a declared variable has a type at its name.
pub open spec fn typed_stmt(keys: Set<Span>, s: Stmt) -> bool
    decreases s,
{
    match s.data {
        StmtData::FunctionDefinition(f) => match f.body {
            Some(b) => typed_expr(keys, *b),
            None => true,
        },
        StmtData::VariableDecl(v) => keys.contains(v.name.span) && typed_expr(keys, *v.initializer),
        StmtData::Return(r) => typed_expr(keys, *r.expr),
        StmtData::Expr(e) => typed_expr(keys, *e),
        _ => true,
    }
}

/// Recording more types keeps everything typed.
pub proof fn lemma_typed_expr_mono(e: Expr, a: Set<Span>, b: Set<Span>)
    requires
        typed_expr(a, e),
        a.subset_of(b),
    ensures
        typed_expr(b, e),
    decreases e,
{
    match e.data {
        ExprData::Block(bl) => lemma_typed_stmts_mono(bl.stmts@, a, b),
        ExprData::Call(c) => {
            lemma_typed_expr_mono(*c.callee, a, b);
            lemma_typed_args_mono(c.arguments@, a, b);
        },
        ExprData::BinaryOperation(bo) => {
            lemma_typed_expr_mono(*bo.left, a, b);
            lemma_typed_expr_mono(*bo.right, a, b);
        },
        _ => {},
    }
}

pub proof fn lemma_typed_args_mono(args: Seq<CallArgument>, a: Set<Span>, b: Set<Span>)
    requires
        typed_args(a, args),
        a.subset_of(b),
    ensures
        typed_args(b, args),
    decreases args,
{
    if args.len() > 0 {
        lemma_typed_args_mono(args.drop_last(), a, b);
        match args.last() {
            CallArgument::Expr(v) => lemma_typed_expr_mono(*v, a, b),
            CallArgument::Assign(_, v) => lemma_typed_expr_mono(*v, a, b),
        }
    }
}

pub proof fn lemma_typed_stmts_mono(s: Seq<crate::ast::StmtRef>, a: Set<Span>, b: Set<Span>)
    requires
        typed_stmts(a, s),
        a.subset_of(b),
    ensures
        typed_stmts(b, s),
    decreases s,
{
    if s.len() > 0 {
        lemma_typed_stmts_mono(s.drop_last(), a, b);
        lemma_typed_stmt_mono(*s.last(), a, b);
    }
}

pub proof fn lemma_typed_stmt_mono(s: Stmt, a: Set<Span>, b: Set<Span>)
    requires
        typed_stmt(a, s),
        a.subset_of(b),
    ensures
        typed_stmt(b, s),
    decreases s,
{
    match s.data {
        StmtData::FunctionDefinition(f) => {
            if let Some(body) = f.body {
                lemma_typed_expr_mono(*body, a, b);
            }
        },
        StmtData::VariableDecl(v) => lemma_typed_expr_mono(*v.initializer, a, b),
        StmtData::Return(r) => lemma_typed_expr_mono(*r.expr, a, b),
        StmtData::Expr(e) => lemma_typed_expr_mono(*e, a, b),
        _ => {},
    }
}

/// The diagnostic for an identifier whose symbol has no type yet.
pub open spec fn awaiting_inference_view(span: Span, name: Seq<char>) -> DiagnosticView {
    crate::diagnostics::new_diagnostic_view(
        Severity::Error,
        "type not inferred"@,
        span,
        "identifier `"@ + name + "` is awaiting inference"@,
    )
}

/// How a value of type `source` fits where type `target` is expected.
#[derive(Debug, Clone, Copy, PartialEq, Eq, Structural)]
pub enum CoerceResult {
    Identity,
    IntegerWidening,
    IntegerShrinking,
    IntegerSignChange,
    Invalid,
}

/// The same type is an identity; between integer types the width score decides;
/// anything else is invalid.
pub open spec fn coerce_result(pool: Seq<TypeLayout>, target: int, source: int) -> CoerceResult {
    if target == source {
        CoerceResult::Identity
    } else if is_numeric_kind(pool[target].kind) && is_numeric_kind(pool[source].kind) {
        let w = width_score(pool[target].kind, pool[source].kind);
        if w < 0 {
            CoerceResult::IntegerShrinking
        } else if w > 0 {
            CoerceResult::IntegerWidening
        } else {
            CoerceResult::IntegerSignChange
        }
    } else {
        CoerceResult::Invalid
    }
}

/// The built-in id for a scalar type hint.
pub open spec fn scalar_type_id(d: TypeData) -> Option<usize> {
    match d {
        TypeData::UnsignedInteger(IntegerWidth::Int8) => Some(TYPEID_U8),
        TypeData::UnsignedInteger(IntegerWidth::Int16) => Some(TYPEID_U16),
        TypeData::UnsignedInteger(IntegerWidth::Int32) => Some(TYPEID_U32),
        TypeData::UnsignedInteger(IntegerWidth::Int64) => Some(TYPEID_U64),
        TypeData::SignedInteger(IntegerWidth::Int8) => Some(TYPEID_I8),
        TypeData::SignedInteger(IntegerWidth::Int16) => Some(TYPEID_I16),
        TypeData::SignedInteger(IntegerWidth::Int32) => Some(TYPEID_I32),
        TypeData::SignedInteger(IntegerWidth::Int64) => Some(TYPEID_I64),
        TypeData::Bool => Some(TYPEID_BOOL),
        TypeData::Void => Some(TYPEID_VOID),
        TypeData::Char => Some(TYPEID_CHAR),
        TypeData::String => Some(TYPEID_STRING),
        _ => None,
    }
}

/// Type hints the checker resolves: the scalar types and pointers to them.
pub open spec fn resolvable_type(t: Type) -> bool
    decreases t,
{
    match t.data {
        TypeData::Pointer(inner) => resolvable_type(*inner),
        _ => scalar_type_id(t.data) is Some,
    }
}

/// The position of the first type of kind `k` in the table.
pub open spec fn is_first_of_kind(pool: Seq<TypeLayout>, k: TypeKind, i: int) -> bool {
    &&& 0 <= i < pool.len()
    &&& same_kind(pool[i].kind, k)
    &&& forall|j: int| 0 <= j < i ==> !same_kind(#[trigger] pool[j].kind, k)
}

/// `k` is a function type with one parameter type for each parameter of `f`, and
/// returns `void` when `f` names no return type.
pub open spec fn function_type_fits(k: TypeKind, f: FunctionDefinition) -> bool {
    match k {
        TypeKind::Function { return_type, parameter_types, .. } => {
            &&& parameter_types@.len() == f.prototype.parameters@.len()
            &&& f.prototype.return_type is None ==> return_type.0 == TYPEID_VOID
        },
        _ => false,
    }
}

/// The type given to the symbol defined at `span`, if there is one.
pub open spec fn symbol_type(m: Module, span: Span) -> Option<TypeId> {
    match m.symbols.spec_id_of(span) {
        Some(id) => if id < m.symbols.pool@.len() {
            m.symbols.pool@[id as int].resolved_type
        } else {
            None
        },
        None => None,
    }
}

/// The type of `e` known before checking it: `i32` for an integer literal, the type of
/// its symbol for a name.
pub open spec fn known_type(m: Module, e: Expr) -> Option<TypeId> {
    match e.data {
        ExprData::Integer(_) => Some(TypeId(TYPEID_I32)),
        ExprData::Identifier(_) => symbol_type(m, e.span),
        _ => None,
    }
}

/// The type that checking `e` gives when `e` is made of integer literals, names whose
/// symbols have a type, binary operations and calls with positional arguments, and
/// the check succeeds: `i32` for a literal, the symbol's type for a name, the left
/// operand's type for an operation whose right operand can be passed as the left, and
/// the return type for a call of a function type whose arguments fit its parameters.
/// `None` for every other expression and for a check that fails.
pub open spec fn expr_type(m: Module, e: Expr) -> Option<TypeId>
    decreases e,
{
    match e.data {
        ExprData::Integer(_) => Some(TypeId(TYPEID_I32)),
        ExprData::Identifier(_) => symbol_type(m, e.span),
        ExprData::BinaryOperation(b) => match (expr_type(m, *b.left), expr_type(m, *b.right)) {
            (Some(l), Some(r)) => if l.0 < m.types.pool@.len() && r.0 < m.types.pool@.len()
                && coercible(m.types.pool@, l.0 as int, r.0 as int) {
                Some(l)
            } else {
                None
            },
            _ => None,
        },
        ExprData::Call(c) => match expr_type(m, *c.callee) {
            Some(t) => if t.0 < m.types.pool@.len() {
                match m.types.pool@[t.0 as int].kind {
                    TypeKind::Function { return_type, parameter_types, .. } => if call_args_fit(
                        m,
                        parameter_types@,
                        c.arguments@,
                    ) {
                        Some(return_type)
                    } else {
                        None
                    },
                    _ => None,
                }
            } else {
                None
            },
            None => None,
        },
        _ => None,
    }
}

/// The arguments are positional, no more than `params`, and each has a type by
/// [`expr_type`] that can be passed as the parameter in its position.
pub open spec fn call_args_fit(m: Module, params: Seq<TypeId>, args: Seq<CallArgument>) -> bool
    decreases args,
{
    if args.len() == 0 {
        true
    } else {
        &&& call_args_fit(m, params, args.drop_last())
        &&& args.len() <= params.len()
        &&& match args.last() {
            CallArgument::Expr(v) => match expr_type(m, *v) {
                Some(a) => a.0 < m.types.pool@.len() && coercible(
                    m.types.pool@,
                    params[args.len() - 1].0 as int,
                    a.0 as int,
                ),
                None => false,
            },
            CallArgument::Assign(_, _) => false,
        }
    }
}

/// A value of type `source` can be passed where `target` is expected.
pub open spec fn coercible(pool: Seq<TypeLayout>, target: int, source: int) -> bool {
    coerce_result(pool, target, source) == CoerceResult::Identity || coerce_result(pool, target, source)
        == CoerceResult::IntegerWidening
}

/// Argument `i` is positional, has a parameter in its position, and has a known type
/// that can be passed as that parameter.
pub open spec fn arg_fits(m: Module, params: Seq<TypeId>, args: Seq<CallArgument>, i: int) -> bool {
    &&& i < params.len()
    &&& args[i] matches CallArgument::Expr(v) && expr_type(m, *v) matches Some(a) && a.0
        < m.types.pool@.len() && coercible(m.types.pool@, params[i].0 as int, a.0 as int)
}

/// The first `k` arguments fit their parameters.
pub open spec fn prefix_fits(m: Module, params: Seq<TypeId>, args: Seq<CallArgument>, k: int) -> bool {
    forall|i: int| 0 <= i < k ==> #[trigger] arg_fits(m, params, args, i)
}

/// The arguments are positional, no more than the parameters, and each has a known
/// type that can be passed as the parameter in its position.
pub open spec fn args_fit(m: Module, params: Seq<TypeId>, args: Seq<CallArgument>) -> bool {
    &&& args.len() <= params.len()
    &&& prefix_fits(m, params, args, args.len() as int)
}

/// Argument `k` is the first that does not fit: the ones before it fit, and it is
/// positional, has a parameter in its position and a known type that cannot be passed
/// as that parameter.
pub open spec fn first_misfit(m: Module, params: Seq<TypeId>, args: Seq<CallArgument>, k: int) -> bool {
    &&& 0 <= k < args.len()
    &&& k < params.len()
    &&& prefix_fits(m, params, args, k)
    &&& args[k] matches CallArgument::Expr(v) && expr_type(m, *v) matches Some(a) && a.0
        < m.types.pool@.len() && !coercible(m.types.pool@, params[k].0 as int, a.0 as int)
}

/// The type of an expression depends only on the symbols and the type table.
pub proof fn lemma_expr_type_frame(m1: Module, m2: Module, e: Expr)
    requires
        m1.symbols == m2.symbols,
        m1.types.pool@ == m2.types.pool@,
    ensures
        expr_type(m1, e) == expr_type(m2, e),
    decreases e,
{
    match e.data {
        ExprData::BinaryOperation(b) => {
            lemma_expr_type_frame(m1, m2, *b.left);
            lemma_expr_type_frame(m1, m2, *b.right);
        },
        ExprData::Call(c) => {
            lemma_expr_type_frame(m1, m2, *c.callee);
            match expr_type(m1, *c.callee) {
                Some(t) => if t.0 < m1.types.pool@.len() {
                    match m1.types.pool@[t.0 as int].kind {
                        TypeKind::Function { parameter_types, .. } => {
                            lemma_call_args_fit_frame(m1, m2, parameter_types@, c.arguments@);
                        },
                        _ => {},
                    }
                },
                None => {},
            }
        },
        _ => {},
    }
}

/// Whether arguments fit depends only on the symbols and the type table.
pub proof fn lemma_call_args_fit_frame(m1: Module, m2: Module, params: Seq<TypeId>, args: Seq<CallArgument>)
    requires
        m1.symbols == m2.symbols,
        m1.types.pool@ == m2.types.pool@,
    ensures
        call_args_fit(m1, params, args) == call_args_fit(m2, params, args),
    decreases args,
{
    if args.len() > 0 {
        lemma_call_args_fit_frame(m1, m2, params, args.drop_last());
        match args.last() {
            CallArgument::Expr(v) => lemma_expr_type_frame(m1, m2, *v),
            _ => {},
        }
    }
}

/// The recursive and the position-wise statements of fitting arguments agree.
pub proof fn lemma_call_args_fit(m: Module, params: Seq<TypeId>, args: Seq<CallArgument>)
    ensures
        call_args_fit(m, params, args) == args_fit(m, params, args),
    decreases args.len(),
{
    if args.len() > 0 {
        let d = args.drop_last();
        lemma_call_args_fit(m, params, d);
        assert forall|i: int| 0 <= i < d.len() implies arg_fits(m, params, d, i) == arg_fits(m, params, args, i) by {
            assert(d[i] == args[i]);
        }
        if args_fit(m, params, args) {
            assert(arg_fits(m, params, args, args.len() - 1));
            assert(prefix_fits(m, params, d, d.len() as int)) by {
                assert forall|i: int| 0 <= i < d.len() implies #[trigger] arg_fits(m, params, d, i) by {
                    assert(arg_fits(m, params, args, i));
                }
            }
        }
        if call_args_fit(m, params, args) {
            assert(prefix_fits(m, params, args, args.len() as int)) by {
                assert forall|i: int| 0 <= i < args.len() implies #[trigger] arg_fits(m, params, args, i) by {
                    if i < d.len() {
                        assert(arg_fits(m, params, d, i));
                    }
                }
            }
        }
    }
}

/// The diagnostic for an argument at `span` of the type named `found` where a value of
/// the type named `expected` is wanted.
pub open spec fn argument_mismatch_view(span: Span, expected: Seq<char>, found: Seq<char>) -> DiagnosticView {
    crate::diagnostics::new_diagnostic_view(
        Severity::Error,
        "unexpected type"@,
        span,
        "expected `"@ + expected + "` got `"@ + found + "`"@,
    )
}

/// The diagnostic for a call of a value of the type named `callee_type`, which is not a
/// function.
pub open spec fn not_callable_view(span: Span, callee_type: Seq<char>) -> DiagnosticView {
    crate::diagnostics::new_diagnostic_view(
        Severity::Error,
        "invalid type"@,
        span,
        "type `"@ + callee_type + "` is not callable"@,
    )
}

/// The type recorded at `span` is a function type returning `void` and taking no
/// parameters.
pub open spec fn fn_typed_void(m: Module, span: Span) -> bool {
    &&& m.types.key_map().contains_key(span)
    &&& m.types.key_map()[span] < m.types.pool@.len()
    &&& m.types.pool@[m.types.key_map()[span] as int].kind matches TypeKind::Function {
        return_type,
        parameter_types,
        ..
    }
    &&& return_type.0 == TYPEID_VOID
    &&& parameter_types@.len() == 0
}

/// `s` defines a function with no parameters, no return type, and a body that is an
/// integer literal or a block without statements.
pub open spec fn nop_function(s: Stmt) -> bool {
    &&& simple_function(s)
    &&& s.data->FunctionDefinition_0.prototype.parameters@.len() == 0
    &&& s.data->FunctionDefinition_0.prototype.return_type is None
}

/// Every function that `ast` defines has a function type returning `void` and taking
/// no parameters recorded at its name.
pub open spec fn names_typed(m: Module, ast: Seq<crate::ast::StmtRef>) -> bool {
    forall|j: int| 0 <= j < ast.len() ==> fn_typed_void(m, (#[trigger] ast[j]).data->FunctionDefinition_0.name.span)
}

/// Recording a function type returning `void` at one span, and adding types, keeps
/// every such record at other spans.
pub proof fn lemma_fn_typed_kept(a: Module, b: Module, span: Span, other: Span)
    requires
        fn_typed_void(a, other),
        grows(b.types.pool@, a.types.pool@),
        b.types.key_map() == a.types.key_map() || (b.types.key_map() == a.types.key_map().insert(
            span,
            b.types.key_map()[span],
        ) && fn_typed_void(b, span)),
    ensures
        fn_typed_void(b, other),
{
    let id = a.types.key_map()[other] as int;
    assert(b.types.pool@.subrange(0, a.types.pool@.len() as int)[id] == b.types.pool@[id]);
}

/// `s` defines a function whose parameters all have a type hint and no default value,
/// and whose body, if it has one, is an integer literal or a block without statements.
pub open spec fn simple_function(s: Stmt) -> bool {
    s.data matches StmtData::FunctionDefinition(f) && params_hinted(f.prototype.parameters@) && match f.body {
        Some(b) => crate::symbol_analyzer::trivially_resolved(*b),
        None => true,
    }
}

/// No other parameter of `ps` after `j` has the name span of parameter `j`.
pub open spec fn later_unique(ps: Seq<crate::ast::FunctionParameter>, j: int, upto: int) -> bool {
    forall|k: int| j < k < upto ==> (#[trigger] ps[k]).name.span != ps[j].name.span
}

/// Parameter `j` of `ps` has a name span that no other parameter, and not `name`,
/// shares.
pub open spec fn param_span_unique(ps: Seq<crate::ast::FunctionParameter>, j: int, name: Span) -> bool {
    &&& ps[j].name.span != name
    &&& forall|k: int| 0 <= k < ps.len() && k != j ==> (#[trigger] ps[k]).name.span != ps[j].name.span
}

/// Every parameter has a type hint and no default value.
pub open spec fn params_hinted(ps: Seq<crate::ast::FunctionParameter>) -> bool {
    forall|i: int| 0 <= i < ps.len() ==> (#[trigger] ps[i]).type_hint is Some && ps[i].default_value is None
}

/// The type id that a type hint gives when it names a scalar type.
pub open spec fn hint_scalar_id(hint: Option<Box<crate::ast::Type>>) -> Option<usize> {
    match hint {
        Some(t) => scalar_type_id(t.data),
        None => None,
    }
}

/// `k` is a function type whose return type is the scalar type `f` names (`void` when it
/// names none), and whose parameter types are the scalar types that the parameters of
/// `f` without a default value name.
pub open spec fn function_type_resolved(k: TypeKind, f: FunctionDefinition) -> bool {
    match k {
        TypeKind::Function { return_type, parameter_types, .. } => {
            &&& f.prototype.return_type is None ==> return_type.0 == TYPEID_VOID
            &&& (hint_scalar_id(f.prototype.return_type) matches Some(id) ==> return_type.0 == id)
            &&& forall|i: int|
                0 <= i < f.prototype.parameters@.len() && (#[trigger] f.prototype.parameters@[i]).default_value is None
                    ==> (hint_scalar_id(f.prototype.parameters@[i].type_hint) matches Some(id)
                    ==> parameter_types@[i].0 == id)
        },
        _ => false,
    }
}

/// The position of the first pointer type in the table.
pub open spec fn is_first_pointer(pool: Seq<TypeLayout>, i: int) -> bool {
    &&& 0 <= i < pool.len()
    &&& pool[i].kind is Pointer
    &&& forall|j: int| 0 <= j < i ==> !(#[trigger] pool[j].kind is Pointer)
}

/// The text of a type-mismatch label: `a`, the name of `x`, `b`, the name of `y`, `c`.
pub open spec fn between_names(
    pool: Seq<TypeLayout>,
    a: Seq<char>,
    x: int,
    b: Seq<char>,
    y: int,
    c: Seq<char>,
) -> Seq<char> {
    a + type_text(pool, x) + b + type_text(pool, y) + c
}

/// The diagnostic `try_coerce` reports for a value of type `source` at `source_span`
/// where type `target` (written at `target_span`) is expected, if any.
pub open spec fn coerce_diagnostic(
    pool: Seq<TypeLayout>,
    target_span: Span,
    target: int,
    source_span: Span,
    source: int,
) -> Option<DiagnosticView> {
    match coerce_result(pool, target, source) {
        CoerceResult::Identity => None,
        CoerceResult::IntegerWidening => Some(
            crate::diagnostics::new_diagnostic_view(
                Severity::Warning,
                "implicit casting"@,
                source_span,
                between_names(
                    pool,
                    "type `"@,
                    source,
                    "` is implicitly casted to match `"@,
                    target,
                    "`"@,
                ),
            ),
        ),
        CoerceResult::IntegerShrinking => Some(
            crate::diagnostics::new_diagnostic_view(
                Severity::Error,
                "type mismatch"@,
                source_span,
                between_names(
                    pool,
                    "cannot implicitly shrink `"@,
                    source,
                    "` to fit `"@,
                    target,
                    "`"@,
                ),
            ),
        ),
        _ => {
            let d = crate::diagnostics::new_diagnostic_view(
                Severity::Error,
                "type mismatch"@,
                source_span,
                between_names(
                    pool,
                    "expected type `"@,
                    target,
                    "` got value of type `"@,
                    source,
                    "`"@,
                ),
            );
            Some(
                DiagnosticView {
                    labels: d.labels.push(
                        LabelView {
                            label: "type specified here"@,
                            span: target_span,
                            is_primary: false,
                        },
                    ),
                    ..d
                },
            )
        },
    }
}

/// Type-checks one module.
#[derive(Debug)]
pub struct TypeChecker {
    module: Module,
    diagnostics: Vec<Diagnostic>,
}

/// Compares two types for [`TypeChecker::try_coerce`] and friends.
pub struct TypeCoercer<'a> {
    ctx: &'a TypeChecker,
    target: TypeId,
    source: TypeId,
}

impl TypeChecker {
    pub closed spec fn spec_module(&self) -> Module {
        self.module
    }

    pub closed spec fn spec_diagnostics(&self) -> Seq<Diagnostic> {
        self.diagnostics@
    }

    /// The type table is acyclic and every resolved symbol type exists in it.
    pub open spec fn module_wf(m: Module) -> bool {
        &&& m.types.wf()
        &&& m.symbols.wf()
        &&& types_acyclic(m.types.pool@)
        &&& forall|i: int|
            0 <= i < m.symbols.pool@.len() ==> match (#[trigger] m.symbols.pool@[i]).resolved_type {
                Some(t) => t.0 < m.types.pool@.len(),
                None => true,
            }
    }

    pub open spec fn wf(&self) -> bool {
        Self::module_wf(self.spec_module())
    }

    /// Well formed, with the built-in types registered at their ids.
    pub closed spec fn ready(&self) -> bool {
        &&& self.wf()
        &&& self.module.types.pool@.len() > TYPEID_VOID
        &&& forall|i: int|
            0 <= i <= TYPEID_VOID ==> #[trigger] self.module.types.pool@[i].kind == builtin_kind(i)
    }

    /// What every step keeps: readiness, a growing type table and symbol table, and
    /// earlier diagnostics.
    pub closed spec fn extends(&self, prev: &Self) -> bool {
        &&& self.ready()
        &&& grows(self.module.types.pool@, prev.module.types.pool@)
        &&& self.module.symbols.pool@.len() == prev.module.symbols.pool@.len()
        &&& self.module.symbols.key_map() == prev.module.symbols.key_map()
        &&& function_ids(self.module.symbols.pool@) == function_ids(prev.module.symbols.pool@)
        &&& prev.module.types.key_map().dom().subset_of(self.module.types.key_map().dom())
        &&& grows(self.diagnostics@, prev.diagnostics@)
    }

    /// The symbol ids recorded by span, how many symbols there are, and which are
    /// functions.
    closed spec fn sym_keys(&self) -> Map<Span, usize> {
        self.module.symbols.key_map()
    }

    closed spec fn sym_count(&self) -> nat {
        self.module.symbols.pool@.len()
    }

    closed spec fn sym_fns(&self) -> Set<int> {
        function_ids(self.module.symbols.pool@)
    }

    proof fn lemma_extends_trans(&self, mid: &Self, first: &Self)
        requires
            self.extends(mid),
            mid.extends(first),
        ensures
            self.extends(first),
    {
        assert(self.module.types.pool@.subrange(0, first.module.types.pool@.len() as int)
            =~= self.module.types.pool@.subrange(0, mid.module.types.pool@.len() as int).subrange(
            0,
            first.module.types.pool@.len() as int,
        ));
        assert(self.diagnostics@.subrange(0, first.diagnostics@.len() as int)
            =~= self.diagnostics@.subrange(0, mid.diagnostics@.len() as int).subrange(
            0,
            first.diagnostics@.len() as int,
        ));
    }

    proof fn lemma_extends_refl(&self)
        requires
            self.ready(),
        ensures
            self.extends(self),
    {
        assert(self.module.types.pool@.subrange(0, self.module.types.pool@.len() as int)
            =~= self.module.types.pool@);
        assert(self.diagnostics@.subrange(0, self.diagnostics@.len() as int)
            =~= self.diagnostics@);
    }

    pub fn new(module: Module) -> (r: Self)
        requires
            Self::module_wf(module),
        ensures
            r.wf(),
            r.spec_module() == module,
            r.spec_diagnostics().len() == 0,
    {
        Self { module, diagnostics: Vec::new() }
    }

    pub fn module(&self) -> (r: &Module)
        ensures
            *r == self.spec_module(),
    {
        &self.module
    }

    pub fn into_module(self) -> (r: Module)
        ensures
            r == self.spec_module(),
    {
        self.module
    }

    /// Puts the built-in types in front of the type table, at their fixed ids.
    pub fn register_builtin_types(&mut self)
        requires
            old(self).wf(),
        ensures
            final(self).ready(),
            final(self).spec_diagnostics() == old(self).spec_diagnostics(),
            final(self).spec_module().symbols == old(self).spec_module().symbols,
            final(self).spec_module().types.pool@ == builtin_layouts() + old(self).spec_module().types.pool@,
    {
        let ghost old_pool = self.module.types.pool@;
        let mut id: usize = 0;
        while id <= TYPEID_VOID
            invariant
                id <= TYPEID_VOID + 1,
                self.module.types.wf(),
                self.module.types.map == old(self).module.types.map,
                self.module.symbols == old(self).module.symbols,
                self.diagnostics == old(self).diagnostics,
                self.module.types.pool@.len() == old_pool.len() + id,
                forall|i: int| 0 <= i < id ==> #[trigger] self.module.types.pool@[i].kind
                    == builtin_kind(i) && self.module.types.pool@[i].span is None,
                self.module.types.pool@.subrange(id as int, self.module.types.pool@.len() as int)
                    == old_pool,
            decreases TYPEID_VOID + 1 - id,
        {
            let kind = if id == TYPEID_CHAR {
                TypeKind::Char
            } else if id == TYPEID_STRING {
                TypeKind::String
            } else if id == TYPEID_BOOL {
                TypeKind::Bool
            } else if id == TYPEID_I8 {
                TypeKind::I8
            } else if id == TYPEID_I16 {
                TypeKind::I16
            } else if id == TYPEID_I32 {
                TypeKind::I32
            } else if id == TYPEID_I64 {
                TypeKind::I64
            } else if id == TYPEID_U8 {
                TypeKind::U8
            } else if id == TYPEID_U16 {
                TypeKind::U16
            } else if id == TYPEID_U32 {
                TypeKind::U32
            } else if id == TYPEID_U64 {
                TypeKind::U64
            } else if id == TYPEID_F32 {
                TypeKind::F32
            } else if id == TYPEID_F64 {
                TypeKind::F64
            } else {
                TypeKind::Void
            };
            let ghost before = self.module.types.pool@;
            self.module.types.pool.insert(id, TypeLayout::new_builtin(kind));
            assert forall|i: int| 0 <= i < id + 1 implies #[trigger] self.module.types.pool@[i].kind
                == builtin_kind(i) && self.module.types.pool@[i].span is None by {
                if i < id {
                    assert(self.module.types.pool@[i] == before[i]);
                }
            }
            assert(self.module.types.pool@.subrange(id + 1, self.module.types.pool@.len() as int)
                =~= before.subrange(id as int, before.len() as int));
            id = id + 1;
        }
        let ghost pool = self.module.types.pool@;
        assert forall|i: int| 0 <= i < pool.len() implies #[trigger] pool[i] == (builtin_layouts() + old_pool)[i] by {
            if i > TYPEID_VOID {
                assert(pool[i] == pool.subrange(TYPEID_VOID + 1, pool.len() as int)[i - TYPEID_VOID - 1]);
            } else {
                assert(pool[i].kind == builtin_kind(i) && pool[i].span is None);
            }
        }
        assert(pool =~= builtin_layouts() + old_pool);
        assert forall|i: int| 0 <= i < pool.len() implies refs_below(#[trigger] pool[i].kind, i) by {
            if i > TYPEID_VOID {
                assert(pool[i] == old_pool[i - TYPEID_VOID - 1]);
                assert(refs_below(old_pool[i - TYPEID_VOID - 1].kind, i - TYPEID_VOID - 1));
            }
        }
    }

    pub fn get_type_layout_from_id(&self, type_id: &TypeId) -> (r: Option<&TypeLayout>)
        ensures
            r == if type_id.0 < self.spec_module().types.pool@.len() {
                Some(&self.spec_module().types.pool@[type_id.0 as int])
            } else {
                None
            },
    {
        if type_id.0 < self.module.types.pool.len() {
            Some(&self.module.types.pool[type_id.0])
        } else {
            None
        }
    }

    /// The id of the first type of kind `type_kind` in the table, added at the end when
    /// there is none.
    fn get_type_id_of_kind(&mut self, type_kind: TypeKind) -> (r: TypeId)
        requires
            old(self).ready(),
            refs_below(type_kind, old(self).module.types.pool@.len() as int),
        ensures
            final(self).extends(old(self)),
            final(self).module.symbols == old(self).module.symbols,
            final(self).diagnostics == old(self).diagnostics,
            final(self).module.types.key_map() == old(self).module.types.key_map(),
            if exists|i: int| is_first_of_kind(old(self).module.types.pool@, type_kind, i) {
                &&& is_first_of_kind(old(self).module.types.pool@, type_kind, r.0 as int)
                &&& final(self).module.types.pool@ == old(self).module.types.pool@
            } else {
                &&& r.0 == old(self).module.types.pool@.len()
                &&& final(self).module.types.pool@ == old(self).module.types.pool@.push(
                    TypeLayout { kind: type_kind, span: None },
                )
            },
    {
        let mut i: usize = 0;
        while i < self.module.types.pool.len()
            invariant
                i <= self.module.types.pool@.len(),
                *self == *old(self),
                self.ready(),
                forall|j: int| 0 <= j < i ==> !same_kind(#[trigger] self.module.types.pool@[j].kind, type_kind),
            decreases self.module.types.pool@.len() - i,
        {
            if kinds_equal(&self.module.types.pool[i].kind, &type_kind) {
                proof {
                    self.lemma_extends_refl();
                    assert(is_first_of_kind(old(self).module.types.pool@, type_kind, i as int));
                }
                return TypeId(i);
            }
            i = i + 1;
        }
        assert forall|k: int| !is_first_of_kind(old(self).module.types.pool@, type_kind, k) by {}
        let new_id = self.module.types.pool.len();
        self.module.types.get_pool_mut().push(TypeLayout::new(type_kind, None));
        proof {
            assert(self.module.types.pool@.subrange(0, old(self).module.types.pool@.len() as int)
                =~= old(self).module.types.pool@);
            assert(self.diagnostics@.subrange(0, self.diagnostics@.len() as int)
                =~= self.diagnostics@);
            assert forall|j: int| 0 <= j < self.module.types.pool@.len() implies refs_below(
                #[trigger] self.module.types.pool@[j].kind,
                j,
            ) by {
                if j < new_id {
                    assert(self.module.types.pool@[j] == old(self).module.types.pool@[j]);
                }
            }
        }
        TypeId(new_id)
    }

    /// Resolves the pointee, then gives the first pointer type in the table, whatever it
    /// points to; only when the table has none is a pointer to the pointee added.
    fn get_pointer_type_id(&mut self, inner: &Type) -> (r: TypeId)
        requires
            old(self).ready(),
            resolvable_type(*inner),
        ensures
            final(self).extends(old(self)),
            final(self).module.symbols == old(self).module.symbols,
            final(self).diagnostics == old(self).diagnostics,
            r.0 < final(self).module.types.pool@.len(),
            final(self).module.types.pool@[r.0 as int].kind is Pointer,
            is_first_pointer(final(self).module.types.pool@, r.0 as int),
            final(self).module.types.key_map() == old(self).module.types.key_map(),
            forall|i: int|
                old(self).module.types.pool@.len() <= i < final(self).module.types.pool@.len()
                    ==> (#[trigger] final(self).module.types.pool@[i]).kind is Pointer,
        decreases inner, 1int,
    {
        let inner_type_id = self.resolve_type_to_id(inner);
        let ghost mid = *self;
        let mut i: usize = 0;
        while i < self.module.types.pool.len()
            invariant
                i <= self.module.types.pool@.len(),
                *self == mid,
                mid.extends(old(self)),
                mid.module.symbols == old(self).module.symbols,
                mid.diagnostics == old(self).diagnostics,
                mid.module.types.key_map() == old(self).module.types.key_map(),
                forall|j: int|
                    old(self).module.types.pool@.len() <= j < mid.module.types.pool@.len()
                        ==> (#[trigger] mid.module.types.pool@[j]).kind is Pointer,
                forall|j: int| 0 <= j < i ==> !(#[trigger] self.module.types.pool@[j].kind is Pointer),
            decreases self.module.types.pool@.len() - i,
        {
            if let TypeKind::Pointer(_) = self.module.types.pool[i].kind {
                return TypeId(i);
            }
            i = i + 1;
        }
        let new_id = self.module.types.pool.len();
        self.module.types.get_pool_mut().push(TypeLayout::new(TypeKind::Pointer(inner_type_id), None));
        proof {
            assert(self.module.types.pool@.subrange(0, mid.module.types.pool@.len() as int)
                =~= mid.module.types.pool@);
            assert forall|j: int| 0 <= j < self.module.types.pool@.len() implies refs_below(
                #[trigger] self.module.types.pool@[j].kind,
                j,
            ) by {
                if j < new_id {
                    assert(self.module.types.pool@[j] == mid.module.types.pool@[j]);
                }
            }
            assert forall|j: int| 0 <= j < new_id implies !(#[trigger] self.module.types.pool@[j].kind is Pointer) by {
                assert(self.module.types.pool@[j] == mid.module.types.pool@[j]);
            }
            mid.lemma_extends_refl();
            assert(self.extends(&mid));
            self.lemma_extends_trans(&mid, old(self));
        }
        TypeId(new_id)
    }

    /// The type id a type hint stands for: the built-in id of a scalar type, or a
    /// pointer type as [`TypeChecker::get_pointer_type_id`] finds it.
    fn resolve_type_to_id(&mut self, type_hint: &Type) -> (r: TypeId)
        requires
            old(self).ready(),
            resolvable_type(*type_hint),
        ensures
            final(self).extends(old(self)),
            final(self).module.symbols == old(self).module.symbols,
            final(self).diagnostics == old(self).diagnostics,
            r.0 < final(self).module.types.pool@.len(),
            match scalar_type_id(type_hint.data) {
                Some(id) => r.0 == id && *final(self) == *old(self),
                None => final(self).module.types.pool@[r.0 as int].kind is Pointer,
            },
            final(self).module.types.key_map() == old(self).module.types.key_map(),
            forall|i: int|
                old(self).module.types.pool@.len() <= i < final(self).module.types.pool@.len()
                    ==> (#[trigger] final(self).module.types.pool@[i]).kind is Pointer,
        decreases type_hint, 0int,
    {
        let id: usize = match &type_hint.data {
            TypeData::UnsignedInteger(IntegerWidth::Int8) => TYPEID_U8,
            TypeData::UnsignedInteger(IntegerWidth::Int16) => TYPEID_U16,
            TypeData::UnsignedInteger(IntegerWidth::Int32) => TYPEID_U32,
            TypeData::UnsignedInteger(IntegerWidth::Int64) => TYPEID_U64,
            TypeData::SignedInteger(IntegerWidth::Int8) => TYPEID_I8,
            TypeData::SignedInteger(IntegerWidth::Int16) => TYPEID_I16,
            TypeData::SignedInteger(IntegerWidth::Int32) => TYPEID_I32,
            TypeData::SignedInteger(IntegerWidth::Int64) => TYPEID_I64,
            TypeData::Bool => TYPEID_BOOL,
            TypeData::Void => TYPEID_VOID,
            TypeData::Char => TYPEID_CHAR,
            TypeData::String => TYPEID_STRING,
            TypeData::Pointer(inner) => {
                return self.get_pointer_type_id(inner);
            },
            _ => TYPEID_VOID,
        };
        proof {
            self.lemma_extends_refl();
        }
        TypeId(id)
    }
}


impl TypeChecker {
    /// The name under which type `type_id` is shown.
    pub fn get_type_name(&self, type_id: &TypeId) -> (r: String)
        requires
            self.wf(),
            type_id.0 < self.spec_module().types.pool@.len(),
        ensures
            r@ == type_text(self.spec_module().types.pool@, type_id.0 as int),
        decreases type_id.0,
    {
        let ghost pool = self.module.types.pool@;
        let ghost id = type_id.0 as int;
        assert(refs_below(pool[id].kind, id));
        match &self.module.types.pool[type_id.0].kind {
            TypeKind::I8 => string_of("i8"),
            TypeKind::I16 => string_of("i16"),
            TypeKind::I32 => string_of("i32"),
            TypeKind::I64 => string_of("i64"),
            TypeKind::U8 => string_of("u8"),
            TypeKind::U16 => string_of("u16"),
            TypeKind::U32 => string_of("u32"),
            TypeKind::U64 => string_of("u64"),
            TypeKind::F32 => string_of("f32"),
            TypeKind::F64 => string_of("f64"),
            TypeKind::Usize => string_of("usize"),
            TypeKind::Isize => string_of("isize"),
            TypeKind::String => string_of("string"),
            TypeKind::Char => string_of("char"),
            TypeKind::Void => string_of("void"),
            TypeKind::Bool => string_of("bool"),
            TypeKind::Function { return_type, parameter_types, .. } => {
                let mut out = string_of("fn(");
                let mut idx: usize = 0;
                while idx < parameter_types.len()
                    invariant
                        self.wf(),
                        pool == self.module.types.pool@,
                        0 <= id < pool.len(),
                        id == type_id.0,
                        forall|j: int|
                            0 <= j < parameter_types@.len() ==> (#[trigger] parameter_types@[j]).0 < id,
                        idx <= parameter_types@.len(),
                        out@ == "fn("@ + joined_names(pool, parameter_types@.take(idx as int), id),
                    decreases parameter_types@.len() - idx,
                {
                    let ghost prev = parameter_types@.take(idx as int);
                    if idx != 0 {
                        out.append(", ");
                    }
                    let name = self.get_type_name(&parameter_types[idx]);
                    out.append(name.as_str());
                    proof {
                        let next = parameter_types@.take(idx + 1);
                        assert(next.drop_last() =~= prev);
                        assert(next.last() == parameter_types@[idx as int]);
                        if idx == 0 {
                            assert(prev.len() == 0);
                        }
                    }
                    assert(out@ =~= "fn("@ + joined_names(pool, parameter_types@.take(idx + 1), id));
                    idx = idx + 1;
                }
                assert(parameter_types@.take(parameter_types@.len() as int) =~= parameter_types@);
                out.append(") -> ");
                let ret = self.get_type_name(return_type);
                out.append(ret.as_str());
                out
            },
            TypeKind::Pointer(inner) => {
                let mut out = string_of("*");
                let name = self.get_type_name(inner);
                out.append(name.as_str());
                out
            },
            TypeKind::Tuple(_) => string_of("tuple"),
            TypeKind::Array { .. } => string_of("array"),
            TypeKind::Placeholder(_) => string_of("_"),
            TypeKind::Named(n) => string_of(n.as_str()),
        }
    }

    /// `a`, the name of `x`, `b`, the name of `y`, then `c`.
    fn text_between(&self, a: &str, x: &TypeId, b: &str, y: &TypeId, c: &str) -> (r: String)
        requires
            self.wf(),
            x.0 < self.spec_module().types.pool@.len(),
            y.0 < self.spec_module().types.pool@.len(),
        ensures
            r@ == between_names(self.spec_module().types.pool@, a@, x.0 as int, b@, y.0 as int, c@),
    {
        let mut r = string_of(a);
        let xs = self.get_type_name(x);
        r.append(xs.as_str());
        r.append(b);
        let ys = self.get_type_name(y);
        r.append(ys.as_str());
        r.append(c);
        r
    }

    fn emit_diag(&mut self, diag: Diagnostic)
        requires
            old(self).ready(),
        ensures
            final(self).extends(old(self)),
            final(self).module == old(self).module,
            final(self).diagnostics@ == old(self).diagnostics@.push(diag),
    {
        self.diagnostics.push(diag);
        proof {
            assert(self.diagnostics@.subrange(0, old(self).diagnostics@.len() as int)
                =~= old(self).diagnostics@);
            assert(self.module.types.pool@.subrange(0, self.module.types.pool@.len() as int)
                =~= self.module.types.pool@);
        }
    }

    /// Accepts a value of type `source.1` (at `source.0`) where `target.1` (written at
    /// `target.0`) is expected when the types are the same or the value is widened; a
    /// widening is reported as a warning, anything else as an error.
    fn try_coerce(&mut self, target: (Span, TypeId), source: (Span, TypeId)) -> (r: Option<()>)
        requires
            old(self).ready(),
            target.1.0 < old(self).spec_module().types.pool@.len(),
            source.1.0 < old(self).spec_module().types.pool@.len(),
        ensures
            final(self).extends(old(self)),
            final(self).module == old(self).module,
            r is Some <==> (coerce_result(
                old(self).module.types.pool@,
                target.1.0 as int,
                source.1.0 as int,
            ) == CoerceResult::Identity || coerce_result(
                old(self).module.types.pool@,
                target.1.0 as int,
                source.1.0 as int,
            ) == CoerceResult::IntegerWidening),
            match coerce_diagnostic(
                old(self).module.types.pool@,
                target.0,
                target.1.0 as int,
                source.0,
                source.1.0 as int,
            ) {
                None => final(self).diagnostics == old(self).diagnostics,
                Some(d) => final(self).diagnostics@.len() == old(self).diagnostics@.len() + 1
                    && final(self).diagnostics@.last()@ == d,
            },
    {
        proof {
            self.lemma_extends_refl();
        }
        match TypeCoercer::coerce(self, target.1, source.1) {
            CoerceResult::Identity => Some(()),
            CoerceResult::IntegerWidening => {
                let label = self.text_between(
                    "type `",
                    &source.1,
                    "` is implicitly casted to match `",
                    &target.1,
                    "`",
                );
                let diag = Diagnostic::new(
                    Severity::Warning,
                    string_of("implicit casting"),
                    source.0,
                    label,
                );
                self.emit_diag(diag);
                Some(())
            },
            CoerceResult::IntegerShrinking => {
                let label = self.text_between(
                    "cannot implicitly shrink `",
                    &source.1,
                    "` to fit `",
                    &target.1,
                    "`",
                );
                let diag = Diagnostic::new(
                    Severity::Error,
                    string_of("type mismatch"),
                    source.0,
                    label,
                );
                self.emit_diag(diag);
                None
            },
            _ => {
                let label = self.text_between(
                    "expected type `",
                    &target.1,
                    "` got value of type `",
                    &source.1,
                    "`",
                );
                let diag = Diagnostic::new(
                    Severity::Error,
                    string_of("type mismatch"),
                    source.0,
                    label,
                ).with_label(string_of("type specified here"), target.0);
                self.emit_diag(diag);
                None
            },
        }
    }

    /// Whether a value of type `source` is accepted where `target` is expected.
    fn can_coerce(&self, target: TypeId, source: TypeId) -> (r: bool)
        requires
            self.wf(),
            target.0 < self.spec_module().types.pool@.len(),
            source.0 < self.spec_module().types.pool@.len(),
        ensures
            r == (coerce_result(self.spec_module().types.pool@, target.0 as int, source.0 as int)
                == CoerceResult::Identity || coerce_result(
                self.spec_module().types.pool@,
                target.0 as int,
                source.0 as int,
            ) == CoerceResult::IntegerWidening),
    {
        match TypeCoercer::coerce(self, target, source) {
            CoerceResult::Identity => true,
            CoerceResult::IntegerWidening => true,
            _ => false,
        }
    }
}

impl<'a> TypeCoercer<'a> {
    /// How a value of type `source_id` fits where `expected_id` is expected.
    pub fn coerce(ctx: &'a TypeChecker, expected_id: TypeId, source_id: TypeId) -> (r: CoerceResult)
        requires
            ctx.wf(),
            expected_id.0 < ctx.spec_module().types.pool@.len(),
            source_id.0 < ctx.spec_module().types.pool@.len(),
        ensures
            r == coerce_result(ctx.spec_module().types.pool@, expected_id.0 as int, source_id.0 as int),
    {
        if expected_id.0 == source_id.0 {
            return CoerceResult::Identity;
        }
        let coercer = TypeCoercer { ctx, target: expected_id, source: source_id };
        coercer.check_integer_cast_required()
    }

    fn check_integer_cast_required(&self) -> (r: CoerceResult)
        requires
            self.ctx.wf(),
            self.target.0 < self.ctx.spec_module().types.pool@.len(),
            self.source.0 < self.ctx.spec_module().types.pool@.len(),
            self.target.0 != self.source.0,
        ensures
            r == coerce_result(
                self.ctx.spec_module().types.pool@,
                self.target.0 as int,
                self.source.0 as int,
            ),
    {
        let target = self.ctx.get_type_layout_from_id(&self.target).unwrap();
        let source = self.ctx.get_type_layout_from_id(&self.source).unwrap();
        if target.is_numeric_type() && source.is_numeric_type() {
            let width_score = target.compare_numeric_widths(source);
            if width_score < 0 {
                return CoerceResult::IntegerShrinking;
            } else if width_score > 0 {
                return CoerceResult::IntegerWidening;
            } else {
                return CoerceResult::IntegerSignChange;
            }
        }
        CoerceResult::Invalid
    }
}


/// A copy of the ids `v`.
fn copy_ids(v: &Vec<TypeId>) -> (r: Vec<TypeId>)
    ensures
        r@ == v@,
{
    let mut r: Vec<TypeId> = Vec::new();
    let mut i: usize = 0;
    while i < v.len()
        invariant
            i <= v@.len(),
            r@ == v@.take(i as int),
        decreases v@.len() - i,
    {
        r.push(v[i]);
        assert(v@.take(i + 1) =~= v@.take(i as int).push(v@[i as int]));
        i = i + 1;
    }
    assert(v@.take(v@.len() as int) =~= v@);
    r
}

/// A copy of the parameter names `v`: the same spans, texts and positions.
fn copy_names(v: &crate::symbol::ParameterNames) -> (r: crate::symbol::ParameterNames)
    ensures
        r@.map_values(|n: (Name, usize)| name_key(n)) == v@.map_values(|n: (Name, usize)| name_key(n)),
{
    let mut r: crate::symbol::ParameterNames = Vec::new();
    let mut i: usize = 0;
    while i < v.len()
        invariant
            i <= v@.len(),
            r@.len() == i,
            forall|j: int| 0 <= j < i ==> name_key(#[trigger] r@[j]) == name_key(v@[j]),
        decreases v@.len() - i,
    {
        let n = &v[i];
        r.push((Name { span: n.0.span, value: n.0.value.clone() }, n.1));
        i = i + 1;
    }
    assert(r@.map_values(|n: (Name, usize)| name_key(n)) =~= v@.map_values(|n: (Name, usize)| name_key(n)));
    r
}

impl TypeChecker {
    /// Records that the type found at `span` is `type_id`.
    fn map_locus_to_type(&mut self, span: Span, type_id: &TypeId)
        requires
            old(self).ready(),
        ensures
            final(self).extends(old(self)),
            final(self).diagnostics == old(self).diagnostics,
            final(self).module.symbols == old(self).module.symbols,
            final(self).module.types.pool@ == old(self).module.types.pool@,
            final(self).module.types.key_map() == old(self).module.types.key_map().insert(
                span,
                type_id.0,
            ),
    {
        self.module.types.map(span, type_id.0);
        proof {
            self.lemma_extends_refl();
        }
    }

    /// Gives the symbol defined at `span` the type `type_id`; false when there is none.
    fn set_resolved_type(&mut self, span: Span, type_id: TypeId) -> (r: bool)
        requires
            old(self).ready(),
            type_id.0 < old(self).module.types.pool@.len(),
        ensures
            final(self).extends(old(self)),
            final(self).diagnostics == old(self).diagnostics,
            final(self).module.types == old(self).module.types,
            final(self).module.symbols.map == old(self).module.symbols.map,
            match old(self).module.symbols.spec_id_of(span) {
                Some(id) => if id < old(self).module.symbols.pool@.len() {
                    r && final(self).module.symbols.pool@ == old(self).module.symbols.pool@.update(
                        id as int,
                        Symbol {
                            resolved_type: Some(type_id),
                            ..old(self).module.symbols.pool@[id as int]
                        },
                    )
                } else {
                    !r && final(self).module == old(self).module
                },
                None => !r && final(self).module == old(self).module,
            },
    {
        let found = match self.module.symbols.get_from_key_mut(&span) {
            Some(symbol) => {
                symbol.resolved_type = Some(type_id);
                true
            },
            None => false,
        };
        proof {
            let pool = self.module.symbols.pool@;
            assert forall|i: int| 0 <= i < pool.len() implies match (#[trigger] pool[i]).resolved_type {
                Some(t) => t.0 < self.module.types.pool@.len(),
                None => true,
            } by {
                assert(old(self).module.symbols.pool@.len() == pool.len());
                if old(self).module.symbols.spec_id_of(span) != Some(i as usize) {
                    assert(pool[i] == old(self).module.symbols.pool@[i]);
                }
            }
            assert forall|i: int| 0 <= i < pool.len() implies (#[trigger] pool[i]).data
                == old(self).module.symbols.pool@[i].data by {
                if old(self).module.symbols.spec_id_of(span) != Some(i as usize) {
                    assert(pool[i] == old(self).module.symbols.pool@[i]);
                }
            }
            assert(function_ids(pool) =~= function_ids(old(self).module.symbols.pool@));
            self.lemma_extends_refl();
            assert(self.extends(old(self)));
        }
        found
    }

    /// Completes the function symbol defined at `span`: appends `parameter_types` to
    /// its parameter types and returns its parameter names.  None when no function
    /// symbol is defined there.
    fn complete_function_symbol(&mut self, span: Span, parameter_types: &Vec<TypeId>) -> (r:
        Option<crate::symbol::ParameterNames>)
        requires
            old(self).ready(),
        ensures
            symbol_at(old(self).sym_keys(), old(self).sym_count(), span) && old(self).sym_fns().contains(
                old(self).sym_keys()[span] as int,
            ) ==> r is Some,
            r is Some ==> symbol_at(old(self).sym_keys(), old(self).sym_count(), span),
            r matches Some(names) ==> ({
                let id = old(self).sym_keys()[span] as int;
                &&& old(self).module.symbols.pool@[id].data matches SymbolData::Function {
                    parameter_names: pn,
                    parameter_types: pt,
                }
                &&& names@.map_values(|n: (Name, usize)| name_key(n)) == pn@.map_values(
                    |n: (Name, usize)| name_key(n),
                )
                &&& final(self).module.symbols.pool@[id].data matches SymbolData::Function {
                    parameter_names: pn2,
                    parameter_types: pt2,
                }
                &&& pn2 == pn
                &&& pt2@ == pt@ + parameter_types@
            }),
            final(self).extends(old(self)),
            final(self).diagnostics == old(self).diagnostics,
            final(self).module.types == old(self).module.types,
            final(self).module.symbols.map == old(self).module.symbols.map,
    {
        let id = match self.module.symbols.get_by_id_key(&span) {
            Some(id) => id,
            None => {
                proof {
                    self.lemma_extends_refl();
                }
                return None;
            },
        };
        if id >= self.module.symbols.pool.len() {
            proof {
                self.lemma_extends_refl();
            }
            return None;
        }
        let ghost before = self.module.symbols.pool@;
        let symbol = self.module.symbols.pool.remove(id);
        let Symbol { defined_at, resolved_type, data } = symbol;
        let (new_data, names) = match data {
            SymbolData::Function { parameter_names, parameter_types: mut pt } => {
                let ghost pt0 = pt@;
                let mut i: usize = 0;
                while i < parameter_types.len()
                    invariant
                        i <= parameter_types@.len(),
                        pt@ == pt0 + parameter_types@.take(i as int),
                    decreases parameter_types@.len() - i,
                {
                    pt.push(parameter_types[i]);
                    proof {
                        assert(parameter_types@.take(i + 1) =~= parameter_types@.take(i as int).push(parameter_types@[i as int]));
                    }
                    i = i + 1;
                }
                proof {
                    assert(parameter_types@.take(i as int) =~= parameter_types@);
                }
                let names = copy_names(&parameter_names);
                (SymbolData::Function { parameter_names, parameter_types: pt }, Some(names))
            },
            other => (other, None),
        };
        self.module.symbols.pool.insert(id, Symbol { defined_at, resolved_type, data: new_data });
        proof {
            let pool = self.module.symbols.pool@;
            assert(pool.len() == before.len());
            assert forall|i: int| 0 <= i < pool.len() implies match (#[trigger] pool[i]).resolved_type {
                Some(t) => t.0 < self.module.types.pool@.len(),
                None => true,
            } by {
                if i != id {
                    assert(pool[i] == before[i]);
                } else {
                    assert(pool[i].resolved_type == before[i].resolved_type);
                }
            }
            assert forall|i: int| 0 <= i < pool.len() implies ((#[trigger] pool[i]).data is Function)
                == (before[i].data is Function) by {
                if i != id {
                    assert(pool[i] == before[i]);
                }
            }
            assert(function_ids(pool) =~= function_ids(before));
            self.lemma_extends_refl();
        }
        names
    }
}


impl TypeChecker {
    /// Type-checks the module: registers the built-in types, types the top-level
    /// functions, then checks every statement.  Fails with all diagnostics (warnings
    /// included) when there are any; on success every identifier, call and binary
    /// operation of the program, and every variable it declares, has a type recorded
    /// at its span.
    pub fn run(&mut self, ast: &Ast) -> (r: Result<(), Vec<Diagnostic>>)
        requires
            old(self).wf(),
            checkable_stmts(ast@),
            symbols_ready(old(self).spec_module(), ast@),
        ensures
            final(self).wf(),
            final(self).spec_diagnostics().len() == 0,
            grows(
                final(self).spec_module().types.pool@,
                builtin_layouts() + old(self).spec_module().types.pool@,
            ),
            final(self).spec_module().symbols.pool@.len() == old(self).spec_module().symbols.pool@.len(),
            r is Ok ==> typed_stmts(final(self).spec_module().types.key_map().dom(), ast@),
            match r {
                Ok(()) => old(self).spec_diagnostics().len() == 0,
                Err(d) => d@.len() > 0 && grows(d@, old(self).spec_diagnostics()),
            },
            old(self).spec_diagnostics().len() == 0 && (forall|k: int|
                0 <= k < ast@.len() ==> simple_function(*#[trigger] ast@[k])) ==> r is Ok,
            (forall|k: int| 0 <= k < ast@.len() ==> nop_function(*#[trigger] ast@[k])) ==> names_typed(
                final(self).spec_module(),
                ast@,
            ),
    {
        let ghost nop = forall|k: int| 0 <= k < ast@.len() ==> nop_function(*#[trigger] ast@[k]);
        let ghost simple = forall|k: int| 0 <= k < ast@.len() ==> simple_function(*#[trigger] ast@[k]);
        self.register_builtin_types();
        let ghost start = *self;
        proof {
            start.lemma_extends_refl();
            assert(self.diagnostics@ == old(self).diagnostics@);
        }
        let _ = self.collect_types(ast);
        proof {
            assert(ast@.take(0) =~= Seq::<crate::ast::StmtRef>::empty());
        }
        let mut i: usize = 0;
        while i < ast.len()
            invariant
                i <= ast@.len(),
                self.extends(&start),
                checkable_stmts(ast@),
                ready_stmts(start.sym_keys(), start.sym_count(), start.sym_fns(), ast@),
                self.diagnostics@.len() == 0 ==> typed_stmts(
                    self.module.types.key_map().dom(),
                    ast@.take(i as int),
                ),
                simple == (forall|k: int| 0 <= k < ast@.len() ==> simple_function(*#[trigger] ast@[k])),
                simple && old(self).diagnostics@.len() == 0 ==> self.diagnostics@.len() == 0,
                nop == (forall|k: int| 0 <= k < ast@.len() ==> nop_function(*#[trigger] ast@[k])),
                nop ==> names_typed(self.spec_module(), ast@),
            decreases ast@.len() - i,
        {
            proof {
                if simple {
                    assert(simple_function(*ast@[i as int]));
                }
                lemma_checkable_stmts_index(ast@, i as int);
                lemma_ready_stmts_index(start.sym_keys(), start.sym_count(), start.sym_fns(), ast@, i as int);
            }
            let ghost before = *self;
            let _ = self.check_statement(&ast[i]);
            proof {
                if nop {
                    assert(nop_function(*ast@[i as int]));
                    let sp = ast@[i as int].data->FunctionDefinition_0.name.span;
                    assert forall|j: int| 0 <= j < ast@.len() implies fn_typed_void(
                        self.spec_module(),
                        (#[trigger] ast@[j]).data->FunctionDefinition_0.name.span,
                    ) by {
                        lemma_fn_typed_kept(before.spec_module(), self.spec_module(), sp, ast@[j].data->FunctionDefinition_0.name.span);
                    }
                }
                self.lemma_extends_trans(&before, &start);
                if self.diagnostics@.len() == 0 {
                    lemma_typed_stmts_mono(
                        ast@.take(i as int),
                        before.module.types.key_map().dom(),
                        self.module.types.key_map().dom(),
                    );
                    assert(ast@.take(i + 1).drop_last() =~= ast@.take(i as int));
                    assert(ast@.take(i + 1).last() == ast@[i as int]);
                }
            }
            i = i + 1;
        }
        proof {
            assert(ast@.take(i as int) =~= ast@);
        }
        if self.diagnostics.len() != 0 {
            let mut diags: Vec<Diagnostic> = Vec::new();
            std::mem::swap(&mut diags, &mut self.diagnostics);
            Err(diags)
        } else {
            assert(old(self).diagnostics@.len() == 0);
            Ok(())
        }
    }

    /// Types the top-level functions, stopping at the first that fails.
    fn collect_types(&mut self, ast: &Ast) -> (r: Option<()>)
        requires
            ready_stmts(old(self).sym_keys(), old(self).sym_count(), old(self).sym_fns(), ast@),
            old(self).ready(),
            checkable_stmts(ast@),
        ensures
            final(self).extends(old(self)),
            (forall|k: int| 0 <= k < ast@.len() ==> simple_function(*#[trigger] ast@[k])) ==> r is Some
                && final(self).diagnostics == old(self).diagnostics,
            (forall|k: int| 0 <= k < ast@.len() ==> nop_function(*#[trigger] ast@[k])) ==> names_typed(
                final(self).spec_module(),
                ast@,
            ),
    {
        let ghost nop = forall|k: int| 0 <= k < ast@.len() ==> nop_function(*#[trigger] ast@[k]);
        proof {
            self.lemma_extends_refl();
            assert(ast@.take(0) =~= Seq::<crate::ast::StmtRef>::empty());
        }
        let ghost simple = forall|k: int| 0 <= k < ast@.len() ==> simple_function(*#[trigger] ast@[k]);
        let mut i: usize = 0;
        while i < ast.len()
            invariant
                i <= ast@.len(),
                self.extends(old(self)),
                checkable_stmts(ast@),
                ready_stmts(old(self).sym_keys(), old(self).sym_count(), old(self).sym_fns(), ast@),
                simple == (forall|k: int| 0 <= k < ast@.len() ==> simple_function(*#[trigger] ast@[k])),
                simple ==> self.diagnostics == old(self).diagnostics,
                nop == (forall|k: int| 0 <= k < ast@.len() ==> nop_function(*#[trigger] ast@[k])),
                nop ==> names_typed(self.spec_module(), ast@.take(i as int)),
            decreases ast@.len() - i,
        {
            proof {
                if simple {
                    assert(simple_function(*ast@[i as int]));
                }
                lemma_checkable_stmts_index(ast@, i as int);
                lemma_ready_stmts_index(old(self).sym_keys(), old(self).sym_count(), old(self).sym_fns(), ast@, i as int);
            }
            let ghost before0 = *self;
            if let StmtData::FunctionDefinition(function) = &ast[i].data {
                let ghost before = *self;
                let res = self.check_function_(function);
                proof {
                    self.lemma_extends_trans(&before, old(self));
                }
                if res.is_none() {
                    return None;
                }
            }
            proof {
                if nop {
                    assert(nop_function(*ast@[i as int]));
                    let t = ast@.take(i + 1);
                    let sp = ast@[i as int].data->FunctionDefinition_0.name.span;
                    assert forall|j: int| 0 <= j < t.len() implies fn_typed_void(
                        self.spec_module(),
                        (#[trigger] t[j]).data->FunctionDefinition_0.name.span,
                    ) by {
                        if j < i {
                            assert(t[j] == ast@.take(i as int)[j]);
                            lemma_fn_typed_kept(before0.spec_module(), self.spec_module(), sp, t[j].data->FunctionDefinition_0.name.span);
                        }
                    }
                }
            }
            i = i + 1;
        }
        proof {
            if nop {
                assert(ast@.take(i as int) =~= ast@);
            }
        }
        Some(())
    }

    fn check_statement(&mut self, stmt: &Stmt) -> (r: Option<()>)
        requires
            ready_stmt(old(self).sym_keys(), old(self).sym_count(), old(self).sym_fns(), *stmt),
            old(self).ready(),
            checkable_stmt(*stmt),
        ensures
            final(self).diagnostics@.len() == old(self).diagnostics@.len() ==> typed_stmt(final(self).module.types.key_map().dom(), *stmt),
            r is None ==> final(self).diagnostics@.len() > old(self).diagnostics@.len(),
            final(self).extends(old(self)),
            simple_function(*stmt) ==> r is Some && final(self).diagnostics == old(self).diagnostics,
            nop_function(*stmt) ==> final(self).spec_module().types.key_map() == old(self).spec_module().types.key_map() || (
            final(self).spec_module().types.key_map() == old(self).spec_module().types.key_map().insert(
                stmt.data->FunctionDefinition_0.name.span,
                final(self).spec_module().types.key_map()[stmt.data->FunctionDefinition_0.name.span],
            ) && fn_typed_void(final(self).spec_module(), stmt.data->FunctionDefinition_0.name.span)),
        decreases stmt, 0int,
    {
        match &stmt.data {
            StmtData::FunctionDefinition(function) => self.check_function(function),
            StmtData::Return(ret) => {
                let t = self.check_expression(&ret.expr);
                if t.is_none() {
                    return None;
                }
                Some(())
            },
            StmtData::VariableDecl(vardecl) => self.check_vardecl(vardecl),
            StmtData::Expr(expr) => {
                let t = self.check_expression(expr);
                if t.is_none() {
                    return None;
                }
                Some(())
            },
            _ => {
                proof {
                    self.lemma_extends_refl();
                }
                None
            },
        }
    }

    /// Types the function unless its symbol already has a type, then checks its body.
    fn check_function(&mut self, function: &FunctionDefinition) -> (r: Option<()>)
        requires
            ready_function(old(self).sym_keys(), old(self).sym_count(), old(self).sym_fns(), *function),
            old(self).ready(),
            checkable_function(*function),
        ensures
            final(self).diagnostics@.len() == old(self).diagnostics@.len() ==> match function.body {
                Some(b) => typed_expr(final(self).module.types.key_map().dom(), *b),
                None => true,
            },
            r is None ==> final(self).diagnostics@.len() > old(self).diagnostics@.len(),
            final(self).extends(old(self)),
            params_hinted(function.prototype.parameters@) && match function.body {
                Some(b) => crate::symbol_analyzer::trivially_resolved(*b),
                None => true,
            } ==> r is Some && final(self).diagnostics == old(self).diagnostics,
            function.prototype.parameters@.len() == 0 && function.prototype.return_type is None && match function.body {
                Some(b) => crate::symbol_analyzer::trivially_resolved(*b),
                None => true,
            } ==> final(self).spec_module().types.key_map() == old(self).spec_module().types.key_map() || (
            final(self).spec_module().types.key_map() == old(self).spec_module().types.key_map().insert(
                function.name.span,
                final(self).spec_module().types.key_map()[function.name.span],
            ) && fn_typed_void(final(self).spec_module(), function.name.span)),
        decreases function, 1int,
    {
        let should_check = match self.module.symbols.get_from_key(&function.name.span) {
            Some(sym) => sym.resolved_type.is_none(),
            None => true,
        };
        proof {
            self.lemma_extends_refl();
        }
        if should_check {
            let res = self.check_function_(function);
            if res.is_none() {
                return None;
            }
        }
        if let Some(body) = &function.body {
            let ghost before = *self;
            let t = self.check_expression(body);
            proof {
                self.lemma_extends_trans(&before, old(self));
            }
            if t.is_none() {
                return None;
            }
        }
        Some(())
    }

    /// Types a function: its return type, each parameter (from its hint, its default
    /// value, or both when the default fits the hint), then the function type itself,
    /// which is recorded at the function's name and given to its symbol.
    fn check_function_(&mut self, function: &FunctionDefinition) -> (r: Option<()>)
        requires
            ready_params(old(self).sym_keys(), old(self).sym_count(), old(self).sym_fns(), function.prototype.parameters@),
            symbol_at(old(self).sym_keys(), old(self).sym_count(), function.name.span) ==> old(self).sym_fns().contains(
                old(self).sym_keys()[function.name.span] as int,
            ),
            old(self).ready(),
            checkable_function(*function),
        ensures
            r is None ==> final(self).diagnostics@.len() > old(self).diagnostics@.len() || !symbol_at(
                old(self).sym_keys(),
                old(self).sym_count(),
                function.name.span,
            ),
            !symbol_at(old(self).sym_keys(), old(self).sym_count(), function.name.span) ==> r is None,
            symbol_at(old(self).sym_keys(), old(self).sym_count(), function.name.span) && params_hinted(
                function.prototype.parameters@,
            ) ==> r is Some && final(self).diagnostics == old(self).diagnostics,
            final(self).extends(old(self)),
            r is Some ==> final(self).spec_module().types.key_map().contains_key(function.name.span),
            r is Some ==> final(self).spec_module().types.pool@[final(self).spec_module().types.key_map()[function.name.span] as int].kind is Function,
            r is Some ==> function_type_fits(
                final(self).spec_module().types.pool@[final(self).spec_module().types.key_map()[function.name.span] as int].kind,
                *function,
            ),
            r is Some ==> function_type_resolved(
                final(self).spec_module().types.pool@[final(self).spec_module().types.key_map()[function.name.span] as int].kind,
                *function,
            ),
            r is Some ==> final(self).spec_module().symbols.pool@[old(self).sym_keys()[function.name.span] as int].resolved_type
                == Some(TypeId(final(self).spec_module().types.key_map()[function.name.span])),
            r is Some ==> forall|j: int|
                0 <= j < function.prototype.parameters@.len() ==> final(self).spec_module().types.key_map().contains_key(
                    (#[trigger] function.prototype.parameters@[j]).name.span,
                ),
            r is Some && params_hinted(function.prototype.parameters@) ==> forall|j: int|
                0 <= j < function.prototype.parameters@.len() && #[trigger] param_span_unique(
                    function.prototype.parameters@,
                    j,
                    function.name.span,
                ) ==> (final(self).spec_module().types.pool@[final(self).spec_module().types.key_map()[function.name.span] as int].kind
                    matches TypeKind::Function { parameter_types, .. }
                    && final(self).spec_module().types.key_map()[function.prototype.parameters@[j].name.span]
                    == parameter_types@[j].0),
            r is Some && params_hinted(function.prototype.parameters@) ==> ({
                let id = old(self).sym_keys()[function.name.span] as int;
                let k = final(self).spec_module().types.pool@[final(self).spec_module().types.key_map()[function.name.span] as int].kind;
                &&& old(self).spec_module().symbols.pool@[id].data matches SymbolData::Function {
                    parameter_names: pn,
                    parameter_types: pt,
                }
                &&& k matches TypeKind::Function { parameter_names, parameter_types, .. }
                &&& parameter_names@.map_values(|n: (Name, usize)| name_key(n)) == pn@.map_values(
                    |n: (Name, usize)| name_key(n),
                )
                &&& final(self).spec_module().symbols.pool@[id].data matches SymbolData::Function {
                    parameter_types: pt2,
                    ..
                }
                &&& pt2@ == pt@ + parameter_types@
            }),
            r is Some && function.prototype.parameters@.len() == 0 && function.prototype.return_type is None
                ==> fn_typed_void(final(self).spec_module(), function.name.span)
                && final(self).spec_module().types.key_map() == old(self).spec_module().types.key_map().insert(
                function.name.span,
                final(self).spec_module().types.key_map()[function.name.span],
            ),
            !symbol_at(old(self).sym_keys(), old(self).sym_count(), function.name.span) && params_hinted(
                function.prototype.parameters@,
            ) && (forall|j: int|
                0 <= j < function.prototype.parameters@.len() ==> (#[trigger] function.prototype.parameters@[j]).name.span
                    != function.name.span) ==> {
                &&& final(self).spec_module().types.key_map().contains_key(function.name.span)
                    == old(self).spec_module().types.key_map().contains_key(function.name.span)
                &&& forall|i: int|
                    old(self).spec_module().types.pool@.len() <= i < final(self).spec_module().types.pool@.len()
                        ==> (#[trigger] final(self).spec_module().types.pool@[i]).kind is Pointer
            },
        decreases function, 0int,
    {
        proof {
            self.lemma_extends_refl();
        }
        let return_type_id = match &function.prototype.return_type {
            Some(type_hint) => self.resolve_type_to_id(type_hint),
            None => TypeId(TYPEID_VOID),
        };
        let mut parameter_types: Vec<TypeId> = Vec::new();
        let mut idx: usize = 0;
        while idx < function.prototype.parameters.len()
            invariant
                idx <= function.prototype.parameters@.len(),
                self.extends(old(self)),
                checkable_params(function.prototype.parameters@),
                return_type_id.0 < self.module.types.pool@.len(),
                forall|j: int|
                    0 <= j < parameter_types@.len() ==> (#[trigger] parameter_types@[j]).0
                        < self.module.types.pool@.len(),
                parameter_types@.len() == idx,
                function.prototype.return_type is None ==> return_type_id.0 == TYPEID_VOID,
                hint_scalar_id(function.prototype.return_type) matches Some(id) ==> return_type_id.0 == id,
                params_hinted(function.prototype.parameters@) ==> self.diagnostics == old(self).diagnostics,
                params_hinted(function.prototype.parameters@) ==> forall|j: int|
                    0 <= j < idx && #[trigger] later_unique(function.prototype.parameters@, j, idx as int)
                        ==> self.module.types.key_map()[function.prototype.parameters@[j].name.span]
                        == parameter_types@[j].0,
                params_hinted(function.prototype.parameters@) && (forall|j: int|
                    0 <= j < function.prototype.parameters@.len() ==> (#[trigger] function.prototype.parameters@[j]).name.span
                        != function.name.span) ==> self.module.types.key_map().contains_key(function.name.span)
                    == old(self).module.types.key_map().contains_key(function.name.span),
                params_hinted(function.prototype.parameters@) ==> forall|i: int|
                    old(self).module.types.pool@.len() <= i < self.module.types.pool@.len()
                        ==> (#[trigger] self.module.types.pool@[i]).kind is Pointer,
                params_hinted(function.prototype.parameters@) ==> forall|i: int|
                    0 <= i < self.module.symbols.pool@.len() ==> (#[trigger] self.module.symbols.pool@[i]).data
                        == old(self).module.symbols.pool@[i].data,
                function.prototype.parameters@.len() == 0 && function.prototype.return_type is None
                    ==> self.module.types.key_map() == old(self).module.types.key_map(),
                ready_params(old(self).sym_keys(), old(self).sym_count(), old(self).sym_fns(), function.prototype.parameters@),
                forall|j: int|
                    0 <= j < idx ==> self.module.types.key_map().contains_key(
                        (#[trigger] function.prototype.parameters@[j]).name.span,
                    ),
                forall|j: int|
                    0 <= j < idx && (#[trigger] function.prototype.parameters@[j]).default_value is None
                        ==> (hint_scalar_id(function.prototype.parameters@[j].type_hint) matches Some(id)
                        ==> parameter_types@[j].0 == id),
            decreases function.prototype.parameters@.len() - idx,
        {
            let param = &function.prototype.parameters[idx];
            proof {
                lemma_checkable_params_index(function.prototype.parameters@, idx as int);
                lemma_ready_params_index(
                    old(self).sym_keys(),
                    old(self).sym_count(),
                    old(self).sym_fns(),
                    function.prototype.parameters@,
                    idx as int,
                );
                assert(decreases_to!(function => function.prototype));
                assert(decreases_to!(function.prototype => function.prototype.parameters));
                assert(decreases_to!(function.prototype.parameters => function.prototype.parameters@));
                assert(decreases_to!(function.prototype.parameters@ => function.prototype.parameters@[idx as int]));
            }
            let ghost before = *self;
            let param_type_id = match (&param.type_hint, &param.default_value) {
                (Some(type_hint), None) => self.resolve_type_to_id(type_hint),
                (None, Some(expression)) => {
                    assert(decreases_to!(param => param.default_value));
                    match self.check_expression(expression) {
                        Some(t) => t,
                        None => {
                            proof {
                                self.lemma_extends_trans(&before, old(self));
                            }
                            return None;
                        },
                    }
                },
                (Some(type_hint), Some(expression)) => {
                    let target_type_id = self.resolve_type_to_id(type_hint);
                    let ghost mid = *self;
                    assert(decreases_to!(param => param.default_value));
                    let source_type_id = match self.check_expression(expression) {
                        Some(t) => t,
                        None => {
                            proof {
                                self.lemma_extends_trans(&mid, &before);
                                self.lemma_extends_trans(&before, old(self));
                            }
                            return None;
                        },
                    };
                    proof {
                        self.lemma_extends_trans(&mid, &before);
                    }
                    let ghost mid2 = *self;
                    let res = self.try_coerce(
                        (type_hint.span, target_type_id),
                        (expression.span, source_type_id),
                    );
                    proof {
                        self.lemma_extends_trans(&mid2, &before);
                    }
                    if res.is_none() {
                        proof {
                            self.lemma_extends_trans(&before, old(self));
                        }
                        return None;
                    }
                    target_type_id
                },
                (None, None) => {
                    return None;
                },
            };
            proof {
                self.lemma_extends_trans(&before, old(self));
            }
            let ghost mid = *self;
            let _ = self.set_resolved_type(param.name.span, param_type_id);
            parameter_types.push(param_type_id);
            self.map_locus_to_type(param.name.span, &param_type_id);
            proof {
                let ps = function.prototype.parameters@;
                if params_hinted(ps) {
                    assert(ps[idx as int].type_hint is Some && ps[idx as int].default_value is None);
                    assert(mid.module.types.key_map() == before.module.types.key_map());
                    assert forall|j: int|
                        0 <= j < idx + 1 && #[trigger] later_unique(ps, j, idx + 1) implies self.module.types.key_map()[ps[j].name.span]
                        == parameter_types@[j].0 by {
                        if j < idx {
                            assert(ps[idx as int].name.span != ps[j].name.span);
                            assert(later_unique(ps, j, idx as int));
                            assert(before.module.types.key_map()[ps[j].name.span] == parameter_types@[j].0);
                        }
                    }
                }
                self.lemma_extends_trans(&mid, old(self));
                self.lemma_extends_trans(&mid, &before);
                assert forall|j: int| 0 <= j < idx + 1 implies self.module.types.key_map().contains_key(
                    (#[trigger] function.prototype.parameters@[j]).name.span,
                ) by {
                    if j < idx {
                        assert(before.module.types.key_map().contains_key(function.prototype.parameters@[j].name.span));
                    }
                }
            }
            idx = idx + 1;
        }
        let ghost before = *self;
        let parameter_names = match self.complete_function_symbol(function.name.span, &parameter_types) {
            Some(names) => names,
            None => {
                proof {
                    self.lemma_extends_trans(&before, old(self));
                }
                return None;
            },
        };
        let ghost completed = *self;
        let ghost names = parameter_names@;
        let function_type_layout = TypeKind::Function {
            return_type: return_type_id,
            parameter_names,
            parameter_types: copy_ids(&parameter_types),
        };
        let function_type_id = self.get_type_id_of_kind(function_type_layout);
        proof {
            let k = self.module.types.pool@[function_type_id.0 as int].kind;
            assert(k matches TypeKind::Function { parameter_names: n2, parameter_types: p2, .. } && n2@.map_values(
                |n: (Name, usize)| name_key(n),
            ) == names.map_values(|n: (Name, usize)| name_key(n)) && p2@ == parameter_types@);
        }
        self.map_locus_to_type(function.name.span, &function_type_id);
        let ghost mapped = *self;
        let _ = self.set_resolved_type(function.name.span, function_type_id);
        proof {
            self.lemma_extends_trans(&before, old(self));
            let ps = function.prototype.parameters@;
            let id = old(self).sym_keys()[function.name.span] as int;
            assert(self.module.symbols.pool@[id].data == completed.module.symbols.pool@[id].data);
            if params_hinted(ps) {
                assert(before.module.symbols.pool@[id].data == old(self).module.symbols.pool@[id].data);
                assert forall|j: int|
                    0 <= j < ps.len() && #[trigger] param_span_unique(ps, j, function.name.span) implies self.module.types.key_map()[ps[j].name.span]
                    == parameter_types@[j].0 by {
                    assert(later_unique(ps, j, ps.len() as int));
                    assert(before.module.types.key_map()[ps[j].name.span] == parameter_types@[j].0);
                }
            }
        }
        Some(())
    }

    fn check_vardecl(&mut self, vardecl: &VariableDecl) -> (r: Option<()>)
        requires
            symbol_at(old(self).sym_keys(), old(self).sym_count(), vardecl.name.span),
            ready_expr(old(self).sym_keys(), old(self).sym_count(), old(self).sym_fns(), *vardecl.initializer),
            old(self).ready(),
            checkable_expr(*vardecl.initializer),
            match vardecl.type_hint {
                Some(t) => resolvable_type(*t),
                None => true,
            },
        ensures
            final(self).diagnostics@.len() == old(self).diagnostics@.len() ==> final(self).module.types.key_map().dom().contains(vardecl.name.span) && typed_expr(final(self).module.types.key_map().dom(), *vardecl.initializer),
            r is None ==> final(self).diagnostics@.len() > old(self).diagnostics@.len(),
            final(self).extends(old(self)),
        decreases vardecl, 0int,
    {
        let source_type_id = match self.check_expression(&vardecl.initializer) {
            Some(t) => t,
            None => {
                return None;
            },
        };
        let ghost before = *self;
        let type_id = match &vardecl.type_hint {
            Some(type_hint) => {
                let target_type_id = self.resolve_type_to_id(type_hint);
                let ghost mid = *self;
                let res = self.try_coerce(
                    (type_hint.span, target_type_id),
                    (vardecl.initializer.span, source_type_id),
                );
                proof {
                    self.lemma_extends_trans(&mid, &before);
                    self.lemma_extends_trans(&before, old(self));
                }
                if res.is_none() {
                    return None;
                }
                target_type_id
            },
            None => {
                proof {
                    self.lemma_extends_refl();
                }
                source_type_id
            },
        };
        let ghost mid = *self;
        if !self.set_resolved_type(vardecl.name.span, type_id) {
            proof {
                self.lemma_extends_trans(&mid, old(self));
            }
            return None;
        }
        self.map_locus_to_type(vardecl.name.span, &type_id);
        proof {
            self.lemma_extends_trans(&mid, old(self));
            self.lemma_extends_trans(&mid, &before);
            if self.diagnostics@.len() == old(self).diagnostics@.len() {
                lemma_typed_expr_mono(
                    *vardecl.initializer,
                    before.module.types.key_map().dom(),
                    self.module.types.key_map().dom(),
                );
            }
        }
        Some(())
    }

    /// The type of an expression: `i32` for an integer, `void` for a block, the
    /// resolved type for an identifier, the return type for a call and the left
    /// operand's type for a binary operation.
    fn check_expression(&mut self, expr: &Expr) -> (r: Option<TypeId>)
        requires
            ready_expr(old(self).sym_keys(), old(self).sym_count(), old(self).sym_fns(), *expr),
            old(self).ready(),
            checkable_expr(*expr),
        ensures
            final(self).diagnostics@.len() == old(self).diagnostics@.len() ==> typed_expr(final(self).module.types.key_map().dom(), *expr),
            r is None ==> final(self).diagnostics@.len() > old(self).diagnostics@.len(),
            final(self).extends(old(self)),
            r matches Some(t) ==> t.0 < final(self).module.types.pool@.len(),
            expr.data is Integer ==> r == Some(TypeId(TYPEID_I32)) && *final(self) == *old(self),
            expr.data is Block ==> (r matches Some(t) ==> t.0 == TYPEID_VOID),
            (expr.data is Identifier || expr.data is Call || expr.data is BinaryOperation) ==> (r
                matches Some(t) ==> final(self).module.types.key_map().contains_key(expr.span)
                && final(self).module.types.key_map()[expr.span] == t.0),
            crate::symbol_analyzer::trivially_resolved(*expr) ==> r is Some && *final(self) == *old(self),
            expr_type(old(self).module, *expr) matches Some(t) ==> {
                &&& r == Some(t)
                &&& final(self).module.symbols == old(self).module.symbols
                &&& final(self).module.types.pool@ == old(self).module.types.pool@
            },
            known_type(old(self).module, *expr) matches Some(t) ==> {
                &&& r == Some(t)
                &&& final(self).module.symbols == old(self).module.symbols
                &&& final(self).module.types.pool@ == old(self).module.types.pool@
                &&& final(self).diagnostics == old(self).diagnostics
                &&& final(self).module.types.key_map().dom().subset_of(
                    old(self).module.types.key_map().dom().insert(expr.span),
                )
            },
        decreases expr, 0int,
    {
        match &expr.data {
            ExprData::Block(block) => self.check_block_expr(block),
            ExprData::Identifier(name) => self.check_identifier(expr.span, name),
            ExprData::Integer(_) => {
                proof {
                    self.lemma_extends_refl();
                }
                Some(TypeId(TYPEID_I32))
            },
            ExprData::Call(call) => {
                proof {
                    if let Some(t) = expr_type(old(self).module, *call.callee) {
                        if t.0 < old(self).module.types.pool@.len() {
                            if let TypeKind::Function { parameter_types, .. } = old(self).module.types.pool@[t.0 as int].kind {
                                lemma_call_args_fit(old(self).module, parameter_types@, call.arguments@);
                            }
                        }
                    }
                }
                self.check_call(expr.span, call)
            },
            ExprData::BinaryOperation(binop) => self.check_binop(expr.span, binop),
            _ => {
                proof {
                    self.lemma_extends_refl();
                }
                None
            },
        }
    }

    /// Checks the statements of a block; a block has type `void`.
    fn check_block_expr(&mut self, block: &Block) -> (r: Option<TypeId>)
        requires
            ready_stmts(old(self).sym_keys(), old(self).sym_count(), old(self).sym_fns(), block.stmts@),
            old(self).ready(),
            checkable_stmts(block.stmts@),
        ensures
            final(self).diagnostics@.len() == old(self).diagnostics@.len() ==> typed_stmts(final(self).module.types.key_map().dom(), block.stmts@),
            r is None ==> final(self).diagnostics@.len() > old(self).diagnostics@.len(),
            final(self).extends(old(self)),
            r matches Some(t) ==> t.0 == TYPEID_VOID,
            block.stmts@.len() == 0 ==> r is Some && *final(self) == *old(self),
        decreases block, 0int,
    {
        proof {
            self.lemma_extends_refl();
            assert(block.stmts@.take(0) =~= Seq::<crate::ast::StmtRef>::empty());
        }
        let mut i: usize = 0;
        while i < block.stmts.len()
            invariant
                i <= block.stmts@.len(),
                self.extends(old(self)),
                checkable_stmts(block.stmts@),
                ready_stmts(old(self).sym_keys(), old(self).sym_count(), old(self).sym_fns(), block.stmts@),
                self.diagnostics@.len() == old(self).diagnostics@.len() ==> typed_stmts(
                    self.module.types.key_map().dom(),
                    block.stmts@.take(i as int),
                ),
                block.stmts@.len() == 0 ==> *self == *old(self),
            decreases block.stmts@.len() - i,
        {
            proof {
                lemma_checkable_stmts_index(block.stmts@, i as int);
                lemma_ready_stmts_index(
                    old(self).sym_keys(),
                    old(self).sym_count(),
                    old(self).sym_fns(),
                    block.stmts@,
                    i as int,
                );
                assert(decreases_to!(block => block.stmts));
                assert(decreases_to!(block.stmts => block.stmts@));
                assert(decreases_to!(block.stmts@ => block.stmts@[i as int]));
            }
            let ghost before = *self;
            let res = self.check_statement(&block.stmts[i]);
            proof {
                self.lemma_extends_trans(&before, old(self));
            }
            if res.is_none() {
                return None;
            }
            proof {
                if self.diagnostics@.len() == old(self).diagnostics@.len() {
                    lemma_typed_stmts_mono(
                        block.stmts@.take(i as int),
                        before.module.types.key_map().dom(),
                        self.module.types.key_map().dom(),
                    );
                    assert(block.stmts@.take(i + 1).drop_last() =~= block.stmts@.take(i as int));
                    assert(block.stmts@.take(i + 1).last() == block.stmts@[i as int]);
                }
            }
            i = i + 1;
        }
        proof {
            assert(block.stmts@.take(i as int) =~= block.stmts@);
        }
        Some(TypeId(TYPEID_VOID))
    }

    /// The type of the symbol that the identifier at `span` refers to, recorded at
    /// `span`.  None when no symbol is recorded there; an error when that symbol has no
    /// type yet.
    fn check_identifier(&mut self, span: Span, name: &String) -> (r: Option<TypeId>)
        requires
            old(self).ready(),
        ensures
            final(self).extends(old(self)),
            final(self).module.symbols == old(self).module.symbols,
            final(self).module.types.pool@ == old(self).module.types.pool@,
            match old(self).module.symbols.spec_id_of(span) {
                Some(id) => if id < old(self).module.symbols.pool@.len() {
                    match old(self).module.symbols.pool@[id as int].resolved_type {
                        Some(t) => r == Some(t) && final(self).diagnostics == old(self).diagnostics
                            && final(self).module.types.key_map() == old(self).module.types.key_map().insert(span, t.0),
                        None => r is None && final(self).module == old(self).module
                            && final(self).diagnostics@ == old(self).diagnostics@.push(
                            final(self).diagnostics@.last(),
                        ) && final(self).diagnostics@.last()@ == awaiting_inference_view(span, name@),
                    }
                } else {
                    r is None && *final(self) == *old(self)
                },
                None => r is None && *final(self) == *old(self),
            },
    {
        proof {
            self.lemma_extends_refl();
        }
        let resolved = match self.module.symbols.get_from_key(&span) {
            Some(symbol) => symbol.resolved_type,
            None => {
                return None;
            },
        };
        match resolved {
            Some(type_id) => {
                self.map_locus_to_type(span, &type_id);
                Some(type_id)
            },
            None => {
                let mut label = string_of("identifier `");
                label.append(name.as_str());
                label.append("` is awaiting inference");
                let diag = Diagnostic::new(Severity::Error, string_of("type not inferred"), span, label);
                self.emit_diag(diag);
                None
            },
        }
    }

    /// Checks a binary operation: both operands, then that the right one fits the
    /// left one's type, which is the operation's type.
    fn check_binop(&mut self, span: Span, binop: &crate::ast::BinaryOperation) -> (r: Option<TypeId>)
        requires
            ready_expr(old(self).sym_keys(), old(self).sym_count(), old(self).sym_fns(), *binop.left),
            ready_expr(old(self).sym_keys(), old(self).sym_count(), old(self).sym_fns(), *binop.right),
            old(self).ready(),
            checkable_expr(*binop.left),
            checkable_expr(*binop.right),
        ensures
            final(self).diagnostics@.len() == old(self).diagnostics@.len() ==> typed_expr(final(self).module.types.key_map().dom(), *binop.left) && typed_expr(final(self).module.types.key_map().dom(), *binop.right),
            r is None ==> final(self).diagnostics@.len() > old(self).diagnostics@.len(),
            final(self).extends(old(self)),
            r matches Some(t) ==> t.0 < final(self).module.types.pool@.len(),
            r matches Some(t) ==> final(self).module.types.key_map().contains_key(span)
                && final(self).module.types.key_map()[span] == t.0,
            expr_type(old(self).module, *binop.left) matches Some(l) ==> expr_type(old(self).module, *binop.right) matches Some(rt) ==> (l.0 < old(self).module.types.pool@.len() && rt.0 < old(self).module.types.pool@.len() && coercible(old(self).module.types.pool@, l.0 as int, rt.0 as int)) ==> {
                &&& r == Some(l)
                &&& final(self).module.symbols == old(self).module.symbols
                &&& final(self).module.types.pool@ == old(self).module.types.pool@
            },
        decreases binop, 0int,
    {
        let lhs_type_id = match self.check_expression(&binop.left) {
            Some(t) => t,
            None => {
                return None;
            },
        };
        let ghost a = *self;
        proof {
            if expr_type(old(self).module, *binop.left) is Some {
                lemma_expr_type_frame(a.module, old(self).module, *binop.right);
            }
        }
        let rhs_type_id = match self.check_expression(&binop.right) {
            Some(t) => t,
            None => {
                proof {
                    self.lemma_extends_trans(&a, old(self));
                }
                return None;
            },
        };
        proof {
            self.lemma_extends_trans(&a, old(self));
        }
        let ghost b = *self;
        let res = self.try_coerce((binop.left.span, lhs_type_id), (binop.right.span, rhs_type_id));
        proof {
            self.lemma_extends_trans(&b, old(self));
        }
        if res.is_none() {
            return None;
        }
        let ghost c = *self;
        self.map_locus_to_type(span, &lhs_type_id);
        proof {
            self.lemma_extends_trans(&c, old(self));
            c.lemma_extends_trans(&b, &a);
            self.lemma_extends_trans(&c, &a);
            self.lemma_extends_trans(&c, &b);
            if self.diagnostics@.len() == old(self).diagnostics@.len() {
                lemma_typed_expr_mono(*binop.left, a.module.types.key_map().dom(), self.module.types.key_map().dom());
                lemma_typed_expr_mono(*binop.right, b.module.types.key_map().dom(), self.module.types.key_map().dom());
            }
        }
        Some(lhs_type_id)
    }
}


/// The parameter types of a function type, and the diagnostics of a call.
impl TypeChecker {
    /// The return type and the parameter types of function type `type_id`.
    fn function_signature(&self, type_id: TypeId) -> (r: Option<(TypeId, Vec<TypeId>)>)
        requires
            self.wf(),
            type_id.0 < self.module.types.pool@.len(),
        ensures
            match self.module.types.pool@[type_id.0 as int].kind {
                TypeKind::Function { return_type, parameter_types, .. } => r matches Some(p)
                    && p.0 == return_type && p.1@ == parameter_types@,
                _ => r is None,
            },
            r matches Some(p) ==> p.0.0 < type_id.0 && forall|j: int|
                0 <= j < p.1@.len() ==> (#[trigger] p.1@[j]).0 < type_id.0,
    {
        proof {
            assert(refs_below(self.module.types.pool@[type_id.0 as int].kind, type_id.0 as int));
        }
        match &self.module.types.pool[type_id.0].kind {
            TypeKind::Function { return_type, parameter_types, .. } => Some(
                (*return_type, copy_ids(parameter_types)),
            ),
            _ => None,
        }
    }

    /// The position recorded with the first parameter of function type `type_id` named
    /// `name`.
    #[verifier::loop_isolation(false)]
    fn find_param(&self, type_id: TypeId, name: &str) -> (r: Option<usize>)
        requires
            type_id.0 < self.module.types.pool@.len(),
        ensures
            match self.module.types.pool@[type_id.0 as int].kind {
                TypeKind::Function { parameter_names, .. } => match r {
                    Some(p) => exists|i: int|
                        0 <= i < parameter_names@.len() && (#[trigger] parameter_names@[i]).0.value@ == name@
                            && parameter_names@[i].1 == p && forall|j: int|
                            0 <= j < i ==> (#[trigger] parameter_names@[j]).0.value@ != name@,
                    None => forall|j: int|
                        0 <= j < parameter_names@.len() ==> (#[trigger] parameter_names@[j]).0.value@ != name@,
                },
                _ => r is None,
            },
    {
        match &self.module.types.pool[type_id.0].kind {
            TypeKind::Function { parameter_names, .. } => {
                let mut i: usize = 0;
                while i < parameter_names.len()
                    invariant
                        i <= parameter_names@.len(),
                        forall|j: int| 0 <= j < i ==> (#[trigger] parameter_names@[j]).0.value@ != name@,
                    decreases parameter_names@.len() - i,
                {
                    if crate::text::str_eq(parameter_names[i].0.value.as_str(), name) {
                        proof {
                            assert(parameter_names@[i as int].0.value@ == name@);
                        }
                        return Some(parameter_names[i].1);
                    }
                    i = i + 1;
                }
                None
            },
            _ => None,
        }
    }

    /// The span of the `index`-th parameter name of function type `type_id`.
    fn param_name_span(&self, type_id: TypeId, index: usize) -> (r: Option<Span>)
        requires
            type_id.0 < self.module.types.pool@.len(),
        ensures
            r == match self.module.types.pool@[type_id.0 as int].kind {
                TypeKind::Function { parameter_names, .. } => if index < parameter_names@.len() {
                    Some(parameter_names@[index as int].0.span)
                } else {
                    None
                },
                _ => None,
            },
    {
        match &self.module.types.pool[type_id.0].kind {
            TypeKind::Function { parameter_names, .. } => {
                if index < parameter_names.len() {
                    Some(parameter_names[index].0.span)
                } else {
                    None
                }
            },
            _ => None,
        }
    }

    /// Reports an argument that has no parameter to go to.
    fn report_extra_argument(&mut self, span: Span)
        requires
            old(self).ready(),
        ensures
            final(self).extends(old(self)),
            final(self).diagnostics@.len() == old(self).diagnostics@.len() + 1,
    {
        let diag = crate::diagnostics::error_at(
            "unexpected argument",
            span,
            string_of("no parameter takes this argument"),
        );
        self.emit_diag(diag);
    }

    /// Checks a call: the callee must have a function type; positional arguments must
    /// fit the parameter at their position, named ones the parameter of that name
    /// (an unknown name is reported and skipped).  The call has the return type.
    #[verifier::rlimit(60)]
    fn check_call(&mut self, span: Span, call: &Call) -> (r: Option<TypeId>)
        requires
            ready_expr(old(self).sym_keys(), old(self).sym_count(), old(self).sym_fns(), *call.callee),
            ready_args(old(self).sym_keys(), old(self).sym_count(), old(self).sym_fns(), call.arguments@),
            old(self).ready(),
            checkable_expr(*call.callee),
            checkable_args(call.arguments@),
        ensures
            final(self).diagnostics@.len() == old(self).diagnostics@.len() ==> typed_expr(final(self).module.types.key_map().dom(), *call.callee) && typed_args(final(self).module.types.key_map().dom(), call.arguments@),
            r is None ==> final(self).diagnostics@.len() > old(self).diagnostics@.len(),
            final(self).extends(old(self)),
            r matches Some(t) ==> t.0 < final(self).module.types.pool@.len(),
            r matches Some(t) ==> final(self).module.types.key_map().contains_key(span)
                && final(self).module.types.key_map()[span] == t.0,
            expr_type(old(self).module, *call.callee) matches Some(t) ==> !(old(self).module.types.pool@[t.0 as int].kind is Function) ==> {
                &&& r is None
                &&& final(self).module.symbols == old(self).module.symbols
                &&& final(self).module.types.pool@ == old(self).module.types.pool@
                &&& final(self).diagnostics@.last()@ == not_callable_view(
                    call.callee.span,
                    type_text(old(self).module.types.pool@, t.0 as int),
                )
            },
            expr_type(old(self).module, *call.callee) matches Some(t) ==> old(self).module.types.pool@[t.0 as int].kind matches TypeKind::Function {
                return_type,
                parameter_types,
                ..
            } ==> {
                &&& r matches Some(rt) ==> rt == return_type
                &&& args_fit(old(self).module, parameter_types@, call.arguments@) ==> r == Some(
                    return_type,
                ) && final(self).module.symbols == old(self).module.symbols
                    && final(self).module.types.pool@ == old(self).module.types.pool@
                &&& forall|k: int|
                    #[trigger] first_misfit(old(self).module, parameter_types@, call.arguments@, k) ==> {
                        &&& r is None
                        &&& (call.arguments@[k] matches CallArgument::Expr(v) && expr_type(old(self).module, *v) matches Some(a)
                            && final(self).diagnostics@.last()@ == argument_mismatch_view(
                            v.span,
                            type_text(old(self).module.types.pool@, parameter_types@[k].0 as int),
                            type_text(old(self).module.types.pool@, a.0 as int),
                        ))
                    }
            },
            known_type(old(self).module, *call.callee) matches Some(t) ==> !(old(self).module.types.pool@[t.0 as int].kind is Function) ==> {
                &&& final(self).diagnostics@.len() == old(self).diagnostics@.len() + 1
                &&& final(self).module.types.key_map().dom().subset_of(
                    old(self).module.types.key_map().dom().insert(call.callee.span),
                )
            },
        decreases call, 0int,
    {
        let type_id = match self.check_expression(&call.callee) {
            Some(t) => t,
            None => {
                assert(expr_type(old(self).module, *call.callee) is None);
                return None;
            },
        };
        let ghost start = *self;
        proof {
            assert(call.arguments@.take(0) =~= Seq::<CallArgument>::empty());
            if expr_type(old(self).module, *call.callee) is Some {
                assert(Some(type_id) == expr_type(old(self).module, *call.callee));
                assert(self.module.types.pool@ == old(self).module.types.pool@);
            }
        }
        let (return_type, parameter_types) = match self.function_signature(type_id) {
            Some(sig) => sig,
            None => {
                let callee_name = self.get_type_name(&type_id);
                let mut label = string_of("type `");
                label.append(callee_name.as_str());
                label.append("` is not callable");
                let diag = crate::diagnostics::error_at("invalid type", call.callee.span, label);
                self.emit_diag(diag);
                proof {
                    self.lemma_extends_trans(&start, old(self));
                }
                return None;
            },
        };
        let mut has_seen_name = false;
        let mut index: usize = 0;
        while index < call.arguments.len()
            invariant
                index <= call.arguments@.len(),
                self.extends(old(self)),
                expr_type(old(self).module, *call.callee) is Some ==> forall|k: int|
                    0 <= k < index ==> !#[trigger] first_misfit(
                        old(self).module,
                        parameter_types@,
                        call.arguments@,
                        k,
                    ),
                expr_type(old(self).module, *call.callee) matches Some(t) ==> old(self).module.types.pool@[t.0 as int].kind matches TypeKind::Function { return_type: rt, parameter_types: pt, .. } && rt == return_type && pt@ == parameter_types@,
                expr_type(old(self).module, *call.callee) is Some && prefix_fits(
                    old(self).module,
                    parameter_types@,
                    call.arguments@,
                    index as int,
                ) ==> {
                    &&& self.module.symbols == old(self).module.symbols
                    &&& self.module.types.pool@ == old(self).module.types.pool@
                    &&& !has_seen_name
                },
                checkable_args(call.arguments@),
                type_id.0 < self.module.types.pool@.len(),
                return_type.0 < type_id.0,
                forall|j: int| 0 <= j < parameter_types@.len() ==> (#[trigger] parameter_types@[j]).0 < type_id.0,
                ready_args(old(self).sym_keys(), old(self).sym_count(), old(self).sym_fns(), call.arguments@),
                self.diagnostics@.len() == old(self).diagnostics@.len() ==> typed_expr(
                    self.module.types.key_map().dom(),
                    *call.callee,
                ) && typed_args(self.module.types.key_map().dom(), call.arguments@.take(index as int)),
            decreases call.arguments@.len() - index,
        {
            proof {
                lemma_checkable_args_index(call.arguments@, index as int);
                lemma_ready_args_index(
                    old(self).sym_keys(),
                    old(self).sym_count(),
                    old(self).sym_fns(),
                    call.arguments@,
                    index as int,
                );
                assert(decreases_to!(call => call.arguments));
                assert(decreases_to!(call.arguments => call.arguments@));
                assert(decreases_to!(call.arguments@ => call.arguments@[index as int]));
            }
            let ghost before = *self;
            let ghost mut vkeys: Set<Span> = Set::empty();
            let ghost clean = expr_type(old(self).module, *call.callee) is Some && prefix_fits(
                old(self).module,
                parameter_types@,
                call.arguments@,
                index as int,
            );
            match &call.arguments[index] {
                CallArgument::Expr(value) => {
                    proof {
                        if clean {
                            lemma_expr_type_frame(self.module, old(self).module, **value);
                        }
                        if expr_type(old(self).module, *call.callee) is Some && args_fit(
                            old(self).module,
                            parameter_types@,
                            call.arguments@,
                        ) {
                            assert(arg_fits(old(self).module, parameter_types@, call.arguments@, index as int));
                            assert(prefix_fits(old(self).module, parameter_types@, call.arguments@, index as int));
                        }
                        assert forall|k: int|
                            expr_type(old(self).module, *call.callee) is Some && #[trigger] first_misfit(
                                old(self).module,
                                parameter_types@,
                                call.arguments@,
                                k,
                            ) implies clean && expr_type(old(self).module, **value) is Some && (k
                            > index ==> arg_fits(old(self).module, parameter_types@, call.arguments@, index as int)) by {
                            assert(k >= index);
                            if k > index {
                                assert(arg_fits(old(self).module, parameter_types@, call.arguments@, index as int));
                            }
                            assert(prefix_fits(old(self).module, parameter_types@, call.arguments@, index as int));
                        }
                    }
                    if has_seen_name {
                        let diag = crate::diagnostics::error_at(
                            "unexpected argument",
                            value.span,
                            string_of("positional argument after named arguments"),
                        );
                        self.emit_diag(diag);
                        proof {
                            self.lemma_extends_trans(&before, old(self));
                        }
                        return None;
                    }
                    let source_id = match self.check_expression(value) {
                        Some(t) => t,
                        None => {
                            proof {
                                self.lemma_extends_trans(&before, old(self));
                            }
                            return None;
                        },
                    };
                    proof {
                        self.lemma_extends_trans(&before, old(self));
                        vkeys = self.module.types.key_map().dom();
                    }
                    if index >= parameter_types.len() {
                        let ghost b2 = *self;
                        self.report_extra_argument(value.span);
                        proof {
                            self.lemma_extends_trans(&b2, old(self));
                        }
                        return None;
                    }
                    if !self.can_coerce(parameter_types[index], source_id) {
                        let target_name = self.get_type_name(&parameter_types[index]);
                        let source_name = self.get_type_name(&source_id);
                        let mut label = string_of("expected `");
                        label.append(target_name.as_str());
                        label.append("` got `");
                        label.append(source_name.as_str());
                        label.append("`");
                        let diag = crate::diagnostics::error_at("unexpected type", value.span, label);
                        let ghost b2 = *self;
                        self.emit_diag(diag);
                        proof {
                            self.lemma_extends_trans(&b2, old(self));
                            assert(diag@ == argument_mismatch_view(
                                value.span,
                                type_text(b2.module.types.pool@, parameter_types@[index as int].0 as int),
                                type_text(b2.module.types.pool@, source_id.0 as int),
                            ));
                        }
                        return None;
                    }
                },
                CallArgument::Assign(name, value) => {
                    proof {
                        assert(!arg_fits(old(self).module, parameter_types@, call.arguments@, index as int));
                        assert forall|k: int|
                            expr_type(old(self).module, *call.callee) is Some && #[trigger] first_misfit(
                                old(self).module,
                                parameter_types@,
                                call.arguments@,
                                k,
                            ) implies false by {
                            assert(k >= index);
                            if k > index {
                                assert(arg_fits(old(self).module, parameter_types@, call.arguments@, index as int));
                            }
                        }
                        if args_fit(old(self).module, parameter_types@, call.arguments@) {
                            assert(arg_fits(old(self).module, parameter_types@, call.arguments@, index as int));
                        }
                    }
                    match self.find_param(type_id, name.value.as_str()) {
                        Some(name_to_type_idx) => {
                            let source_type_id = match self.check_expression(value) {
                                Some(t) => t,
                                None => {
                                    proof {
                                        self.lemma_extends_trans(&before, old(self));
                                    }
                                    return None;
                                },
                            };
                            proof {
                                self.lemma_extends_trans(&before, old(self));
                                vkeys = self.module.types.key_map().dom();
                            }
                            let ghost b2 = *self;
                            let target_span = self.param_name_span(type_id, index);
                            match target_span {
                                Some(target_span) => {
                                    if name_to_type_idx < parameter_types.len() {
                                        let res = self.try_coerce(
                                            (target_span, parameter_types[name_to_type_idx]),
                                            (value.span, source_type_id),
                                        );
                                        proof {
                                            self.lemma_extends_trans(&b2, old(self));
                                        }
                                        if res.is_none() {
                                            return None;
                                        }
                                        proof {
                                            self.lemma_extends_trans(&b2, &before);
                                        }
                                    } else {
                                        self.report_extra_argument(value.span);
                                        proof {
                                            self.lemma_extends_trans(&b2, old(self));
                                        }
                                        return None;
                                    }
                                },
                                None => {
                                    self.report_extra_argument(value.span);
                                    proof {
                                        self.lemma_extends_trans(&b2, old(self));
                                    }
                                    return None;
                                },
                            }
                            has_seen_name = true;
                        },
                        None => {
                            let mut label = string_of("function has no parameter named `");
                            label.append(name.value.as_str());
                            label.append("`");
                            let diag = crate::diagnostics::error_at("invalid symbol", name.span, label);
                            self.emit_diag(diag);
                            proof {
                                self.lemma_extends_trans(&before, old(self));
                            }
                        },
                    }
                },
            }
            proof {
                if self.diagnostics@.len() == old(self).diagnostics@.len() {
                    let a = before.module.types.key_map().dom();
                    let b = self.module.types.key_map().dom();
                    lemma_typed_expr_mono(*call.callee, a, b);
                    lemma_typed_args_mono(call.arguments@.take(index as int), a, b);
                    match call.arguments@[index as int] {
                        CallArgument::Expr(v) => lemma_typed_expr_mono(*v, vkeys, b),
                        CallArgument::Assign(_, v) => lemma_typed_expr_mono(*v, vkeys, b),
                    }
                    assert(call.arguments@.take(index + 1).drop_last() =~= call.arguments@.take(
                        index as int,
                    ));
                    assert(call.arguments@.take(index + 1).last() == call.arguments@[index as int]);
                }
            }
            proof {
                if expr_type(old(self).module, *call.callee) is Some && prefix_fits(
                    old(self).module,
                    parameter_types@,
                    call.arguments@,
                    index + 1,
                ) {
                    assert(arg_fits(old(self).module, parameter_types@, call.arguments@, index as int));
                    assert(prefix_fits(old(self).module, parameter_types@, call.arguments@, index as int));
                }
            }
            index = index + 1;
        }
        let ghost before = *self;
        self.map_locus_to_type(span, &return_type);
        proof {
            self.lemma_extends_trans(&before, old(self));
            assert(call.arguments@.take(index as int) =~= call.arguments@);
            if self.diagnostics@.len() == old(self).diagnostics@.len() {
                let a = before.module.types.key_map().dom();
                let b = self.module.types.key_map().dom();
                lemma_typed_expr_mono(*call.callee, a, b);
                lemma_typed_args_mono(call.arguments@, a, b);
            }
        }
        Some(return_type)
    }
}


/// Whether the checker resolves the type hint `t`.
pub fn type_resolvable(t: &Type) -> (r: bool)
    ensures
        r == resolvable_type(*t),
    decreases t,
{
    match &t.data {
        TypeData::Pointer(inner) => type_resolvable(inner),
        TypeData::UnsignedInteger(_) | TypeData::SignedInteger(_) | TypeData::Bool | TypeData::Void
        | TypeData::Char | TypeData::String => true,
        _ => false,
    }
}

/// Whether the checker handles `e`.
#[verifier::loop_isolation(false)]
pub fn expr_checkable(e: &Expr) -> (r: bool)
    ensures
        r == checkable_expr(*e),
    decreases e,
{
    match &e.data {
        ExprData::Block(b) => stmts_checkable(&b.stmts),
        ExprData::Identifier(_) => true,
        ExprData::Integer(_) => true,
        ExprData::Call(c) => {
            if !expr_checkable(&c.callee) {
                return false;
            }
            let mut ok = true;
            let mut i: usize = 0;
            while i < c.arguments.len()
                invariant
                    i <= c.arguments@.len(),
                    ok == checkable_args(c.arguments@.take(i as int)),
                decreases c.arguments@.len() - i,
            {
                proof {
                    assert(decreases_to!(c.arguments => c.arguments@));
                    assert(decreases_to!(c.arguments@ => c.arguments@[i as int]));
                    assert(c.arguments@.take(i + 1).drop_last() =~= c.arguments@.take(i as int));
                }
                let this = match &c.arguments[i] {
                    CallArgument::Expr(v) => expr_checkable(v),
                    CallArgument::Assign(_, v) => expr_checkable(v),
                };
                ok = ok && this;
                i = i + 1;
            }
            assert(c.arguments@.take(c.arguments@.len() as int) =~= c.arguments@);
            ok
        },
        ExprData::BinaryOperation(b) => expr_checkable(&b.left) && expr_checkable(&b.right),
        _ => false,
    }
}

/// Whether the checker handles function `f`.
#[verifier::loop_isolation(false)]
pub fn function_checkable(f: &FunctionDefinition) -> (r: bool)
    ensures
        r == checkable_function(*f),
    decreases f,
{
    let ret_ok = match &f.prototype.return_type {
        Some(t) => type_resolvable(t),
        None => true,
    };
    let mut ok = true;
    let mut i: usize = 0;
    while i < f.prototype.parameters.len()
        invariant
            i <= f.prototype.parameters@.len(),
            ok == checkable_params(f.prototype.parameters@.take(i as int)),
        decreases f.prototype.parameters@.len() - i,
    {
        proof {
            assert(decreases_to!(f.prototype.parameters => f.prototype.parameters@));
            assert(decreases_to!(f.prototype.parameters@ => f.prototype.parameters@[i as int]));
            assert(f.prototype.parameters@.take(i + 1).drop_last() =~= f.prototype.parameters@.take(i as int));
        }
        let p = &f.prototype.parameters[i];
        let this = match (&p.type_hint, &p.default_value) {
            (Some(t), None) => type_resolvable(t),
            (None, Some(e)) => expr_checkable(e),
            (Some(t), Some(e)) => type_resolvable(t) && expr_checkable(e),
            (None, None) => false,
        };
        ok = ok && this;
        i = i + 1;
    }
    assert(f.prototype.parameters@.take(f.prototype.parameters@.len() as int) =~= f.prototype.parameters@);
    let body_ok = match &f.body {
        Some(b) => expr_checkable(b),
        None => true,
    };
    ret_ok && ok && body_ok
}

/// Whether the checker handles `s`.
pub fn stmt_checkable(s: &Stmt) -> (r: bool)
    ensures
        r == checkable_stmt(*s),
    decreases s,
{
    match &s.data {
        StmtData::FunctionDefinition(f) => function_checkable(f),
        StmtData::VariableDecl(v) => expr_checkable(&v.initializer) && match &v.type_hint {
            Some(t) => type_resolvable(t),
            None => true,
        },
        StmtData::Return(r) => expr_checkable(&r.expr),
        StmtData::Expr(e) => expr_checkable(e),
        _ => false,
    }
}

/// Whether the checker handles every statement of `stmts` (as [`TypeChecker::run`]
/// asks of a file).
#[verifier::loop_isolation(false)]
pub fn stmts_checkable(stmts: &Vec<crate::ast::StmtRef>) -> (r: bool)
    ensures
        r == checkable_stmts(stmts@),
    decreases stmts,
{
    let mut ok = true;
    let mut i: usize = 0;
    while i < stmts.len()
        invariant
            i <= stmts@.len(),
            ok == checkable_stmts(stmts@.take(i as int)),
        decreases stmts@.len() - i,
    {
        proof {
            assert(decreases_to!(stmts => stmts@));
            assert(decreases_to!(stmts@ => stmts@[i as int]));
            assert(stmts@.take(i + 1).drop_last() =~= stmts@.take(i as int));
        }
        let this = stmt_checkable(&stmts[i]);
        ok = ok && this;
        i = i + 1;
    }
    assert(stmts@.take(stmts@.len() as int) =~= stmts@);
    ok
}

/// Whether a symbol with a valid id is recorded at `span` in `m`.
fn symbol_recorded(m: &Module, span: &Span) -> (r: bool)
    requires
        m.symbols.wf(),
    ensures
        r == symbol_at(m.symbols.key_map(), m.symbols.pool@.len(), *span),
{
    match m.symbols.get_by_id_key(span) {
        Some(id) => id < m.symbols.pool.len(),
        None => false,
    }
}

/// Whether a function symbol with a valid id is recorded at `span` in `m`.
fn function_symbol_recorded(m: &Module, span: &Span) -> (r: bool)
    requires
        m.symbols.wf(),
    ensures
        r == (symbol_at(m.symbols.key_map(), m.symbols.pool@.len(), *span) && function_ids(
            m.symbols.pool@,
        ).contains(m.symbols.key_map()[*span] as int)),
{
    match m.symbols.get_by_id_key(span) {
        Some(id) => {
            if id < m.symbols.pool.len() {
                match &m.symbols.pool[id].data {
                    SymbolData::Function { .. } => true,
                    _ => false,
                }
            } else {
                false
            }
        },
        None => false,
    }
}

/// Whether every name used in `e` has a symbol recorded in `m`.
#[verifier::loop_isolation(false)]
fn expr_symbols_ready(m: &Module, e: &Expr) -> (r: bool)
    requires
        m.symbols.wf(),
    ensures
        r == ready_expr(m.symbols.key_map(), m.symbols.pool@.len(), function_ids(m.symbols.pool@), *e),
    decreases e,
{
    match &e.data {
        ExprData::Block(b) => stmts_symbols_ready(m, &b.stmts),
        ExprData::Identifier(_) => symbol_recorded(m, &e.span),
        ExprData::Call(c) => {
            if !expr_symbols_ready(m, &c.callee) {
                return false;
            }
            let mut ok = true;
            let mut i: usize = 0;
            while i < c.arguments.len()
                invariant
                    i <= c.arguments@.len(),
                    ok == ready_args(
                        m.symbols.key_map(),
                        m.symbols.pool@.len(),
                        function_ids(m.symbols.pool@),
                        c.arguments@.take(i as int),
                    ),
                decreases c.arguments@.len() - i,
            {
                proof {
                    assert(decreases_to!(c.arguments => c.arguments@));
                    assert(decreases_to!(c.arguments@ => c.arguments@[i as int]));
                    assert(c.arguments@.take(i + 1).drop_last() =~= c.arguments@.take(i as int));
                }
                let this = match &c.arguments[i] {
                    CallArgument::Expr(v) => expr_symbols_ready(m, v),
                    CallArgument::Assign(_, v) => expr_symbols_ready(m, v),
                };
                ok = ok && this;
                i = i + 1;
            }
            assert(c.arguments@.take(c.arguments@.len() as int) =~= c.arguments@);
            ok
        },
        ExprData::BinaryOperation(b) => expr_symbols_ready(m, &b.left) && expr_symbols_ready(m, &b.right),
        _ => true,
    }
}

/// Whether the names in function `f`, and `f` itself, have symbols recorded in `m`.
#[verifier::loop_isolation(false)]
fn function_symbols_ready(m: &Module, f: &FunctionDefinition) -> (r: bool)
    requires
        m.symbols.wf(),
    ensures
        r == ready_function(m.symbols.key_map(), m.symbols.pool@.len(), function_ids(m.symbols.pool@), *f),
    decreases f,
{
    let name_ok = function_symbol_recorded(m, &f.name.span);
    let mut ok = true;
    let mut i: usize = 0;
    while i < f.prototype.parameters.len()
        invariant
            i <= f.prototype.parameters@.len(),
            ok == ready_params(
                m.symbols.key_map(),
                m.symbols.pool@.len(),
                function_ids(m.symbols.pool@),
                f.prototype.parameters@.take(i as int),
            ),
        decreases f.prototype.parameters@.len() - i,
    {
        proof {
            assert(decreases_to!(f.prototype.parameters => f.prototype.parameters@));
            assert(decreases_to!(f.prototype.parameters@ => f.prototype.parameters@[i as int]));
            assert(f.prototype.parameters@.take(i + 1).drop_last() =~= f.prototype.parameters@.take(i as int));
        }
        let this = match &f.prototype.parameters[i].default_value {
            Some(e) => expr_symbols_ready(m, e),
            None => true,
        };
        ok = ok && this;
        i = i + 1;
    }
    assert(f.prototype.parameters@.take(f.prototype.parameters@.len() as int) =~= f.prototype.parameters@);
    let body_ok = match &f.body {
        Some(b) => expr_symbols_ready(m, b),
        None => true,
    };
    name_ok && ok && body_ok
}

/// Whether the names in `s` have symbols recorded in `m`.
fn stmt_symbols_ready(m: &Module, s: &Stmt) -> (r: bool)
    requires
        m.symbols.wf(),
    ensures
        r == ready_stmt(m.symbols.key_map(), m.symbols.pool@.len(), function_ids(m.symbols.pool@), *s),
    decreases s,
{
    match &s.data {
        StmtData::FunctionDefinition(f) => function_symbols_ready(m, f),
        StmtData::VariableDecl(v) => symbol_recorded(m, &v.name.span) && expr_symbols_ready(m, &v.initializer),
        StmtData::Return(r) => expr_symbols_ready(m, &r.expr),
        StmtData::Expr(e) => expr_symbols_ready(m, e),
        _ => true,
    }
}

/// Whether every name used in `stmts`, and every function and variable they define,
/// has a symbol recorded in `m` (as [`TypeChecker::run`] asks).
#[verifier::loop_isolation(false)]
pub fn stmts_symbols_ready(m: &Module, stmts: &Vec<crate::ast::StmtRef>) -> (r: bool)
    requires
        m.symbols.wf(),
    ensures
        r == ready_stmts(m.symbols.key_map(), m.symbols.pool@.len(), function_ids(m.symbols.pool@), stmts@),
    decreases stmts,
{
    let mut ok = true;
    let mut i: usize = 0;
    while i < stmts.len()
        invariant
            i <= stmts@.len(),
            ok == ready_stmts(
                m.symbols.key_map(),
                m.symbols.pool@.len(),
                function_ids(m.symbols.pool@),
                stmts@.take(i as int),
            ),
        decreases stmts@.len() - i,
    {
        proof {
            assert(decreases_to!(stmts => stmts@));
            assert(decreases_to!(stmts@ => stmts@[i as int]));
            assert(stmts@.take(i + 1).drop_last() =~= stmts@.take(i as int));
        }
        let this = stmt_symbols_ready(m, &stmts[i]);
        ok = ok && this;
        i = i + 1;
    }
    assert(stmts@.take(stmts@.len() as int) =~= stmts@);
    ok
}

/// A type always fits where the same type is expected.
pub proof fn law_coerce_identity(pool: Seq<TypeLayout>, t: int)
    ensures
        coerce_result(pool, t, t) == CoerceResult::Identity,
{
}

/// A widening is never reversible: when a value of `s` widens into `t`, a value of
/// `t` would have to shrink into `s`.
pub proof fn law_widening_reverses(pool: Seq<TypeLayout>, t: int, s: int)
    requires
        coerce_result(pool, t, s) == CoerceResult::IntegerWidening,
    ensures
        coerce_result(pool, s, t) == CoerceResult::IntegerShrinking,
{
}

/// Only a widening or the identity is accepted, so of two different types at most one
/// is accepted where the other is expected.
pub proof fn law_accepted_one_way(pool: Seq<TypeLayout>, t: int, s: int)
    requires
        t != s,
        coerce_result(pool, t, s) == CoerceResult::Identity || coerce_result(pool, t, s)
            == CoerceResult::IntegerWidening,
    ensures
        coerce_result(pool, s, t) != CoerceResult::Identity && coerce_result(pool, s, t)
            != CoerceResult::IntegerWidening,
{
}

/// A type hint names the type that diagnostics show under that same name: the type a
/// hint spelt `name` stands for is shown as `name`.
pub proof fn law_type_hint_name_round_trip(name: Seq<char>)
    requires
        scalar_type_named(name) is Some,
    ensures
        scalar_type_id(scalar_type_named(name)->0) matches Some(id) && type_text(builtin_layouts(), id as int)
            == name,
{
}

/// The name under which a built-in type other than a float is shown is a type hint for
/// that very type.
pub proof fn law_type_name_parses_back(id: int)
    requires
        0 <= id <= TYPEID_VOID,
        id != TYPEID_F32,
        id != TYPEID_F64,
    ensures
        scalar_type_named(type_text(builtin_layouts(), id)) matches Some(d) && scalar_type_id(d) == Some(
            id as usize,
        ),
{
    reveal_strlit("u8");
    reveal_strlit("u16");
    reveal_strlit("u32");
    reveal_strlit("u64");
    reveal_strlit("i8");
    reveal_strlit("i16");
    reveal_strlit("i32");
    reveal_strlit("i64");
    reveal_strlit("char");
    reveal_strlit("bool");
    reveal_strlit("string");
    reveal_strlit("void");
    assert(builtin_layouts()[id].kind == builtin_kind(id));
    let n = type_text(builtin_layouts(), id);
    if id == TYPEID_CHAR as int {
        assert(n =~= "char"@);
        assert("char"@.len() != "u8"@.len());
        assert("char"@.len() != "u16"@.len());
        assert("char"@.len() != "u32"@.len());
        assert("char"@.len() != "u64"@.len());
        assert("char"@.len() != "i8"@.len());
        assert("char"@.len() != "i16"@.len());
        assert("char"@.len() != "i32"@.len());
        assert("char"@.len() != "i64"@.len());
    } else if id == TYPEID_STRING as int {
        assert(n =~= "string"@);
        assert("string"@.len() != "u8"@.len());
        assert("string"@.len() != "u16"@.len());
        assert("string"@.len() != "u32"@.len());
        assert("string"@.len() != "u64"@.len());
        assert("string"@.len() != "i8"@.len());
        assert("string"@.len() != "i16"@.len());
        assert("string"@.len() != "i32"@.len());
        assert("string"@.len() != "i64"@.len());
        assert("string"@.len() != "char"@.len());
        assert("string"@.len() != "bool"@.len());
    } else if id == TYPEID_BOOL as int {
        assert(n =~= "bool"@);
        assert("bool"@.len() != "u8"@.len());
        assert("bool"@.len() != "u16"@.len());
        assert("bool"@.len() != "u32"@.len());
        assert("bool"@.len() != "u64"@.len());
        assert("bool"@.len() != "i8"@.len());
        assert("bool"@.len() != "i16"@.len());
        assert("bool"@.len() != "i32"@.len());
        assert("bool"@.len() != "i64"@.len());
        assert("bool"@[0] != "char"@[0]);
    } else if id == TYPEID_I8 as int {
        assert(n =~= "i8"@);
        assert("i8"@[0] != "u8"@[0]);
        assert("i8"@.len() != "u16"@.len());
        assert("i8"@.len() != "u32"@.len());
        assert("i8"@.len() != "u64"@.len());
    } else if id == TYPEID_I16 as int {
        assert(n =~= "i16"@);
        assert("i16"@.len() != "u8"@.len());
        assert("i16"@[0] != "u16"@[0]);
        assert("i16"@[0] != "u32"@[0]);
        assert("i16"@[0] != "u64"@[0]);
        assert("i16"@.len() != "i8"@.len());
    } else if id == TYPEID_I32 as int {
        assert(n =~= "i32"@);
        assert("i32"@.len() != "u8"@.len());
        assert("i32"@[0] != "u16"@[0]);
        assert("i32"@[0] != "u32"@[0]);
        assert("i32"@[0] != "u64"@[0]);
        assert("i32"@.len() != "i8"@.len());
        assert("i32"@[1] != "i16"@[1]);
    } else if id == TYPEID_I64 as int {
        assert(n =~= "i64"@);
        assert("i64"@.len() != "u8"@.len());
        assert("i64"@[0] != "u16"@[0]);
        assert("i64"@[0] != "u32"@[0]);
        assert("i64"@[0] != "u64"@[0]);
        assert("i64"@.len() != "i8"@.len());
        assert("i64"@[1] != "i16"@[1]);
        assert("i64"@[1] != "i32"@[1]);
    } else if id == TYPEID_U8 as int {
        assert(n =~= "u8"@);
    } else if id == TYPEID_U16 as int {
        assert(n =~= "u16"@);
        assert("u16"@.len() != "u8"@.len());
    } else if id == TYPEID_U32 as int {
        assert(n =~= "u32"@);
        assert("u32"@.len() != "u8"@.len());
        assert("u32"@[1] != "u16"@[1]);
    } else if id == TYPEID_U64 as int {
        assert(n =~= "u64"@);
        assert("u64"@.len() != "u8"@.len());
        assert("u64"@[1] != "u16"@[1]);
        assert("u64"@[1] != "u32"@[1]);
    } else {
        assert(n =~= "void"@);
        assert("void"@.len() != "u8"@.len());
        assert("void"@.len() != "u16"@.len());
        assert("void"@.len() != "u32"@.len());
        assert("void"@.len() != "u64"@.len());
        assert("void"@.len() != "i8"@.len());
        assert("void"@.len() != "i16"@.len());
        assert("void"@.len() != "i32"@.len());
        assert("void"@.len() != "i64"@.len());
        assert("void"@[0] != "char"@[0]);
        assert("void"@[0] != "bool"@[0]);
        assert("void"@.len() != "string"@.len());
    }
}

/// An integer type is shown as `i` (signed) or `u` (unsigned) followed by its width in
/// bits, the width that coercions compare: `i16` is sixteen bits wide and signed.
pub proof fn law_integer_name_gives_width(k: TypeKind)
    requires
        is_numeric_kind(k),
    ensures
        type_text(seq![TypeLayout { kind: k, span: None }], 0) == (if numeric_width(k).0 {
            "i"@
        } else {
            "u"@
        }) + decimal(numeric_width(k).1 as nat),
{
    reveal_strlit("i");
    reveal_strlit("u");
    reveal_strlit("u8");
    reveal_strlit("u16");
    reveal_strlit("u32");
    reveal_strlit("u64");
    reveal_strlit("i8");
    reveal_strlit("i16");
    reveal_strlit("i32");
    reveal_strlit("i64");
    reveal_with_fuel(decimal, 3);
    let (signed, w) = numeric_width(k);
    assert(type_text(seq![TypeLayout { kind: k, span: None }], 0) =~= (if signed {
        "i"@
    } else {
        "u"@
    }) + decimal(w as nat));
}

/// Every kind is the same type as itself.
pub proof fn lemma_same_kind_refl(k: TypeKind)
    ensures
        same_kind(k, k),
{
}

/// Asking for a kind twice gives the same id: after a request the kind is the first of
/// its kind in the table at the id that was returned, which is the id any later
/// request returns while the table only grows.
pub proof fn law_kind_interned(pool: Seq<TypeLayout>, k: TypeKind, r: int)
    requires
        (exists|i: int| is_first_of_kind(pool, k, i)) ==> is_first_of_kind(pool, k, r),
        !(exists|i: int| is_first_of_kind(pool, k, i)) ==> r == pool.len(),
    ensures
        ({
            let after = if exists|i: int| is_first_of_kind(pool, k, i) {
                pool
            } else {
                pool.push(TypeLayout { kind: k, span: None })
            };
            &&& is_first_of_kind(after, k, r)
            &&& forall|more: Seq<TypeLayout>| is_first_of_kind(after + more, k, r)
        }),
{
    lemma_same_kind_refl(k);
    if !(exists|i: int| is_first_of_kind(pool, k, i)) {
        let after = pool.push(TypeLayout { kind: k, span: None });
        assert forall|j: int| 0 <= j < r implies !same_kind(#[trigger] after[j].kind, k) by {
            if same_kind(after[j].kind, k) {
                lemma_first_exists(pool, k, j);
            }
        }
    }
}

/// When some type of kind `k` lies at or before `j`, a first one exists.
proof fn lemma_first_exists(pool: Seq<TypeLayout>, k: TypeKind, j: int)
    requires
        0 <= j < pool.len(),
        same_kind(pool[j].kind, k),
    ensures
        exists|i: int| is_first_of_kind(pool, k, i),
    decreases j,
{
    if exists|v: int| 0 <= v < j && same_kind(#[trigger] pool[v].kind, k) {
        let v = choose|v: int| 0 <= v < j && same_kind(#[trigger] pool[v].kind, k);
        lemma_first_exists(pool, k, v);
    } else {
        assert(is_first_of_kind(pool, k, j));
    }
}
} // verus!
