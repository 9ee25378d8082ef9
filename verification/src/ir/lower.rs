//! Lowering of a checked syntax tree to the intermediate representation.

use vstd::prelude::*;

use crate::ast::{Ast, Block, Call, CallArgument, Expr, ExprData, FunctionDefinition, Stmt, StmtData, VariableDecl};
use crate::ir::function::{Instruction, InstructionKind, IrCallAbi, IrFunction, IrType};
use crate::ir::value::{same_value, Value, ValueRef};
use crate::ir::{
    declares, function_at, function_named_at, functions_kept, global_named, pool_extends, rebound, lemma_kept_declares, lemma_kept_refl, lemma_kept_trans, IrBuilder,
    IrModule,
};
use crate::layout::{TypeKind, TypeLayout};
use crate::module::Module;
use crate::type_checker::{refs_below, types_acyclic};

verus! {

/// The representation of the kinds that need no other type: the integers, `void` as
/// the unit type, `char`, and `string` as a pointer to characters.
pub open spec fn scalar_ir_type(k: TypeKind) -> Option<IrType> {
    match k {
        TypeKind::I8 => Some(IrType::I8),
        TypeKind::I16 => Some(IrType::I16),
        TypeKind::I32 => Some(IrType::I32),
        TypeKind::I64 => Some(IrType::I64),
        TypeKind::U8 => Some(IrType::U8),
        TypeKind::U16 => Some(IrType::U16),
        TypeKind::U32 => Some(IrType::U32),
        TypeKind::U64 => Some(IrType::U64),
        TypeKind::String => Some(IrType::TypedPointer(Box::new(IrType::Char))),
        TypeKind::Void => Some(IrType::Unit),
        TypeKind::Char => Some(IrType::Char),
        _ => None,
    }
}

/// The kinds that can be lowered: the scalar ones, pointers and functions.
pub open spec fn lowered_kind(k: TypeKind) -> bool {
    scalar_ir_type(k) is Some || k is Pointer || k is Function
}

/// Expressions the lowering handles: blocks, identifiers, integers, calls and binary
/// operations, with all their parts handled too.
pub open spec fn lowerable_expr(e: Expr) -> bool
    decreases e,
{
    match e.data {
        ExprData::Block(b) => lowerable_stmts(b.stmts@),
        ExprData::Identifier(_) => true,
        ExprData::Integer(_) => true,
        ExprData::Call(c) => lowerable_expr(*c.callee) && lowerable_args(c.arguments@),
        ExprData::BinaryOperation(b) => lowerable_expr(*b.left) && lowerable_expr(*b.right),
        _ => false,
    }
}

pub open spec fn lowerable_args(args: Seq<CallArgument>) -> bool
    decreases args,
{
    if args.len() == 0 {
        true
    } else {
        lowerable_args(args.drop_last()) && match args.last() {
            CallArgument::Expr(v) => lowerable_expr(*v),
            CallArgument::Assign(_, v) => lowerable_expr(*v),
        }
    }
}

/// Statements of a block the lowering handles: function definitions, variable
/// declarations and returns.
pub open spec fn lowerable_stmts(s: Seq<crate::ast::StmtRef>) -> bool
    decreases s,
{
    if s.len() == 0 {
        true
    } else {
        lowerable_stmts(s.drop_last()) && lowerable_stmt(*s.last())
    }
}

pub open spec fn lowerable_stmt(s: Stmt) -> bool
    decreases s,
{
    match s.data {
        StmtData::FunctionDefinition(f) => match f.body {
            Some(b) => lowerable_expr(*b),
            None => true,
        },
        StmtData::VariableDecl(v) => lowerable_expr(*v.initializer),
        StmtData::Return(r) => lowerable_expr(*r.expr),
        _ => false,
    }
}

/// A file the lowering handles: function definitions only, each handled.
pub open spec fn lowerable_ast(ast: Seq<crate::ast::StmtRef>) -> bool {
    &&& lowerable_stmts(ast)
    &&& forall|i: int| 0 <= i < ast.len() ==> (#[trigger] ast[i]).data is FunctionDefinition
}

/// Type `id` of `pool` has a representation: `kind_lowers` of its kind, whose parts
/// lie below `id`.
pub open spec fn id_lowers(pool: Seq<TypeLayout>, id: int) -> bool
    decreases id, 2int, 0int,
{
    0 <= id < pool.len() && kind_lowers(pool, pool[id].kind, id)
}

/// A type of kind `k`, whose parts lie below `bound` in `pool`, has a representation:
/// a kind of `scalar_ir_type`, a pointer to a type that has one, or a function whose
/// return and parameter types all have one.
pub open spec fn kind_lowers(pool: Seq<TypeLayout>, k: TypeKind, bound: int) -> bool
    decreases bound, 1int, 0int,
{
    match scalar_ir_type(k) {
        Some(_) => true,
        None => match k {
            TypeKind::Pointer(inner) => 0 <= inner.0 < bound && id_lowers(pool, inner.0 as int),
            TypeKind::Function { return_type, parameter_types, .. } => 0 <= return_type.0 < bound
                && id_lowers(pool, return_type.0 as int) && params_lower(
                pool,
                parameter_types@,
                bound,
            ),
            _ => false,
        },
    }
}

/// Each of the types `ps`, all below `bound`, has a representation.
pub open spec fn params_lower(pool: Seq<TypeLayout>, ps: Seq<crate::layout::TypeId>, bound: int) -> bool
    decreases bound, 0int, ps.len(),
{
    if ps.len() == 0 {
        true
    } else {
        &&& params_lower(pool, ps.drop_last(), bound)
        &&& 0 <= ps.last().0 < bound
        &&& id_lowers(pool, ps.last().0 as int)
    }
}

/// `t` represents type `id` of `pool`.
pub open spec fn id_lowers_to(pool: Seq<TypeLayout>, id: int, t: IrType) -> bool
    decreases id, 2int, 0int,
{
    0 <= id < pool.len() && kind_lowers_to(pool, pool[id].kind, id, t)
}

/// `t` represents a type of kind `k`, whose parts lie below `bound` in `pool`.
pub open spec fn kind_lowers_to(pool: Seq<TypeLayout>, k: TypeKind, bound: int, t: IrType) -> bool
    decreases bound, 1int, 0int,
{
    match scalar_ir_type(k) {
        Some(s) => t == s,
        None => match k {
            TypeKind::Pointer(inner) => 0 <= inner.0 < bound && match t {
                IrType::TypedPointer(b) => id_lowers_to(pool, inner.0 as int, *b),
                _ => false,
            },
            TypeKind::Function { return_type, parameter_types, .. } => 0 <= return_type.0 < bound
                && match t {
                IrType::Function { return_type: rt, parameter_type: pt } => id_lowers_to(
                    pool,
                    return_type.0 as int,
                    *rt,
                ) && params_lower_to(pool, parameter_types@, bound, pt@),
                _ => false,
            },
            _ => false,
        },
    }
}

/// `ts` represent the types `ps`, all below `bound`, one for one.
pub open spec fn params_lower_to(
    pool: Seq<TypeLayout>,
    ps: Seq<crate::layout::TypeId>,
    bound: int,
    ts: Seq<IrType>,
) -> bool
    decreases bound, 0int, ps.len(),
{
    if ps.len() == 0 {
        ts.len() == 0
    } else {
        &&& ts.len() == ps.len()
        &&& params_lower_to(pool, ps.drop_last(), bound, ts.drop_last())
        &&& 0 <= ps.last().0 < bound
        &&& id_lowers_to(pool, ps.last().0 as int, ts.last())
    }
}

/// A type is recorded at `span` in `m`, and it has a representation.
pub open spec fn lowers_at(m: Module, span: crate::span::Span) -> bool {
    m.types.key_map().contains_key(span) && id_lowers(m.types.pool@, m.types.key_map()[span] as int)
}

/// `f` has a body without statements.
pub open spec fn bare_fn(f: FunctionDefinition) -> bool {
    &&& f.body matches Some(b)
    &&& b.data matches ExprData::Block(blk)
    &&& blk.stmts@.len() == 0
}

/// `s` defines a function whose body has no statements.
pub open spec fn bare_function_def(s: Stmt) -> bool {
    s.data matches StmtData::FunctionDefinition(f) && bare_fn(f)
}

/// The name that `s` defines (empty for statements that are no function definition).
pub open spec fn fn_name(s: Stmt) -> Seq<char> {
    match s.data {
        StmtData::FunctionDefinition(f) => f.name.value@,
        _ => Seq::empty(),
    }
}

/// The span of the name that `s` defines.
pub open spec fn fn_name_span(s: Stmt) -> crate::span::Span {
    match s.data {
        StmtData::FunctionDefinition(f) => f.name.span,
        _ => crate::span::Span { start: 0, end: 0, source_id: crate::span::SourceId(0) },
    }
}

/// `g` is a function named `name`, not external, with no instructions yet.
pub open spec fn declared_empty(g: crate::ir::GlobalValue, name: Seq<char>) -> bool {
    g matches crate::ir::GlobalValue::Function(f) && f.name@ == name && !f.is_external
        && f.instructions@.len() == 0
}

/// `g` is a function named `name`, not external, whose only instruction returns `void`.
pub open spec fn lowered_bare(g: crate::ir::GlobalValue, name: Seq<char>, void: ValueRef) -> bool {
    g matches crate::ir::GlobalValue::Function(f) && f.name@ == name && !f.is_external
        && f.instructions@ == seq![Instruction(None, InstructionKind::Return(void))]
}

/// Every statement of `ast` is a function with an empty body, whose
/// recorded type has a representation, and no two of them have the same name.
pub open spec fn bare_program(m: Module, ast: Seq<crate::ast::StmtRef>) -> bool {
    &&& forall|j: int| 0 <= j < ast.len() ==> bare_function_def(*#[trigger] ast[j])
    &&& forall|j: int| 0 <= j < ast.len() ==> lowers_at(m, fn_name_span(*#[trigger] ast[j]))
    &&& forall|j: int, k: int| 0 <= j < k < ast.len() ==> fn_name(*#[trigger] ast[j]) != fn_name(*#[trigger] ast[k])
}

/// When `s` defines a function whose recorded type has a representation, a function of
/// its name is among `globals`.
pub open spec fn declared_if_lowered(m: Module, s: Stmt, globals: Seq<crate::ir::GlobalValue>) -> bool {
    match s.data {
        StmtData::FunctionDefinition(fd) => lowers_at(m, fd.name.span) ==> declares(globals, fd.name.value@),
        _ => true,
    }
}

/// The value bound to `name` among the locals of the function `b` is building, if any.
pub open spec fn local_binding(b: IrBuilder, name: Seq<char>) -> Option<ValueRef> {
    match b.current_function() {
        Some((_, f)) => if f.local_storage.bindings().contains_key(name) {
            Some(f.local_storage.bindings()[name])
        } else {
            None
        },
        None => None,
    }
}

/// Global `j` is the first of `globals` named `name`.
pub open spec fn first_global_named(globals: Seq<crate::ir::GlobalValue>, j: int, name: Seq<char>) -> bool {
    &&& 0 <= j < globals.len()
    &&& global_named(globals[j], name)
    &&& forall|k: int| 0 <= k < j ==> !global_named(#[trigger] globals[k], name)
}

/// The last instruction of `f` (when it is not external) is a binary operation `op`
/// into `d`.
pub open spec fn ends_with_binop(f: IrFunction, d: ValueRef, op: crate::ast::BinaryOperator) -> bool {
    !f.is_external ==> f.instructions@.len() > 0 && match f.instructions@.last() {
        Instruction(Some(x), InstructionKind::Binop { op: o, .. }) => x == d && o == op,
        _ => false,
    }
}

/// The value that the name `e` is bound to among the locals of the function `b` is
/// building, when `e` is a name bound there.
pub open spec fn bound_name(b: IrBuilder, e: Expr) -> Option<ValueRef> {
    match e.data {
        ExprData::Identifier(n) => local_binding(b, n@),
        _ => None,
    }
}

/// The operands of the last instruction of `f` (when it is not external), a binary
/// operation, are those of `left` and `right` in that order: a name on the left gives
/// the value it is bound to in `b`, and so does a name on the right when the left is a
/// name or an integer.
pub open spec fn binop_operands(f: IrFunction, b: IrBuilder, left: Expr, right: Expr) -> bool {
    !f.is_external ==> f.instructions@.len() > 0 && match f.instructions@.last() {
        Instruction(_, InstructionKind::Binop { lhs, rhs, .. }) => {
            &&& bound_name(b, left) is Some ==> lhs == bound_name(b, left)->0
            &&& (left.data is Identifier || left.data is Integer) && bound_name(b, right) is Some ==> rhs
                == bound_name(b, right)->0
        },
        _ => false,
    }
}

/// Every argument of `args` is positional and a name bound among the locals of the
/// function `b` is building.
pub open spec fn bound_positional(b: IrBuilder, args: Seq<CallArgument>) -> bool {
    forall|j: int|
        0 <= j < args.len() ==> (#[trigger] args[j] matches CallArgument::Expr(v) && bound_name(b, *v) is Some)
}

/// The value a positional argument that is a bound name passes.
pub open spec fn bound_argument(b: IrBuilder, a: CallArgument) -> ValueRef {
    match a {
        CallArgument::Expr(v) => bound_name(b, *v)->0,
        CallArgument::Assign(_, v) => bound_name(b, *v)->0,
    }
}

/// The last instruction of `f` (when it is not external) is a call that passes, in
/// order, the values the arguments `args` are bound to in `b`.
pub open spec fn call_arguments(f: IrFunction, b: IrBuilder, args: Seq<CallArgument>) -> bool {
    !f.is_external ==> f.instructions@.len() > 0 && match f.instructions@.last() {
        Instruction(_, InstructionKind::Call { args: a, .. }) => a@.len() == args.len() && forall|j: int|
            0 <= j < args.len() ==> a@[j] == bound_argument(b, #[trigger] args[j]),
        _ => false,
    }
}

/// The last instruction of `f` (when it is not external) is a call into `d` with `n`
/// arguments.
pub open spec fn ends_with_call(f: IrFunction, d: ValueRef, n: nat) -> bool {
    !f.is_external ==> f.instructions@.len() > 0 && match f.instructions@.last() {
        Instruction(Some(x), InstructionKind::Call { args, .. }) => x == d && args@.len() == n,
        _ => false,
    }
}

/// The last instruction of `f` (when it is not external) is a store.
pub open spec fn ends_with_store(f: IrFunction) -> bool {
    !f.is_external ==> f.instructions@.len() > 0 && f.instructions@.last().1 is Store
}

/// The last instruction of `f` (when it is not external) is a return.
pub open spec fn ends_with_return(f: IrFunction) -> bool {
    !f.is_external ==> f.instructions@.len() > 0 && f.instructions@.last().1 is Return
}

/// Global `j` of `globals` is a function that ends with a return.
pub open spec fn returns_at(globals: Seq<crate::ir::GlobalValue>, j: int) -> bool {
    function_at(globals, j) matches Some(g) && ends_with_return(g)
}

/// After lowering `f` (from globals `old` to `new`): when it has a body, the function it
/// was lowered into ends with a return; at the top level that is the first global of
/// its name, inside a function a function of its name.
pub open spec fn function_lowered(
    old: Seq<crate::ir::GlobalValue>,
    new: Seq<crate::ir::GlobalValue>,
    f: FunctionDefinition,
    is_global: bool,
) -> bool {
    f.body is Some ==> exists|fid: int|
        #[trigger] returns_at(new, fid) && (is_global ==> first_global_named(old, fid, f.name.value@))
            && (!is_global ==> function_named_at(new, fid, f.name.value@))
}

/// Some parameter of `ps` is named `name`.
pub open spec fn names_param(ps: Seq<crate::ast::FunctionParameter>, name: Seq<char>) -> bool {
    exists|j: int| 0 <= j < ps.len() && (#[trigger] ps[j]).name.value@ == name
}

/// `g` is `f` with the parameters `ps` bound in order among its locals: each name of
/// `ps` is bound, to (a value that is) the parameter at the last position with that
/// name; other names keep their bindings; nothing else differs.
pub open spec fn params_bound(
    g: IrFunction,
    f: IrFunction,
    ps: Seq<crate::ast::FunctionParameter>,
    pool: Seq<Value>,
) -> bool {
    &&& g.name == f.name
    &&& g.type_ == f.type_
    &&& g.is_external == f.is_external
    &&& g.abi == f.abi
    &&& g.local_id == f.local_id
    &&& g.instructions == f.instructions
    &&& forall|k: Seq<char>|
        !names_param(ps, k) ==> (#[trigger] g.local_storage.bindings().contains_key(k)
            == f.local_storage.bindings().contains_key(k) && (f.local_storage.bindings().contains_key(k)
            ==> g.local_storage.bindings()[k] == f.local_storage.bindings()[k]))
    &&& forall|j: int|
        0 <= j < ps.len() ==> g.local_storage.bindings().contains_key(#[trigger] ps[j].name.value@)
    &&& forall|j: int|
        0 <= j < ps.len() && (forall|k: int| j < k < ps.len() ==> ps[k].name.value@ != ps[j].name.value@)
            ==> {
            let v = g.local_storage.bindings()[#[trigger] ps[j].name.value@];
            v.0 < pool.len() && same_value(pool[v.0 as int], Value::RefParam(j as usize))
        }
}

/// When `s` defines a function, its recorded type has a representation.
pub open spec fn name_lowers(m: Module, s: Stmt) -> bool {
    match s.data {
        StmtData::FunctionDefinition(fd) => lowers_at(m, fd.name.span),
        _ => true,
    }
}

/// Binding one more parameter keeps `params_bound` for one more parameter.
proof fn lemma_params_bound_step(
    before: IrBuilder,
    after: IrBuilder,
    start: IrBuilder,
    ps: Seq<crate::ast::FunctionParameter>,
    index: int,
)
    requires
        0 <= index < ps.len(),
        match start.current_function() {
            Some((i, f)) => before.current_function() matches Some(p) && p.0 == i && params_bound(
                p.1,
                f,
                ps.take(index),
                before.spec_module().pool(),
            ),
            None => before.spec_module().globals() == start.spec_module().globals(),
        },
        before.stack() == start.stack(),
        after.stack() == before.stack(),
        pool_extends(after.spec_module().pool(), before.spec_module().pool()),
        before.current_function() is None ==> after.spec_module().globals() == before.spec_module().globals(),
        match before.current_function() {
            Some((i, f)) => exists|v: ValueRef|
                #![trigger after.spec_module().pool()[v.0 as int]]
                v.0 < after.spec_module().pool().len() && same_value(
                    after.spec_module().pool()[v.0 as int],
                    Value::RefParam(index as usize),
                ) && (after.current_function() matches Some(p) && p.0 == i && rebound(
                    p.1,
                    f,
                    ps[index].name.value@,
                    v,
                )),
            None => true,
        },
    ensures
        match start.current_function() {
            Some((i, f)) => after.current_function() matches Some(p) && p.0 == i && params_bound(
                p.1,
                f,
                ps.take(index + 1),
                after.spec_module().pool(),
            ),
            None => after.spec_module().globals() == start.spec_module().globals(),
        },
{
    if let Some((i, f)) = start.current_function() {
        let (_, g0) = before.current_function()->0;
        let v = choose|v: ValueRef|
            #![trigger after.spec_module().pool()[v.0 as int]]
            v.0 < after.spec_module().pool().len() && same_value(
                after.spec_module().pool()[v.0 as int],
                Value::RefParam(index as usize),
            ) && (after.current_function() matches Some(p) && p.0 == i && rebound(
                p.1,
                g0,
                ps[index].name.value@,
                v,
            ));
        let pa = after.current_function()->0;
        let g = pa.1;
        let old_ps = ps.take(index);
        let new_ps = ps.take(index + 1);
        let name = ps[index].name.value@;
        let pool0 = before.spec_module().pool();
        let pool1 = after.spec_module().pool();
        assert(new_ps.len() == index + 1);
        assert forall|k: Seq<char>| !names_param(new_ps, k) implies (#[trigger] g.local_storage.bindings().contains_key(k)
            == f.local_storage.bindings().contains_key(k) && (f.local_storage.bindings().contains_key(k)
            ==> g.local_storage.bindings()[k] == f.local_storage.bindings()[k])) by {
            assert(new_ps[index] == ps[index]);
            assert(k != name);
            if names_param(old_ps, k) {
                let j = choose|j: int| 0 <= j < old_ps.len() && (#[trigger] old_ps[j]).name.value@ == k;
                assert(new_ps[j] == old_ps[j]);
            }
            assert(g0.local_storage.bindings().contains_key(k) == f.local_storage.bindings().contains_key(k));
        }
        assert forall|j: int| 0 <= j < new_ps.len() implies g.local_storage.bindings().contains_key(
            #[trigger] new_ps[j].name.value@,
        ) by {
            if j < index {
                assert(new_ps[j] == old_ps[j]);
                assert(g0.local_storage.bindings().contains_key(old_ps[j].name.value@));
            }
        }
        assert forall|j: int|
            0 <= j < new_ps.len() && (forall|k: int| j < k < new_ps.len() ==> new_ps[k].name.value@
                != new_ps[j].name.value@) implies {
            let w = g.local_storage.bindings()[#[trigger] new_ps[j].name.value@];
            w.0 < pool1.len() && same_value(pool1[w.0 as int], Value::RefParam(j as usize))
        } by {
            if j < index {
                assert(new_ps[j] == old_ps[j]);
                assert(new_ps[index] == ps[index]);
                assert(new_ps[j].name.value@ != name);
                assert forall|k: int| j < k < old_ps.len() implies old_ps[k].name.value@
                    != old_ps[j].name.value@ by {
                    assert(new_ps[k] == old_ps[k]);
                }
                let w = g0.local_storage.bindings()[old_ps[j].name.value@];
                assert(w.0 < pool0.len() && same_value(pool0[w.0 as int], Value::RefParam(j as usize)));
                assert(pool1[w.0 as int] == pool0[w.0 as int]);
            } else {
                assert(new_ps[j] == ps[index]);
            }
        }
    }
}

/// Each type of a list that lowers lowers too.
pub proof fn lemma_params_lower_index(
    pool: Seq<TypeLayout>,
    ps: Seq<crate::layout::TypeId>,
    bound: int,
    j: int,
)
    requires
        params_lower(pool, ps, bound),
        0 <= j < ps.len(),
    ensures
        0 <= ps[j].0 < bound,
        id_lowers(pool, ps[j].0 as int),
    decreases ps.len(),
{
    if j < ps.len() - 1 {
        lemma_params_lower_index(pool, ps.drop_last(), bound, j);
    }
}

proof fn lemma_lowerable_stmts_index(s: Seq<crate::ast::StmtRef>, i: int)
    requires
        lowerable_stmts(s),
        0 <= i < s.len(),
    ensures
        lowerable_stmt(*s[i]),
    decreases s.len(),
{
    if i < s.len() - 1 {
        lemma_lowerable_stmts_index(s.drop_last(), i);
    }
}

proof fn lemma_lowerable_args_index(s: Seq<CallArgument>, i: int)
    requires
        lowerable_args(s),
        0 <= i < s.len(),
    ensures
        match s[i] {
            CallArgument::Expr(v) => lowerable_expr(*v),
            CallArgument::Assign(_, v) => lowerable_expr(*v),
        },
    decreases s.len(),
{
    if i < s.len() - 1 {
        lemma_lowerable_args_index(s.drop_last(), i);
    }
}

/// Lowers the syntax tree of one module, using the types the checker gave it.
pub struct IrLowerer<'a> {
    ir_module: IrModule,
    module: &'a Module,
}

impl<'a> IrLowerer<'a> {
    pub closed spec fn spec_ir_module(&self) -> IrModule {
        self.ir_module
    }

    pub closed spec fn spec_module(&self) -> Module {
        *self.module
    }

    /// The type table is acyclic and well formed.
    pub open spec fn wf(&self) -> bool {
        &&& types_acyclic(self.spec_module().types.pool@)
        &&& self.spec_module().types.wf()
        &&& self.spec_ir_module().wf()
    }

    pub fn new(ir_module: IrModule, module: &'a Module) -> (r: Self)
        requires
            types_acyclic(module.types.pool@),
            module.types.wf(),
            ir_module.wf(),
        ensures
            r.wf(),
            r.spec_ir_module() == ir_module,
            r.spec_module() == *module,
    {
        IrLowerer { ir_module, module }
    }

    /// Gives back the module built.
    pub fn into_ir_module(self) -> (r: IrModule)
        ensures
            r == self.spec_ir_module(),
    {
        self.ir_module
    }

    /// Declares every function, then lowers each.  Always succeeds.  The functions
    /// declared before stay, and each function of `ast` whose recorded type has a
    /// representation is declared under its name.
    pub fn lower_ast(&mut self, ast: Ast) -> (r: Result<(), ()>)
        requires
            old(self).wf(),
            lowerable_ast(ast@),
        ensures
            final(self).wf(),
            final(self).spec_module() == old(self).spec_module(),
            r is Ok,
            functions_kept(final(self).spec_ir_module().globals(), old(self).spec_ir_module().globals()),
            ast@.len() == 0 ==> final(self).spec_ir_module() == old(self).spec_ir_module(),
            old(self).spec_ir_module().globals().len() == 0 && bare_program(old(self).spec_module(), ast@)
                ==> {
                &&& final(self).spec_ir_module().globals().len() == ast@.len()
                &&& final(self).spec_ir_module().void_value() == old(self).spec_ir_module().void_value()
                &&& forall|j: int|
                    0 <= j < ast@.len() ==> lowered_bare(
                        #[trigger] final(self).spec_ir_module().globals()[j],
                        fn_name(*ast@[j]),
                        old(self).spec_ir_module().void_value(),
                    ) && id_lowers_to(
                        old(self).spec_module().types.pool@,
                        old(self).spec_module().types.key_map()[fn_name_span(*ast@[j])] as int,
                        final(self).spec_ir_module().globals()[j]->Function_0.type_,
                    )
            },
            forall|j: int|
                0 <= j < ast@.len() ==> declared_if_lowered(
                    old(self).spec_module(),
                    *#[trigger] ast@[j],
                    final(self).spec_ir_module().globals(),
                ),
    {
        let mut taken = IrModule::new(String::new());
        std::mem::swap(&mut taken, &mut self.ir_module);
        let mut builder = taken.get_builder();
        let ghost start = builder.spec_module().globals();
        let ghost bare = old(self).spec_ir_module().globals().len() == 0 && bare_program(old(self).spec_module(), ast@);
        proof {
            lemma_kept_refl(start);
        }
        let mut i: usize = 0;
        while i < ast.len()
            invariant
                i <= ast@.len(),
                builder.wf(),
                self.wf(),
                self.spec_module() == old(self).spec_module(),
                start == old(self).spec_ir_module().globals(),
                functions_kept(builder.spec_module().globals(), start),
                ast@.len() == 0 ==> builder.spec_module() == old(self).spec_ir_module(),
                bare == (old(self).spec_ir_module().globals().len() == 0 && bare_program(old(self).spec_module(), ast@)),
                bare ==> {
                    &&& builder.spec_module().globals().len() == i
                    &&& forall|j: int|
                        0 <= j < i ==> declared_empty(#[trigger] builder.spec_module().globals()[j], fn_name(*ast@[j]))
                            && id_lowers_to(
                            self.spec_module().types.pool@,
                            self.spec_module().types.key_map()[fn_name_span(*ast@[j])] as int,
                            builder.spec_module().globals()[j]->Function_0.type_,
                        )
                    &&& builder.spec_module().void_value() == old(self).spec_ir_module().void_value()
                    &&& builder.stack().len() == 0
                },
                forall|j: int|
                    0 <= j < i ==> declared_if_lowered(
                        self.spec_module(),
                        *#[trigger] ast@[j],
                        builder.spec_module().globals(),
                    ),
            decreases ast@.len() - i,
        {
            let ghost before = builder.spec_module().globals();
            let ghost bb = builder;
            proof {
                if bare {
                    assert(bare_function_def(*ast@[i as int]));
                    assert(lowers_at(self.spec_module(), fn_name_span(*ast@[i as int])));
                    assert forall|j: int| 0 <= j < before.len() implies !global_named(
                        #[trigger] before[j],
                        fn_name(*ast@[i as int]),
                    ) by {
                        assert(declared_empty(before[j], fn_name(*ast@[j])));
                        assert(fn_name(*ast@[j]) != fn_name(*ast@[i as int]));
                    }
                }
            }
            let _ = self.register_globals(&ast[i], &mut builder);
            proof {
                if bare {
                    assert forall|j: int| 0 <= j < i + 1 implies declared_empty(
                        #[trigger] builder.spec_module().globals()[j],
                        fn_name(*ast@[j]),
                    ) && id_lowers_to(
                        self.spec_module().types.pool@,
                        self.spec_module().types.key_map()[fn_name_span(*ast@[j])] as int,
                        builder.spec_module().globals()[j]->Function_0.type_,
                    ) by {
                        if j < i {
                            assert(builder.spec_module().globals()[j] == builder.spec_module().globals().drop_last()[j]);
                        }
                    }
                }
                let after = builder.spec_module().globals();
                lemma_kept_trans(start, before, after);
                assert forall|j: int| 0 <= j < i + 1 implies declared_if_lowered(
                    self.spec_module(),
                    *#[trigger] ast@[j],
                    after,
                ) by {
                    if j < i {
                        assert(declared_if_lowered(self.spec_module(), *ast@[j], before));
                        if let StmtData::FunctionDefinition(fd) = ast@[j].data {
                            if lowers_at(self.spec_module(), fd.name.span) {
                                lemma_kept_declares(after, before, fd.name.value@);
                            }
                        }
                    }
                }
            }
            i = i + 1;
        }
        let mut i: usize = 0;
        while i < ast.len()
            invariant
                i <= ast@.len(),
                builder.wf(),
                self.wf(),
                self.spec_module() == old(self).spec_module(),
                lowerable_ast(ast@),
                start == old(self).spec_ir_module().globals(),
                functions_kept(builder.spec_module().globals(), start),
                ast@.len() == 0 ==> builder.spec_module() == old(self).spec_ir_module(),
                bare == (old(self).spec_ir_module().globals().len() == 0 && bare_program(old(self).spec_module(), ast@)),
                bare ==> {
                    &&& builder.spec_module().globals().len() == ast@.len()
                    &&& forall|j: int|
                        0 <= j < i ==> lowered_bare(
                            #[trigger] builder.spec_module().globals()[j],
                            fn_name(*ast@[j]),
                            old(self).spec_ir_module().void_value(),
                        )
                    &&& forall|j: int|
                        i <= j < ast@.len() ==> declared_empty(#[trigger] builder.spec_module().globals()[j], fn_name(*ast@[j]))
                    &&& forall|j: int|
                        0 <= j < ast@.len() ==> id_lowers_to(
                            self.spec_module().types.pool@,
                            self.spec_module().types.key_map()[fn_name_span(*ast@[j])] as int,
                            (#[trigger] builder.spec_module().globals()[j])->Function_0.type_,
                        )
                    &&& builder.spec_module().void_value() == old(self).spec_ir_module().void_value()
                    &&& builder.stack().len() == 0
                },
                forall|j: int|
                    0 <= j < ast@.len() ==> declared_if_lowered(
                        self.spec_module(),
                        *#[trigger] ast@[j],
                        builder.spec_module().globals(),
                    ),
            decreases ast@.len() - i,
        {
            proof {
                lemma_lowerable_stmts_index(ast@, i as int);
            }
            let ghost before = builder.spec_module().globals();
            proof {
                if bare {
                    assert(bare_function_def(*ast@[i as int]));
                    assert(declared_empty(before[i as int], fn_name(*ast@[i as int])));
                    assert forall|k: int| 0 <= k < i implies !global_named(
                        #[trigger] before[k],
                        fn_name(*ast@[i as int]),
                    ) by {
                        assert(lowered_bare(before[k], fn_name(*ast@[k]), old(self).spec_ir_module().void_value()));
                        assert(fn_name(*ast@[k]) != fn_name(*ast@[i as int]));
                    }
                    assert(first_global_named(before, i as int, fn_name(*ast@[i as int])));
                }
            }
            let _ = self.lower_statement(&ast[i], &mut builder, true);
            proof {
                if bare {
                    assert forall|j: int| 0 <= j < i + 1 implies lowered_bare(
                        #[trigger] builder.spec_module().globals()[j],
                        fn_name(*ast@[j]),
                        old(self).spec_ir_module().void_value(),
                    ) by {
                        if j < i {
                            assert(builder.spec_module().globals()[j] == before[j]);
                        }
                    }
                    assert forall|j: int| i + 1 <= j < ast@.len() implies declared_empty(
                        #[trigger] builder.spec_module().globals()[j],
                        fn_name(*ast@[j]),
                    ) by {
                        assert(builder.spec_module().globals()[j] == before[j]);
                    }
                    assert forall|j: int| 0 <= j < ast@.len() implies id_lowers_to(
                        self.spec_module().types.pool@,
                        self.spec_module().types.key_map()[fn_name_span(*ast@[j])] as int,
                        (#[trigger] builder.spec_module().globals()[j])->Function_0.type_,
                    ) by {
                        if j != i {
                            assert(builder.spec_module().globals()[j] == before[j]);
                        }
                    }
                }
            }
            proof {
                let after = builder.spec_module().globals();
                lemma_kept_trans(start, before, after);
                assert forall|j: int| 0 <= j < ast@.len() implies declared_if_lowered(
                    self.spec_module(),
                    *#[trigger] ast@[j],
                    after,
                ) by {
                    assert(declared_if_lowered(self.spec_module(), *ast@[j], before));
                    if let StmtData::FunctionDefinition(fd) = ast@[j].data {
                        if lowers_at(self.spec_module(), fd.name.span) {
                            lemma_kept_declares(after, before, fd.name.value@);
                        }
                    }
                }
            }
            i = i + 1;
        }
        self.ir_module = builder.into_module();
        Ok(())
    }

    /// Whether the recorded type of every function that `ast` defines has a
    /// representation (so that lowering declares them all).
    pub fn functions_lowerable(&self, ast: &Ast) -> (r: bool)
        requires
            self.wf(),
        ensures
            r == forall|j: int| 0 <= j < ast@.len() ==> name_lowers(self.spec_module(), *#[trigger] ast@[j]),
    {
        let mut i: usize = 0;
        while i < ast.len()
            invariant
                i <= ast@.len(),
                self.wf(),
                forall|j: int| 0 <= j < i ==> name_lowers(self.spec_module(), *#[trigger] ast@[j]),
            decreases ast@.len() - i,
        {
            if let StmtData::FunctionDefinition(function) = &ast[i].data {
                if self.lower_type_at(&function.name.span).is_none() {
                    return false;
                }
            }
            i = i + 1;
        }
        true
    }

    /// Declares the function that `stmt` defines, with its type and parameter names.
    fn register_globals(&self, stmt: &Stmt, builder: &mut IrBuilder) -> (r: Option<()>)
        requires
            self.wf(),
            old(builder).wf(),
        ensures
            declared_if_lowered(self.spec_module(), *stmt, final(builder).spec_module().globals()),
            functions_kept(final(builder).spec_module().globals(), old(builder).spec_module().globals()),
            final(builder).wf(),
            bare_function_def(*stmt) && lowers_at(self.spec_module(), fn_name_span(*stmt)) && (forall|j: int|
                0 <= j < old(builder).spec_module().globals().len() ==> !global_named(
                    #[trigger] old(builder).spec_module().globals()[j],
                    fn_name(*stmt),
                )) ==> {
                &&& final(builder).spec_module().globals().drop_last() == old(builder).spec_module().globals()
                &&& final(builder).spec_module().globals().len() == old(builder).spec_module().globals().len() + 1
                &&& declared_empty(final(builder).spec_module().globals().last(), fn_name(*stmt))
                &&& id_lowers_to(
                    self.spec_module().types.pool@,
                    self.spec_module().types.key_map()[fn_name_span(*stmt)] as int,
                    final(builder).spec_module().globals().last()->Function_0.type_,
                )
                &&& final(builder).spec_module().void_value() == old(builder).spec_module().void_value()
                &&& final(builder).stack() == old(builder).stack()
            },
    {
        match &stmt.data {
            StmtData::FunctionDefinition(function) => {
                let ir_type = match self.lower_type_at(&function.name.span) {
                    Some(t) => t,
                    None => {
                        return None;
                    },
                };
                let function_id = builder.new_function(
                    function.name.value.clone(),
                    ir_type,
                    false,
                    IrCallAbi::C,
                );
                let ghost declared = builder.spec_module().globals();
                proof {
                    assert(function_named_at(declared, function_id.0 as int, function.name.value@));
                }
                builder.set_current_function(function_id);
                let ghost set = *builder;
                self.add_parameters(function, builder);
                let ghost added = *builder;
                let _ = builder.pop_current_function();
                proof {
                    lemma_kept_declares(builder.spec_module().globals(), declared, function.name.value@);
                    let fid = function_id.0 as int;
                    let p0 = set.current_function()->0;
                    let f0 = p0.1;
                    assert(set.current_function() == Some((fid, f0)));
                    let p1 = added.current_function()->0;
                    let g = p1.1;
                    assert(added.spec_module().globals() == declared.update(fid, crate::ir::GlobalValue::Function(g)));
                    assert(params_bound(g, f0, function.prototype.parameters@, added.spec_module().pool()));
                }
                Some(())
            },
            _ => Some(()),
        }
    }

    /// Binds the names of `function`'s parameters in the function being built.
    fn add_parameters(&self, function: &FunctionDefinition, builder: &mut IrBuilder)
        requires
            old(builder).wf(),
        ensures
            match old(builder).current_function() {
                Some((i, f)) => final(builder).current_function() matches Some(p) && p.0 == i
                    && params_bound(
                    p.1,
                    f,
                    function.prototype.parameters@,
                    final(builder).spec_module().pool(),
                ),
                None => final(builder).spec_module().globals() == old(builder).spec_module().globals(),
            },
            functions_kept(final(builder).spec_module().globals(), old(builder).spec_module().globals()),
            final(builder).wf(),
            final(builder).stack() == old(builder).stack(),
            final(builder).spec_module().void_value() == old(builder).spec_module().void_value(),
            match old(builder).current_function() {
                Some((i, f)) => final(builder).current_function() matches Some(p)
                    && final(builder).spec_module().globals() == old(builder).spec_module().globals().update(
                    i,
                    crate::ir::GlobalValue::Function(p.1),
                ),
                None => true,
            },
            function.prototype.parameters@.len() == 0 ==> *final(builder) == *old(builder),
    {
        let ghost start = *builder;
        proof {
            lemma_kept_refl(builder.spec_module().globals());
            let ps0 = function.prototype.parameters@.take(0);
            assert(ps0 =~= Seq::<crate::ast::FunctionParameter>::empty());
            if let Some((i, f)) = builder.current_function() {
                assert forall|k: Seq<char>| !names_param(ps0, k) implies (#[trigger] f.local_storage.bindings().contains_key(k)
                    == f.local_storage.bindings().contains_key(k)) by {}
                assert(params_bound(f, f, ps0, builder.spec_module().pool()));
                assert(builder.spec_module().globals() =~= builder.spec_module().globals().update(
                    i,
                    crate::ir::GlobalValue::Function(f),
                ));
            }
        }
        let mut index: usize = 0;
        while index < function.prototype.parameters.len()
            invariant
                functions_kept(builder.spec_module().globals(), old(builder).spec_module().globals()),
                index <= function.prototype.parameters@.len(),
                builder.wf(),
                builder.stack() == old(builder).stack(),
                match old(builder).current_function() {
                    Some((i, f)) => builder.current_function() matches Some(p) && p.0 == i
                        && params_bound(
                        p.1,
                        f,
                        function.prototype.parameters@.take(index as int),
                        builder.spec_module().pool(),
                    ),
                    None => builder.spec_module().globals() == old(builder).spec_module().globals(),
                },
                start == *old(builder),
                function.prototype.parameters@.len() == 0 ==> *builder == start,
                builder.spec_module().void_value() == old(builder).spec_module().void_value(),
                match old(builder).current_function() {
                    Some((i, f)) => builder.current_function() matches Some(p)
                        && builder.spec_module().globals() == old(builder).spec_module().globals().update(
                        i,
                        crate::ir::GlobalValue::Function(p.1),
                    ),
                    None => true,
                },
            decreases function.prototype.parameters@.len() - index,
        {
            let ghost before = *builder;
            let ghost ps = function.prototype.parameters@;
            let param_name = function.prototype.parameters[index].name.value.clone();
            let _ = builder.add_function_parameter(index, param_name);
            proof {
                lemma_params_bound_step(before, *builder, *old(builder), ps, index as int);
                if let Some((i, f)) = old(builder).current_function() {
                    let p = builder.current_function()->0;
                    assert(builder.spec_module().globals() =~= old(builder).spec_module().globals().update(
                        i,
                        crate::ir::GlobalValue::Function(p.1),
                    ));
                }
            }
            index = index + 1;
        }
        proof {
            assert(function.prototype.parameters@.take(index as int) =~= function.prototype.parameters@);
        }
    }

    /// The representation of type `id`; None for the kinds that cannot be lowered.
    fn lower_type_id(&self, id: usize) -> (r: Option<IrType>)
        requires
            self.wf(),
            id < self.spec_module().types.pool@.len(),
        ensures
            r is Some <==> id_lowers(self.spec_module().types.pool@, id as int),
            r matches Some(t) ==> id_lowers_to(self.spec_module().types.pool@, id as int, t),
            match scalar_ir_type(self.spec_module().types.pool@[id as int].kind) {
                Some(t) => r == Some(t),
                None => !lowered_kind(self.spec_module().types.pool@[id as int].kind) ==> r is None,
            },
        decreases id, 2int,
    {
        proof {
            assert(refs_below(self.module.types.pool@[id as int].kind, id as int));
        }
        self.lower_kind(&self.module.types.pool[id].kind, id)
    }

    /// The representation of a type of kind `kind` whose parts are below `bound`.
    fn lower_kind(&self, kind: &TypeKind, bound: usize) -> (r: Option<IrType>)
        requires
            self.wf(),
            bound <= self.spec_module().types.pool@.len(),
            refs_below(*kind, bound as int),
        ensures
            r is Some <==> kind_lowers(self.spec_module().types.pool@, *kind, bound as int),
            r matches Some(t) ==> kind_lowers_to(self.spec_module().types.pool@, *kind, bound as int, t),
            match scalar_ir_type(*kind) {
                Some(t) => r == Some(t),
                None => !lowered_kind(*kind) ==> r is None,
            },
            kind is Pointer && r is Some ==> r->0 is TypedPointer,
            kind is Function && r is Some ==> r->0 is Function,
        decreases bound, 1int,
    {
        match kind {
            TypeKind::I8 => Some(IrType::I8),
            TypeKind::I16 => Some(IrType::I16),
            TypeKind::I32 => Some(IrType::I32),
            TypeKind::I64 => Some(IrType::I64),
            TypeKind::U8 => Some(IrType::U8),
            TypeKind::U16 => Some(IrType::U16),
            TypeKind::U32 => Some(IrType::U32),
            TypeKind::U64 => Some(IrType::U64),
            TypeKind::String => Some(IrType::TypedPointer(Box::new(IrType::Char))),
            TypeKind::Function { return_type, parameter_types, .. } => {
                let ret = match self.lower_type_id(return_type.0) {
                    Some(t) => t,
                    None => {
                        return None;
                    },
                };
                let ghost pool = self.spec_module().types.pool@;
                assert(kind_lowers(pool, *kind, bound as int) == params_lower(
                    pool,
                    parameter_types@,
                    bound as int,
                ));
                let mut parameters: Vec<IrType> = Vec::new();
                let mut i: usize = 0;
                while i < parameter_types.len()
                    invariant
                        i <= parameter_types@.len(),
                        self.wf(),
                        pool == self.spec_module().types.pool@,
                        bound <= self.spec_module().types.pool@.len(),
                        scalar_ir_type(*kind) is None,
                        *kind is Function,
                        forall|j: int| 0 <= j < parameter_types@.len() ==> (#[trigger] parameter_types@[j]).0 < bound,
                        kind_lowers(pool, *kind, bound as int) == params_lower(
                            pool,
                            parameter_types@,
                            bound as int,
                        ),
                        params_lower(pool, parameter_types@.take(i as int), bound as int),
                        params_lower_to(pool, parameter_types@.take(i as int), bound as int, parameters@),
                    decreases parameter_types@.len() - i,
                {
                    let ghost prev = parameters@;
                    match self.lower_type_id(parameter_types[i].0) {
                        Some(t) => parameters.push(t),
                        None => {
                            proof {
                                if params_lower(pool, parameter_types@, bound as int) {
                                    lemma_params_lower_index(pool, parameter_types@, bound as int, i as int);
                                }
                            }
                            return None;
                        },
                    }
                    proof {
                        let next = parameter_types@.take(i + 1);
                        assert(next.drop_last() == parameter_types@.take(i as int));
                        assert(parameters@.drop_last() == prev);
                    }
                    i = i + 1;
                }
                proof {
                    assert(parameter_types@.take(i as int) == parameter_types@);
                }
                Some(IrType::Function { return_type: Box::new(ret), parameter_type: parameters })
            },
            TypeKind::Void => Some(IrType::Unit),
            TypeKind::Char => Some(IrType::Char),
            TypeKind::Pointer(inner) => {
                let inner = match self.lower_type_id(inner.0) {
                    Some(t) => t,
                    None => {
                        return None;
                    },
                };
                Some(IrType::TypedPointer(Box::new(inner)))
            },
            _ => None,
        }
    }

    /// The representation of the type `type_layout`, whose parts lie in the type
    /// table.  None for floating-point, `usize`/`isize`, `bool`, tuple, array,
    /// placeholder and named types, which cannot be lowered.
    pub fn lower_type(&self, type_layout: &TypeLayout) -> (r: Option<IrType>)
        requires
            self.wf(),
            refs_below(type_layout.kind, self.spec_module().types.pool@.len() as int),
        ensures
            r is Some <==> kind_lowers(
                self.spec_module().types.pool@,
                type_layout.kind,
                self.spec_module().types.pool@.len() as int,
            ),
            r matches Some(t) ==> kind_lowers_to(
                self.spec_module().types.pool@,
                type_layout.kind,
                self.spec_module().types.pool@.len() as int,
                t,
            ),
            match scalar_ir_type(type_layout.kind) {
                Some(t) => r == Some(t),
                None => !lowered_kind(type_layout.kind) ==> r is None,
            },
    {
        self.lower_kind(&type_layout.kind, self.module.types.pool.len())
    }

    /// The representation of the type recorded at `span`.
    fn lower_type_at(&self, span: &crate::span::Span) -> (r: Option<IrType>)
        requires
            self.wf(),
        ensures
            r is Some <==> lowers_at(self.spec_module(), *span),
            r matches Some(t) ==> id_lowers_to(
                self.spec_module().types.pool@,
                self.spec_module().types.key_map()[*span] as int,
                t,
            ),
    {
        match self.module.types.get_by_id_key(span) {
            Some(id) => {
                if id < self.module.types.pool.len() {
                    self.lower_type_id(id)
                } else {
                    None
                }
            },
            None => None,
        }
    }

    /// Lowers a statement: a function definition (at the top level, the function
    /// declared beforehand is completed), a variable declaration inside a function, or a
    /// return.
    pub fn lower_statement(&self, stmt: &Stmt, builder: &mut IrBuilder, is_global: bool) -> (r: Option<()>)
        requires
            self.wf(),
            old(builder).wf(),
            lowerable_stmt(*stmt),
        ensures
            r is Some ==> match stmt.data {
                StmtData::FunctionDefinition(f) => function_lowered(
                    old(builder).spec_module().globals(),
                    final(builder).spec_module().globals(),
                    f,
                    is_global,
                ),
                StmtData::VariableDecl(_) => (old(builder).current_function() matches Some(q)
                    && final(builder).current_function() matches Some(p) && p.0 == q.0
                    && ends_with_store(p.1)),
                _ => false,
            },
            stmt.data is Return ==> r is None && *final(builder) == *old(builder),
            is_global && bare_function_def(*stmt) ==> forall|fid: int|
                #[trigger] first_global_named(old(builder).spec_module().globals(), fid, fn_name(*stmt))
                    && declared_empty(old(builder).spec_module().globals()[fid], fn_name(*stmt)) ==> {
                    &&& r is Some
                    &&& final(builder).spec_module().globals().len() == old(builder).spec_module().globals().len()
                    &&& forall|j: int|
                        0 <= j < old(builder).spec_module().globals().len() && j != fid
                            ==> #[trigger] final(builder).spec_module().globals()[j]
                            == old(builder).spec_module().globals()[j]
                    &&& lowered_bare(
                        final(builder).spec_module().globals()[fid],
                        fn_name(*stmt),
                        old(builder).spec_module().void_value(),
                    )
                    &&& final(builder).spec_module().globals()[fid]->Function_0.type_
                        == old(builder).spec_module().globals()[fid]->Function_0.type_
                    &&& final(builder).spec_module().pool() == old(builder).spec_module().pool()
                    &&& final(builder).spec_module().void_value() == old(builder).spec_module().void_value()
                    &&& final(builder).stack() == old(builder).stack()
                },
            stmt.data is VariableDecl ==> (old(builder).current_function() is None ==> r is None && *final(builder) == *old(builder)),
            r is Some ==> final(builder).stack() == old(builder).stack(),
            functions_kept(final(builder).spec_module().globals(), old(builder).spec_module().globals()),
            final(builder).wf(),
        decreases stmt,
    {
        match &stmt.data {
            StmtData::FunctionDefinition(function) => self.lower_function(function, builder, is_global),
            StmtData::VariableDecl(vardecl) => self.lower_vardecl(vardecl, builder),
            StmtData::Return(_) => None,
            _ => None,
        }
    }

    /// Lowers a function: declares it (or, at the top level, finds its declaration),
    /// lowers its body into it and returns the body's value.
    fn lower_function(&self, function: &FunctionDefinition, builder: &mut IrBuilder, is_global: bool) -> (r: Option<()>)
        requires
            self.wf(),
            old(builder).wf(),
            match function.body {
                Some(b) => lowerable_expr(*b),
                None => true,
            },
        ensures
            !is_global && !lowers_at(self.spec_module(), function.name.span) ==> r is None && *final(builder) == *old(builder),
            is_global && (forall|j: int|
                0 <= j < old(builder).spec_module().globals().len() ==> !global_named(
                    #[trigger] old(builder).spec_module().globals()[j],
                    function.name.value@,
                )) ==> r is None && *final(builder) == *old(builder),
            r is Some ==> final(builder).stack() == old(builder).stack(),
            r is Some ==> function_lowered(
                old(builder).spec_module().globals(),
                final(builder).spec_module().globals(),
                *function,
                is_global,
            ),
            is_global && bare_fn(*function) ==> forall|fid: int|
                #[trigger] first_global_named(old(builder).spec_module().globals(), fid, function.name.value@)
                    && declared_empty(old(builder).spec_module().globals()[fid], function.name.value@) ==> {
                    &&& r is Some
                    &&& final(builder).spec_module().globals().len() == old(builder).spec_module().globals().len()
                    &&& forall|j: int|
                        0 <= j < old(builder).spec_module().globals().len() && j != fid
                            ==> #[trigger] final(builder).spec_module().globals()[j]
                            == old(builder).spec_module().globals()[j]
                    &&& lowered_bare(
                        final(builder).spec_module().globals()[fid],
                        function.name.value@,
                        old(builder).spec_module().void_value(),
                    )
                    &&& final(builder).spec_module().globals()[fid]->Function_0.type_
                        == old(builder).spec_module().globals()[fid]->Function_0.type_
                    &&& final(builder).spec_module().pool() == old(builder).spec_module().pool()
                    &&& final(builder).spec_module().void_value() == old(builder).spec_module().void_value()
                    &&& final(builder).stack() == old(builder).stack()
                },
            functions_kept(final(builder).spec_module().globals(), old(builder).spec_module().globals()),
            final(builder).wf(),
        decreases function,
    {
        let ghost name = function.name.value@;
        let ghost mut fid: int = 0;
        if !is_global {
            let ir_type = match self.lower_type_at(&function.name.span) {
                Some(t) => t,
                None => {
                    return None;
                },
            };
            let function_id = builder.new_function(
                function.name.value.clone(),
                ir_type,
                false,
                IrCallAbi::C,
            );
            proof {
                fid = function_id.0 as int;
                assert(function_named_at(builder.spec_module().globals(), fid, name));
            }
            builder.set_current_function(function_id);
            let ghost b_set = *builder;
            self.add_parameters(function, builder);
            proof {
                assert(function_at(b_set.spec_module().globals(), fid) is Some);
                assert(function_named_at(builder.spec_module().globals(), fid, name));
            }
        } else {
            let function_id = match builder.find_global(function.name.value.as_str()) {
                Some(id) => id,
                None => {
                    return None;
                },
            };
            proof {
                fid = function_id.0 as int;
                assert(first_global_named(old(builder).spec_module().globals(), fid, name));
            }
            builder.set_current_function(function_id);
        }
        let ghost b1 = *builder;
        assert(b1.stack() == old(builder).stack().push(crate::ir::GlobalId(fid as usize)));
        if let Some(body) = &function.body {
            let value = match self.lower_expression(body, builder) {
                Some(v) => v,
                None => {
                    return None;
                },
            };
            let ghost b2 = *builder;
            if builder.create_ret(value).is_none() {
                return None;
            }
            proof {
                let p2 = b2.current_function()->0;
                let f2 = p2.1;
                assert(p2.0 == fid);
                let instr = Instruction(None, InstructionKind::Return(value));
                let g = choose|g: IrFunction| builder.function_replaced(&b2, fid, g) && crate::ir::appended(g, f2, instr);
                assert(function_at(builder.spec_module().globals(), fid) == Some(g));
                assert(returns_at(builder.spec_module().globals(), fid));
                if is_global && bare_fn(*function) && declared_empty(old(builder).spec_module().globals()[fid], name) {
                    assert(b2 == b1);
                    assert(value == old(builder).spec_module().void_value());
                    assert(f2.instructions@.len() == 0);
                    assert(g.instructions@ =~= seq![instr]);
                    assert(lowered_bare(builder.spec_module().globals()[fid], name, old(builder).spec_module().void_value()));
                }
                if !is_global {
                    assert(function_at(b1.spec_module().globals(), fid) is Some);
                    assert(function_named_at(b2.spec_module().globals(), fid, name));
                    assert(function_named_at(builder.spec_module().globals(), fid, name));
                }
            }
        }
        let ghost b3 = *builder;
        let _ = builder.pop_current_function();
        proof {
            if is_global && bare_fn(*function) {
                assert forall|fid2: int|
                    #[trigger] first_global_named(old(builder).spec_module().globals(), fid2, name)
                        implies fid2 == fid by {
                    if fid2 < fid {
                        assert(global_named(old(builder).spec_module().globals()[fid2], name));
                    }
                    if fid < fid2 {
                        assert(global_named(old(builder).spec_module().globals()[fid], name));
                    }
                }
            }
            assert(builder.spec_module() == b3.spec_module());
            if function.body is Some {
                assert(returns_at(builder.spec_module().globals(), fid));
            }
            assert(function_lowered(
                old(builder).spec_module().globals(),
                builder.spec_module().globals(),
                *function,
                is_global,
            ));
        }
        Some(())
    }

    /// Lowers a variable declaration inside a function: a local slot, then a store of
    /// the initializer into it.
    fn lower_vardecl(&self, vardecl: &VariableDecl, builder: &mut IrBuilder) -> (r: Option<()>)
        requires
            self.wf(),
            old(builder).wf(),
            lowerable_expr(*vardecl.initializer),
        ensures
            r is Some ==> (old(builder).current_function() matches Some(q)
                && final(builder).current_function() matches Some(p) && p.0 == q.0
                && ends_with_store(p.1)),
            old(builder).current_function() is None ==> r is None && *final(builder) == *old(builder),
            !lowers_at(self.spec_module(), vardecl.name.span) ==> r is None && *final(builder) == *old(builder),
            r is Some ==> final(builder).stack() == old(builder).stack(),
            functions_kept(final(builder).spec_module().globals(), old(builder).spec_module().globals()),
            final(builder).wf(),
        decreases vardecl,
    {
        if builder.is_in_global_scope() {
            return None;
        }
        let var_ir_type = match self.lower_type_at(&vardecl.name.span) {
            Some(t) => t,
            None => {
                return None;
            },
        };
        let var_ref = match builder.create_alloca(vardecl.name.value.clone(), var_ir_type) {
            Some(v) => v,
            None => {
                return None;
            },
        };
        let ghost b1 = *builder;
        let initializer = match self.lower_expression(&vardecl.initializer, builder) {
            Some(v) => v,
            None => {
                return None;
            },
        };
        let ghost b2 = *builder;
        proof {
            let q = b1.current_function()->0;
            let i = q.0;
            assert(function_at(b1.spec_module().globals(), i) is Some);
            assert(function_at(b2.spec_module().globals(), i) is Some);
            assert(b2.current_function() is Some);
        }
        let _ = builder.create_store(var_ref, initializer);
        proof {
            let (i, f2) = b2.current_function()->0;
            let instr = Instruction(Some(var_ref), InstructionKind::Store(initializer));
            let g = choose|g: IrFunction| builder.function_replaced(&b2, i, g) && crate::ir::appended(g, f2, instr);
            assert(function_at(builder.spec_module().globals(), i) == Some(g));
            assert(builder.current_function() == Some((i, g)));
        }
        Some(())
    }

    /// Lowers an expression to the value holding its result.
    pub fn lower_expression(&self, expr: &Expr, builder: &mut IrBuilder) -> (r: Option<ValueRef>)
        requires
            self.wf(),
            old(builder).wf(),
            lowerable_expr(*expr),
        ensures
            r is Some ==> final(builder).stack() == old(builder).stack(),
            functions_kept(final(builder).spec_module().globals(), old(builder).spec_module().globals()),
            final(builder).wf(),
            expr.data matches ExprData::Integer(v) ==> (r matches Some(x)
                && final(builder).spec_module().pool()[x.0 as int] == Value::ConstantInt(v)),
            (expr.data matches ExprData::Block(b) && b.stmts@.len() == 0) ==> r == Some(
                old(builder).spec_module().void_value(),
            ) && *final(builder) == *old(builder),
            bound_name(*old(builder), *expr) is Some ==> r == bound_name(*old(builder), *expr)
                && *final(builder) == *old(builder),
            (expr.data is Identifier || expr.data is Integer) && r is Some
                ==> final(builder).spec_module().globals() == old(builder).spec_module().globals()
                && final(builder).stack() == old(builder).stack(),
        decreases expr,
    {
        match &expr.data {
            ExprData::Block(block) => self.lower_block(block, builder),
            ExprData::Identifier(name) => self.lower_identifier(name, builder),
            ExprData::Integer(value) => Some(builder.create_constant_int(*value)),
            ExprData::Call(call) => self.lower_call(expr.span, call, builder),
            ExprData::BinaryOperation(binop) => self.lower_binop(expr.span, binop, builder),
            _ => None,
        }
    }

    /// Lowers the statements of a block; the block's value is the unit.  A `return`
    /// ends the block, and then there is no value.
    fn lower_block(&self, block: &Block, builder: &mut IrBuilder) -> (r: Option<ValueRef>)
        requires
            self.wf(),
            old(builder).wf(),
            lowerable_stmts(block.stmts@),
        ensures
            r matches Some(v) ==> v == final(builder).spec_module().void_value() && forall|j: int|
                0 <= j < block.stmts@.len() ==> !((#[trigger] block.stmts@[j]).data is Return),
            block.stmts@.len() == 0 ==> r == Some(old(builder).spec_module().void_value()) && *final(builder) == *old(builder),
            r is Some ==> final(builder).stack() == old(builder).stack(),
            functions_kept(final(builder).spec_module().globals(), old(builder).spec_module().globals()),
            final(builder).wf(),
        decreases block,
    {
        proof {
            lemma_kept_refl(builder.spec_module().globals());
        }
        let mut i: usize = 0;
        while i < block.stmts.len()
            invariant
                functions_kept(builder.spec_module().globals(), old(builder).spec_module().globals()),
                i <= block.stmts@.len(),
                self.wf(),
                builder.wf(),
                lowerable_stmts(block.stmts@),
                i == 0 ==> *builder == *old(builder),
                builder.stack() == old(builder).stack(),
                forall|j: int| 0 <= j < i ==> !((#[trigger] block.stmts@[j]).data is Return),
            decreases block.stmts@.len() - i,
        {
            proof {
                lemma_lowerable_stmts_index(block.stmts@, i as int);
                assert(decreases_to!(block => block.stmts));
                assert(decreases_to!(block.stmts => block.stmts@));
                assert(decreases_to!(block.stmts@ => block.stmts@[i as int]));
            }
            let stmt = &block.stmts[i];
            match &stmt.data {
                StmtData::Return(ret) => {
                    let ret_val = match self.lower_expression(&ret.expr, builder) {
                        Some(v) => v,
                        None => {
                            return None;
                        },
                    };
                    let _ = builder.create_ret(ret_val);
                    return None;
                },
                _ => {
                    if self.lower_statement(stmt, builder, false).is_none() {
                        return None;
                    }
                },
            }
            i = i + 1;
        }
        Some(builder.create_void())
    }

    /// The value a name stands for: a local of the function being built, else the
    /// first global of that name.
    fn lower_identifier(&self, name: &String, builder: &mut IrBuilder) -> (r: Option<ValueRef>)
        requires
            old(builder).wf(),
        ensures
            local_binding(*old(builder), name@) matches Some(v) ==> r == Some(v) && *final(builder) == *old(builder),
            local_binding(*old(builder), name@) is None ==> (r is Some <==> exists|j: int|
                first_global_named(old(builder).spec_module().globals(), j, name@)),
            local_binding(*old(builder), name@) is None ==> (r is None ==> *final(builder) == *old(builder)),
            local_binding(*old(builder), name@) is None ==> (r matches Some(v) ==> exists|j: int|
                first_global_named(old(builder).spec_module().globals(), j, name@) && same_value(
                    final(builder).spec_module().pool()[v.0 as int],
                    Value::RefGlobal(crate::ir::GlobalId(j as usize)),
                )),
            r is Some ==> final(builder).stack() == old(builder).stack() && final(builder).spec_module().globals() == old(builder).spec_module().globals(),
            functions_kept(final(builder).spec_module().globals(), old(builder).spec_module().globals()),
            final(builder).wf(),
    {
        match builder.peek_current_function() {
            Some(function) => {
                if let Some(v) = function.local_storage.get(name.as_str()) {
                    return Some(v);
                }
            },
            None => {},
        }
        let idx = match builder.find_global(name.as_str()) {
            Some(id) => id,
            None => {
                return None;
            },
        };
        proof {
            assert(first_global_named(old(builder).spec_module().globals(), idx.0 as int, name@));
        }
        Some(builder.create_or_get_value(Value::RefGlobal(idx)))
    }

    /// Lowers a call: the callee, then the arguments in order (a named argument goes to
    /// the position recorded with the first parameter name), into a call instruction.
    fn lower_call(&self, span: crate::span::Span, call: &Call, builder: &mut IrBuilder) -> (r: Option<ValueRef>)
        requires
            self.wf(),
            old(builder).wf(),
            lowerable_expr(*call.callee),
            lowerable_args(call.arguments@),
        ensures
            r matches Some(d) ==> (final(builder).current_function() matches Some(p) && ends_with_call(
                p.1,
                d,
                call.arguments@.len(),
            )),
            !lowers_at(self.spec_module(), span) ==> r is None && *final(builder) == *old(builder),
            r matches Some(d) ==> d.0 < final(builder).spec_module().pool().len()
                && final(builder).spec_module().pool()[d.0 as int] is Ref && final(builder).stack() == old(builder).stack(),
            r is Some && call.callee.data is Identifier && bound_positional(*old(builder), call.arguments@)
                ==> (final(builder).current_function() matches Some(p) && call_arguments(
                p.1,
                *old(builder),
                call.arguments@,
            )),
            functions_kept(final(builder).spec_module().globals(), old(builder).spec_module().globals()),
            final(builder).wf(),
        decreases call,
    {
        let ir_type = match self.lower_type_at(&span) {
            Some(t) => t,
            None => {
                return None;
            },
        };
        let callee = match self.lower_expression(&call.callee, builder) {
            Some(v) => v,
            None => {
                return None;
            },
        };
        let callee_type_id = match self.module.types.get_by_id_key(&call.callee.span) {
            Some(id) => id,
            None => {
                return None;
            },
        };
        if callee_type_id >= self.module.types.pool.len() {
            return None;
        }
        let first_param_index: Option<usize> = match &self.module.types.pool[callee_type_id].kind {
            TypeKind::Function { parameter_names, .. } => {
                if parameter_names.len() > 0 {
                    Some(parameter_names[0].1)
                } else {
                    None
                }
            },
            _ => {
                return None;
            },
        };
        proof {
            lemma_kept_refl(builder.spec_module().globals());
        }
        let ghost bound = call.callee.data is Identifier && bound_positional(*old(builder), call.arguments@);
        let ghost b1 = *builder;
        let mut arguments: Vec<ValueRef> = Vec::new();
        let mut i: usize = 0;
        while i < call.arguments.len()
            invariant
                bound == (call.callee.data is Identifier && bound_positional(*old(builder), call.arguments@)),
                bound ==> b1.spec_module().globals() == old(builder).spec_module().globals() && b1.stack()
                    == old(builder).stack(),
                bound ==> *builder == b1,
                bound ==> forall|j: int|
                    0 <= j < i ==> arguments@[j] == bound_argument(*old(builder), #[trigger] call.arguments@[j]),
                functions_kept(builder.spec_module().globals(), old(builder).spec_module().globals()),
                i <= call.arguments@.len(),
                self.wf(),
                builder.wf(),
                lowerable_args(call.arguments@),
                lowers_at(self.spec_module(), span),
                builder.stack() == old(builder).stack(),
                arguments@.len() == i,
            decreases call.arguments@.len() - i,
        {
            proof {
                lemma_lowerable_args_index(call.arguments@, i as int);
                assert(decreases_to!(call => call.arguments));
                assert(decreases_to!(call.arguments => call.arguments@));
                assert(decreases_to!(call.arguments@ => call.arguments@[i as int]));
            }
            match &call.arguments[i] {
                CallArgument::Assign(_name, value) => {
                    let value_ref = match self.lower_expression(value, builder) {
                        Some(v) => v,
                        None => {
                            return None;
                        },
                    };
                    match first_param_index {
                        Some(idx) => {
                            if idx <= arguments.len() {
                                arguments.insert(idx, value_ref);
                            } else {
                                return None;
                            }
                        },
                        None => {
                            return None;
                        },
                    }
                },
                CallArgument::Expr(value) => {
                    proof {
                        if bound {
                            assert(call.arguments@[i as int] matches CallArgument::Expr(v) && bound_name(
                                *old(builder),
                                *v,
                            ) is Some);
                            assert(b1.current_function() == old(builder).current_function());
                        }
                    }
                    let value_ref = match self.lower_expression(value, builder) {
                        Some(v) => v,
                        None => {
                            return None;
                        },
                    };
                    arguments.push(value_ref);
                },
            }
            i = i + 1;
        }
        builder.create_call(ir_type, callee, arguments)
    }

    /// Lowers a binary operation into an instruction of the type recorded for it.
    fn lower_binop(&self, span: crate::span::Span, binop: &crate::ast::BinaryOperation, builder: &mut IrBuilder) -> (r: Option<ValueRef>)
        requires
            self.wf(),
            old(builder).wf(),
            lowerable_expr(*binop.left),
            lowerable_expr(*binop.right),
        ensures
            r matches Some(d) ==> (final(builder).current_function() matches Some(p) && ends_with_binop(
                p.1,
                d,
                binop.operator,
            )),
            r is Some ==> (final(builder).current_function() matches Some(p) && binop_operands(
                p.1,
                *old(builder),
                *binop.left,
                *binop.right,
            )),
            !lowers_at(self.spec_module(), span) ==> r is None && *final(builder) == *old(builder),
            r matches Some(d) ==> d.0 < final(builder).spec_module().pool().len()
                && final(builder).spec_module().pool()[d.0 as int] is Ref && final(builder).stack() == old(builder).stack(),
            functions_kept(final(builder).spec_module().globals(), old(builder).spec_module().globals()),
            final(builder).wf(),
        decreases binop,
    {
        let ir_type = match self.lower_type_at(&span) {
            Some(t) => t,
            None => {
                return None;
            },
        };
        let ghost b0 = *builder;
        let lhs = match self.lower_expression(&binop.left, builder) {
            Some(v) => v,
            None => {
                return None;
            },
        };
        let ghost b1 = *builder;
        proof {
            if binop.left.data is Identifier || binop.left.data is Integer {
                assert(b1.current_function() == b0.current_function());
                assert(bound_name(b1, *binop.right) == bound_name(b0, *binop.right));
            }
        }
        let rhs = match self.lower_expression(&binop.right, builder) {
            Some(v) => v,
            None => {
                return None;
            },
        };
        builder.create_binop(ir_type, lhs, rhs, binop.operator)
    }
}


/// Whether the lowering handles `e`.
#[verifier::loop_isolation(false)]
pub fn expr_lowerable(e: &Expr) -> (r: bool)
    ensures
        r == lowerable_expr(*e),
    decreases e,
{
    match &e.data {
        ExprData::Block(b) => stmts_lowerable(&b.stmts),
        ExprData::Identifier(_) => true,
        ExprData::Integer(_) => true,
        ExprData::Call(c) => {
            if !expr_lowerable(&c.callee) {
                return false;
            }
            let mut ok = true;
            let mut i: usize = 0;
            while i < c.arguments.len()
                invariant
                    i <= c.arguments@.len(),
                    ok == lowerable_args(c.arguments@.take(i as int)),
                decreases c.arguments@.len() - i,
            {
                proof {
                    assert(decreases_to!(c.arguments => c.arguments@));
                    assert(decreases_to!(c.arguments@ => c.arguments@[i as int]));
                    assert(c.arguments@.take(i + 1).drop_last() =~= c.arguments@.take(i as int));
                }
                let this = match &c.arguments[i] {
                    CallArgument::Expr(v) => expr_lowerable(v),
                    CallArgument::Assign(_, v) => expr_lowerable(v),
                };
                ok = ok && this;
                i = i + 1;
            }
            assert(c.arguments@.take(c.arguments@.len() as int) =~= c.arguments@);
            ok
        },
        ExprData::BinaryOperation(b) => expr_lowerable(&b.left) && expr_lowerable(&b.right),
        _ => false,
    }
}

/// Whether the lowering handles `s` inside a block.
pub fn stmt_lowerable(s: &Stmt) -> (r: bool)
    ensures
        r == lowerable_stmt(*s),
    decreases s,
{
    match &s.data {
        StmtData::FunctionDefinition(f) => match &f.body {
            Some(b) => expr_lowerable(b),
            None => true,
        },
        StmtData::VariableDecl(v) => expr_lowerable(&v.initializer),
        StmtData::Return(r) => expr_lowerable(&r.expr),
        _ => false,
    }
}

/// Whether the lowering handles every statement of `stmts`.
#[verifier::loop_isolation(false)]
pub fn stmts_lowerable(stmts: &Vec<crate::ast::StmtRef>) -> (r: bool)
    ensures
        r == lowerable_stmts(stmts@),
    decreases stmts,
{
    let mut ok = true;
    let mut i: usize = 0;
    while i < stmts.len()
        invariant
            i <= stmts@.len(),
            ok == lowerable_stmts(stmts@.take(i as int)),
        decreases stmts@.len() - i,
    {
        proof {
            assert(decreases_to!(stmts => stmts@));
            assert(decreases_to!(stmts@ => stmts@[i as int]));
            assert(stmts@.take(i + 1).drop_last() =~= stmts@.take(i as int));
        }
        let this = stmt_lowerable(&stmts[i]);
        ok = ok && this;
        i = i + 1;
    }
    assert(stmts@.take(stmts@.len() as int) =~= stmts@);
    ok
}

/// Whether [`IrLowerer::lower_ast`] handles `ast`.
pub fn ast_lowerable(ast: &Ast) -> (r: bool)
    ensures
        r == lowerable_ast(ast@),
{
    let mut i: usize = 0;
    while i < ast.len()
        invariant
            i <= ast@.len(),
            forall|j: int| 0 <= j < i ==> (#[trigger] ast@[j]).data is FunctionDefinition,
        decreases ast@.len() - i,
    {
        if let StmtData::FunctionDefinition(_) = &ast[i].data {
        } else {
            return false;
        }
        i = i + 1;
    }
    stmts_lowerable(ast)
}
} // verus!
