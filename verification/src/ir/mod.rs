//! The intermediate representation: a module of global functions and constants, a
//! pool of interned values, and a builder that appends instructions to the function
//! being built.

use vstd::prelude::*;

pub mod function;
pub mod lower;
pub mod value;

use crate::ast::BinaryOperator;
use crate::ir::function::{Instruction, InstructionKind, IrCallAbi, IrFunction, IrType};
use crate::ir::value::{same_value, values_equal, LocalId, Value, ValueRef};
use crate::text::str_eq;

verus! {

#[derive(Debug, Clone, Copy, PartialEq, Eq, Structural)]
pub struct GlobalId(pub usize);

#[derive(Debug)]
pub enum GlobalValue {
    Function(IrFunction),
    Constant(String),
}

/// The function stored at position `i` of `globals`, if one is.
pub open spec fn function_at(globals: Seq<GlobalValue>, i: int) -> Option<IrFunction> {
    if 0 <= i < globals.len() {
        match globals[i] {
            GlobalValue::Function(f) => Some(f),
            _ => None,
        }
    } else {
        None
    }
}

/// The function at position `i`, if any, binds each local name once.
pub open spec fn fn_wf_at(globals: Seq<GlobalValue>, i: int) -> bool {
    function_at(globals, i) matches Some(f) ==> f.wf()
}

/// A function named `name` is stored at position `i`.
pub open spec fn function_named_at(globals: Seq<GlobalValue>, i: int, name: Seq<char>) -> bool {
    function_at(globals, i) matches Some(p) && p.name@ == name
}

/// Whether global `g` is named `name`.
pub open spec fn global_named(g: GlobalValue, name: Seq<char>) -> bool {
    match g {
        GlobalValue::Function(f) => f.name@ == name,
        GlobalValue::Constant(n) => n@ == name,
    }
}

/// Each function of `old` is, at the same position of `new`, a function of the same
/// name; `new` has at least as many globals.
pub open spec fn functions_kept(new: Seq<GlobalValue>, old: Seq<GlobalValue>) -> bool {
    &&& old.len() <= new.len()
    &&& forall|i: int|
        #![trigger function_at(old, i)]
        function_at(old, i) is Some ==> function_named_at(new, i, function_at(old, i)->0.name@)
}

/// `new` holds the values of `old` at the same positions, and possibly more after them.
pub open spec fn pool_extends(new: Seq<Value>, old: Seq<Value>) -> bool {
    old.len() <= new.len() && forall|k: int| 0 <= k < old.len() ==> #[trigger] new[k] == old[k]
}

/// Asking for `v` in pool `old` gave position `r` of pool `new`: the first value equal to
/// `v`, which was already there (and the pool stays) or is added at the end.
pub open spec fn interned(new: Seq<Value>, old: Seq<Value>, r: int, v: Value) -> bool {
    &&& 0 <= r < new.len()
    &&& same_value(new[r], v)
    &&& forall|j: int| 0 <= j < r ==> !same_value(#[trigger] new[j], v)
    &&& if exists|j: int| 0 <= j < old.len() && same_value(#[trigger] old[j], v) {
        new == old
    } else {
        r == old.len() && new == old.push(v)
    }
}

/// `f` is a function just made by `IrFunction::new` with these arguments.
pub open spec fn fresh_function(f: IrFunction, name: Seq<char>, type_: IrType, is_external: bool, abi: IrCallAbi) -> bool {
    &&& f.name@ == name
    &&& f.type_ == type_
    &&& f.is_external == is_external
    &&& f.abi == abi
    &&& f.local_id == 0
    &&& f.local_storage.bindings() == Map::<Seq<char>, ValueRef>::empty()
    &&& f.instructions@.len() == 0
}

/// The last instruction of `f` is `instruction` (when `f` is not external).
pub open spec fn ends_with(f: IrFunction, instruction: Instruction) -> bool {
    !f.is_external ==> f.instructions@.len() > 0 && f.instructions@.last() == instruction
}

/// Some global of `globals` is a function named `name`.
pub open spec fn declares(globals: Seq<GlobalValue>, name: Seq<char>) -> bool {
    exists|i: int| #[trigger] function_named_at(globals, i, name)
}

pub proof fn lemma_kept_refl(gs: Seq<GlobalValue>)
    ensures
        functions_kept(gs, gs),
{
}

pub proof fn lemma_kept_trans(a: Seq<GlobalValue>, b: Seq<GlobalValue>, c: Seq<GlobalValue>)
    requires
        functions_kept(b, a),
        functions_kept(c, b),
    ensures
        functions_kept(c, a),
{
    assert forall|i: int| #![trigger function_at(a, i)] function_at(a, i) is Some implies function_named_at(c, i, function_at(a, i)->0.name@) by {
        assert(function_named_at(b, i, function_at(a, i)->0.name@));
        assert(function_at(b, i) is Some);
    }
}

/// A function that is kept is still declared.
pub proof fn lemma_kept_declares(new: Seq<GlobalValue>, old: Seq<GlobalValue>, name: Seq<char>)
    requires
        functions_kept(new, old),
        declares(old, name),
    ensures
        declares(new, name),
{
    let i = choose|i: int| #[trigger] function_named_at(old, i, name);
    assert(function_at(old, i) is Some);
    assert(function_named_at(new, i, name));
}

/// `g` is `f` with `instruction` appended (or unchanged when `f` is external).
pub open spec fn appended(g: IrFunction, f: IrFunction, instruction: Instruction) -> bool {
    &&& g.name == f.name
    &&& g.type_ == f.type_
    &&& g.local_id == f.local_id
    &&& g.local_storage == f.local_storage
    &&& g.is_external == f.is_external
    &&& g.abi == f.abi
    &&& g.instructions@ == if f.is_external {
        f.instructions@
    } else {
        f.instructions@.push(instruction)
    }
}

/// `g` is `f` with `locals` more local slots and `added` appended to its
/// instructions (none when `f` is external); its locals' names are as in `f`.
pub open spec fn grown(g: IrFunction, f: IrFunction, locals: int, added: Seq<Instruction>) -> bool {
    &&& g.name == f.name
    &&& g.type_ == f.type_
    &&& g.is_external == f.is_external
    &&& g.abi == f.abi
    &&& g.local_id == f.local_id + locals
    &&& g.local_storage == f.local_storage
    &&& g.instructions@ == if f.is_external {
        f.instructions@
    } else {
        f.instructions@ + added
    }
}

/// `g` is `f` with `name` bound to `value` among its locals; nothing else differs.
pub open spec fn rebound(g: IrFunction, f: IrFunction, name: Seq<char>, value: ValueRef) -> bool {
    &&& g.name == f.name
    &&& g.type_ == f.type_
    &&& g.is_external == f.is_external
    &&& g.abi == f.abi
    &&& g.local_id == f.local_id
    &&& g.instructions == f.instructions
    &&& g.local_storage.bindings() == f.local_storage.bindings().insert(name, value)
}

/// `g` is `f` with one more local slot, bound to `name` as `value`, and `instruction`
/// appended to its instructions (none when `f` is external).
pub open spec fn declared(
    g: IrFunction,
    f: IrFunction,
    name: Seq<char>,
    value: ValueRef,
    instruction: Instruction,
) -> bool {
    &&& g.name == f.name
    &&& g.type_ == f.type_
    &&& g.is_external == f.is_external
    &&& g.abi == f.abi
    &&& g.local_id == f.local_id + 1
    &&& g.local_storage.bindings() == f.local_storage.bindings().insert(name, value)
    &&& g.instructions@ == if f.is_external {
        f.instructions@
    } else {
        f.instructions@.push(instruction)
    }
}

/// A module of the intermediate representation.
#[derive(Debug)]
pub struct IrModule {
    name: String,
    globals: Vec<GlobalValue>,
    value_pool: Vec<Value>,
    constant_void_value: ValueRef,
}

impl IrModule {
    pub closed spec fn spec_name(&self) -> Seq<char> {
        self.name@
    }

    pub closed spec fn globals(&self) -> Seq<GlobalValue> {
        self.globals@
    }

    pub closed spec fn pool(&self) -> Seq<Value> {
        self.value_pool@
    }

    pub closed spec fn void_value(&self) -> ValueRef {
        self.constant_void_value
    }

    /// Every function's local names are bound once, and the void value is the unit in
    /// the pool.
    pub open spec fn wf(&self) -> bool {
        &&& forall|i: int| #[trigger] fn_wf_at(self.globals(), i)
        &&& self.void_value().0 < self.pool().len()
        &&& self.pool()[self.void_value().0 as int] is Unit
    }

    /// An empty module whose value pool holds the unit value, at position 0.
    pub fn new(name: String) -> (r: Self)
        ensures
            r.wf(),
            r.spec_name() == name@,
            r.globals().len() == 0,
            r.pool().len() == 1,
            r.pool()[0] is Unit,
            r.void_value() == ValueRef(0),
    {
        IrModule {
            name,
            globals: Vec::new(),
            value_pool: vec![Value::Unit],
            constant_void_value: ValueRef(0),
        }
    }

    /// A builder over this module.
    pub fn get_builder(self) -> (r: IrBuilder)
        requires
            self.wf(),
        ensures
            r.wf(),
            r.spec_module() == self,
            r.stack().len() == 0,
    {
        IrBuilder::new(self)
    }

    pub fn get_name(&self) -> (r: &String)
        ensures
            r@ == self.spec_name(),
    {
        &self.name
    }

    pub fn get_globals(&self) -> (r: &Vec<GlobalValue>)
        ensures
            r@ == self.globals(),
    {
        &self.globals
    }

    pub fn value_pool(&self) -> (r: &[Value])
        ensures
            r@ == self.pool(),
    {
        self.value_pool.as_slice()
    }
}

/// Builds a module: holds it, and the stack of functions being built (the innermost
/// last).
#[derive(Debug)]
pub struct IrBuilder {
    module: IrModule,
    function_stack: Vec<GlobalId>,
}

impl IrBuilder {
    pub closed spec fn spec_module(&self) -> IrModule {
        self.module
    }

    pub closed spec fn stack(&self) -> Seq<GlobalId> {
        self.function_stack@
    }

    pub open spec fn wf(&self) -> bool {
        self.spec_module().wf()
    }

    /// The function being built: the global on top of the stack, when it is a function.
    pub open spec fn current_function(&self) -> Option<(int, IrFunction)> {
        if self.stack().len() > 0 {
            let i = self.stack().last().0 as int;
            match function_at(self.spec_module().globals(), i) {
                Some(f) => Some((i, f)),
                None => None,
            }
        } else {
            None
        }
    }

    /// `self` differs from `prev` in the function at `i` alone, which went from `f` to
    /// `g`.
    pub open spec fn function_replaced(&self, prev: &Self, i: int, g: IrFunction) -> bool {
        &&& self.spec_module().globals() == prev.spec_module().globals().update(
            i,
            GlobalValue::Function(g),
        )
        &&& self.spec_module().pool() == prev.spec_module().pool()
        &&& self.spec_module().void_value() == prev.spec_module().void_value()
        &&& self.spec_module().spec_name() == prev.spec_module().spec_name()
        &&& self.stack() == prev.stack()
    }

    pub fn new(module: IrModule) -> (r: Self)
        requires
            module.wf(),
        ensures
            r.wf(),
            r.spec_module() == module,
            r.stack().len() == 0,
    {
        IrBuilder { module, function_stack: Vec::new() }
    }

    /// Gives back the module.
    pub fn into_module(self) -> (r: IrModule)
        ensures
            r == self.spec_module(),
    {
        self.module
    }

    pub fn module(&self) -> (r: &IrModule)
        ensures
            *r == self.spec_module(),
    {
        &self.module
    }

    /// Starts building the function `function_id`.
    pub fn set_current_function(&mut self, function_id: GlobalId)
        ensures
            functions_kept(final(self).spec_module().globals(), old(self).spec_module().globals()),
            final(self).spec_module() == old(self).spec_module(),
            final(self).stack() == old(self).stack().push(function_id),
    {
        self.function_stack.push(function_id);
    }

    /// Stops building the innermost function and returns its id.
    pub fn pop_current_function(&mut self) -> (r: Option<GlobalId>)
        ensures
            functions_kept(final(self).spec_module().globals(), old(self).spec_module().globals()),
            final(self).spec_module() == old(self).spec_module(),
            if old(self).stack().len() > 0 {
                r == Some(old(self).stack().last()) && final(self).stack() == old(
                self).stack().drop_last()
            } else {
                r is None && final(self).stack() == old(self).stack()
            },
    {
        self.function_stack.pop()
    }

    /// No function is being built.
    pub fn is_in_global_scope(&self) -> (r: bool)
        ensures
            r == (self.stack().len() == 0),
    {
        self.function_stack.len() == 0
    }

    pub fn get_global(&self, id: GlobalId) -> (r: Option<&GlobalValue>)
        ensures
            r == if id.0 < self.spec_module().globals().len() {
                Some(&self.spec_module().globals()[id.0 as int])
            } else {
                None
            },
    {
        if id.0 < self.module.globals.len() {
            Some(&self.module.globals[id.0])
        } else {
            None
        }
    }

    /// The first global named `name`.
    pub fn find_global(&self, name: &str) -> (r: Option<GlobalId>)
        ensures
            match r {
                Some(id) => id.0 < self.spec_module().globals().len() && global_named(
                    self.spec_module().globals()[id.0 as int],
                    name@,
                ) && forall|j: int|
                    0 <= j < id.0 ==> !global_named(#[trigger] self.spec_module().globals()[j], name@),
                None => forall|j: int|
                    0 <= j < self.spec_module().globals().len() ==> !global_named(
                        #[trigger] self.spec_module().globals()[j],
                        name@,
                    ),
            },
    {
        let mut i: usize = 0;
        while i < self.module.globals.len()
            invariant
                i <= self.module.globals@.len(),
                forall|j: int| 0 <= j < i ==> !global_named(#[trigger] self.module.globals@[j], name@),
            decreases self.module.globals@.len() - i,
        {
            let found = match &self.module.globals[i] {
                GlobalValue::Constant(n) => str_eq(n.as_str(), name),
                GlobalValue::Function(function) => str_eq(function.get_name(), name),
            };
            if found {
                return Some(GlobalId(i));
            }
            i = i + 1;
        }
        None
    }

    /// The function being built.
    pub fn peek_current_function(&self) -> (r: Option<&IrFunction>)
        ensures
            match self.current_function() {
                Some((_, f)) => r == Some(&f),
                None => r is None,
            },
            self.wf() && r is Some ==> r->0.wf(),
    {
        proof {
            if self.wf() && self.current_function() is Some {
                assert(fn_wf_at(self.module.globals(), self.function_stack@.last().0 as int));
            }
        }
        let len = self.function_stack.len();
        if len == 0 {
            return None;
        }
        let id = self.function_stack[len - 1];
        if id.0 >= self.module.globals.len() {
            return None;
        }
        match &self.module.globals[id.0] {
            GlobalValue::Function(function) => Some(function),
            _ => None,
        }
    }

    /// Takes the function being built out of the module, leaving an empty constant in
    /// its place.
    fn take_current_function(&mut self) -> (r: Option<(usize, IrFunction)>)
        requires
            old(self).wf(),
        ensures
            match old(self).current_function() {
                Some((i, f)) => r matches Some(p) && p.0 == i && p.1 == f && f.wf()
                    && final(self).module.globals@.len() == old(self).module.globals@.len()
                    && forall|j: int|
                    0 <= j < old(self).module.globals@.len() && j != i ==> #[trigger] final(
                    self).module.globals@[j] == old(self).module.globals@[j],
                None => r is None && *final(self) == *old(self),
            },
            final(self).module.value_pool == old(self).module.value_pool,
            final(self).module.constant_void_value == old(self).module.constant_void_value,
            final(self).module.name == old(self).module.name,
            final(self).function_stack == old(self).function_stack,
    {
        let len = self.function_stack.len();
        if len == 0 {
            return None;
        }
        let id = self.function_stack[len - 1];
        if id.0 >= self.module.globals.len() {
            return None;
        }
        if let GlobalValue::Function(_) = &self.module.globals[id.0] {
        } else {
            return None;
        }
        proof {
            assert(fn_wf_at(self.module.globals(), id.0 as int));
        }
        let ghost before = self.module.globals@;
        let global = self.module.globals.remove(id.0);
        self.module.globals.insert(id.0, GlobalValue::Constant(String::new()));
        assert forall|j: int| 0 <= j < before.len() && j != id.0 implies #[trigger] self.module.globals@[j] == before[j] by {
        }
        match global {
            GlobalValue::Function(function) => Some((id.0, function)),
            GlobalValue::Constant(_) => None,
        }
    }

    /// Puts `function` back at position `i`.
    fn restore_function(&mut self, i: usize, function: IrFunction)
        requires
            i < old(self).module.globals@.len(),
        ensures
            final(self).module.globals@ == old(self).module.globals@.update(
                i as int,
                GlobalValue::Function(function),
            ),
            final(self).module.value_pool == old(self).module.value_pool,
            final(self).module.constant_void_value == old(self).module.constant_void_value,
            final(self).module.name == old(self).module.name,
            final(self).function_stack == old(self).function_stack,
    {
        let _ = self.module.globals.remove(i);
        self.module.globals.insert(i, GlobalValue::Function(function));
        assert(self.module.globals@ =~= old(self).module.globals@.update(
            i as int,
            GlobalValue::Function(function),
        ));
    }

    /// Appends `instruction` to the function being built; None when there is none.
    pub fn add_instruction(&mut self, instruction: Instruction) -> (r: Option<()>)
        requires
            old(self).wf(),
        ensures
            functions_kept(final(self).spec_module().globals(), old(self).spec_module().globals()),
            final(self).wf(),
            match old(self).current_function() {
                Some((i, f)) => r is Some && exists|g: IrFunction|
                    final(self).function_replaced(old(self), i, g) && appended(g, f, instruction),
                None => r is None && *final(self) == *old(self),
            },
    {
        let (i, mut function) = match self.take_current_function() {
            Some(p) => p,
            None => {
                return None;
            },
        };
        let ghost f = function;
        function.add_instruction(instruction);
        let ghost g = function;
        self.restore_function(i, function);
        proof {
            assert(appended(g, f, instruction));
            assert(self.module.globals@ =~= old(self).module.globals@.update(
                i as int,
                GlobalValue::Function(g),
            ));
            assert forall|j: int| #[trigger] fn_wf_at(self.module.globals(), j) by {
                if j != i {
                    assert(fn_wf_at(old(self).module.globals(), j));
                    assert(function_at(self.module.globals@, j) == function_at(old(self).module.globals@, j));
                }
            }
        }
        Some(())
    }

    /// The interned value equal to `value`: the first such in the pool, or `value`
    /// added at the end.
    pub fn create_or_get_value(&mut self, value: Value) -> (r: ValueRef)
        requires
            old(self).wf(),
        ensures
            functions_kept(final(self).spec_module().globals(), old(self).spec_module().globals()),
            final(self).wf(),
            final(self).spec_module().globals() == old(self).spec_module().globals(),
            final(self).spec_module().void_value() == old(self).spec_module().void_value(),
            final(self).spec_module().spec_name() == old(self).spec_module().spec_name(),
            final(self).stack() == old(self).stack(),
            r.0 < final(self).spec_module().pool().len(),
            same_value(final(self).spec_module().pool()[r.0 as int], value),
            forall|j: int| 0 <= j < r.0 ==> !same_value(#[trigger] final(self).spec_module().pool()[j], value),
            if exists|j: int|
                0 <= j < old(self).spec_module().pool().len() && same_value(
                    #[trigger] old(self).spec_module().pool()[j],
                    value,
                ) {
                final(self).spec_module().pool() == old(self).spec_module().pool()
            } else {
                r.0 == old(self).spec_module().pool().len() && final(self).spec_module().pool()
                    == old(self).spec_module().pool().push(value)
            },
    {
        let mut i: usize = 0;
        while i < self.module.value_pool.len()
            invariant
                i <= self.module.value_pool@.len(),
                *self == *old(self),
                self.wf(),
                forall|j: int| 0 <= j < i ==> !same_value(#[trigger] self.module.value_pool@[j], value),
            decreases self.module.value_pool@.len() - i,
        {
            if values_equal(&self.module.value_pool[i], &value) {
                return ValueRef(i);
            }
            i = i + 1;
        }
        let new_id = self.module.value_pool.len();
        self.module.value_pool.push(value);
        proof {
            let v = self.module.constant_void_value.0 as int;
            assert(self.module.value_pool@[v] == old(self).module.value_pool@[v]);
            assert(self.module.globals() == old(self).module.globals());
            assert forall|j: int|
                0 <= j < old(self).spec_module().pool().len() implies !same_value(
                #[trigger] old(self).spec_module().pool()[j],
                value,
            ) by {
                assert(old(self).module.value_pool@[j] == self.module.value_pool@[j]);
            }
        }
        ValueRef(new_id)
    }

    pub fn create_constant_int(&mut self, value: i64) -> (r: ValueRef)
        requires
            old(self).wf(),
        ensures
            functions_kept(final(self).spec_module().globals(), old(self).spec_module().globals()),
            final(self).wf(),
            final(self).spec_module().globals() == old(self).spec_module().globals(),
            final(self).stack() == old(self).stack(),
            r.0 < final(self).spec_module().pool().len(),
            final(self).spec_module().pool()[r.0 as int] == Value::ConstantInt(value),
            interned(
                final(self).spec_module().pool(),
                old(self).spec_module().pool(),
                r.0 as int,
                Value::ConstantInt(value),
            ),
    {
        self.create_or_get_value(Value::ConstantInt(value))
    }

    pub fn create_constant_string(&mut self, value: String) -> (r: ValueRef)
        requires
            old(self).wf(),
        ensures
            final(self).wf(),
            final(self).spec_module().globals() == old(self).spec_module().globals(),
            final(self).stack() == old(self).stack(),
            r.0 < final(self).spec_module().pool().len(),
            final(self).spec_module().pool()[r.0 as int] matches Value::ConstantString(s) && s@
                == value@,
    {
        let ghost v = value@;
        self.create_or_get_value(Value::ConstantString(value))
    }

    /// The unit value.
    pub fn create_void(&self) -> (r: ValueRef)
        ensures
            r == self.spec_module().void_value(),
    {
        self.module.constant_void_value
    }

    /// Appends a return of `value` to the function being built.
    pub fn create_ret(&mut self, value: ValueRef) -> (r: Option<()>)
        requires
            old(self).wf(),
        ensures
            functions_kept(final(self).spec_module().globals(), old(self).spec_module().globals()),
            final(self).wf(),
            match old(self).current_function() {
                Some((i, f)) => r is Some && exists|g: IrFunction|
                    final(self).function_replaced(old(self), i, g) && appended(
                        g,
                        f,
                        Instruction(None, InstructionKind::Return(value)),
                    ),
                None => r is None && *final(self) == *old(self),
            },
    {
        self.add_instruction(Instruction(None, InstructionKind::Return(value)))
    }

    /// Appends a store of `src` into `dst` to the function being built.
    pub fn create_store(&mut self, dst: ValueRef, src: ValueRef) -> (r: Option<()>)
        requires
            old(self).wf(),
        ensures
            functions_kept(final(self).spec_module().globals(), old(self).spec_module().globals()),
            final(self).wf(),
            match old(self).current_function() {
                Some((i, f)) => r is Some && exists|g: IrFunction|
                    final(self).function_replaced(old(self), i, g) && appended(
                        g,
                        f,
                        Instruction(Some(dst), InstructionKind::Store(src)),
                    ),
                None => r is None && *final(self) == *old(self),
            },
    {
        self.add_instruction(Instruction(Some(dst), InstructionKind::Store(src)))
    }

    /// The id of the first function named `name`, or of a new function added at the
    /// end when there is none.
    pub fn new_function(&mut self, name: String, type_: IrType, is_external: bool, abi: IrCallAbi) -> (r:
        GlobalId)
        requires
            old(self).wf(),
        ensures
            functions_kept(final(self).spec_module().globals(), old(self).spec_module().globals()),
            final(self).wf(),
            final(self).stack() == old(self).stack(),
            final(self).spec_module().pool() == old(self).spec_module().pool(),
            final(self).spec_module().void_value() == old(self).spec_module().void_value(),
            r.0 < final(self).spec_module().globals().len(),
            function_at(final(self).spec_module().globals(), r.0 as int) matches Some(f) && f.name@
                == name@,
            if exists|j: int|
                0 <= j < old(self).spec_module().globals().len() && #[trigger] function_named_at(
                    old(self).spec_module().globals(),
                    j,
                    name@,
                ) {
                &&& final(self).spec_module().globals() == old(self).spec_module().globals()
                &&& forall|j: int|
                    0 <= j < r.0 ==> !#[trigger] function_named_at(old(self).spec_module().globals(), j, name@)
            } else {
                &&& final(self).spec_module().globals().last() == GlobalValue::Function(
                    function_at(final(self).spec_module().globals(), r.0 as int)->0,
                )
                &&& fresh_function(
                    function_at(final(self).spec_module().globals(), r.0 as int)->0,
                    name@,
                    type_,
                    is_external,
                    abi,
                )
                &&& r.0 == old(self).spec_module().globals().len()
                &&& final(self).spec_module().globals().len() == old(
                    self).spec_module().globals().len() + 1
                &&& final(self).spec_module().globals().drop_last() == old(
                    self).spec_module().globals()
            },
    {
        let mut i: usize = 0;
        while i < self.module.globals.len()
            invariant
                i <= self.module.globals@.len(),
                *self == *old(self),
                self.wf(),
                forall|j: int| 0 <= j < i ==> !#[trigger] function_named_at(self.module.globals@, j, name@),
            decreases self.module.globals@.len() - i,
        {
            let same = match &self.module.globals[i] {
                GlobalValue::Function(prev) => str_eq(prev.get_name(), name.as_str()),
                _ => false,
            };
            if same {
                assert(function_named_at(self.module.globals@, i as int, name@));
                return GlobalId(i);
            }
            i = i + 1;
        }
        let new_function = IrFunction::new(name, type_, is_external, abi);
        self.module.globals.push(GlobalValue::Function(new_function));
        proof {
            assert(self.module.globals@.drop_last() =~= old(self).module.globals@);
            assert forall|j: int| #[trigger] fn_wf_at(self.module.globals(), j) by {
                if j < old(self).module.globals@.len() {
                    assert(fn_wf_at(old(self).module.globals(), j));
                    assert(function_at(self.module.globals@, j) == function_at(old(self).module.globals@, j));
                }
            }
        }
        GlobalId(self.module.globals.len() - 1)
    }

    /// Binds parameter name `name` to the value of parameter `index` in the function
    /// being built.  The value is interned even when no function is being built.
    pub fn add_function_parameter(&mut self, index: usize, name: String) -> (r: Option<()>)
        requires
            old(self).wf(),
        ensures
            exists|k: int|
                #[trigger] interned(
                    final(self).spec_module().pool(),
                    old(self).spec_module().pool(),
                    k,
                    Value::RefParam(index),
                ) && match old(self).current_function() {
                    Some((i, f)) => final(self).current_function() matches Some(p) && p.0 == i
                        && p.1.local_storage.bindings()[name@] == ValueRef(k as usize),
                    None => true,
                },
            pool_extends(final(self).spec_module().pool(), old(self).spec_module().pool()),
            functions_kept(final(self).spec_module().globals(), old(self).spec_module().globals()),
            final(self).wf(),
            final(self).stack() == old(self).stack(),
            final(self).spec_module().globals().len() == old(self).spec_module().globals().len(),
            r is Some <==> old(self).current_function() is Some,
            final(self).spec_module().void_value() == old(self).spec_module().void_value(),
            match old(self).current_function() {
                Some((i, f)) => final(self).current_function() matches Some(p)
                    && final(self).spec_module().globals() == old(self).spec_module().globals().update(
                    i,
                    GlobalValue::Function(p.1),
                ),
                None => true,
            },
            old(self).current_function() is None ==> final(self).spec_module().globals() == old(
                self,
            ).spec_module().globals(),
            match old(self).current_function() {
                Some((i, f)) => exists|v: ValueRef|
                    #![trigger final(self).spec_module().pool()[v.0 as int]]
                    v.0 < final(self).spec_module().pool().len() && same_value(
                        final(self).spec_module().pool()[v.0 as int],
                        Value::RefParam(index),
                    ) && (final(self).current_function() matches Some(p) && p.0 == i && rebound(
                        p.1,
                        f,
                        name@,
                        v,
                    )),
                None => true,
            },
    {
        let value = self.create_or_get_value(Value::RefParam(index));
        let ghost mid = *self;
        assert(interned(mid.spec_module().pool(), old(self).spec_module().pool(), value.0 as int, Value::RefParam(index)));
        assert(mid.current_function() == old(self).current_function());
        let (i, mut function) = match self.take_current_function() {
            Some(p) => p,
            None => {
                return None;
            },
        };
        let ghost f = function;
        let ghost nm = name@;
        function.local_storage.insert(name, value);
        let ghost g = function;
        self.restore_function(i, function);
        proof {
            assert(self.module.globals@ =~= mid.module.globals@.update(i as int, GlobalValue::Function(g)));
            assert(function_at(self.module.globals@, i as int) == Some(g));
            assert(rebound(g, f, nm, value));
            assert(self.current_function() == Some((i as int, g)));
            assert(same_value(self.spec_module().pool()[value.0 as int], Value::RefParam(index)));
            assert forall|j: int| #[trigger] fn_wf_at(self.module.globals(), j) by {
                if j != i {
                    assert(fn_wf_at(mid.module.globals(), j));
                    assert(function_at(self.module.globals@, j) == function_at(mid.module.globals@, j));
                }
            }
        }
        Some(())
    }

    /// Takes the next local slot of the function being built; None when there is no
    /// function being built (or its slots are used up).
    fn next_local_id(&mut self) -> (r: Option<usize>)
        requires
            old(self).wf(),
        ensures
            functions_kept(final(self).spec_module().globals(), old(self).spec_module().globals()),
            final(self).wf(),
            final(self).stack() == old(self).stack(),
            final(self).spec_module().pool() == old(self).spec_module().pool(),
            final(self).spec_module().void_value() == old(self).spec_module().void_value(),
            final(self).spec_module().globals().len() == old(self).spec_module().globals().len(),
            match old(self).current_function() {
                Some((i, f)) => if f.local_id < usize::MAX {
                    &&& r == Some(f.local_id)
                    &&& final(self).current_function() matches Some(p) && p.0 == i && grown(
                        p.1,
                        f,
                        1,
                        Seq::empty(),
                    )
                } else {
                    r is None && final(self).current_function() == old(self).current_function()
                },
                None => r is None && *final(self) == *old(self),
            },
    {
        let (i, mut function) = match self.take_current_function() {
            Some(p) => p,
            None => {
                return None;
            },
        };
        let ghost f = function;
        if function.local_id == usize::MAX {
            self.restore_function(i, function);
            proof {
                assert(self.module.globals@ =~= old(self).module.globals@);
            }
            return None;
        }
        let id = function.local_id;
        function.local_id = id + 1;
        let ghost g = function;
        self.restore_function(i, function);
        proof {
            assert(g.instructions@ =~= f.instructions@ + Seq::<Instruction>::empty());
            assert(function_at(self.module.globals@, i as int) == Some(g));
            assert forall|j: int| #[trigger] fn_wf_at(self.module.globals(), j) by {
                if j != i {
                    assert(fn_wf_at(old(self).module.globals(), j));
                    assert(function_at(self.module.globals@, j) == function_at(old(self).module.globals@, j));
                }
            }
        }
        Some(id)
    }

    /// Allocates a new local slot of type `irtype` in the function being built and
    /// returns its value.
    pub fn create_temporary(&mut self, irtype: IrType) -> (r: Option<ValueRef>)
        requires
            old(self).wf(),
        ensures
            (old(self).current_function() matches Some(p) && p.1.local_id == usize::MAX) ==> r is None,
            r matches Some(d) ==> final(self).spec_module().pool()[d.0 as int] is Ref,
            functions_kept(final(self).spec_module().globals(), old(self).spec_module().globals()),
            final(self).wf(),
            final(self).stack() == old(self).stack(),
            final(self).spec_module().globals().len() == old(self).spec_module().globals().len(),
            r matches Some(v) ==> v.0 < final(self).spec_module().pool().len(),
            old(self).current_function() is None ==> r is None,
            r is Some ==> final(self).current_function() is Some,
            match old(self).current_function() {
                Some((i, f)) => f.local_id < usize::MAX ==> (r matches Some(d) && same_value(
                    final(self).spec_module().pool()[d.0 as int],
                    Value::Ref(LocalId(f.local_id)),
                ) && (final(self).current_function() matches Some(p) && p.0 == i && grown(
                    p.1,
                    f,
                    1,
                    seq![Instruction(Some(d), InstructionKind::Alloca { type_: irtype })],
                ))),
                None => true,
            },
    {
        let id = match self.next_local_id() {
            Some(id) => id,
            None => {
                return None;
            },
        };
        let ghost s1 = *self;
        let dst = self.create_or_get_value(Value::Ref(LocalId(id)));
        let ghost s2 = *self;
        assert(s2.current_function() == s1.current_function());
        let ghost instr = Instruction(Some(dst), InstructionKind::Alloca { type_: irtype });
        let res = self.add_instruction(Instruction(Some(dst), InstructionKind::Alloca { type_: irtype }));
        if res.is_none() {
            return None;
        }
        proof {
            let (i, g1) = s2.current_function()->0;
            let g = choose|g: IrFunction| self.function_replaced(&s2, i, g) && appended(g, g1, instr);
            assert(function_at(self.spec_module().globals(), i) == Some(g));
            let pf = old(self).current_function()->0;
            let f = pf.1;
            assert(g.instructions@ =~= if f.is_external { f.instructions@ } else { f.instructions@ + seq![instr] });
        }
        Some(dst)
    }

    /// Allocates a new local slot named `name` of type `type_hint` in the function being
    /// built and returns its value.
    pub fn create_alloca(&mut self, name: String, type_hint: IrType) -> (r: Option<ValueRef>)
        requires
            old(self).wf(),
        ensures
            functions_kept(final(self).spec_module().globals(), old(self).spec_module().globals()),
            final(self).wf(),
            final(self).stack() == old(self).stack(),
            final(self).spec_module().globals().len() == old(self).spec_module().globals().len(),
            r matches Some(v) ==> v.0 < final(self).spec_module().pool().len(),
            old(self).current_function() is None ==> r is None && *final(self) == *old(self),
            match old(self).current_function() {
                Some((i, f)) => f.local_id < usize::MAX ==> (r matches Some(d) && same_value(
                    final(self).spec_module().pool()[d.0 as int],
                    Value::Ref(LocalId(f.local_id)),
                ) && (final(self).current_function() matches Some(p) && p.0 == i && declared(
                    p.1,
                    f,
                    name@,
                    d,
                    Instruction(Some(d), InstructionKind::Alloca { type_: type_hint }),
                ))),
                None => true,
            },
    {
        let ghost nm = name@;
        let id = match self.next_local_id() {
            Some(id) => id,
            None => {
                return None;
            },
        };
        let ghost s1 = *self;
        let dst = self.create_or_get_value(Value::Ref(LocalId(id)));
        let ghost mid = *self;
        assert(mid.current_function() == s1.current_function());
        let (i, mut function) = match self.take_current_function() {
            Some(p) => p,
            None => {
                return None;
            },
        };
        let ghost f1 = function;
        function.local_storage.insert(name, dst);
        let ghost f2 = function;
        self.restore_function(i, function);
        proof {
            assert(function_at(self.module.globals@, i as int) == Some(f2));
            assert forall|j: int| #[trigger] fn_wf_at(self.module.globals(), j) by {
                if j != i {
                    assert(fn_wf_at(mid.module.globals(), j));
                    assert(function_at(self.module.globals@, j) == function_at(mid.module.globals@, j));
                }
            }
        }
        let ghost s3 = *self;
        assert(s3.current_function() == Some((i as int, f2)));
        let ghost instr = Instruction(Some(dst), InstructionKind::Alloca { type_: type_hint });
        let res = self.add_instruction(Instruction(Some(dst), InstructionKind::Alloca { type_: type_hint }));
        if res.is_none() {
            return None;
        }
        proof {
            let g = choose|g: IrFunction| self.function_replaced(&s3, i as int, g) && appended(g, f2, instr);
            assert(function_at(self.spec_module().globals(), i as int) == Some(g));
            let pf = old(self).current_function()->0;
            let f = pf.1;
            if f.local_id < usize::MAX {
                assert(grown(f1, f, 1, Seq::empty()));
                assert(f1.instructions@ =~= f.instructions@);
                assert(declared(g, f, nm, dst, instr));
            }
        }
        Some(dst)
    }

    /// Calls `callee` with `args` into a new local slot of type `irtype`.
    pub fn create_call(&mut self, irtype: IrType, callee: ValueRef, args: Vec<ValueRef>) -> (r:
        Option<ValueRef>)
        requires
            old(self).wf(),
        ensures
            r matches Some(d) ==> (final(self).current_function() matches Some(p) && ends_with(
                p.1,
                Instruction(Some(d), InstructionKind::Call { callee, args }),
            )),
            r matches Some(d) ==> final(self).spec_module().pool()[d.0 as int] is Ref,
            functions_kept(final(self).spec_module().globals(), old(self).spec_module().globals()),
            final(self).wf(),
            final(self).stack() == old(self).stack(),
            final(self).spec_module().globals().len() == old(self).spec_module().globals().len(),
            r matches Some(v) ==> v.0 < final(self).spec_module().pool().len(),
            old(self).current_function() is None ==> r is None,
            match old(self).current_function() {
                Some((i, f)) => f.local_id < usize::MAX ==> (r matches Some(d) && same_value(
                    final(self).spec_module().pool()[d.0 as int],
                    Value::Ref(LocalId(f.local_id)),
                ) && (final(self).current_function() matches Some(p) && p.0 == i && grown(
                    p.1,
                    f,
                    1,
                    seq![
                        Instruction(Some(d), InstructionKind::Alloca { type_: irtype }),
                        Instruction(Some(d), InstructionKind::Call { callee, args }),
                    ],
                ))),
                None => true,
            },
    {
        let dst = match self.create_temporary(irtype) {
            Some(d) => d,
            None => {
                return None;
            },
        };
        let ghost s2 = *self;
        let ghost instr = Instruction(Some(dst), InstructionKind::Call { callee, args });
        let res = self.add_instruction(Instruction(Some(dst), InstructionKind::Call { callee, args }));
        if res.is_none() {
            return None;
        }
        proof {
            let (i, g1) = s2.current_function()->0;
            let g = choose|g: IrFunction| self.function_replaced(&s2, i, g) && appended(g, g1, instr);
            assert(function_at(self.spec_module().globals(), i) == Some(g));
            let pf = old(self).current_function()->0;
            let f = pf.1;
            let alloca = Instruction(Some(dst), InstructionKind::Alloca { type_: irtype });
            if f.local_id < usize::MAX {
                assert(grown(g1, f, 1, seq![alloca]));
                if !f.is_external {
                    assert(g.instructions@ == g1.instructions@.push(instr));
                    assert(g.instructions@ =~= f.instructions@ + seq![alloca, instr]);
                }
            }
        }
        Some(dst)
    }

    /// Applies `op` to `lhs` and `rhs` into a new local slot of type `irtype`.
    pub fn create_binop(&mut self, irtype: IrType, lhs: ValueRef, rhs: ValueRef, op: BinaryOperator) -> (r:
        Option<ValueRef>)
        requires
            old(self).wf(),
        ensures
            r matches Some(d) ==> (final(self).current_function() matches Some(p) && ends_with(
                p.1,
                Instruction(Some(d), InstructionKind::Binop { op, lhs, rhs }),
            )),
            r matches Some(d) ==> final(self).spec_module().pool()[d.0 as int] is Ref,
            functions_kept(final(self).spec_module().globals(), old(self).spec_module().globals()),
            final(self).wf(),
            final(self).stack() == old(self).stack(),
            final(self).spec_module().globals().len() == old(self).spec_module().globals().len(),
            r matches Some(v) ==> v.0 < final(self).spec_module().pool().len(),
            old(self).current_function() is None ==> r is None,
            match old(self).current_function() {
                Some((i, f)) => f.local_id < usize::MAX ==> (r matches Some(d) && same_value(
                    final(self).spec_module().pool()[d.0 as int],
                    Value::Ref(LocalId(f.local_id)),
                ) && (final(self).current_function() matches Some(p) && p.0 == i && grown(
                    p.1,
                    f,
                    1,
                    seq![
                        Instruction(Some(d), InstructionKind::Alloca { type_: irtype }),
                        Instruction(Some(d), InstructionKind::Binop { op, lhs, rhs }),
                    ],
                ))),
                None => true,
            },
    {
        let dst = match self.create_temporary(irtype) {
            Some(d) => d,
            None => {
                return None;
            },
        };
        let ghost s2 = *self;
        let ghost instr = Instruction(Some(dst), InstructionKind::Binop { op, lhs, rhs });
        let res = self.add_instruction(Instruction(Some(dst), InstructionKind::Binop { op, lhs, rhs }));
        if res.is_none() {
            return None;
        }
        proof {
            let (i, g1) = s2.current_function()->0;
            let g = choose|g: IrFunction| self.function_replaced(&s2, i, g) && appended(g, g1, instr);
            assert(function_at(self.spec_module().globals(), i) == Some(g));
            let pf = old(self).current_function()->0;
            let f = pf.1;
            let alloca = Instruction(Some(dst), InstructionKind::Alloca { type_: irtype });
            if f.local_id < usize::MAX {
                assert(grown(g1, f, 1, seq![alloca]));
                if !f.is_external {
                    assert(g.instructions@ == g1.instructions@.push(instr));
                    assert(g.instructions@ =~= f.instructions@ + seq![alloca, instr]);
                }
            }
        }
        Some(dst)
    }

    /// The value referring to a global: whatever `value` is, when the module has any
    /// global this refers to the first one; only in an empty module is `value` added.
    pub fn create_global(&mut self, name: String, value: GlobalValue) -> (r: Option<ValueRef>)
        requires
            old(self).wf(),
            value matches GlobalValue::Function(f) ==> f.wf(),
        ensures
            final(self).wf(),
            final(self).stack() == old(self).stack(),
            r matches Some(v) && final(self).spec_module().pool()[v.0 as int] matches Value::RefGlobal(
                g,
            ) && g.0 == 0,
            old(self).spec_module().globals().len() > 0 ==> final(self).spec_module().globals()
                == old(self).spec_module().globals(),
            old(self).spec_module().globals().len() == 0 ==> final(self).spec_module().globals()
                == seq![value],
    {
        if self.module.globals.len() > 0 {
            let r = self.create_or_get_value(Value::RefGlobal(GlobalId(0)));
            return Some(r);
        }
        let id = self.module.globals.len();
        self.module.globals.push(value);
        proof {
            assert(self.module.globals@ =~= seq![value]);
            assert forall|j: int| #[trigger] fn_wf_at(self.module.globals(), j) by {}
        }
        Some(self.create_or_get_value(Value::RefGlobal(GlobalId(id))))
    }
}


/// Interning gives one reference per value: two positions that both hold the first
/// value equal to `v` are the same position, so asking for a value again (the pool
/// only growing at its end) returns the reference given the first time.
pub proof fn law_value_interned(pool: Seq<Value>, more: Seq<Value>, v: Value, r: int, r2: int)
    requires
        0 <= r < pool.len(),
        same_value(pool[r], v),
        forall|j: int| 0 <= j < r ==> !same_value(#[trigger] pool[j], v),
        0 <= r2 < (pool + more).len(),
        same_value((pool + more)[r2], v),
        forall|j: int| 0 <= j < r2 ==> !same_value(#[trigger] (pool + more)[j], v),
    ensures
        r2 == r,
{
    if r2 < r {
        assert(!same_value(pool[r2], v));
        assert((pool + more)[r2] == pool[r2]);
    } else if r2 > r {
        assert((pool + more)[r] == pool[r]);
        assert(!same_value((pool + more)[r], v));
    }
}

/// A function name is declared once: when a function of that name is already among
/// the globals, declaring it again leaves the globals unchanged and gives the id of
/// the first one.
pub proof fn law_function_declared_once(globals: Seq<GlobalValue>, name: Seq<char>, r: int)
    requires
        exists|j: int| 0 <= j < globals.len() && #[trigger] function_named_at(globals, j, name),
        function_named_at(globals, r, name),
        forall|j: int| 0 <= j < r ==> !#[trigger] function_named_at(globals, j, name),
    ensures
        forall|r2: int|
            0 <= r2 < globals.len() && function_named_at(globals, r2, name) && (forall|j: int|
                0 <= j < r2 ==> !#[trigger] function_named_at(globals, j, name)) ==> r2 == r,
{
    assert forall|r2: int|
        0 <= r2 < globals.len() && function_named_at(globals, r2, name) && (forall|j: int|
            0 <= j < r2 ==> !#[trigger] function_named_at(globals, j, name)) implies r2 == r by {
        if r2 < r {
            assert(!function_named_at(globals, r2, name));
        } else if r2 > r {
            assert(!function_named_at(globals, r, name));
        }
    }
}
} // verus!
