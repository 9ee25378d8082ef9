//! Functions of the intermediate representation and their instructions.

use vstd::prelude::*;

use crate::ast::BinaryOperator;
use crate::ir::value::{LocalId, ValueRef};
use crate::storage::{assoc_map, keys_unique, lemma_assoc_absent, lemma_assoc_found, lemma_assoc_update, StorageKey};
use crate::text::str_eq;

verus! {

#[derive(Debug)]
pub enum IrType {
    I8,
    I16,
    I32,
    I64,
    U8,
    Char,
    U16,
    U32,
    U64,
    Pointer,
    Unit,
    TypedPointer(Box<IrType>),
    Function { return_type: Box<IrType>, parameter_type: Vec<IrType> },
}

/// An instruction: the value it defines, if any, and what it does.
#[derive(Debug)]
pub struct Instruction(pub Option<ValueRef>, pub InstructionKind);

#[derive(Debug)]
pub enum InstructionKind {
    Alloca { type_: IrType },
    Store(ValueRef),
    LoadLocal(LocalId),
    Return(ValueRef),
    Call { callee: ValueRef, args: Vec<ValueRef> },
    Binop { op: BinaryOperator, lhs: ValueRef, rhs: ValueRef },
}

#[derive(Debug, Clone, Copy, PartialEq, Eq, Structural)]
pub enum IrCallAbi {
    C,
    System,
}

/// The values that names stand for inside a function, each name bound once.
#[derive(Debug)]
pub struct LocalStorage(pub Vec<(String, ValueRef)>);

impl LocalStorage {
    pub open spec fn wf(&self) -> bool {
        keys_unique(self.0@)
    }

    /// What each name stands for.
    pub open spec fn bindings(&self) -> Map<Seq<char>, ValueRef> {
        assoc_map(self.0@)
    }

    pub fn new() -> (r: Self)
        ensures
            r.wf(),
            r.bindings() == Map::<Seq<char>, ValueRef>::empty(),
    {
        LocalStorage(Vec::new())
    }

    /// Binds `name` to `value`, replacing an earlier binding of it.
    pub fn insert(&mut self, name: String, value: ValueRef)
        requires
            old(self).wf(),
        ensures
            final(self).wf(),
            final(self).bindings() == old(self).bindings().insert(name@, value),
    {
        let mut i: usize = 0;
        while i < self.0.len()
            invariant
                i <= self.0@.len(),
                keys_unique(self.0@),
                self.0@ == old(self).0@,
                forall|j: int| 0 <= j < i ==> self.0@[j].0@ != name@,
            decreases self.0@.len() - i,
        {
            if self.0[i].0.same_key(&name) {
                proof {
                    lemma_assoc_update(self.0@, i as int, (name, value));
                }
                let ghost before = self.0@;
                self.0.set(i, (name, value));
                assert(keys_unique(self.0@)) by {
                    assert forall|a: int, b: int|
                        0 <= a < b < self.0@.len() implies self.0@[a].0@ != self.0@[b].0@ by {
                        assert(self.0@[a].0@ == before[a].0@);
                        assert(self.0@[b].0@ == before[b].0@);
                    }
                }
                return;
            }
            i = i + 1;
        }
        proof {
            lemma_assoc_absent(self.0@, name@);
        }
        let ghost before = self.0@;
        self.0.push((name, value));
        assert(self.0@.drop_last() =~= before);
    }

    /// What `name` stands for.
    pub fn get(&self, name: &str) -> (r: Option<ValueRef>)
        requires
            self.wf(),
        ensures
            r == if self.bindings().contains_key(name@) {
                Some(self.bindings()[name@])
            } else {
                None
            },
    {
        let mut i: usize = 0;
        while i < self.0.len()
            invariant
                i <= self.0@.len(),
                keys_unique(self.0@),
                forall|j: int| 0 <= j < i ==> self.0@[j].0@ != name@,
            decreases self.0@.len() - i,
        {
            if str_eq(self.0[i].0.as_str(), name) {
                proof {
                    lemma_assoc_found(self.0@, i as int);
                }
                return Some(self.0[i].1);
            }
            i = i + 1;
        }
        proof {
            lemma_assoc_absent(self.0@, name@);
        }
        None
    }
}

#[derive(Debug)]
pub struct IrFunction {
    pub name: String,
    pub type_: IrType,
    pub local_id: usize,
    pub local_storage: LocalStorage,
    pub instructions: Vec<Instruction>,
    pub is_external: bool,
    pub abi: IrCallAbi,
}

impl IrFunction {
    pub open spec fn wf(&self) -> bool {
        self.local_storage.wf()
    }

    /// A function with no locals and no instructions yet.
    pub fn new(name: String, type_: IrType, is_external: bool, abi: IrCallAbi) -> (r: Self)
        ensures
            r.wf(),
            r.name@ == name@,
            r.type_ == type_,
            r.local_id == 0,
            r.local_storage.bindings() == Map::<Seq<char>, ValueRef>::empty(),
            r.instructions@.len() == 0,
            r.is_external == is_external,
            r.abi == abi,
    {
        IrFunction {
            name,
            type_,
            local_id: 0,
            local_storage: LocalStorage::new(),
            instructions: Vec::new(),
            is_external,
            abi,
        }
    }

    pub fn get_name(&self) -> (r: &str)
        ensures
            r@ == self.name@,
    {
        self.name.as_str()
    }

    /// Appends `instruction`, unless the function is external (it has no body).
    pub fn add_instruction(&mut self, instruction: Instruction)
        ensures
            final(self).name == old(self).name,
            final(self).type_ == old(self).type_,
            final(self).local_id == old(self).local_id,
            final(self).local_storage == old(self).local_storage,
            final(self).is_external == old(self).is_external,
            final(self).abi == old(self).abi,
            final(self).instructions@ == if old(self).is_external {
                old(self).instructions@
            } else {
                old(self).instructions@.push(instruction)
            },
    {
        if !self.is_external {
            self.instructions.push(instruction);
        }
    }
}

} // verus!
