//! The symbol, scope and type tables of one module.

use vstd::prelude::*;

use crate::layout::TypeStorage;
use crate::scope::{Scope, ScopeFlag, ScopeStorage};
use crate::storage::Storage;
use crate::symbol::{SymbolId, SymbolStorage};

verus! {

/// Modules by name.
pub type ModuleMap = Storage<String, Module>;

#[derive(Debug)]
pub struct Module {
    pub exports: Vec<SymbolId>,
    pub symbols: SymbolStorage,
    pub scopes: ScopeStorage,
    pub types: TypeStorage,
}

impl Module {
    /// An empty module whose only scope is the global one, with id 0.
    pub fn new() -> (r: Self)
        ensures
            r.symbols.wf(),
            r.scopes.wf(),
            r.types.wf(),
            r.symbols.pool@.len() == 0,
            r.types.pool@.len() == 0,
            r.exports@.len() == 0,
            r.scopes.pool@.len() == 1,
            r.scopes.pool@[0].parent is None,
            r.scopes.pool@[0].flag == ScopeFlag::Global,
            r.scopes.pool@[0].wf(),
            r.scopes.pool@[0].bindings() == Map::<Seq<char>, SymbolId>::empty(),
            r.symbols.key_map() == Map::<crate::span::Span, usize>::empty(),
            r.scopes.key_map() == Map::<crate::span::Span, usize>::empty(),
            r.types.key_map() == Map::<crate::span::Span, usize>::empty(),
    {
        let mut scopes = ScopeStorage::new();
        scopes.get_pool_mut().push(Scope::new(None, ScopeFlag::Global));
        Self { symbols: SymbolStorage::new(), exports: Vec::new(), scopes, types: TypeStorage::new() }
    }

    pub fn get_scopes_mut(&mut self) -> (r: &mut ScopeStorage)
        ensures
            *r == old(self).scopes,
            final(self).scopes == *final(r),
            final(self).symbols == old(self).symbols,
            final(self).types == old(self).types,
            final(self).exports == old(self).exports,
    {
        &mut self.scopes
    }

    pub fn get_symbols_mut(&mut self) -> (r: &mut SymbolStorage)
        ensures
            *r == old(self).symbols,
            final(self).symbols == *final(r),
            final(self).scopes == old(self).scopes,
            final(self).types == old(self).types,
            final(self).exports == old(self).exports,
    {
        &mut self.symbols
    }

    pub fn get_scopes(&self) -> (r: &ScopeStorage)
        ensures
            *r == self.scopes,
    {
        &self.scopes
    }

    pub fn get_types(&self) -> (r: &TypeStorage)
        ensures
            *r == self.types,
    {
        &self.types
    }

    pub fn get_types_mut(&mut self) -> (r: &mut TypeStorage)
        ensures
            *r == old(self).types,
            final(self).types == *final(r),
            final(self).scopes == old(self).scopes,
            final(self).symbols == old(self).symbols,
            final(self).exports == old(self).exports,
    {
        &mut self.types
    }

    pub fn get_symbols(&self) -> (r: &SymbolStorage)
        ensures
            *r == self.symbols,
    {
        &self.symbols
    }
}

} // verus!
