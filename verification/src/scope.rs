//! Lexical scopes and the names bound in them.

use vstd::prelude::*;

use crate::span::Span;
use crate::storage::{
    assoc_map, keys_unique, lemma_assoc_absent, lemma_assoc_found, lemma_assoc_update, Storage,
    StorageKey,
};
use crate::symbol::SymbolId;
use crate::text::str_eq;

verus! {

/// Names bound in one scope, each at most once.
#[derive(Debug, Clone)]
pub struct SymbolMap(pub Vec<(String, SymbolId)>);

/// The scopes of a module, addressed by id, and spans mapped to the scope found there.
pub type ScopeStorage = Storage<Span, Scope>;

#[derive(Debug, Clone, Copy, Eq, PartialEq, Structural)]
pub struct ScopeId(pub usize);

#[derive(Debug, Clone)]
pub struct Scope {
    pub parent: Option<ScopeId>,
    pub symbols: SymbolMap,
    pub flag: ScopeFlag,
}

#[derive(Debug, Clone, Copy, PartialEq, Eq, Structural)]
pub enum ScopeFlag {
    Global,
    Function,
    Loop,
    Plain,
}

impl Scope {
    /// No name is bound twice.
    pub open spec fn wf(&self) -> bool {
        keys_unique(self.symbols.0@)
    }

    /// The names bound in this scope.
    pub open spec fn bindings(&self) -> Map<Seq<char>, SymbolId> {
        assoc_map(self.symbols.0@)
    }

    pub fn new(parent: Option<ScopeId>, flag: ScopeFlag) -> (r: Self)
        ensures
            r.wf(),
            r.parent == parent,
            r.flag == flag,
            r.bindings() == Map::<Seq<char>, SymbolId>::empty(),
    {
        Self { symbols: SymbolMap(Vec::new()), parent, flag }
    }

    /// Binds `name` to `id`, returning what it was bound to before.
    pub fn add(&mut self, name: String, id: SymbolId) -> (r: Option<SymbolId>)
        requires
            old(self).wf(),
        ensures
            final(self).wf(),
            final(self).parent == old(self).parent,
            final(self).flag == old(self).flag,
            final(self).bindings() == old(self).bindings().insert(name@, id),
            r == if old(self).bindings().contains_key(name@) {
                Some(old(self).bindings()[name@])
            } else {
                None
            },
    {
        let mut i: usize = 0;
        while i < self.symbols.0.len()
            invariant
                i <= self.symbols.0@.len(),
                keys_unique(self.symbols.0@),
                self.symbols.0@ == old(self).symbols.0@,
                self.parent == old(self).parent,
                self.flag == old(self).flag,
                forall|j: int| 0 <= j < i ==> self.symbols.0@[j].0@ != name@,
            decreases self.symbols.0@.len() - i,
        {
            if self.symbols.0[i].0.same_key(&name) {
                let prev = self.symbols.0[i].1;
                proof {
                    lemma_assoc_found(self.symbols.0@, i as int);
                    lemma_assoc_update(self.symbols.0@, i as int, (name, id));
                }
                let ghost before = self.symbols.0@;
                self.symbols.0.set(i, (name, id));
                assert(keys_unique(self.symbols.0@)) by {
                    assert forall|a: int, b: int|
                        0 <= a < b < self.symbols.0@.len() implies self.symbols.0@[a].0@
                        != self.symbols.0@[b].0@ by {
                        assert(self.symbols.0@[a].0@ == before[a].0@);
                        assert(self.symbols.0@[b].0@ == before[b].0@);
                    }
                }
                return Some(prev);
            }
            i = i + 1;
        }
        proof {
            lemma_assoc_absent(self.symbols.0@, name@);
        }
        let ghost before = self.symbols.0@;
        self.symbols.0.push((name, id));
        assert(self.symbols.0@.drop_last() =~= before);
        None
    }

    /// The symbol `name` is bound to in this scope.
    pub fn find(&self, name: &str) -> (r: Option<SymbolId>)
        requires
            self.wf(),
        ensures
            r == if self.bindings().contains_key(name@) {
                Some(self.bindings()[name@])
            } else {
                None
            },
    {
        let mut i: usize = 0;
        while i < self.symbols.0.len()
            invariant
                i <= self.symbols.0@.len(),
                keys_unique(self.symbols.0@),
                forall|j: int| 0 <= j < i ==> self.symbols.0@[j].0@ != name@,
            decreases self.symbols.0@.len() - i,
        {
            if str_eq(self.symbols.0[i].0.as_str(), name) {
                proof {
                    lemma_assoc_found(self.symbols.0@, i as int);
                }
                return Some(self.symbols.0[i].1);
            }
            i = i + 1;
        }
        proof {
            lemma_assoc_absent(self.symbols.0@, name@);
        }
        None
    }
}


/// A name bound in a scope is found there, bound to the symbol it was last bound to;
/// binding it leaves every other name as it was.
pub proof fn law_scope_add_then_find(
    before: Scope,
    after: Scope,
    name: Seq<char>,
    id: SymbolId,
    other: Seq<char>,
)
    requires
        after.bindings() == before.bindings().insert(name, id),
    ensures
        after.bindings().contains_key(name) && after.bindings()[name] == id,
        other != name ==> (after.bindings().contains_key(other) == before.bindings().contains_key(
            other,
        ) && (before.bindings().contains_key(other) ==> after.bindings()[other]
            == before.bindings()[other])),
{
}
} // verus!
