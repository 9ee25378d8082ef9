//! Symbols: the functions and variables that names refer to.

use vstd::prelude::*;

use crate::ast::Name;
use crate::layout::TypeId;
use crate::scope::ScopeId;
use crate::span::Span;
use crate::storage::Storage;

verus! {

#[derive(Debug, Clone, Copy, PartialEq, Eq, Structural)]
pub struct SymbolId(pub usize);

/// The symbols of a module, addressed by id, and spans mapped to the symbol found
/// there.
pub type SymbolStorage = Storage<Span, Symbol>;

#[derive(Debug, Clone)]
pub struct Symbol {
    pub defined_at: Span,
    pub resolved_type: Option<TypeId>,
    pub data: SymbolData,
}

#[derive(Debug, Clone, Copy, PartialEq, Eq, Structural)]
pub enum State {
    Valid,
    Invalid,
    PartiallyInvalid,
}

/// Parameter names of a function with their positions.
pub type ParameterNames = Vec<(Name, usize)>;

#[derive(Debug, Clone)]
pub enum SymbolData {
    Function { parameter_names: ParameterNames, parameter_types: Vec<TypeId> },
    Variable { state: State, scope_id: ScopeId },
}

impl SymbolData {
    pub fn new_function_data(parameter_names: ParameterNames, parameter_types: Vec<TypeId>) -> (r:
        Self)
        ensures
            r == (SymbolData::Function { parameter_names, parameter_types }),
    {
        Self::Function { parameter_names, parameter_types }
    }

    pub fn new_var_data(scope_id: ScopeId) -> (r: Self)
        ensures
            r == (SymbolData::Variable { state: State::Valid, scope_id }),
    {
        Self::Variable { state: State::Valid, scope_id }
    }
}

impl Symbol {
    /// A symbol defined at `span` whose type is not resolved yet.
    pub fn new_empty(span: Span, scope_id: ScopeId, data: SymbolData) -> (r: Symbol)
        ensures
            r == (Symbol { data, defined_at: span, resolved_type: None }),
    {
        Symbol { data, defined_at: span, resolved_type: None }
    }
}

} // verus!
