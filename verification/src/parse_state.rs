//! What the parser is in the middle of, for error recovery.

use vstd::prelude::*;

use crate::token::Token;

verus! {

#[derive(Debug, Clone, Copy, Eq, PartialEq, Structural)]
pub enum StateKind {
    GlobalDeclration,
    FunctionParameterType,
    FunctionReturnType,
    FunctionBody,
    VariableDeclration,
    VariableInitialization,
    VariableType,
}

/// A parser state: what is being parsed, whether an error was found in it, and the
/// token it began at.
#[derive(Debug, Clone, Copy, Eq, PartialEq, Structural)]
pub struct State {
    kind: StateKind,
    has_error: bool,
    begin: Option<Token>,
}

impl State {
    pub closed spec fn spec_kind(&self) -> StateKind {
        self.kind
    }

    pub closed spec fn spec_has_error(&self) -> bool {
        self.has_error
    }

    pub closed spec fn spec_begin(&self) -> Option<Token> {
        self.begin
    }

    /// A state of kind `kind`, without error and without a beginning token.
    pub fn new(kind: StateKind) -> (r: Self)
        ensures
            r.spec_kind() == kind,
            !r.spec_has_error(),
            r.spec_begin() is None,
    {
        Self { kind, has_error: false, begin: None }
    }

    pub fn kind(&self) -> (r: StateKind)
        ensures
            r == self.spec_kind(),
    {
        self.kind
    }

    pub fn has_error(&self) -> (r: bool)
        ensures
            r == self.spec_has_error(),
    {
        self.has_error
    }

    pub fn begin(&self) -> (r: Option<Token>)
        ensures
            r == self.spec_begin(),
    {
        self.begin
    }

    pub fn with_begin(self, token: Token) -> (r: Self)
        ensures
            r.spec_begin() == Some(token),
            r.spec_kind() == self.spec_kind(),
            r.spec_has_error() == self.spec_has_error(),
    {
        let mut s = self;
        s.begin = Some(token);
        s
    }

    pub fn with_error(self) -> (r: Self)
        ensures
            r.spec_has_error(),
            r.spec_kind() == self.spec_kind(),
            r.spec_begin() == self.spec_begin(),
    {
        let mut s = self;
        s.has_error = true;
        s
    }

    pub fn with_kind(self, kind: StateKind) -> (r: Self)
        ensures
            r.spec_kind() == kind,
            r.spec_has_error() == self.spec_has_error(),
            r.spec_begin() == self.spec_begin(),
    {
        let mut s = self;
        s.kind = kind;
        s
    }
}

impl From<StateKind> for State {
    fn from(kind: StateKind) -> (r: Self) {
        Self { kind, has_error: false, begin: None }
    }
}

impl vstd::std_specs::convert::FromSpecImpl<StateKind> for State {
    open spec fn obeys_from_spec() -> bool {
        true
    }

    closed spec fn from_spec(kind: StateKind) -> Self {
        State { kind, has_error: false, begin: None }
    }
}

} // verus!
