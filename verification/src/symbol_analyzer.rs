//! Name resolution: binds every definition to a symbol in its scope, reports names
//! defined twice and names used without a visible definition, and records which
//! symbol each use refers to.

use vstd::prelude::*;

use crate::ast::{
    Ast, Block, Call, CallArgument, Expr, ExprData, FunctionDefinition, FunctionParameter, Name,
    Return, Stmt, StmtData, StmtRef, VariableDecl,
};
use crate::diagnostics::{Diagnostic, DiagnosticView, Severity};
use crate::module::Module;
use crate::scope::{Scope, ScopeFlag, ScopeId};
use crate::span::Span;
use crate::symbol::{ParameterNames, Symbol, SymbolData, SymbolId};
use crate::text::string_of;
use crate::type_checker::TypeChecker;

verus! {

/// Expressions the analysis handles: blocks, identifiers, integers, calls and binary
/// operations, with all their parts handled too.
pub open spec fn analyzable_expr(e: Expr) -> bool
    decreases e,
{
    match e.data {
        ExprData::Block(b) => analyzable_block(b),
        ExprData::Identifier(_) => true,
        ExprData::Integer(_) => true,
        ExprData::Call(c) => analyzable_expr(*c.callee) && analyzable_args(c.arguments@),
        ExprData::BinaryOperation(b) => analyzable_expr(*b.left) && analyzable_expr(*b.right),
        _ => false,
    }
}

pub open spec fn analyzable_args(args: Seq<CallArgument>) -> bool
    decreases args,
{
    if args.len() == 0 {
        true
    } else {
        analyzable_args(args.drop_last()) && match args.last() {
            CallArgument::Expr(v) => analyzable_expr(*v),
            CallArgument::Assign(_, v) => analyzable_expr(*v),
        }
    }
}

pub open spec fn analyzable_block(b: Block) -> bool
    decreases b,
{
    analyzable_stmts(b.stmts@)
}

pub open spec fn analyzable_stmts(s: Seq<StmtRef>) -> bool
    decreases s,
{
    if s.len() == 0 {
        true
    } else {
        analyzable_stmts(s.drop_last()) && analyzable_stmt(*s.last())
    }
}

/// Statements the analysis handles: function definitions, variable declarations,
/// returns and expressions, with every expression in them handled too.
pub open spec fn analyzable_stmt(s: Stmt) -> bool
    decreases s,
{
    match s.data {
        StmtData::FunctionDefinition(f) => match f.body {
            Some(b) => analyzable_expr(*b),
            None => true,
        },
        StmtData::VariableDecl(v) => analyzable_expr(*v.initializer),
        StmtData::Return(r) => analyzable_expr(*r.expr),
        StmtData::Expr(e) => analyzable_expr(*e),
        _ => false,
    }
}

/// Every name used in `e` is recorded at its span: its span is among `keys`.
pub open spec fn resolved_expr(e: Expr, keys: Set<Span>) -> bool
    decreases e,
{
    match e.data {
        ExprData::Block(b) => resolved_block(b, keys),
        ExprData::Identifier(_) => keys.contains(e.span),
        ExprData::Integer(_) => true,
        ExprData::Call(c) => resolved_expr(*c.callee, keys) && resolved_args(c.arguments@, keys),
        ExprData::BinaryOperation(b) => resolved_expr(*b.left, keys) && resolved_expr(*b.right, keys),
        _ => true,
    }
}

pub open spec fn resolved_args(args: Seq<CallArgument>, keys: Set<Span>) -> bool
    decreases args,
{
    if args.len() == 0 {
        true
    } else {
        resolved_args(args.drop_last(), keys) && match args.last() {
            CallArgument::Expr(v) => resolved_expr(*v, keys),
            CallArgument::Assign(_, v) => resolved_expr(*v, keys),
        }
    }
}

pub open spec fn resolved_block(b: Block, keys: Set<Span>) -> bool
    decreases b,
{
    resolved_stmts(b.stmts@, keys)
}

pub open spec fn resolved_stmts(s: Seq<StmtRef>, keys: Set<Span>) -> bool
    decreases s,
{
    if s.len() == 0 {
        true
    } else {
        resolved_stmts(s.drop_last(), keys) && resolved_stmt(*s.last(), keys)
    }
}

/// Every name used in the expressions of `s` (a function's body, an initializer, a
/// returned value) is recorded at its span.
pub open spec fn resolved_stmt(s: Stmt, keys: Set<Span>) -> bool
    decreases s,
{
    match s.data {
        StmtData::FunctionDefinition(f) => match f.body {
            Some(b) => resolved_expr(*b, keys),
            None => true,
        },
        StmtData::VariableDecl(v) => resolved_expr(*v.initializer, keys),
        StmtData::Return(r) => resolved_expr(*r.expr, keys),
        StmtData::Expr(e) => resolved_expr(*e, keys),
        _ => true,
    }
}

/// Recording more spans keeps every name recorded.
pub proof fn lemma_resolved_expr_mono(e: Expr, a: Set<Span>, b: Set<Span>)
    requires
        resolved_expr(e, a),
        a.subset_of(b),
    ensures
        resolved_expr(e, b),
    decreases e,
{
    match e.data {
        ExprData::Block(bl) => {
            assert(resolved_block(bl, a) == resolved_stmts(bl.stmts@, a));
            lemma_resolved_stmts_mono(bl.stmts@, a, b);
            assert(resolved_block(bl, b) == resolved_stmts(bl.stmts@, b));
        },
        ExprData::Call(c) => {
            lemma_resolved_expr_mono(*c.callee, a, b);
            lemma_resolved_args_mono(c.arguments@, a, b);
        },
        ExprData::BinaryOperation(bo) => {
            lemma_resolved_expr_mono(*bo.left, a, b);
            lemma_resolved_expr_mono(*bo.right, a, b);
        },
        _ => {},
    }
}

pub proof fn lemma_resolved_args_mono(args: Seq<CallArgument>, a: Set<Span>, b: Set<Span>)
    requires
        resolved_args(args, a),
        a.subset_of(b),
    ensures
        resolved_args(args, b),
    decreases args,
{
    if args.len() > 0 {
        lemma_resolved_args_mono(args.drop_last(), a, b);
        match args.last() {
            CallArgument::Expr(v) => lemma_resolved_expr_mono(*v, a, b),
            CallArgument::Assign(_, v) => lemma_resolved_expr_mono(*v, a, b),
        }
    }
}

pub proof fn lemma_resolved_stmts_mono(s: Seq<StmtRef>, a: Set<Span>, b: Set<Span>)
    requires
        resolved_stmts(s, a),
        a.subset_of(b),
    ensures
        resolved_stmts(s, b),
    decreases s,
{
    if s.len() > 0 {
        lemma_resolved_stmts_mono(s.drop_last(), a, b);
        lemma_resolved_stmt_mono(*s.last(), a, b);
    }
}

pub proof fn lemma_resolved_stmt_mono(s: Stmt, a: Set<Span>, b: Set<Span>)
    requires
        resolved_stmt(s, a),
        a.subset_of(b),
    ensures
        resolved_stmt(s, b),
    decreases s,
{
    match s.data {
        StmtData::FunctionDefinition(f) => {
            if let Some(body) = f.body {
                lemma_resolved_expr_mono(*body, a, b);
            }
        },
        StmtData::VariableDecl(v) => lemma_resolved_expr_mono(*v.initializer, a, b),
        StmtData::Return(r) => lemma_resolved_expr_mono(*r.expr, a, b),
        StmtData::Expr(e) => lemma_resolved_expr_mono(*e, a, b),
        _ => {},
    }
}

/// The symbol that `name` refers to when looked up from scope `id`: its binding in that
/// scope, or else its binding as seen from the parent scope.
pub open spec fn lookup(scopes: Seq<Scope>, id: int, name: Seq<char>) -> Option<SymbolId>
    decreases id,
{
    if !(0 <= id < scopes.len()) {
        None
    } else if scopes[id].bindings().contains_key(name) {
        Some(scopes[id].bindings()[name])
    } else {
        match scopes[id].parent {
            Some(p) => if p.0 < id {
                lookup(scopes, p.0 as int, name)
            } else {
                None
            },
            None => None,
        }
    }
}

/// The binding of `name` in scope `id` itself, ignoring enclosing scopes.
pub open spec fn shallow_lookup(scopes: Seq<Scope>, id: int, name: Seq<char>) -> Option<SymbolId> {
    if 0 <= id < scopes.len() && scopes[id].bindings().contains_key(name) {
        Some(scopes[id].bindings()[name])
    } else {
        None
    }
}

/// The scope table can be walked: it is not empty, every scope binds each name once,
/// and every parent scope comes before its child.
pub open spec fn scopes_wf(m: Module) -> bool {
    &&& m.scopes.wf()
    &&& m.symbols.wf()
    &&& m.scopes.pool@.len() > 0
    &&& forall|i: int| 0 <= i < m.scopes.pool@.len() ==> (#[trigger] m.scopes.pool@[i]).wf()
    &&& forall|i: int|
        0 <= i < m.scopes.pool@.len() ==> match (#[trigger] m.scopes.pool@[i]).parent {
            Some(p) => p.0 < i,
            None => true,
        }
}

/// The diagnostic for a second definition of `name`.
pub open spec fn redefinition_view(name: Name, first_defined: Option<Span>) -> DiagnosticView {
    let base = DiagnosticView {
        severity: Severity::Error,
        message: "name `"@ + name.value@ + "` defined multiple times"@,
        help: None,
        code: None,
        labels: seq![
            crate::diagnostics::LabelView {
                label: "duplicate definition of `"@ + name.value@ + "`"@,
                span: name.span,
                is_primary: true,
            },
        ],
    };
    match first_defined {
        Some(span) => DiagnosticView {
            labels: base.labels.push(
                crate::diagnostics::LabelView {
                    label: "first defined here"@,
                    span,
                    is_primary: false,
                },
            ),
            ..base
        },
        None => base,
    }
}

/// `a`, then the characters of `b`, then `c`.
fn concat3(a: &str, b: &String, c: &str) -> (r: String)
    ensures
        r@ == a@ + b@ + c@,
{
    let mut r = string_of(a);
    r.append(b.as_str());
    r.append(c);
    r
}

/// Reports a second definition of `name`, pointing at the first one when known.
fn redefinition_of_symbol(name: &Name, first_defined: Option<Span>) -> (d: Diagnostic)
    ensures
        d@ == redefinition_view(*name, first_defined),
{
    let mut diag = Diagnostic::new(
        Severity::Error,
        concat3("name `", &name.value, "` defined multiple times"),
        name.span,
        concat3("duplicate definition of `", &name.value, "`"),
    );
    if let Some(span) = first_defined {
        diag = diag.with_label(string_of("first defined here"), span);
    }
    diag
}

/// Binds names to symbols across the scopes of one module.
#[derive(Debug)]
pub struct SymbolAnalyzer {
    current_scope_id: ScopeId,
    diagnostics: Vec<Diagnostic>,
    module: Module,
}

impl SymbolAnalyzer {
    pub closed spec fn spec_module(&self) -> Module {
        self.module
    }

    pub closed spec fn spec_current(&self) -> ScopeId {
        self.current_scope_id
    }

    pub closed spec fn spec_diagnostics(&self) -> Seq<Diagnostic> {
        self.diagnostics@
    }

    pub closed spec fn wf(&self) -> bool {
        &&& scopes_wf(self.module)
        &&& TypeChecker::module_wf(self.module)
        &&& self.current_scope_id.0 < self.module.scopes.pool@.len()
    }

    /// What every pass of the analysis keeps: well-formedness, and earlier diagnostics,
    /// to which only errors are added.
    pub closed spec fn extends(&self, prev: &Self) -> bool {
        &&& self.wf()
        &&& prev.module.symbols.key_map().dom().subset_of(self.module.symbols.key_map().dom())
        &&& symbols_kept(self.module.symbols.pool@, prev.module.symbols.pool@)
        &&& prev.diagnostics@.len() <= self.diagnostics@.len()
        &&& self.diagnostics@.subrange(0, prev.diagnostics@.len() as int) == prev.diagnostics@
        &&& forall|i: int|
            prev.diagnostics@.len() <= i < self.diagnostics@.len() ==> (
            #[trigger] self.diagnostics@[i])@.severity == Severity::Error
    }

    /// An analyzer over `module`, starting in the global scope (id 0).
    pub fn new(module: Module) -> (r: Self)
        requires
            scopes_wf(module),
            TypeChecker::module_wf(module),
        ensures
            r.wf(),
            r.spec_module() == module,
            r.spec_current() == ScopeId(0),
            r.spec_diagnostics().len() == 0,
    {
        SymbolAnalyzer { current_scope_id: ScopeId(0), diagnostics: Vec::new(), module }
    }

    /// The module with the symbols and scopes found so far.
    pub fn module(&self) -> (r: &Module)
        ensures
            *r == self.spec_module(),
    {
        &self.module
    }

    pub fn into_module(self) -> (r: Module)
        ensures
            r == self.spec_module(),
            self.wf() ==> scopes_wf(r) && TypeChecker::module_wf(r),
    {
        self.module
    }

    /// Binds the top-level functions, then checks every statement in order, stopping at
    /// the first statement that fails.  Fails with the reported diagnostics (all of them
    /// errors) when there are any; on success every name used in the program is
    /// recorded at its span.
    pub fn run(&mut self, ast: &Ast) -> (r: Result<(), Vec<Diagnostic>>)
        requires
            old(self).wf(),
            old(self).spec_diagnostics().len() == 0,
            forall|i: int| 0 <= i < ast@.len() ==> (#[trigger] ast@[i]).data is FunctionDefinition,
            analyzable_stmts(ast@),
        ensures
            final(self).wf(),
            final(self).spec_diagnostics().len() == 0,
            r is Ok ==> resolved_stmts(ast@, final(self).spec_module().symbols.key_map().dom()),
            match r {
                Ok(()) => forall|i: int|
                    0 <= i < ast@.len() ==> final(self).spec_module().scopes.pool@[old(
                    self).spec_current().0 as int].bindings().contains_key(
                        #[trigger] defined_name(*ast@[i]),
                    ),
                Err(d) => d@.len() > 0 && forall|i: int|
                    0 <= i < d@.len() ==> (#[trigger] d@[i])@.severity == Severity::Error,
            },
            old(self).spec_current().0 == 0 && fresh_names(old(self).spec_module().scopes.pool@, 0, ast@)
                && (forall|i: int| 0 <= i < ast@.len() ==> trivial_function(*#[trigger] ast@[i]))
                ==> r is Ok,
            old(self).spec_current().0 == 0 && fresh_names(old(self).spec_module().scopes.pool@, 0, ast@)
                && (forall|i: int| 0 <= i < ast@.len() ==> bare_stmt(*#[trigger] ast@[i]))
                ==> names_recorded(final(self).spec_module(), ast@),
            repeats_name(ast@, ast@.len() as int) ==> r is Err,
    {
        let ghost start = *self;
        self.collect_top_level_symbols(ast);
        let ghost mid = *self;
        let res = self.check_statements(ast);
        proof {
            self.lemma_extends_trans(&mid, &start);
        }
        if self.diagnostics.len() != 0 {
            let mut diags: Vec<Diagnostic> = Vec::new();
            std::mem::swap(&mut diags, &mut self.diagnostics);
            assert forall|i: int| 0 <= i < diags@.len() implies (
            #[trigger] diags@[i])@.severity == Severity::Error by {
                assert(start.diagnostics@.len() == 0);
            }
            Err(diags)
        } else {
            proof {
                let cur = start.current_scope_id.0 as int;
                assert(res is Some);
                assert forall|i: int| 0 <= i < ast@.len() implies self.module.scopes.pool@[cur].bindings().contains_key(
                    #[trigger] defined_name(*ast@[i]),
                ) by {
                    assert(mid.module.scopes.pool@[cur].bindings().contains_key(defined_name(*ast@[i])));
                }
            }
            Ok(())
        }
    }

    fn emit_diag(&mut self, diag: Diagnostic)
        requires
            old(self).wf(),
            diag@.severity == Severity::Error,
        ensures
            final(self).extends(old(self)),
            final(self).module == old(self).module,
            final(self).current_scope_id == old(self).current_scope_id,
            final(self).diagnostics@ == old(self).diagnostics@.push(diag),
    {
        self.diagnostics.push(diag);
        assert(self.diagnostics@.subrange(0, old(self).diagnostics@.len() as int)
            =~= old(self).diagnostics@);
    }

    fn collect_top_level_symbols(&mut self, ast: &Ast)
        requires
            old(self).wf(),
            forall|i: int| 0 <= i < ast@.len() ==> (#[trigger] ast@[i]).data is FunctionDefinition,
        ensures
            final(self).extends(old(self)),
            final(self).current_scope_id == old(self).current_scope_id,
            final(self).module.scopes.pool@.len() == old(self).module.scopes.pool@.len(),
            scopes_kept(
                final(self).module.scopes.pool@,
                old(self).module.scopes.pool@,
                old(self).current_scope_id.0 as int,
            ),
            final(self).diagnostics@.len() == old(self).diagnostics@.len() ==> forall|j: int|
                0 <= j < ast@.len() ==> final(self).module.scopes.pool@[old(self).current_scope_id.0 as int].bindings().contains_key(
                    #[trigger] defined_name(*ast@[j]),
                ),
            old(self).current_scope_id.0 == 0 && fresh_names(old(self).module.scopes.pool@, 0, ast@)
                ==> final(self).diagnostics == old(self).diagnostics && names_recorded(final(self).module, ast@),
            repeats_name(ast@, ast@.len() as int) ==> final(self).diagnostics@.len() > old(
                self,
            ).diagnostics@.len(),
    {
        let ghost fresh = old(self).current_scope_id.0 == 0 && fresh_names(
            old(self).module.scopes.pool@,
            0,
            ast@,
        );
        let mut i: usize = 0;
        proof {
            self.lemma_extends_refl();
        }
        let ghost cur = self.current_scope_id.0 as int;
        proof {
            assert(ast@.take(0) =~= Seq::<StmtRef>::empty());
        }
        while i < ast.len()
            invariant
                i <= ast@.len(),
                self.extends(old(self)),
                self.current_scope_id == old(self).current_scope_id,
                cur == old(self).current_scope_id.0,
                self.module.scopes.pool@.len() == old(self).module.scopes.pool@.len(),
                scopes_kept(self.module.scopes.pool@, old(self).module.scopes.pool@, cur),
                self.diagnostics@.len() == old(self).diagnostics@.len() ==> forall|j: int|
                    0 <= j < i ==> self.module.scopes.pool@[cur].bindings().contains_key(
                        #[trigger] defined_name(*ast@[j]),
                    ),
                forall|j: int| 0 <= j < ast@.len() ==> (#[trigger] ast@[j]).data is FunctionDefinition,
                fresh == (old(self).current_scope_id.0 == 0 && fresh_names(
                    old(self).module.scopes.pool@,
                    0,
                    ast@,
                )),
                fresh ==> self.diagnostics == old(self).diagnostics,
                fresh ==> forall|j: int|
                    i <= j < ast@.len() ==> !self.module.scopes.pool@[0].bindings().contains_key(
                        defined_name(*#[trigger] ast@[j]),
                    ),
                fresh ==> names_recorded(self.module, ast@.take(i as int)),
                repeats_name(ast@, i as int) ==> self.diagnostics@.len() > old(self).diagnostics@.len(),
            decreases ast@.len() - i,
        {
            let ghost before = *self;
            proof {
                if fresh {
                    assert(self.module.scopes.pool@[0].parent == old(self).module.scopes.pool@[0].parent);
                    assert(!self.module.scopes.pool@[0].bindings().contains_key(defined_name(*ast@[i as int])));
                    assert(lookup(self.module.scopes.pool@, 0, defined_name(*ast@[i as int])) is None);
                }
            }
            let ghost dup_here = exists|a: int| 0 <= a < i && #[trigger] defined_name(*ast@[a]) == defined_name(
                *ast@[i as int],
            );
            proof {
                if dup_here && self.diagnostics@.len() == old(self).diagnostics@.len() {
                    let a = choose|a: int| 0 <= a < i && #[trigger] defined_name(*ast@[a]) == defined_name(
                        *ast@[i as int],
                    );
                    assert(self.module.scopes.pool@[cur].bindings().contains_key(defined_name(*ast@[a])));
                    assert(lookup(self.module.scopes.pool@, cur, defined_name(*ast@[i as int])) is Some);
                }
            }
            if let StmtData::FunctionDefinition(function) = &ast[i].data {
                let _ = self.collect_function(function);
                proof {
                    assert(defined_name(*ast@[i as int]) == function.name.value@);
                    assert(scopes_kept(self.module.scopes.pool@, before.module.scopes.pool@, cur));
                    lemma_scopes_kept_trans(
                        self.module.scopes.pool@,
                        before.module.scopes.pool@,
                        old(self).module.scopes.pool@,
                        cur,
                    );
                }
            }
            proof {
                self.lemma_extends_trans(&before, old(self));
                if fresh {
                    let sp_i = ast@[i as int].data->FunctionDefinition_0.name.span;
                    assert(before.module.symbols.pool.len() == before.module.symbols.pool@.len());
                    assert(self.module.symbols.pool@.len() == before.module.symbols.pool@.len() + 1);
                    assert(self.module.symbols.pool@[before.module.symbols.pool@.len() as int]
                        == self.module.symbols.pool@.last());
                    assert(self.module.symbols.key_map() == before.module.symbols.key_map().insert(
                        sp_i,
                        before.module.symbols.pool@.len() as usize,
                    ));
                    assert(self.module.symbols.pool@.last().data is Function);
                    let t = ast@.take(i + 1);
                    assert forall|j: int| 0 <= j < t.len() implies ({
                        let span = (#[trigger] t[j]).data->FunctionDefinition_0.name.span;
                        &&& self.module.symbols.key_map().contains_key(span)
                        &&& self.module.symbols.key_map()[span] < self.module.symbols.pool@.len()
                        &&& self.module.symbols.pool@[self.module.symbols.key_map()[span] as int].data is Function
                    }) by {
                        if j == i {
                            assert(t[j] == ast@[i as int]);
                            assert(self.module.symbols.pool.len() == self.module.symbols.pool@.len());
                            assert(self.module.symbols.pool@[before.module.symbols.pool@.len() as int]
                                == self.module.symbols.pool@.last());
                        }
                        if j < i {
                            assert(t[j] == ast@.take(i as int)[j]);
                            let span = t[j].data->FunctionDefinition_0.name.span;
                            assert(before.module.symbols.key_map().contains_key(span));
                            if span != ast@[i as int].data->FunctionDefinition_0.name.span {
                                assert(self.module.symbols.key_map()[span] == before.module.symbols.key_map()[span]);
                                assert(self.module.symbols.pool@[before.module.symbols.key_map()[span] as int]
                                    == before.module.symbols.pool@[before.module.symbols.key_map()[span] as int]);
                            }
                        }
                    }
                }
            }
            proof {
                if repeats_name(ast@, i + 1) && !repeats_name(ast@, i as int) {
                    let (a, b) = choose|a: int, b: int|
                        0 <= a < b < i + 1 && #[trigger] defined_name(*ast@[a]) == #[trigger] defined_name(
                            *ast@[b],
                        );
                    assert(b == i);
                    assert(dup_here);
                }
            }
            i = i + 1;
        }
        proof {
            if fresh {
                assert(ast@.take(i as int) =~= ast@);
            }
        }
    }

    proof fn lemma_extends_trans(&self, mid: &Self, first: &Self)
        requires
            self.extends(mid),
            mid.extends(first),
        ensures
            self.extends(first),
    {
        assert(self.diagnostics@.subrange(0, first.diagnostics@.len() as int)
            =~= self.diagnostics@.subrange(0, mid.diagnostics@.len() as int).subrange(
            0,
            first.diagnostics@.len() as int,
        ));
        assert forall|i: int|
            first.diagnostics@.len() <= i < self.diagnostics@.len() implies (
            #[trigger] self.diagnostics@[i])@.severity == Severity::Error by {
            if i < mid.diagnostics@.len() {
                assert(self.diagnostics@[i] == self.diagnostics@.subrange(
                    0,
                    mid.diagnostics@.len() as int,
                )[i]);
            }
        }
    }

    proof fn lemma_extends_refl(&self)
        requires
            self.wf(),
        ensures
            self.extends(self),
    {
        assert(self.diagnostics@.subrange(0, self.diagnostics@.len() as int)
            =~= self.diagnostics@);
    }

    /// Opens a new scope, child of the current one, and makes it current.
    fn enter_new_scope(&mut self, flag: ScopeFlag)
        requires
            old(self).wf(),
        ensures
            final(self).wf(),
            final(self).diagnostics == old(self).diagnostics,
            final(self).module.symbols == old(self).module.symbols,
            final(self).module.scopes.pool@ == old(self).module.scopes.pool@.push(
                Scope {
                    parent: Some(old(self).current_scope_id),
                    symbols: final(self).module.scopes.pool@.last().symbols,
                    flag,
                },
            ),
            final(self).module.scopes.pool@.last().bindings() == Map::<
                Seq<char>,
                SymbolId,
            >::empty(),
            final(self).current_scope_id.0 == old(self).module.scopes.pool@.len(),
    {
        let parent_id = self.current_scope_id;
        let new_scope = Scope::new(Some(parent_id), flag);
        self.module.scopes.pool.push(new_scope);
        self.current_scope_id = ScopeId(self.module.scopes.pool.len() - 1);
    }

    /// Closes the last scope; its parent (or the global scope) becomes current.
    fn leave_scope(&mut self)
        requires
            old(self).wf(),
            old(self).module.scopes.pool@.len() >= 2,
        ensures
            final(self).wf(),
            final(self).diagnostics == old(self).diagnostics,
            final(self).module.symbols == old(self).module.symbols,
            final(self).module.scopes.pool@ == old(self).module.scopes.pool@.drop_last(),
            final(self).current_scope_id == match old(self).module.scopes.pool@.last().parent {
                Some(p) => p,
                None => ScopeId(0),
            },
    {
        let scope = self.module.scopes.pool.pop().unwrap();
        self.current_scope_id = match scope.parent {
            Some(p) => p,
            None => ScopeId(0),
        };
    }

    /// Adds `symbol` to the symbol table and returns its id.
    fn get_new_symbol_id(&mut self, symbol: Symbol) -> (r: SymbolId)
        requires
            old(self).wf(),
            symbol.resolved_type is None,
        ensures
            final(self).wf(),
            final(self).diagnostics == old(self).diagnostics,
            final(self).current_scope_id == old(self).current_scope_id,
            final(self).module.scopes == old(self).module.scopes,
            final(self).module.symbols.pool@ == old(self).module.symbols.pool@.push(symbol),
            final(self).module.symbols.key_map() == old(self).module.symbols.key_map(),
            r.0 == old(self).module.symbols.pool@.len(),
    {
        self.module.symbols.get_pool_mut().push(symbol);
        proof {
            assert forall|i: int| 0 <= i < self.module.symbols.pool@.len() implies match (
            #[trigger] self.module.symbols.pool@[i]).resolved_type {
                Some(t) => t.0 < self.module.types.pool@.len(),
                None => true,
            } by {
                if i < old(self).module.symbols.pool@.len() {
                    assert(self.module.symbols.pool@[i] == old(self).module.symbols.pool@[i]);
                }
            }
        }
        SymbolId(self.module.symbols.pool.len() - 1)
    }

    fn current_scope_id(&self) -> (r: ScopeId)
        ensures
            r == self.current_scope_id,
    {
        self.current_scope_id
    }

    fn get_symbol(&self, id: SymbolId) -> (r: Option<&Symbol>)
        ensures
            r == if id.0 < self.module.symbols.pool@.len() {
                Some(&self.module.symbols.pool@[id.0 as int])
            } else {
                None
            },
    {
        if id.0 < self.module.symbols.pool.len() {
            Some(&self.module.symbols.pool[id.0])
        } else {
            None
        }
    }

    fn map_locus_to_symbol(&mut self, span: Span, id: SymbolId)
        requires
            old(self).wf(),
        ensures
            final(self).wf(),
            final(self).diagnostics == old(self).diagnostics,
            final(self).current_scope_id == old(self).current_scope_id,
            final(self).module.scopes == old(self).module.scopes,
            final(self).module.symbols.pool@ == old(self).module.symbols.pool@,
            final(self).module.symbols.key_map() == old(self).module.symbols.key_map().insert(
                span,
                id.0,
            ),
    {
        self.module.symbols.map(span, id.0);
    }

    fn map_locus_to_scope(&mut self, span: Span, id: ScopeId)
        requires
            old(self).wf(),
        ensures
            final(self).wf(),
            final(self).diagnostics == old(self).diagnostics,
            final(self).current_scope_id == old(self).current_scope_id,
            final(self).module.symbols == old(self).module.symbols,
            final(self).module.scopes.pool@ == old(self).module.scopes.pool@,
            final(self).module.scopes.key_map() == old(self).module.scopes.key_map().insert(
                span,
                id.0,
            ),
    {
        self.module.scopes.map(span, id.0);
    }

    /// The symbol `name` refers to as seen from scope `id`: the binding in the nearest
    /// enclosing scope that binds it.
    pub fn find_id_in_scope(&self, id: ScopeId, name: &str) -> (r: Option<SymbolId>)
        requires
            self.wf(),
        ensures
            r == lookup(self.spec_module().scopes.pool@, id.0 as int, name@),
        decreases id.0,
    {
        if id.0 >= self.module.scopes.pool.len() {
            return None;
        }
        let scope = &self.module.scopes.pool[id.0];
        match scope.find(name) {
            Some(sym) => Some(sym),
            None => match scope.parent {
                Some(parent_id) => {
                    if parent_id.0 < id.0 {
                        self.find_id_in_scope(parent_id, name)
                    } else {
                        None
                    }
                },
                None => None,
            },
        }
    }

    /// The binding of `name` in scope `id` itself, ignoring enclosing scopes.
    fn find_id_in_scope_shallow(&self, id: ScopeId, name: &str) -> (r: Option<SymbolId>)
        requires
            self.wf(),
        ensures
            r == shallow_lookup(self.module.scopes.pool@, id.0 as int, name@),
    {
        if id.0 >= self.module.scopes.pool.len() {
            return None;
        }
        self.module.scopes.pool[id.0].find(name)
    }

    /// The symbol `name` refers to from the current scope.
    fn get_symbol_id_from_name(&self, name: &str) -> (r: Option<SymbolId>)
        requires
            self.wf(),
        ensures
            r == lookup(self.module.scopes.pool@, self.current_scope_id.0 as int, name@),
    {
        self.find_id_in_scope(self.current_scope_id(), name)
    }

    /// Creates a symbol for `name` with `data`, binds `name` to it in scope `scope_id`,
    /// and maps the name's span to the symbol and to the scope.
    fn add_new_empty_symbol_to_scope(&mut self, name: &Name, scope_id: ScopeId, data: SymbolData)
        requires
            old(self).wf(),
            scope_id.0 < old(self).module.scopes.pool@.len(),
        ensures
            final(self).wf(),
            final(self).diagnostics == old(self).diagnostics,
            final(self).current_scope_id == old(self).current_scope_id,
            final(self).module.symbols.pool@ == old(self).module.symbols.pool@.push(
                Symbol { data, defined_at: name.span, resolved_type: None },
            ),
            final(self).module.symbols.key_map() == old(self).module.symbols.key_map().insert(
                name.span,
                old(self).module.symbols.pool@.len() as usize,
            ),
            final(self).module.scopes.key_map() == old(self).module.scopes.key_map().insert(
                name.span,
                scope_id.0,
            ),
            final(self).module.scopes.pool@.len() == old(self).module.scopes.pool@.len(),
            forall|i: int|
                0 <= i < old(self).module.scopes.pool@.len() && i != scope_id.0 ==> (
                #[trigger] final(self).module.scopes.pool@[i]) == old(self).module.scopes.pool@[i],
            final(self).module.scopes.pool@[scope_id.0 as int].bindings() == old(
                self,
            ).module.scopes.pool@[scope_id.0 as int].bindings().insert(
                name.value@,
                SymbolId(old(self).module.symbols.pool@.len() as usize),
            ),
            final(self).module.scopes.pool@[scope_id.0 as int].parent == old(
                self,
            ).module.scopes.pool@[scope_id.0 as int].parent,
    {
        let new_symbol = Symbol::new_empty(name.span, scope_id, data);
        let new_symbol_id = self.get_new_symbol_id(new_symbol);
        self.map_locus_to_symbol(name.span, new_symbol_id);
        self.map_locus_to_scope(name.span, scope_id);
        let ghost before = self.module.scopes.pool@;
        let mut scope = self.module.scopes.pool.remove(scope_id.0);
        let _ = scope.add(name.value.clone(), new_symbol_id);
        self.module.scopes.pool.insert(scope_id.0, scope);
        assert(self.module.scopes.pool@ =~= before.update(scope_id.0 as int, scope));
        assert forall|i: int| 0 <= i < self.module.scopes.pool@.len() implies (
        #[trigger] self.module.scopes.pool@[i]).wf() by {
            if i != scope_id.0 {
                assert(self.module.scopes.pool@[i] == before[i]);
            }
        }
        assert forall|i: int| 0 <= i < self.module.scopes.pool@.len() implies match (
        #[trigger] self.module.scopes.pool@[i]).parent {
            Some(p) => p.0 < i,
            None => true,
        } by {
            if i != scope_id.0 {
                assert(self.module.scopes.pool@[i] == before[i]);
            }
        }
    }
}

/// Where the symbol `id` was defined, if it exists.
pub open spec fn first_defined_at(m: Module, id: SymbolId) -> Option<Span> {
    if id.0 < m.symbols.pool@.len() {
        Some(m.symbols.pool@[id.0 as int].defined_at)
    } else {
        None
    }
}

/// The diagnostic for a name used where no definition of it is visible.
pub open spec fn undefined_symbol_view(span: Span, name: Seq<char>) -> DiagnosticView {
    crate::diagnostics::new_diagnostic_view(
        Severity::Error,
        "undefined symbol"@,
        span,
        "cannot find symbol named `"@ + name + "` in current scope"@,
    )
}

/// `sym` is a variable defined at the name of parameter `p`.
pub open spec fn binds_parameter(sym: Symbol, p: FunctionParameter) -> bool {
    sym.defined_at == p.name.span && sym.data is Variable
}

/// An expression that resolves whatever the scopes hold: an integer literal, or a block
/// without statements.
pub open spec fn trivially_resolved(e: Expr) -> bool {
    ||| e.data is Integer
    ||| (e.data matches ExprData::Block(b) && b.stmts@.len() == 0)
}

/// Every name used in `e` is visible from scope `cur`, where `e` is made of integer
/// literals, names, calls, binary operations and blocks without statements.
pub open spec fn visible_names(scopes: Seq<Scope>, cur: int, e: Expr) -> bool
    decreases e,
{
    match e.data {
        ExprData::Integer(_) => true,
        ExprData::Identifier(n) => lookup(scopes, cur, n@) is Some,
        ExprData::Call(c) => visible_names(scopes, cur, *c.callee) && visible_args(scopes, cur, c.arguments@),
        ExprData::BinaryOperation(b) => visible_names(scopes, cur, *b.left) && visible_names(scopes, cur, *b.right),
        ExprData::Block(b) => b.stmts@.len() == 0,
        _ => false,
    }
}

/// Every name used in the arguments `args` is visible from scope `cur`.
pub open spec fn visible_args(scopes: Seq<Scope>, cur: int, args: Seq<CallArgument>) -> bool
    decreases args,
{
    if args.len() == 0 {
        true
    } else {
        visible_args(scopes, cur, args.drop_last()) && match args.last() {
            CallArgument::Expr(v) => visible_names(scopes, cur, *v),
            CallArgument::Assign(_, v) => visible_names(scopes, cur, *v),
        }
    }
}

pub proof fn lemma_visible_args_index(scopes: Seq<Scope>, cur: int, s: Seq<CallArgument>, i: int)
    requires
        visible_args(scopes, cur, s),
        0 <= i < s.len(),
    ensures
        match s[i] {
            CallArgument::Expr(v) => visible_names(scopes, cur, *v),
            CallArgument::Assign(_, v) => visible_names(scopes, cur, *v),
        },
    decreases s.len(),
{
    if i < s.len() - 1 {
        lemma_visible_args_index(scopes, cur, s.drop_last(), i);
    }
}

/// `s` defines a function with no parameters whose body, if it has one, resolves
/// whatever the scopes hold.
pub open spec fn bare_stmt(s: Stmt) -> bool {
    trivial_function(s) && s.data->FunctionDefinition_0.prototype.parameters@.len() == 0
}

/// `s` defines a function whose body, if it has one, resolves whatever the scopes hold.
pub open spec fn trivial_function(s: Stmt) -> bool {
    s.data matches StmtData::FunctionDefinition(f) && match f.body {
        Some(b) => trivially_resolved(*b),
        None => true,
    }
}

/// Two of the first `n` statements of `ast` define the same name.
pub open spec fn repeats_name(ast: Seq<StmtRef>, n: int) -> bool {
    exists|a: int, b: int|
        0 <= a < b < n && #[trigger] defined_name(*ast[a]) == #[trigger] defined_name(*ast[b])
}

/// The names defined by the statements of `ast` are pairwise distinct, and none of them
/// is visible from scope `cur`.
pub open spec fn fresh_names(scopes: Seq<Scope>, cur: int, ast: Seq<StmtRef>) -> bool {
    &&& forall|i: int, j: int|
        0 <= i < j < ast.len() ==> defined_name(*#[trigger] ast[i]) != defined_name(*#[trigger] ast[j])
    &&& forall|i: int| 0 <= i < ast.len() ==> lookup(scopes, cur, defined_name(*#[trigger] ast[i])) is None
}

/// The span of the name of each function that `ast` defines is recorded, with the id
/// of a function symbol.
pub open spec fn names_recorded(m: Module, ast: Seq<StmtRef>) -> bool {
    forall|j: int|
        0 <= j < ast.len() ==> ({
            let span = (#[trigger] ast[j]).data->FunctionDefinition_0.name.span;
            &&& m.symbols.key_map().contains_key(span)
            &&& m.symbols.key_map()[span] < m.symbols.pool@.len()
            &&& m.symbols.pool@[m.symbols.key_map()[span] as int].data is Function
        })
}

/// The symbols of `old` are still there, at the same ids, in `new`.
pub open spec fn symbols_kept(new: Seq<Symbol>, old: Seq<Symbol>) -> bool {
    &&& old.len() <= new.len()
    &&& forall|i: int| 0 <= i < old.len() ==> #[trigger] new[i] == old[i]
}

/// Every scope but `cur` is as before, and `cur` keeps its parent.
pub open spec fn scopes_kept(new: Seq<Scope>, old: Seq<Scope>, cur: int) -> bool {
    &&& new.len() == old.len()
    &&& forall|i: int| 0 <= i < old.len() && i != cur ==> (#[trigger] new[i]) == old[i]
    &&& new[cur].parent == old[cur].parent
    &&& binds_more(new[cur], old[cur])
}

/// Every name that `old` binds, `new` binds too.
pub open spec fn binds_more(new: Scope, old: Scope) -> bool {
    forall|k: Seq<char>| #[trigger] old.bindings().contains_key(k) ==> new.bindings().contains_key(k)
}

/// Keeping scopes twice keeps them.
pub proof fn lemma_scopes_kept_trans(a: Seq<Scope>, b: Seq<Scope>, c: Seq<Scope>, cur: int)
    requires
        scopes_kept(a, b, cur),
        scopes_kept(b, c, cur),
    ensures
        scopes_kept(a, c, cur),
{
}

/// The name of the function that `s` defines (empty for other statements).
pub open spec fn defined_name(s: Stmt) -> Seq<char> {
    match s.data {
        StmtData::FunctionDefinition(f) => f.name.value@,
        _ => Seq::empty(),
    }
}

pub proof fn lemma_analyzable_stmts_index(s: Seq<StmtRef>, i: int)
    requires
        analyzable_stmts(s),
        0 <= i < s.len(),
    ensures
        analyzable_stmt(*s[i]),
    decreases s.len(),
{
    if i < s.len() - 1 {
        lemma_analyzable_stmts_index(s.drop_last(), i);
    }
}

pub proof fn lemma_analyzable_args_index(s: Seq<CallArgument>, i: int)
    requires
        analyzable_args(s),
        0 <= i < s.len(),
    ensures
        match s[i] {
            CallArgument::Expr(v) => analyzable_expr(*v),
            CallArgument::Assign(_, v) => analyzable_expr(*v),
        },
    decreases s.len(),
{
    if i < s.len() - 1 {
        lemma_analyzable_args_index(s.drop_last(), i);
    }
}


impl SymbolAnalyzer {
    /// Binds a top-level function's name in the current scope, unless a definition of
    /// that name is already visible, which is reported instead.
    fn collect_function(&mut self, function: &FunctionDefinition) -> (r: Option<()>)
        requires
            old(self).wf(),
        ensures
            final(self).extends(old(self)),
            scopes_kept(
                final(self).module.scopes.pool@,
                old(self).module.scopes.pool@,
                old(self).current_scope_id.0 as int,
            ),
            final(self).current_scope_id == old(self).current_scope_id,
            final(self).module.scopes.pool@.len() == old(self).module.scopes.pool@.len(),
            match lookup(
                old(self).module.scopes.pool@,
                old(self).current_scope_id.0 as int,
                function.name.value@,
            ) {
                Some(id) => {
                    &&& r is None
                    &&& final(self).module == old(self).module
                    &&& final(self).diagnostics@ == old(self).diagnostics@.push(
                        final(self).diagnostics@.last(),
                    )
                    &&& final(self).diagnostics@.last()@ == redefinition_view(
                        function.name,
                        first_defined_at(old(self).module, id),
                    )
                },
                None => {
                    &&& r is Some
                    &&& final(self).diagnostics == old(self).diagnostics
                    &&& final(self).module.scopes.pool@[old(self).current_scope_id.0 as int].bindings()
                        == old(self).module.scopes.pool@[old(
                        self,
                    ).current_scope_id.0 as int].bindings().insert(
                        function.name.value@,
                        SymbolId(old(self).module.symbols.pool@.len() as usize),
                    )
                    &&& final(self).module.symbols.pool@.last().defined_at == function.name.span
                    &&& final(self).module.symbols.pool@.last().data is Function
                    &&& final(self).module.symbols.pool@.len() == old(self).module.symbols.pool@.len() + 1
                    &&& final(self).module.symbols.key_map() == old(self).module.symbols.key_map().insert(
                        function.name.span,
                        old(self).module.symbols.pool@.len() as usize,
                    )
                },
            },
    {
        let current_scope_id = self.current_scope_id();
        if let Some(id) = self.find_id_in_scope(current_scope_id, function.name.value.as_str()) {
            let first_defined = match self.get_symbol(id) {
                Some(sym) => Some(sym.defined_at),
                None => None,
            };
            let diag = redefinition_of_symbol(&function.name, first_defined);
            self.emit_diag(diag);
            return None;
        }
        let mut parameter_names: ParameterNames = Vec::new();
        let mut index: usize = 0;
        while index < function.prototype.parameters.len()
            invariant
                index <= function.prototype.parameters@.len(),
            decreases function.prototype.parameters@.len() - index,
        {
            parameter_names.push((function.prototype.parameters[index].name.clone(), index));
            index = index + 1;
        }
        self.add_new_empty_symbol_to_scope(
            &function.name,
            current_scope_id,
            SymbolData::new_function_data(parameter_names, Vec::new()),
        );
        proof {
            self.lemma_extends_refl_from(old(self));
        }
        Some(())
    }

    /// `self` differs from `prev` in the module and the current scope only.
    proof fn lemma_extends_refl_from(&self, prev: &Self)
        requires
            self.wf(),
            self.diagnostics == prev.diagnostics,
            prev.module.symbols.key_map().dom().subset_of(self.module.symbols.key_map().dom()),
            symbols_kept(self.module.symbols.pool@, prev.module.symbols.pool@),
        ensures
            self.extends(prev),
    {
        assert(self.diagnostics@.subrange(0, prev.diagnostics@.len() as int)
            =~= prev.diagnostics@);
    }

    /// Checks the statements in order, stopping at the first that fails.
    fn check_statements(&mut self, ast: &Ast) -> (r: Option<()>)
        requires
            old(self).wf(),
            analyzable_stmts(ast@),
        ensures
            r is Some ==> resolved_stmts(ast@, final(self).module.symbols.key_map().dom()),
            final(self).extends(old(self)),
            r is None ==> final(self).diagnostics@.len() > old(self).diagnostics@.len(),
            r is Some ==> final(self).current_scope_id == old(self).current_scope_id,
            r is Some ==> scopes_kept(
                final(self).module.scopes.pool@,
                old(self).module.scopes.pool@,
                old(self).current_scope_id.0 as int,
            ),
            old(self).current_scope_id.0 == 0 && (forall|k: int|
                0 <= k < ast@.len() ==> trivial_function(*#[trigger] ast@[k])) ==> r is Some
                && final(self).diagnostics == old(self).diagnostics,
            old(self).current_scope_id.0 == 0 && (forall|k: int|
                0 <= k < ast@.len() ==> bare_stmt(*#[trigger] ast@[k])) ==> final(self).module.symbols
                == old(self).module.symbols,
    {
        let mut i: usize = 0;
        proof {
            self.lemma_extends_refl();
        }
        let ghost cur = self.current_scope_id.0 as int;
        while i < ast.len()
            invariant
                i <= ast@.len(),
                self.extends(old(self)),
                analyzable_stmts(ast@),
                cur == old(self).current_scope_id.0,
                self.current_scope_id == old(self).current_scope_id,
                scopes_kept(self.module.scopes.pool@, old(self).module.scopes.pool@, cur),
                resolved_stmts(ast@.take(i as int), self.module.symbols.key_map().dom()),
                cur == 0 && (forall|k: int| 0 <= k < ast@.len() ==> trivial_function(*#[trigger] ast@[k]))
                    ==> self.diagnostics == old(self).diagnostics,
                cur == 0 && (forall|k: int| 0 <= k < ast@.len() ==> bare_stmt(*#[trigger] ast@[k]))
                    ==> self.module.symbols == old(self).module.symbols,
            decreases ast@.len() - i,
        {
            proof {
                lemma_analyzable_stmts_index(ast@, i as int);
                if cur == 0 && (forall|k: int| 0 <= k < ast@.len() ==> trivial_function(*#[trigger] ast@[k])) {
                    assert(trivial_function(*ast@[i as int]));
                }
                if cur == 0 && (forall|k: int| 0 <= k < ast@.len() ==> bare_stmt(*#[trigger] ast@[k])) {
                    assert(bare_stmt(*ast@[i as int]));
                }
            }
            let ghost before = *self;
            let res = self.check_statement(&ast[i]);
            proof {
                self.lemma_extends_trans(&before, old(self));
                if res is Some {
                    lemma_scopes_kept_trans(
                        self.module.scopes.pool@,
                        before.module.scopes.pool@,
                        old(self).module.scopes.pool@,
                        cur,
                    );
                }
            }
            if res.is_none() {
                return None;
            }
            proof {
                lemma_resolved_stmts_mono(
                    ast@.take(i as int),
                    before.module.symbols.key_map().dom(),
                    self.module.symbols.key_map().dom(),
                );
                assert(ast@.take(i + 1).drop_last() =~= ast@.take(i as int));
                assert(ast@.take(i + 1).last() == ast@[i as int]);
            }
            i = i + 1;
        }
        proof {
            assert(ast@.take(i as int) =~= ast@);
        }
        Some(())
    }

    /// Checks one statement.  On success only the current scope may have changed, and
    /// it is still current.
    fn check_statement(&mut self, stmt: &Stmt) -> (r: Option<()>)
        requires
            old(self).wf(),
            analyzable_stmt(*stmt),
        ensures
            r is Some ==> resolved_stmt(*stmt, final(self).module.symbols.key_map().dom()),
            final(self).extends(old(self)),
            r is None ==> final(self).diagnostics@.len() > old(self).diagnostics@.len(),
            r is Some ==> final(self).current_scope_id == old(self).current_scope_id,
            r is Some ==> scopes_kept(
                final(self).module.scopes.pool@,
                old(self).module.scopes.pool@,
                old(self).current_scope_id.0 as int,
            ),
            old(self).current_scope_id.0 == 0 && trivial_function(*stmt) ==> r is Some
                && final(self).diagnostics == old(self).diagnostics,
            old(self).current_scope_id.0 == 0 && bare_stmt(*stmt) ==> final(self).module.symbols == old(
                self,
            ).module.symbols,
        decreases stmt,
    {
        match &stmt.data {
            StmtData::FunctionDefinition(function) => self.check_function(function),
            StmtData::VariableDecl(vardecl) => self.check_vardecl(vardecl),
            StmtData::Return(ret) => self.check_return(ret),
            StmtData::Expr(expr) => {
                let r = self.check_expression(expr);
                r
            },
            _ => None,
        }
    }

    /// Checks a function definition.  Outside the global scope (where top-level
    /// functions were bound beforehand) a visible definition of the same name is
    /// reported; otherwise the name is bound in the current scope.  The parameters are
    /// bound in a new function scope, in which the body is checked.
    fn check_function(&mut self, function: &FunctionDefinition) -> (r: Option<()>)
        requires
            old(self).wf(),
            match function.body {
                Some(b) => analyzable_expr(*b),
                None => true,
            },
        ensures
            r is Some ==> match function.body {
                Some(b) => resolved_expr(*b, final(self).module.symbols.key_map().dom()),
                None => true,
            },
            final(self).extends(old(self)),
            r is None ==> final(self).diagnostics@.len() > old(self).diagnostics@.len(),
            r is Some ==> final(self).current_scope_id == old(self).current_scope_id,
            r is Some ==> scopes_kept(
                final(self).module.scopes.pool@,
                old(self).module.scopes.pool@,
                old(self).current_scope_id.0 as int,
            ),
            old(self).current_scope_id.0 != 0 && lookup(
                old(self).module.scopes.pool@,
                old(self).current_scope_id.0 as int,
                function.name.value@,
            ) is Some ==> r is None && final(self).module == old(self).module
                && final(self).diagnostics@.len() == old(self).diagnostics@.len() + 1,
            (old(self).current_scope_id.0 == 0 || lookup(
                old(self).module.scopes.pool@,
                old(self).current_scope_id.0 as int,
                function.name.value@,
            ) is None) && (match function.body {
                Some(b) => trivially_resolved(*b),
                None => true,
            }) ==> r is Some && final(self).diagnostics == old(self).diagnostics,
            r is Some ==> forall|j: int|
                0 <= j < function.prototype.parameters@.len() ==> binds_parameter(
                    #[trigger] final(self).module.symbols.pool@[old(self).module.symbols.pool@.len() + j],
                    function.prototype.parameters@[j],
                ),
            r is Some ==> forall|j: int|
                0 <= j < function.prototype.parameters@.len() ==> final(self).module.symbols.key_map().contains_key(
                    (#[trigger] function.prototype.parameters@[j]).name.span,
                ),
            old(self).current_scope_id.0 == 0 && function.prototype.parameters@.len() == 0 && (match function.body {
                Some(b) => trivially_resolved(*b),
                None => true,
            }) ==> final(self).module.symbols == old(self).module.symbols,
            r is Some && old(self).current_scope_id.0 != 0 ==> final(self).module.scopes.pool@[old(self).current_scope_id.0 as int].bindings().contains_key(
                function.name.value@,
            ),
        decreases function,
    {
        let current_scope_id = self.current_scope_id();
        if current_scope_id.0 != 0 {
            if let Some(id) = self.find_id_in_scope(current_scope_id, function.name.value.as_str()) {
                let first_defined = match self.get_symbol(id) {
                    Some(sym) => Some(sym.defined_at),
                    None => None,
                };
                let diag = redefinition_of_symbol(&function.name, first_defined);
                self.emit_diag(diag);
                return None;
            }
        }
        let ghost start = *self;
        self.enter_new_scope(ScopeFlag::Function);
        let new_scope_id = self.current_scope_id();
        let mut parameter_names: ParameterNames = Vec::new();
        let mut index: usize = 0;
        while index < function.prototype.parameters.len()
            invariant
                index <= function.prototype.parameters@.len(),
                self.wf(),
                self.diagnostics == start.diagnostics,
                start.module.symbols.key_map().dom().subset_of(self.module.symbols.key_map().dom()),
                self.current_scope_id == new_scope_id,
                new_scope_id.0 == start.module.scopes.pool@.len(),
                self.module.scopes.pool@.len() == start.module.scopes.pool@.len() + 1,
                self.module.scopes.pool@.subrange(0, new_scope_id.0 as int)
                    == start.module.scopes.pool@,
                self.module.scopes.pool@[new_scope_id.0 as int].parent == Some(current_scope_id),
                symbols_kept(self.module.symbols.pool@, start.module.symbols.pool@),
                self.module.symbols.pool@.len() == start.module.symbols.pool@.len() + index,
                function.prototype.parameters@.len() == 0 ==> self.module.symbols == start.module.symbols,
                forall|j: int|
                    0 <= j < index ==> binds_parameter(
                        #[trigger] self.module.symbols.pool@[start.module.symbols.pool@.len() + j],
                        function.prototype.parameters@[j],
                    ),
                forall|j: int|
                    0 <= j < index ==> self.module.symbols.key_map().contains_key(
                        (#[trigger] function.prototype.parameters@[j]).name.span,
                    ),
            decreases function.prototype.parameters@.len() - index,
        {
            let param = &function.prototype.parameters[index];
            let ghost mid = self.module.scopes.pool@;
            self.add_new_empty_symbol_to_scope(
                &param.name,
                new_scope_id,
                SymbolData::new_var_data(new_scope_id),
            );
            assert(self.module.scopes.pool@.subrange(0, new_scope_id.0 as int)
                =~= mid.subrange(0, new_scope_id.0 as int));
            parameter_names.push((param.name.clone(), index));
            index = index + 1;
        }
        if current_scope_id.0 != 0 {
            let ghost mid = self.module.scopes.pool@;
            self.add_new_empty_symbol_to_scope(
                &function.name,
                current_scope_id,
                SymbolData::new_function_data(parameter_names, Vec::new()),
            );
            assert(self.module.scopes.pool@[new_scope_id.0 as int] == mid[new_scope_id.0 as int]);
        }
        let ghost outer = self.module.scopes.pool@.subrange(0, new_scope_id.0 as int);
        assert(scopes_kept(outer, start.module.scopes.pool@, current_scope_id.0 as int));
        let ghost inner = *self;
        proof {
            inner.lemma_extends_refl_from(old(self));
        }
        if let Some(body) = &function.body {
            let res = self.check_expression(body);
            proof {
                self.lemma_extends_trans(&inner, old(self));
            }
            if res.is_none() {
                return None;
            }
        }
        let ghost before = *self;
        self.leave_scope();
        assert(self.module.scopes.pool@ =~= outer);
        proof {
            self.lemma_extends_refl_from(&before);
            self.lemma_extends_trans(&before, old(self));
        }
        Some(())
    }

    fn check_return(&mut self, ret: &Return) -> (r: Option<()>)
        requires
            old(self).wf(),
            analyzable_expr(*ret.expr),
        ensures
            r is Some ==> resolved_expr(*ret.expr, final(self).module.symbols.key_map().dom()),
            final(self).extends(old(self)),
            r is None ==> final(self).diagnostics@.len() > old(self).diagnostics@.len(),
            r is Some ==> final(self).current_scope_id == old(self).current_scope_id,
            r is Some ==> final(self).module.scopes.pool@ == old(self).module.scopes.pool@,
        decreases ret,
    {
        self.check_expression(&ret.expr)
    }

    /// Checks a variable declaration: a second definition in the same scope is
    /// reported (one in an enclosing scope is shadowed); otherwise the initializer is
    /// checked and the name bound in the current scope.
    fn check_vardecl(&mut self, vardecl: &VariableDecl) -> (r: Option<()>)
        requires
            old(self).wf(),
            analyzable_expr(*vardecl.initializer),
        ensures
            r is Some ==> resolved_expr(*vardecl.initializer, final(self).module.symbols.key_map().dom()),
            final(self).extends(old(self)),
            r is None ==> final(self).diagnostics@.len() > old(self).diagnostics@.len(),
            r is Some ==> final(self).current_scope_id == old(self).current_scope_id,
            r is Some ==> scopes_kept(
                final(self).module.scopes.pool@,
                old(self).module.scopes.pool@,
                old(self).current_scope_id.0 as int,
            ),
            r is Some ==> final(self).module.scopes.pool@[old(
                self,
            ).current_scope_id.0 as int].bindings().contains_key(vardecl.name.value@),
            r is Some ==> ({
                let id = final(self).module.scopes.pool@[old(self).current_scope_id.0 as int].bindings()[vardecl.name.value@];
                &&& id.0 + 1 == final(self).module.symbols.pool@.len()
                &&& final(self).module.symbols.pool@[id.0 as int].defined_at == vardecl.name.span
                &&& final(self).module.symbols.pool@[id.0 as int].data is Variable
                &&& final(self).module.symbols.key_map()[vardecl.name.span] == id.0
            }),
            shallow_lookup(
                old(self).module.scopes.pool@,
                old(self).current_scope_id.0 as int,
                vardecl.name.value@,
            ) is None && (trivially_resolved(*vardecl.initializer) || visible_names(
                old(self).module.scopes.pool@,
                old(self).current_scope_id.0 as int,
                *vardecl.initializer,
            )) ==> r is Some,
            match shallow_lookup(
                old(self).module.scopes.pool@,
                old(self).current_scope_id.0 as int,
                vardecl.name.value@,
            ) {
                Some(id) => {
                    &&& r is None
                    &&& final(self).module == old(self).module
                    &&& final(self).diagnostics@.len() == old(self).diagnostics@.len() + 1
                    &&& final(self).diagnostics@.last()@ == redefinition_view(
                        vardecl.name,
                        first_defined_at(old(self).module, id),
                    )
                },
                None => true,
            },
        decreases vardecl,
    {
        let current_scope_id = self.current_scope_id();
        if let Some(id) = self.find_id_in_scope_shallow(current_scope_id, vardecl.name.value.as_str()) {
            let first_defined = match self.get_symbol(id) {
                Some(sym) => Some(sym.defined_at),
                None => None,
            };
            let diag = redefinition_of_symbol(&vardecl.name, first_defined);
            self.emit_diag(diag);
            return None;
        }
        let ghost start = *self;
        let res = self.check_expression(&vardecl.initializer);
        if res.is_none() {
            return None;
        }
        let ghost mid = *self;
        self.add_new_empty_symbol_to_scope(
            &vardecl.name,
            current_scope_id,
            SymbolData::new_var_data(current_scope_id),
        );
        proof {
            assert(self.module.symbols.pool.len() == self.module.symbols.pool@.len());
            self.lemma_extends_refl_from(&mid);
            self.lemma_extends_trans(&mid, old(self));
            lemma_resolved_expr_mono(
                *vardecl.initializer,
                mid.module.symbols.key_map().dom(),
                self.module.symbols.key_map().dom(),
            );
        }
        Some(())
    }

    /// Checks an expression.  On success the scope table and the current scope are
    /// as before.
    fn check_expression(&mut self, expr: &Expr) -> (r: Option<()>)
        requires
            old(self).wf(),
            analyzable_expr(*expr),
        ensures
            r is Some ==> resolved_expr(*expr, final(self).module.symbols.key_map().dom()),
            final(self).extends(old(self)),
            r is None ==> final(self).diagnostics@.len() > old(self).diagnostics@.len(),
            r is Some ==> final(self).current_scope_id == old(self).current_scope_id,
            r is Some ==> final(self).module.scopes.pool@ == old(self).module.scopes.pool@,
            trivially_resolved(*expr) ==> r is Some && final(self).diagnostics == old(self).diagnostics
                && final(self).module.symbols == old(self).module.symbols,
            visible_names(old(self).module.scopes.pool@, old(self).current_scope_id.0 as int, *expr)
                ==> r is Some && final(self).diagnostics == old(self).diagnostics,
        decreases expr,
    {
        match &expr.data {
            ExprData::Block(block) => self.check_block_expr_(expr.span, block),
            ExprData::Identifier(name) => self.check_identifier(expr.span, name),
            ExprData::Integer(_) => {
                proof {
                    self.lemma_extends_refl();
                }
                Some(())
            },
            ExprData::Call(call) => self.check_call(call),
            ExprData::BinaryOperation(binop) => self.check_binop(binop),
            _ => None,
        }
    }

    /// Checks a block in a new plain scope, mapping the block's span to that scope.
    fn check_block_expr_(&mut self, span: Span, block: &Block) -> (r: Option<()>)
        requires
            old(self).wf(),
            analyzable_block(*block),
        ensures
            r is Some ==> resolved_block(*block, final(self).module.symbols.key_map().dom()),
            final(self).extends(old(self)),
            r is None ==> final(self).diagnostics@.len() > old(self).diagnostics@.len(),
            r is Some ==> final(self).current_scope_id == old(self).current_scope_id,
            r is Some ==> final(self).module.scopes.pool@ == old(self).module.scopes.pool@,
            block.stmts@.len() == 0 ==> r is Some && final(self).diagnostics == old(self).diagnostics
                && final(self).module.symbols == old(self).module.symbols,
        decreases block,
    {
        self.enter_new_scope(ScopeFlag::Plain);
        let current_scope_id = self.current_scope_id();
        self.map_locus_to_scope(span, current_scope_id);
        proof {
            self.lemma_extends_refl_from(old(self));
            assert(block.stmts@.take(0) =~= Seq::<StmtRef>::empty());
        }
        let mut i: usize = 0;
        while i < block.stmts.len()
            invariant
                i <= block.stmts@.len(),
                self.extends(old(self)),
                analyzable_stmts(block.stmts@),
                self.current_scope_id == current_scope_id,
                current_scope_id.0 == old(self).module.scopes.pool@.len(),
                self.module.scopes.pool@.len() == old(self).module.scopes.pool@.len() + 1,
                self.module.scopes.pool@.subrange(0, current_scope_id.0 as int)
                    == old(self).module.scopes.pool@,
                self.module.scopes.pool@[current_scope_id.0 as int].parent == Some(
                    old(self).current_scope_id,
                ),
                resolved_stmts(block.stmts@.take(i as int), self.module.symbols.key_map().dom()),
                block.stmts@.len() == 0 ==> self.diagnostics == old(self).diagnostics
                    && self.module.symbols == old(self).module.symbols,
            decreases block.stmts@.len() - i,
        {
            proof {
                lemma_analyzable_stmts_index(block.stmts@, i as int);
                assert(decreases_to!(block => block.stmts));
                assert(decreases_to!(block.stmts => block.stmts@));
                assert(decreases_to!(block.stmts@ => block.stmts@[i as int]));
            }
            let ghost before = *self;
            let res = self.check_statement(&block.stmts[i]);
            proof {
                self.lemma_extends_trans(&before, old(self));
            }
            if res.is_none() {
                return None;
            }
            assert(self.module.scopes.pool@.subrange(0, current_scope_id.0 as int)
                =~= before.module.scopes.pool@.subrange(0, current_scope_id.0 as int));
            proof {
                lemma_resolved_stmts_mono(
                    block.stmts@.take(i as int),
                    before.module.symbols.key_map().dom(),
                    self.module.symbols.key_map().dom(),
                );
                assert(block.stmts@.take(i + 1).drop_last() =~= block.stmts@.take(i as int));
                assert(block.stmts@.take(i + 1).last() == block.stmts@[i as int]);
            }
            i = i + 1;
        }
        proof {
            assert(block.stmts@.take(i as int) =~= block.stmts@);
        }
        let ghost before = *self;
        self.leave_scope();
        assert(self.module.scopes.pool@ =~= old(self).module.scopes.pool@);
        proof {
            self.lemma_extends_refl_from(&before);
            self.lemma_extends_trans(&before, old(self));
        }
        Some(())
    }

    /// Resolves a name used at `span` to the symbol it refers to from the current
    /// scope and records it, or reports that no definition of it is visible.
    fn check_identifier(&mut self, span: Span, name: &String) -> (r: Option<()>)
        requires
            old(self).wf(),
        ensures
            final(self).extends(old(self)),
            final(self).current_scope_id == old(self).current_scope_id,
            final(self).module.scopes == old(self).module.scopes,
            final(self).module.symbols.pool@ == old(self).module.symbols.pool@,
            match lookup(
                old(self).module.scopes.pool@,
                old(self).current_scope_id.0 as int,
                name@,
            ) {
                Some(id) => {
                    &&& r is Some
                    &&& final(self).diagnostics == old(self).diagnostics
                    &&& final(self).module.symbols.key_map() == old(
                        self,
                    ).module.symbols.key_map().insert(span, id.0)
                },
                None => {
                    &&& r is None
                    &&& final(self).module == old(self).module
                    &&& final(self).diagnostics@.len() == old(self).diagnostics@.len() + 1
                    &&& final(self).diagnostics@.last()@ == undefined_symbol_view(span, name@)
                },
            },
    {
        match self.get_symbol_id_from_name(name.as_str()) {
            Some(sym_id) => {
                self.map_locus_to_symbol(span, sym_id);
                proof {
                    self.lemma_extends_refl_from(old(self));
                }
                Some(())
            },
            None => {
                let mut label = string_of("cannot find symbol named `");
                label.append(name.as_str());
                label.append("` in current scope");
                let diag = crate::diagnostics::error_at("undefined symbol", span, label);
                self.emit_diag(diag);
                None
            },
        }
    }

    /// Checks the callee, then each argument's value in order.  Named arguments are
    /// not matched against the callee's parameters here.
    fn check_call(&mut self, call: &Call) -> (r: Option<()>)
        requires
            old(self).wf(),
            analyzable_expr(*call.callee),
            analyzable_args(call.arguments@),
        ensures
            r is Some ==> resolved_expr(*call.callee, final(self).module.symbols.key_map().dom()) && resolved_args(call.arguments@, final(self).module.symbols.key_map().dom()),
            final(self).extends(old(self)),
            r is None ==> final(self).diagnostics@.len() > old(self).diagnostics@.len(),
            r is Some ==> final(self).current_scope_id == old(self).current_scope_id,
            r is Some ==> final(self).module.scopes.pool@ == old(self).module.scopes.pool@,
            visible_names(old(self).module.scopes.pool@, old(self).current_scope_id.0 as int, *call.callee)
                && visible_args(old(self).module.scopes.pool@, old(self).current_scope_id.0 as int, call.arguments@)
                ==> r is Some && final(self).diagnostics == old(self).diagnostics,
        decreases call,
    {
        let ghost vis = visible_names(old(self).module.scopes.pool@, old(self).current_scope_id.0 as int, *call.callee)
            && visible_args(old(self).module.scopes.pool@, old(self).current_scope_id.0 as int, call.arguments@);
        let res = self.check_expression(&call.callee);
        if res.is_none() {
            return None;
        }
        let mut i: usize = 0;
        proof {
            assert(call.arguments@.take(0) =~= Seq::<CallArgument>::empty());
        }
        while i < call.arguments.len()
            invariant
                i <= call.arguments@.len(),
                self.extends(old(self)),
                analyzable_args(call.arguments@),
                self.current_scope_id == old(self).current_scope_id,
                self.module.scopes.pool@ == old(self).module.scopes.pool@,
                resolved_expr(*call.callee, self.module.symbols.key_map().dom()),
                resolved_args(call.arguments@.take(i as int), self.module.symbols.key_map().dom()),
                vis == (visible_names(old(self).module.scopes.pool@, old(self).current_scope_id.0 as int, *call.callee)
                    && visible_args(old(self).module.scopes.pool@, old(self).current_scope_id.0 as int, call.arguments@)),
                vis ==> self.diagnostics == old(self).diagnostics,
            decreases call.arguments@.len() - i,
        {
            proof {
                if vis {
                    lemma_visible_args_index(
                        old(self).module.scopes.pool@,
                        old(self).current_scope_id.0 as int,
                        call.arguments@,
                        i as int,
                    );
                }
                lemma_analyzable_args_index(call.arguments@, i as int);
                assert(decreases_to!(call => call.arguments));
                assert(decreases_to!(call.arguments => call.arguments@));
                assert(decreases_to!(call.arguments@ => call.arguments@[i as int]));
            }
            let ghost before = *self;
            let res = match &call.arguments[i] {
                CallArgument::Assign(_name, value) => self.check_expression(value),
                CallArgument::Expr(value) => self.check_expression(value),
            };
            proof {
                self.lemma_extends_trans(&before, old(self));
            }
            if res.is_none() {
                return None;
            }
            proof {
                let a = before.module.symbols.key_map().dom();
                let b = self.module.symbols.key_map().dom();
                lemma_resolved_expr_mono(*call.callee, a, b);
                lemma_resolved_args_mono(call.arguments@.take(i as int), a, b);
                assert(call.arguments@.take(i + 1).drop_last() =~= call.arguments@.take(i as int));
                assert(call.arguments@.take(i + 1).last() == call.arguments@[i as int]);
            }
            i = i + 1;
        }
        proof {
            assert(call.arguments@.take(i as int) =~= call.arguments@);
        }
        Some(())
    }

    /// Checks the left operand, then the right.
    fn check_binop(&mut self, binop: &crate::ast::BinaryOperation) -> (r: Option<()>)
        requires
            old(self).wf(),
            analyzable_expr(*binop.left),
            analyzable_expr(*binop.right),
        ensures
            r is Some ==> resolved_expr(*binop.left, final(self).module.symbols.key_map().dom()) && resolved_expr(*binop.right, final(self).module.symbols.key_map().dom()),
            final(self).extends(old(self)),
            r is None ==> final(self).diagnostics@.len() > old(self).diagnostics@.len(),
            r is Some ==> final(self).current_scope_id == old(self).current_scope_id,
            r is Some ==> final(self).module.scopes.pool@ == old(self).module.scopes.pool@,
            visible_names(old(self).module.scopes.pool@, old(self).current_scope_id.0 as int, *binop.left)
                && visible_names(old(self).module.scopes.pool@, old(self).current_scope_id.0 as int, *binop.right)
                ==> r is Some && final(self).diagnostics == old(self).diagnostics,
        decreases binop,
    {
        let res = self.check_expression(&binop.left);
        if res.is_none() {
            return None;
        }
        let ghost mid = *self;
        let res = self.check_expression(&binop.right);
        proof {
            self.lemma_extends_trans(&mid, old(self));
            if res is Some {
                lemma_resolved_expr_mono(
                    *binop.left,
                    mid.module.symbols.key_map().dom(),
                    self.module.symbols.key_map().dom(),
                );
            }
        }
        res
    }
}


/// Whether the analysis handles `e`.
#[verifier::loop_isolation(false)]
pub fn expr_analyzable(e: &Expr) -> (r: bool)
    ensures
        r == analyzable_expr(*e),
    decreases e,
{
    match &e.data {
        ExprData::Block(b) => {
            let r = stmts_analyzable(&b.stmts);
            assert(analyzable_block(*b) == analyzable_stmts(b.stmts@));
            r
        },
        ExprData::Identifier(_) => true,
        ExprData::Integer(_) => true,
        ExprData::Call(c) => {
            if !expr_analyzable(&c.callee) {
                return false;
            }
            let mut ok = true;
            let mut i: usize = 0;
            while i < c.arguments.len()
                invariant
                    i <= c.arguments@.len(),
                    ok == analyzable_args(c.arguments@.take(i as int)),
                decreases c.arguments@.len() - i,
            {
                proof {
                    assert(decreases_to!(*e => e.data));
                    assert(decreases_to!(c.arguments => c.arguments@));
                    assert(decreases_to!(c.arguments@ => c.arguments@[i as int]));
                    assert(c.arguments@.take(i + 1).drop_last() =~= c.arguments@.take(i as int));
                }
                let this = match &c.arguments[i] {
                    CallArgument::Expr(v) => expr_analyzable(v),
                    CallArgument::Assign(_, v) => expr_analyzable(v),
                };
                ok = ok && this;
                i = i + 1;
            }
            assert(c.arguments@.take(c.arguments@.len() as int) =~= c.arguments@);
            ok
        },
        ExprData::BinaryOperation(b) => expr_analyzable(&b.left) && expr_analyzable(&b.right),
        _ => false,
    }
}

/// Whether the analysis handles `s`.
pub fn stmt_analyzable(s: &Stmt) -> (r: bool)
    ensures
        r == analyzable_stmt(*s),
    decreases s,
{
    match &s.data {
        StmtData::FunctionDefinition(f) => match &f.body {
            Some(b) => expr_analyzable(b),
            None => true,
        },
        StmtData::VariableDecl(v) => expr_analyzable(&v.initializer),
        StmtData::Return(r) => expr_analyzable(&r.expr),
        StmtData::Expr(e) => expr_analyzable(e),
        _ => false,
    }
}

/// Whether the analysis handles every statement of `stmts`.
#[verifier::loop_isolation(false)]
pub fn stmts_analyzable(stmts: &Vec<StmtRef>) -> (r: bool)
    ensures
        r == analyzable_stmts(stmts@),
    decreases stmts,
{
    let mut ok = true;
    let mut i: usize = 0;
    while i < stmts.len()
        invariant
            i <= stmts@.len(),
            ok == analyzable_stmts(stmts@.take(i as int)),
        decreases stmts@.len() - i,
    {
        proof {
            assert(decreases_to!(stmts => stmts@));
            assert(decreases_to!(stmts@ => stmts@[i as int]));
            assert(stmts@.take(i + 1).drop_last() =~= stmts@.take(i as int));
        }
        let this = stmt_analyzable(&stmts[i]);
        ok = ok && this;
        i = i + 1;
    }
    assert(stmts@.take(stmts@.len() as int) =~= stmts@);
    ok
}

/// Whether [`SymbolAnalyzer::run`] handles `ast`: only function definitions at the top
/// level, every statement and expression in them handled.
pub fn ast_analyzable(ast: &Ast) -> (r: bool)
    ensures
        r == (analyzable_stmts(ast@) && forall|i: int|
            0 <= i < ast@.len() ==> (#[trigger] ast@[i]).data is FunctionDefinition),
{
    let mut i: usize = 0;
    while i < ast.len()
        invariant
            i <= ast@.len(),
            forall|j: int| 0 <= j < i ==> (#[trigger] ast@[j]).data is FunctionDefinition,
        decreases ast@.len() - i,
    {
        if let StmtData::FunctionDefinition(_) = &ast[i].data {
        } else {
            return false;
        }
        i = i + 1;
    }
    stmts_analyzable(ast)
}

/// A name resolves to its binding in the nearest enclosing scope that binds it: when
/// the scope itself binds the name, that binding wins over any outer one; otherwise
/// the name resolves as it does from the parent scope.
pub proof fn law_lookup_nearest(scopes: Seq<Scope>, id: int, name: Seq<char>)
    requires
        0 <= id < scopes.len(),
    ensures
        scopes[id].bindings().contains_key(name) ==> lookup(scopes, id, name) == Some(
            scopes[id].bindings()[name],
        ),
        !scopes[id].bindings().contains_key(name) ==> lookup(scopes, id, name) == match scopes[id].parent {
            Some(p) => if p.0 < id {
                lookup(scopes, p.0 as int, name)
            } else {
                None
            },
            None => None,
        },
        shallow_lookup(scopes, id, name) is Some ==> lookup(scopes, id, name) == shallow_lookup(
            scopes,
            id,
            name,
        ),
{
}
} // verus!
