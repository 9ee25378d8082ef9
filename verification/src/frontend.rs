//! The compiler driver's choice of output.

use vstd::prelude::*;

use crate::backend::cgenerator::{c_generatable, c_ready, c_source, separator_line, Cgenerator};
use crate::backend::TargetKind;
use crate::diagnostics::{Diagnostic, Severity};
use crate::ast::StmtRef;
use crate::ir::declares;
use crate::ir::lower::{
    ast_lowerable, bare_function_def, bare_program, declared_if_lowered, fn_name, fn_name_span,
    id_lowers, id_lowers_to, lowerable_ast, lowerable_stmts, lowered_bare, lowers_at, name_lowers,
    IrLowerer,
};
use crate::ir::function::IrType;
use crate::ir::{GlobalValue, IrModule};
use crate::module::Module;
use crate::parser::Parser;
use crate::span::SourceId;
use crate::parser::{
    count_empty_functions, empty_fn_name, empty_functions_from, is_empty_function, splits_into,
};
use crate::symbol_analyzer::{
    analyzable_stmts, ast_analyzable, bare_stmt, defined_name, fresh_names, lookup, names_recorded,
    scopes_wf, trivial_function, SymbolAnalyzer,
};
use crate::text::{string_of, utf8_len};
use crate::token::TokenKind;
use crate::token_stream::{lex_source, outcome_errors, outcome_tokens, TokenStream};
use crate::type_checker::{
    checkable_stmts, fn_typed_void, function_ids, names_typed, nop_function, ready_stmts,
    simple_function, stmts_checkable, stmts_symbols_ready, types_acyclic, TypeChecker, TYPEID_VOID,
};
use crate::layout::TypeKind;

verus! {

/// What the driver is asked to produce.
#[derive(Debug, Clone, Copy, PartialEq, Eq, Structural, Default)]
pub enum Target {
    #[default]
    Executable,
    Ccode,
}

impl Target {
    pub fn to_backend_target(self) -> (r: TargetKind)
        ensures
            r == match self {
                Target::Executable => TargetKind::Executable,
                Target::Ccode => TargetKind::Ccode,
            },
    {
        match self {
            Target::Executable => TargetKind::Executable,
            Target::Ccode => TargetKind::Ccode,
        }
    }

    /// The target named `s`: `c-code` or `exe`.
    pub fn from_name(s: &str) -> (r: Result<Target, String>)
        ensures
            s@ == "c-code"@ ==> r == Ok::<Target, String>(Target::Ccode),
            s@ == "exe"@ ==> r == Ok::<Target, String>(Target::Executable),
            s@ != "c-code"@ && s@ != "exe"@ ==> (r matches Err(e) && e@ == "`"@ + s@
                + "` is not a valid target"@),
    {
        proof {
            reveal_strlit("c-code");
            reveal_strlit("exe");
            assert("c-code"@.len() == 6);
            assert("exe"@.len() == 3);
        }
        if crate::text::str_eq(s, "c-code") {
            Ok(Target::Ccode)
        } else if crate::text::str_eq(s, "exe") {
            Ok(Target::Executable)
        } else {
            let mut e = string_of("`");
            e.append(s);
            e.append("` is not a valid target");
            Err(e)
        }
    }
}

/// The C source of a program with nothing in it: the headers, the two type definitions
/// every program gets, and the separators around the (empty) declarations.
pub open spec fn empty_c_source() -> Seq<char> {
    "#include <stdint.h>\n"@ + separator_line() + "typedef struct {} _unit;\n"@
        + "typedef void* _rawptr;\n"@ + separator_line()
}

/// The source's tokens are functions `fn name() {}` one after another, with pairwise
/// different names, none of them bound in the global scope of `module`.
pub open spec fn bare_source(source: Seq<char>, source_id: SourceId, module: Module) -> bool {
    let toks = outcome_tokens(lex_source(source, source_id));
    let n = count_empty_functions(toks, 0);
    &&& outcome_errors(lex_source(source, source_id)).len() == 0
    &&& empty_functions_from(toks, 0)
    &&& forall|i: int, j: int|
        0 <= i < j < n ==> empty_fn_name(toks, source, 0, i) != empty_fn_name(toks, source, 0, j)
    &&& forall|i: int|
        0 <= i < n ==> !module.scopes.pool@[0].bindings().contains_key(
            #[trigger] empty_fn_name(toks, source, 0, i),
        )
}

/// `source` lexes into functions `fn name() {}` only, and two of them share a name.
pub open spec fn repeated_source(source: Seq<char>, source_id: SourceId) -> bool {
    let toks = outcome_tokens(lex_source(source, source_id));
    &&& outcome_errors(lex_source(source, source_id)).len() == 0
    &&& empty_functions_from(toks, 0)
    &&& exists|i: int, j: int|
        0 <= i < j < count_empty_functions(toks, 0) && #[trigger] empty_fn_name(toks, source, 0, i)
            == #[trigger] empty_fn_name(toks, source, 0, j)
}

/// `m` holds, in order, one function for each function of a bare source: named as it
/// is, of the type of a function with no parameters returning the unit, whose only
/// instruction returns the unit.
pub open spec fn bare_module(m: IrModule, source: Seq<char>, source_id: SourceId) -> bool {
    let toks = outcome_tokens(lex_source(source, source_id));
    &&& m.globals().len() == count_empty_functions(toks, 0)
    &&& forall|i: int|
        0 <= i < m.globals().len() ==> {
            &&& lowered_bare(#[trigger] m.globals()[i], empty_fn_name(toks, source, 0, i), m.void_value())
            &&& m.globals()[i]->Function_0.type_ matches IrType::Function { return_type, parameter_type }
            &&& *return_type == IrType::Unit
            &&& parameter_type@.len() == 0
        }
}

/// Functions `fn name() {}` are handled by name resolution, type checking and lowering.
proof fn lemma_empty_functions_handled(ast: Seq<StmtRef>)
    requires
        forall|i: int| 0 <= i < ast.len() ==> is_empty_function(*#[trigger] ast[i]),
    ensures
        analyzable_stmts(ast),
        checkable_stmts(ast),
        lowerable_stmts(ast),
    decreases ast.len(),
{
    if ast.len() > 0 {
        let d = ast.drop_last();
        assert forall|j: int| 0 <= j < d.len() implies is_empty_function(*#[trigger] d[j]) by {
            assert(d[j] == ast[j]);
        }
        lemma_empty_functions_handled(d);
        let last = *ast[ast.len() - 1];
        assert(is_empty_function(last));
        assert(ast.last() == ast[ast.len() - 1]);
        let f = last.data->FunctionDefinition_0;
        let b = f.body->0;
        let blk = b.data->Block_0;
        assert(blk.stmts@.len() == 0);
        assert(analyzable_stmts(blk.stmts@));
        assert(checkable_stmts(blk.stmts@));
        assert(lowerable_stmts(blk.stmts@));
        assert(b.data == crate::ast::ExprData::Block(blk));
        assert(crate::symbol_analyzer::analyzable_block(blk));
        assert(crate::symbol_analyzer::analyzable_expr(*b));
        assert(crate::symbol_analyzer::analyzable_stmt(last));
        assert(crate::type_checker::checkable_expr(*b));
        assert(crate::ir::lower::lowerable_expr(*b));
        assert(crate::type_checker::checkable_params(f.prototype.parameters@));
        assert(crate::type_checker::checkable_function(f));
        assert(crate::type_checker::checkable_stmt(last));
        assert(crate::ir::lower::lowerable_stmt(last));
    }
}

/// Functions `fn name() {}` whose names carry function symbols have what type checking
/// needs from name resolution.
proof fn lemma_empty_functions_ready(m: Module, ast: Seq<StmtRef>)
    requires
        forall|i: int| 0 <= i < ast.len() ==> is_empty_function(*#[trigger] ast[i]),
        names_recorded(m, ast),
    ensures
        ready_stmts(m.symbols.key_map(), m.symbols.pool@.len(), function_ids(m.symbols.pool@), ast),
    decreases ast.len(),
{
    if ast.len() > 0 {
        let d = ast.drop_last();
        assert forall|j: int| 0 <= j < d.len() implies is_empty_function(*#[trigger] d[j]) by {
            assert(d[j] == ast[j]);
        }
        assert(names_recorded(m, d)) by {
            assert forall|j: int| 0 <= j < d.len() implies ({
                let span = (#[trigger] d[j]).data->FunctionDefinition_0.name.span;
                &&& m.symbols.key_map().contains_key(span)
                &&& m.symbols.key_map()[span] < m.symbols.pool@.len()
                &&& m.symbols.pool@[m.symbols.key_map()[span] as int].data is Function
            }) by {
                assert(d[j] == ast[j]);
            }
        }
        lemma_empty_functions_ready(m, d);
        assert(is_empty_function(*ast[ast.len() - 1]));
        let last = *ast[ast.len() - 1];
        assert(ast.last() == ast[ast.len() - 1]);
        let f = last.data->FunctionDefinition_0;
        let span = f.name.span;
        let b = f.body->0;
        let blk = b.data->Block_0;
        assert(b.data == crate::ast::ExprData::Block(blk));
        let keys = m.symbols.key_map();
        let n = m.symbols.pool@.len();
        let fns = function_ids(m.symbols.pool@);
        assert(ready_stmts(keys, n, fns, blk.stmts@));
        assert(crate::type_checker::ready_expr(keys, n, fns, *b));
        assert(crate::type_checker::ready_params(keys, n, fns, f.prototype.parameters@));
        assert(fns.contains(keys[span] as int));
        assert(crate::type_checker::ready_function(keys, n, fns, f));
        assert(crate::type_checker::ready_stmt(keys, n, fns, last));
    }
}

/// A function type returning `void` with no parameters, recorded in a well-formed type
/// table with the built-in types, has a representation.
proof fn lemma_fn_typed_lowers(m: Module, span: crate::span::Span)
    requires
        fn_typed_void(m, span),
        types_acyclic(m.types.pool@),
        TYPEID_VOID < m.types.pool@.len(),
        m.types.pool@[TYPEID_VOID as int].kind == TypeKind::Void,
    ensures
        lowers_at(m, span),
        forall|t: IrType|
            #[trigger] id_lowers_to(m.types.pool@, m.types.key_map()[span] as int, t) ==> (t matches IrType::Function {
                return_type,
                parameter_type,
            } && *return_type == IrType::Unit && parameter_type@.len() == 0),
{
    let id = m.types.key_map()[span] as int;
    let pool = m.types.pool@;
    assert(crate::type_checker::refs_below(pool[id].kind, id));
    assert(crate::ir::lower::kind_lowers(pool, pool[TYPEID_VOID as int].kind, TYPEID_VOID as int));
    assert(id_lowers(pool, TYPEID_VOID as int));
    if let TypeKind::Function { return_type, parameter_types, .. } = pool[id].kind {
        assert(return_type.0 < id);
        assert(crate::ir::lower::params_lower(pool, parameter_types@, id));
        assert(crate::ir::lower::kind_lowers(pool, pool[id].kind, id));
    }
    assert(id_lowers(pool, id));
    assert forall|t: IrType| #[trigger] id_lowers_to(m.types.pool@, id, t) implies (t matches IrType::Function {
        return_type,
        parameter_type,
    } && *return_type == IrType::Unit && parameter_type@.len() == 0) by {
        if let TypeKind::Function { return_type: r, parameter_types: ps, .. } = pool[id].kind {
            assert(crate::ir::lower::kind_lowers_to(pool, pool[id].kind, id, t));
            if let IrType::Function { return_type, parameter_type } = t {
                assert(id_lowers_to(pool, TYPEID_VOID as int, *return_type));
                assert(crate::ir::lower::kind_lowers_to(pool, pool[TYPEID_VOID as int].kind, TYPEID_VOID as int, *return_type));
                assert(crate::ir::lower::params_lower_to(pool, ps@, id, parameter_type@));
            }
        }
    }
}

/// `code` is the C source of module `m`, which declares a function for each statement
/// of `ast`, all of them function definitions, into which the tokens of `source`
/// split.
pub open spec fn compiled_from(
    source: Seq<char>,
    source_id: SourceId,
    ast: Seq<StmtRef>,
    m: IrModule,
    code: Seq<char>,
) -> bool {
    &&& splits_into(outcome_tokens(lex_source(source, source_id)), 0, ast)
    &&& c_ready(m)
    &&& code == c_source(m)
    &&& forall|j: int|
        0 <= j < ast.len() ==> (#[trigger] ast[j]).data is FunctionDefinition && declares(
            m.globals(),
            defined_name(*ast[j]),
        )
}

/// `code` is the C source of a module compiled from `source`, as `compiled_from` says.
pub open spec fn compiles_to(source: Seq<char>, source_id: SourceId, code: Seq<char>) -> bool {
    exists|ast: Seq<StmtRef>, m: IrModule| #[trigger] compiled_from(source, source_id, ast, m, code)
}

/// Runs every pass over `source`, the text of source `source_id`, with `module` as the
/// module it is compiled into: lexing, parsing, name resolution, type checking, lowering
/// and C generation.  The first pass that reports diagnostics ends the run with them
/// (`Some(Err(..))`); a program that uses what a later pass does not handle gives
/// `None`; otherwise the result is the C source of the lowered module.
pub fn compile(source: &str, source_id: SourceId, module: Module) -> (r: Option<
    Result<String, Vec<Diagnostic>>,
>)
    requires
        utf8_len(source@) <= usize::MAX,
        scopes_wf(module),
        TypeChecker::module_wf(module),
    ensures
        outcome_errors(lex_source(source@, source_id)).len() > 0 ==> (r matches Some(Err(d))
            && d@.map_values(|x: Diagnostic| x@) == outcome_errors(lex_source(source@, source_id))),
        r is None ==> outcome_errors(lex_source(source@, source_id)).len() == 0,
        r matches Some(Err(d)) ==> d@.len() > 0,
        r matches Some(Ok(code)) ==> outcome_errors(lex_source(source@, source_id)).len() == 0
            && compiles_to(source@, source_id, code@),
        outcome_errors(lex_source(source@, source_id)).len() == 0 && ({
            let first = outcome_tokens(lex_source(source@, source_id))[0].kind;
            first is Separator || first is Operator
        }) ==> (r matches Some(Err(d)) && d@.len() > 0),
        outcome_errors(lex_source(source@, source_id)).len() == 0 && outcome_tokens(
            lex_source(source@, source_id),
        )[0].kind == TokenKind::EndOfFile ==> (r matches Some(Ok(code)) && code@ == empty_c_source()),
        bare_source(source@, source_id, module) ==> (r matches Some(Ok(code)) && exists|m: IrModule|
            code@ == c_source(m) && #[trigger] bare_module(m, source@, source_id)),
        repeated_source(source@, source_id) ==> (r matches Some(Err(d)) && d@.len() > 0 && forall|i: int|
            0 <= i < d@.len() ==> (#[trigger] d@[i])@.severity == Severity::Error),
{
    let ghost module0 = module;
    let ghost bare = bare_source(source@, source_id, module);
    let ghost repeated = repeated_source(source@, source_id);
    let ghost toks = outcome_tokens(lex_source(source@, source_id));
    let ts = match TokenStream::new(source, source_id) {
        Ok(ts) => ts,
        Err(diags) => {
            return Some(Err(diags));
        },
    };
    let mut parser = Parser::new(source, ts);
    let ast = match parser.parse() {
        Ok(ast) => ast,
        Err(diags) => {
            return Some(Err(diags));
        },
    };
    let ghost n = count_empty_functions(toks, 0);
    proof {
        if bare || repeated {
            assert(ast@.len() == n);
            lemma_empty_functions_handled(ast@);
            assert forall|i: int| 0 <= i < ast@.len() implies (#[trigger] ast@[i]).data is FunctionDefinition
                && defined_name(*ast@[i]) == empty_fn_name(toks, source@, 0, i) && fn_name(*ast@[i])
                == defined_name(*ast@[i]) by {
                assert(is_empty_function(*ast@[i]));
            }
        }
    }
    if !ast_analyzable(&ast) {
        return None;
    }
    let mut analyzer = SymbolAnalyzer::new(module);
    proof {
        if bare {
            assert forall|i: int| 0 <= i < ast@.len() implies trivial_function(*#[trigger] ast@[i]) && bare_stmt(
                *ast@[i],
            ) by {
                assert(is_empty_function(*ast@[i]));
                let b = ast@[i].data->FunctionDefinition_0.body->0;
                assert(crate::symbol_analyzer::trivially_resolved(*b));
            }
            assert forall|i: int| 0 <= i < ast@.len() implies lookup(
                module0.scopes.pool@,
                0,
                defined_name(*#[trigger] ast@[i]),
            ) is None by {
                assert(!module0.scopes.pool@[0].bindings().contains_key(empty_fn_name(toks, source@, 0, i)));
            }
            assert forall|i: int, j: int| 0 <= i < j < ast@.len() implies defined_name(*#[trigger] ast@[i])
                != defined_name(*#[trigger] ast@[j]) by {
                assert(empty_fn_name(toks, source@, 0, i) != empty_fn_name(toks, source@, 0, j));
            }
            assert(fresh_names(module0.scopes.pool@, 0, ast@));
        }
    }
    proof {
        if repeated {
            let (i, j) = choose|i: int, j: int|
                0 <= i < j < n && #[trigger] empty_fn_name(toks, source@, 0, i) == #[trigger] empty_fn_name(
                    toks,
                    source@,
                    0,
                    j,
                );
            assert(defined_name(*ast@[i]) == defined_name(*ast@[j]));
            assert(crate::symbol_analyzer::repeats_name(ast@, ast@.len() as int));
        }
    }
    if let Err(diags) = analyzer.run(&ast) {
        return Some(Err(diags));
    }
    let module = analyzer.into_module();
    proof {
        if bare {
            lemma_empty_functions_ready(module, ast@);
        }
    }
    if !stmts_checkable(&ast) || !stmts_symbols_ready(&module, &ast) {
        return None;
    }
    let mut checker = TypeChecker::new(module);
    proof {
        if bare {
            assert forall|i: int| 0 <= i < ast@.len() implies simple_function(*#[trigger] ast@[i]) && nop_function(
                *ast@[i],
            ) by {
                assert(is_empty_function(*ast@[i]));
                let b = ast@[i].data->FunctionDefinition_0.body->0;
                assert(crate::symbol_analyzer::trivially_resolved(*b));
            }
        }
    }
    let ghost pre_pool = checker.spec_module().types.pool@;
    if let Err(diags) = checker.run(&ast) {
        return Some(Err(diags));
    }
    let module = checker.into_module();
    proof {
        if bare {
            let pool = module.types.pool@;
            let bl = crate::type_checker::builtin_layouts() + pre_pool;
            assert(pool.subrange(0, bl.len() as int) == bl);
            assert(pool.subrange(0, bl.len() as int)[TYPEID_VOID as int] == pool[TYPEID_VOID as int]);
            assert(bl[TYPEID_VOID as int] == crate::type_checker::builtin_layouts()[TYPEID_VOID as int]);
            assert(pool[TYPEID_VOID as int] == crate::type_checker::builtin_layouts()[TYPEID_VOID as int]);
            assert forall|i: int| 0 <= i < ast@.len() implies lowers_at(module, fn_name_span(*#[trigger] ast@[i]))
                && bare_function_def(*ast@[i]) by {
                assert(is_empty_function(*ast@[i]));
                assert(fn_typed_void(module, ast@[i].data->FunctionDefinition_0.name.span));
                lemma_fn_typed_lowers(module, ast@[i].data->FunctionDefinition_0.name.span);
            }
        }
    }
    if !ast_lowerable(&ast) {
        return None;
    }
    let mut lowerer = IrLowerer::new(IrModule::new(string_of("root")), &module);
    if !lowerer.functions_lowerable(&ast) {
        return None;
    }
    let ghost tree = ast@;
    proof {
        if bare {
            assert(bare_program(module, tree));
        }
    }
    let _ = lowerer.lower_ast(ast);
    let ir_module = lowerer.into_ir_module();
    proof {
        if bare {
            assert forall|i: int| 0 <= i < ir_module.globals().len() implies crate::backend::cgenerator::global_ok(
                ir_module,
                #[trigger] ir_module.globals()[i],
            ) && (ir_module.globals()[i]->Function_0.type_ matches IrType::Function { return_type, parameter_type }
                && *return_type == IrType::Unit && parameter_type@.len() == 0) by {
                let sp = tree[i].data->FunctionDefinition_0.name.span;
                lemma_fn_typed_lowers(module, sp);
                assert(fn_name_span(*tree[i]) == sp);
                let f = ir_module.globals()[i]->Function_0;
                assert(id_lowers_to(module.types.pool@, module.types.key_map()[sp] as int, f.type_));
                assert(f.instructions@.len() == 1);
                assert(crate::backend::cgenerator::instruction_ok(ir_module, f.instructions@[0]));
            }
        }
    }
    if !c_generatable(&ir_module) {
        return None;
    }
    let code = Cgenerator::generate(&ir_module);
    proof {
        if bare {
            assert forall|i: int| 0 <= i < ir_module.globals().len() implies ({
                &&& lowered_bare(#[trigger] ir_module.globals()[i], empty_fn_name(toks, source@, 0, i), ir_module.void_value())
                &&& ir_module.globals()[i]->Function_0.type_ matches IrType::Function { return_type, parameter_type }
                &&& *return_type == IrType::Unit
                &&& parameter_type@.len() == 0
            }) by {
                assert(fn_name(*tree[i]) == empty_fn_name(toks, source@, 0, i));
            }
            assert(bare_module(ir_module, source@, source_id));
        }
    }
    proof {
        assert forall|j: int| 0 <= j < tree.len() implies (#[trigger] tree[j]).data is FunctionDefinition
            && declares(ir_module.globals(), defined_name(*tree[j])) by {
            assert(declared_if_lowered(module, *tree[j], ir_module.globals()));
            assert(name_lowers(module, *tree[j]));
        }
        assert(compiled_from(source@, source_id, tree, ir_module, code@));
        assert(compiles_to(source@, source_id, code@));
    }
    Some(Ok(code))
}

impl std::str::FromStr for Target {
    type Err = String;

    fn from_str(s: &str) -> (r: Result<Self, Self::Err>)
        ensures
            s@ == "c-code"@ ==> r == Ok::<Target, String>(Target::Ccode),
            s@ == "exe"@ ==> r == Ok::<Target, String>(Target::Executable),
            s@ != "c-code"@ && s@ != "exe"@ ==> (r matches Err(e) && e@ == "`"@ + s@
                + "` is not a valid target"@),
    {
        Target::from_name(s)
    }
}

} // verus!
