use qu::ast::Ast;
use qu::backend::cgenerator::{c_generatable, Cgenerator};
use qu::diagnostics::{Diagnostic, Severity};
use qu::ir::lower::IrLowerer;
use qu::ir::IrModule;
use qu::module::Module;
use qu::parser::Parser;
use qu::span::SourceId;
use qu::symbol_analyzer::SymbolAnalyzer;
use qu::token_stream::TokenStream;
use qu::type_checker::TypeChecker;

fn parse(source: &str) -> Result<Ast, Vec<Diagnostic>> {
    let ts = TokenStream::new(source, SourceId(0))?;
    let mut parser = Parser::new(source, ts);
    parser.parse()
}

fn analyze(ast: &Ast) -> Result<Module, Vec<Diagnostic>> {
    let mut analyzer = SymbolAnalyzer::new(Module::new());
    analyzer.run(ast)?;
    Ok(analyzer.into_module())
}

fn check(ast: &Ast, module: Module) -> (Result<(), Vec<Diagnostic>>, Module) {
    let mut checker = TypeChecker::new(module);
    let r = checker.run(ast);
    (r, checker.into_module())
}

fn label_texts(d: &Diagnostic) -> Vec<String> {
    d.labels().iter().map(|l| l.label().clone()).collect()
}

#[test]
fn compiles_a_function_to_c() {
    let source = "fn add(a: i32, b: i32) -> i32 { let c: i32 = a + b; return c; }";
    let ast = parse(source).expect("parses");
    assert_eq!(ast.len(), 1);
    let module = analyze(&ast).expect("names resolve");
    let (checked, module) = check(&ast, module);
    assert!(checked.is_ok());
    let mut lowerer = IrLowerer::new(IrModule::new("root".to_string()), &module);
    assert!(lowerer.lower_ast(ast).is_ok());
    let ir = lowerer.into_ir_module();
    assert!(c_generatable(&ir));
    let c = Cgenerator::generate(&ir);
    let sep = "/* =================================================================== */\n";
    let expected = format!(
        "#include <stdint.h>\n{sep}typedef struct {{}} _unit;\ntypedef void* _rawptr;\n\nint32_t add(int32_t param_0, int32_t param_1);\n{sep}\nint32_t add(int32_t param_0, int32_t param_1) {{\n    auto local_0 = (int32_t){{0}};\n    auto local_1 = (int32_t){{0}};\n    local_1 = param_0 + param_1;\n    local_0 = local_1;\n    return local_0;\n}}\n"
    );
    assert_eq!(c, expected);
}

#[test]
fn missing_semicolon_is_reported() {
    let errs = parse("fn f() { 1 }").unwrap_err();
    assert_eq!(errs.len(), 2);
    assert_eq!(errs[0].message(), "missing semicolon");
    assert_eq!(
        label_texts(&errs[0]),
        vec![
            "expected semicolon here".to_string(),
            "consider using `return 1;` to return the value".to_string()
        ]
    );
    assert_eq!(errs[1].message(), "unexpected token");
    assert_eq!(label_texts(&errs[1]), vec!["expected expression, got EndOfFile".to_string()]);
    assert!(errs.iter().all(|d| d.severity() == Severity::Error));
}

#[test]
fn unexpected_character_is_reported() {
    let errs = TokenStream::new("let x = $;", SourceId(0)).unwrap_err();
    assert_eq!(errs.len(), 1);
    assert_eq!(errs[0].message(), "unexpected character");
    assert_eq!(label_texts(&errs[0]), vec!["unexpected character `$`".to_string()]);
}

#[test]
fn undefined_symbol_is_reported() {
    let ast = parse("fn f() { let x: i32 = y; }").expect("parses");
    let errs = analyze(&ast).unwrap_err();
    assert_eq!(errs.len(), 1);
    assert_eq!(errs[0].message(), "undefined symbol");
    assert_eq!(
        label_texts(&errs[0]),
        vec!["cannot find symbol named `y` in current scope".to_string()]
    );
}

#[test]
fn redefinition_is_reported() {
    let ast = parse("fn f() { } fn f() { }").expect("parses");
    let errs = analyze(&ast).unwrap_err();
    assert_eq!(errs.len(), 1);
    assert_eq!(errs[0].message(), "name `f` defined multiple times");
    assert_eq!(
        label_texts(&errs[0]),
        vec!["duplicate definition of `f`".to_string(), "first defined here".to_string()]
    );
}

#[test]
fn variable_redefinition_in_one_scope_is_reported() {
    let ast = parse("fn f() { let x: i32 = 1; let x: i32 = 2; }").expect("parses");
    let errs = analyze(&ast).unwrap_err();
    assert_eq!(errs.len(), 1);
    assert_eq!(errs[0].message(), "name `x` defined multiple times");
}

#[test]
fn shadowing_a_parameter_is_allowed() {
    let ast = parse("fn f(x: i32) { let x: i32 = 1; }").expect("parses");
    assert!(analyze(&ast).is_ok());
}

#[test]
fn widening_is_a_warning() {
    let ast = parse("fn f(a: i8) -> i64 { let b: i64 = a; return b; }").expect("parses");
    let module = analyze(&ast).expect("names resolve");
    let (checked, _) = check(&ast, module);
    let diags = checked.unwrap_err();
    assert_eq!(diags.len(), 1);
    assert_eq!(diags[0].severity(), Severity::Warning);
    assert_eq!(diags[0].message(), "implicit casting");
    assert_eq!(
        label_texts(&diags[0]),
        vec!["type `i8` is implicitly casted to match `i64`".to_string()]
    );
}

#[test]
fn shrinking_is_an_error() {
    let ast = parse("fn f(a: i64) { let b: i8 = a; }").expect("parses");
    let module = analyze(&ast).expect("names resolve");
    let (checked, _) = check(&ast, module);
    let diags = checked.unwrap_err();
    assert_eq!(diags.len(), 1);
    assert_eq!(diags[0].severity(), Severity::Error);
    assert_eq!(diags[0].message(), "type mismatch");
    assert_eq!(
        label_texts(&diags[0]),
        vec!["cannot implicitly shrink `i64` to fit `i8`".to_string()]
    );
}

#[test]
fn sign_change_is_an_error_with_two_labels() {
    let ast = parse("fn f(a: i32) { let b: u32 = a; }").expect("parses");
    let module = analyze(&ast).expect("names resolve");
    let (checked, _) = check(&ast, module);
    let diags = checked.unwrap_err();
    assert_eq!(diags.len(), 1);
    assert_eq!(diags[0].message(), "type mismatch");
    assert_eq!(
        label_texts(&diags[0]),
        vec![
            "cannot implicitly shrink `i32` to fit `u32`".to_string()
        ]
    );
}

#[test]
fn string_hint_mismatch_is_an_error() {
    let ast = parse("fn f(a: i32) { let b: string = a; }").expect("parses");
    let module = analyze(&ast).expect("names resolve");
    let (checked, _) = check(&ast, module);
    let diags = checked.unwrap_err();
    assert_eq!(diags.len(), 1);
    assert_eq!(diags[0].message(), "type mismatch");
    assert_eq!(
        label_texts(&diags[0]),
        vec![
            "expected type `string` got value of type `i32`".to_string(),
            "type specified here".to_string()
        ]
    );
}

#[test]
fn integer_literal_too_large_is_reported() {
    let errs = parse("fn f() { let x: i64 = 99999999999999999999; }").unwrap_err();
    assert!(errs.iter().any(|d| d.message() == "invalid integer literal"));
}

#[test]
fn mut_function_is_reported() {
    let errs = parse("mut fn f() { }").unwrap_err();
    assert_eq!(errs.len(), 1);
    assert_eq!(errs[0].message(), "invalid token");
    assert_eq!(errs[0].help().map(|h| h.as_str()), Some("consider removing `mut`"));
}

#[test]
fn parsing_recovers_at_the_next_function() {
    let errs = parse("fn f() { let = 1; } fn g() { }").unwrap_err();
    assert!(errs.len() >= 1);
    assert_eq!(errs[0].message(), "missing name");
    assert_eq!(label_texts(&errs[0]), vec!["expected name after Keyword(Let)".to_string()]);
}

#[test]
fn parsing_makes_progress_on_stray_keywords() {
    let errs = parse("module").unwrap_err();
    assert_eq!(errs.len(), 1);
    assert_eq!(label_texts(&errs[0]), vec!["expected expression, got Keyword(Module)".to_string()]);
}

#[test]
fn all_pointer_parameters_share_the_first_pointer_type() {
    let source = "fn f(a: *i32, b: *u8) { }";
    let ast = parse(source).expect("parses");
    let module = analyze(&ast).expect("names resolve");
    let (checked, module) = check(&ast, module);
    assert!(checked.is_ok());
    let a = qu::span::Span::new(5, 6, SourceId(0));
    let b = qu::span::Span::new(14, 15, SourceId(0));
    let ta = module.get_types().get_by_id_key(&a).unwrap();
    let tb = module.get_types().get_by_id_key(&b).unwrap();
    assert_eq!(ta, tb);
    assert_eq!(ta, 14);
}

#[test]
fn parsed_statement_kinds() {
    let ast = parse("fn f() { let x: i32 = 1; return x; }").expect("parses");
    match &ast[0].data {
        qu::ast::StmtData::FunctionDefinition(f) => {
            assert_eq!(f.name.value, "f");
            match &f.body.as_ref().unwrap().data {
                qu::ast::ExprData::Block(b) => {
                    assert_eq!(b.stmts.len(), 2);
                    assert!(matches!(b.stmts[0].data, qu::ast::StmtData::VariableDecl(_)));
                    assert!(matches!(b.stmts[1].data, qu::ast::StmtData::Return(_)));
                }
                _ => panic!("body is a block"),
            }
        }
        _ => panic!("a function definition"),
    }
}

#[test]
fn subtraction_is_left_associative() {
    let ast = parse("fn f(a: i32, b: i32, c: i32) { let x: i32 = a - b - c; }").expect("parses");
    let f = match &ast[0].data {
        qu::ast::StmtData::FunctionDefinition(f) => f,
        _ => panic!("a function definition"),
    };
    let block = match &f.body.as_ref().unwrap().data {
        qu::ast::ExprData::Block(b) => b,
        _ => panic!("a block"),
    };
    let init = match &block.stmts[0].data {
        qu::ast::StmtData::VariableDecl(v) => &v.initializer,
        _ => panic!("a declaration"),
    };
    match &init.data {
        qu::ast::ExprData::BinaryOperation(outer) => {
            assert_eq!(outer.operator, qu::ast::BinaryOperator::Sub);
            assert!(matches!(&outer.right.data, qu::ast::ExprData::Identifier(n) if n == "c"));
            assert!(matches!(&outer.left.data, qu::ast::ExprData::BinaryOperation(_)));
        }
        _ => panic!("a binary operation"),
    }
}

#[test]
fn generic_parameters_are_reported() {
    let errs = parse("fn f[T]() { }").unwrap_err();
    assert_eq!(errs.len(), 1);
    assert_eq!(errs[0].message(), "unsupported syntax");
    assert_eq!(label_texts(&errs[0]), vec!["generic parameters are not supported".to_string()]);
}

#[test]
fn function_types_are_reported() {
    let errs = parse("fn f(a: fn) { }").unwrap_err();
    assert_eq!(errs.len(), 2);
    assert_eq!(label_texts(&errs[0]), vec!["function types are not supported".to_string()]);
    assert_eq!(errs[1].message(), "missing name");
    assert_eq!(label_texts(&errs[1]), vec!["expected name after Keyword(Fn)".to_string()]);
}

#[test]
fn pipe_operator_is_reported() {
    let errs = parse("fn f(a: i32) { let x: i32 = a |> a; }").unwrap_err();
    assert_eq!(errs.len(), 1);
    assert_eq!(label_texts(&errs[0]), vec!["the `|>` operator is not supported".to_string()]);
}

#[test]
fn a_missing_type_is_reported() {
    let errs = parse("fn f(a: 1) { }").unwrap_err();
    assert_eq!(errs.len(), 1);
    assert_eq!(errs[0].message(), "missing type");
    assert_eq!(label_texts(&errs[0]), vec!["expected a type here".to_string()]);
}

#[test]
fn a_missing_body_is_reported() {
    let errs = parse("fn f() x { }").unwrap_err();
    assert_eq!(errs.len(), 2);
    assert_eq!(errs[0].message(), "missing function body");
    assert_eq!(label_texts(&errs[0]), vec!["expected function body".to_string()]);
    assert_eq!(errs[1].message(), "unexpected token");
    assert_eq!(label_texts(&errs[1]), vec!["Separator(OpenBrace)".to_string()]);
}

#[test]
fn lowering_declares_every_function() {
    let ast = parse("fn f() { } fn g(a: i32) -> i32 { return a; }").expect("parses");
    let module = analyze(&ast).expect("names resolve");
    let (checked, module) = check(&ast, module);
    assert!(checked.is_ok());
    let mut lowerer = IrLowerer::new(IrModule::new("root".to_string()), &module);
    assert!(lowerer.lower_ast(ast).is_ok());
    let ir = lowerer.into_ir_module();
    let names: Vec<String> = ir
        .get_globals()
        .iter()
        .filter_map(|g| match g {
            qu::ir::GlobalValue::Function(f) => Some(f.get_name().to_string()),
            _ => None,
        })
        .collect();
    assert_eq!(names, vec!["f".to_string(), "g".to_string()]);
}

#[test]
fn parsing_gives_one_statement_per_top_level_function() {
    let ast = parse("fn f() { } pub fn g() { let x: i32 = 1; }").expect("parses");
    assert_eq!(ast.len(), 2);
    assert!(ast.iter().all(|s| matches!(s.data, qu::ast::StmtData::FunctionDefinition(_))));
}

#[test]
fn names_have_symbols_after_resolution() {
    let ast = parse("fn f(a: i32) -> i32 { let b: i32 = a; return b; }").expect("parses");
    assert!(!qu::type_checker::stmts_symbols_ready(&Module::new(), &ast));
    let module = analyze(&ast).expect("names resolve");
    assert!(qu::type_checker::stmts_symbols_ready(&module, &ast));
}

#[test]
fn checked_expressions_have_types() {
    let source = "fn f(a: i32, b: i32) -> i32 { let c: i32 = a + b; return c; }";
    let ast = parse(source).expect("parses");
    let module = analyze(&ast).expect("names resolve");
    let (checked, module) = check(&ast, module);
    assert!(checked.is_ok());
    let body = match &ast[0].data {
        qu::ast::StmtData::FunctionDefinition(f) => f.body.as_ref().expect("has a body"),
        _ => panic!("a function"),
    };
    let decl = match &body.data {
        qu::ast::ExprData::Block(b) => match &b.stmts[0].data {
            qu::ast::StmtData::VariableDecl(v) => v,
            _ => panic!("a declaration"),
        },
        _ => panic!("a block"),
    };
    let types = module.get_types();
    assert_eq!(types.get_by_id_key(&decl.initializer.span), Some(qu::type_checker::TYPEID_I32));
    assert_eq!(types.get_by_id_key(&decl.name.span), Some(qu::type_checker::TYPEID_I32));
}

#[test]
fn lowered_functions_end_with_a_return() {
    let ast = parse("fn g(a: i32, b: i32) -> i32 { let c: i32 = a + b; return c; }").expect("parses");
    let module = analyze(&ast).expect("names resolve");
    let (checked, module) = check(&ast, module);
    assert!(checked.is_ok());
    let mut lowerer = IrLowerer::new(IrModule::new("root".to_string()), &module);
    assert!(lowerer.lower_ast(ast).is_ok());
    let ir = lowerer.into_ir_module();
    let f = match &ir.get_globals()[0] {
        qu::ir::GlobalValue::Function(f) => f,
        _ => panic!("a function"),
    };
    assert_eq!(f.local_storage.get("a").is_some(), true);
    assert_eq!(f.local_storage.get("b").is_some(), true);
    assert!(matches!(
        f.instructions.last().map(|i| &i.1),
        Some(qu::ir::function::InstructionKind::Return(_))
    ));
    assert!(f.instructions.iter().any(|i| matches!(i.1, qu::ir::function::InstructionKind::Binop { .. })));
    assert!(f.instructions.iter().any(|i| matches!(i.1, qu::ir::function::InstructionKind::Store(_))));
}

#[test]
fn a_return_statement_is_not_lowered_alone() {
    let ast = parse("return 1;").expect("parses");
    let module = Module::new();
    let lowerer = IrLowerer::new(IrModule::new("root".to_string()), &module);
    let mut builder = IrModule::new("m".to_string()).get_builder();
    assert!(lowerer.lower_statement(&ast[0], &mut builder, true).is_none());
    assert_eq!(builder.module().get_globals().len(), 0);
}
