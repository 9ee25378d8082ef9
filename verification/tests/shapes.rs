use qu::ast::{Ast, BinaryOperator, Expr, ExprData, IntegerWidth, StmtData, TypeData};
use qu::diagnostics::Diagnostic;
use qu::frontend::compile;
use qu::module::Module;
use qu::parser::Parser;
use qu::span::SourceId;
use qu::symbol_analyzer::SymbolAnalyzer;
use qu::token_stream::TokenStream;
use qu::type_checker::TypeChecker;

fn parse_source(source: &str) -> Result<Ast, Vec<Diagnostic>> {
    let ts = TokenStream::new(source, SourceId(0))?;
    let mut parser = Parser::new(source, ts);
    parser.parse()
}

fn name_of(e: &Expr) -> String {
    match &e.data {
        ExprData::Identifier(n) => n.clone(),
        _ => panic!("not a name"),
    }
}

#[test]
fn empty_functions_pass_every_check() {
    let ast = parse_source("fn f() {} fn g() {}").expect("parses");
    assert_eq!(ast.len(), 2);
    for stmt in &ast {
        match &stmt.data {
            StmtData::FunctionDefinition(f) => {
                assert!(f.prototype.parameters.is_empty());
                assert!(f.prototype.return_type.is_none());
                match &f.body.as_ref().expect("has a body").data {
                    ExprData::Block(b) => assert!(b.stmts.is_empty()),
                    _ => panic!("body is no block"),
                }
            }
            _ => panic!("not a function"),
        }
    }
    let mut analyzer = SymbolAnalyzer::new(Module::new());
    assert!(analyzer.run(&ast).is_ok());
    let mut checker = TypeChecker::new(analyzer.into_module());
    assert!(checker.run(&ast).is_ok());
}

#[test]
fn subtraction_groups_from_the_left() {
    let ast = parse_source("fn f(a: i32, b: i32, c: i32) { a - b + c; }").expect("parses");
    let body = match &ast[0].data {
        StmtData::FunctionDefinition(f) => f.body.as_ref().expect("has a body"),
        _ => panic!("not a function"),
    };
    let stmts = match &body.data {
        ExprData::Block(b) => &b.stmts,
        _ => panic!("body is no block"),
    };
    let outer = match &stmts[0].data {
        StmtData::Expr(e) => match &e.data {
            ExprData::BinaryOperation(b) => b,
            _ => panic!("not an operation"),
        },
        _ => panic!("not an expression"),
    };
    assert_eq!(outer.operator, BinaryOperator::Add);
    assert_eq!(name_of(&outer.right), "c");
    match &outer.left.data {
        ExprData::BinaryOperation(inner) => {
            assert_eq!(inner.operator, BinaryOperator::Sub);
            assert_eq!(name_of(&inner.left), "a");
            assert_eq!(name_of(&inner.right), "b");
        }
        _ => panic!("left operand is not an operation"),
    }
}

#[test]
fn pointer_hints_parse_to_pointers() {
    let ast = parse_source("fn f(p: *i32) {}").expect("parses");
    match &ast[0].data {
        StmtData::FunctionDefinition(f) => {
            let hint = f.prototype.parameters[0].type_hint.as_ref().expect("hinted");
            match &hint.data {
                TypeData::Pointer(inner) => {
                    assert!(matches!(inner.data, TypeData::SignedInteger(IntegerWidth::Int32)))
                }
                _ => panic!("not a pointer"),
            }
        }
        _ => panic!("not a function"),
    }
}

#[test]
fn a_leading_separator_fails_to_parse() {
    let errs = compile(")", SourceId(0), Module::new()).expect("handled").unwrap_err();
    assert!(!errs.is_empty());
    assert_eq!(errs[0].message(), "unexpected token");
}

#[test]
fn a_local_may_shadow_a_function_name() {
    let ast = parse_source("fn x() {} fn f() { let x: i32 = 1; }").expect("parses");
    let mut analyzer = SymbolAnalyzer::new(Module::new());
    assert!(analyzer.run(&ast).is_ok());
}

#[test]
fn a_second_local_of_one_name_is_reported() {
    let ast = parse_source("fn f() { let x: i32 = 1; let x: i32 = 2; }").expect("parses");
    let mut analyzer = SymbolAnalyzer::new(Module::new());
    let errs = analyzer.run(&ast).unwrap_err();
    assert_eq!(errs.len(), 1);
    assert_eq!(errs[0].message(), "name `x` defined multiple times");
}
