use qu::ast::{
    Ast, Block, CallArgument, Expr, ExprData, FunctionDeclKind, FunctionParameter,
    FunctionPrototype, Generics, IntegerWidth, Mutability, Name, Stmt, StmtRef, Type, TypeData,
    Visibility,
};
use qu::backend::cgenerator::{c_generatable, Cgenerator};
use qu::diagnostics::Diagnostic;
use qu::ir::lower::IrLowerer;
use qu::ir::IrModule;
use qu::module::Module;
use qu::span::{SourceId, Span};
use qu::symbol_analyzer::SymbolAnalyzer;
use qu::type_checker::TypeChecker;

fn sp(n: usize) -> Span {
    Span::new(n, n + 1, SourceId(0))
}

fn name(s: &str, n: usize) -> Name {
    Name { span: sp(n), value: s.to_string() }
}

fn int_type(n: usize, width: IntegerWidth) -> Box<Type> {
    Type::new(sp(n), TypeData::SignedInteger(width), Mutability::Immutable)
}

fn ident(s: &str, n: usize) -> Box<Expr> {
    Expr::new(sp(n), ExprData::Identifier(s.to_string()))
}

fn int_lit(v: i64, n: usize) -> Box<Expr> {
    Expr::new(sp(n), ExprData::Integer(v))
}

fn block(stmts: Vec<StmtRef>, n: usize) -> Box<Expr> {
    Expr::new(sp(n), ExprData::Block(Block { stmts }))
}

fn param(s: &str, n: usize, width: IntegerWidth) -> FunctionParameter {
    FunctionParameter {
        takes_ownership: false,
        name: name(s, n),
        type_hint: Some(int_type(n + 1, width)),
        default_value: None,
    }
}

fn function(
    n: usize,
    fname: &str,
    params: Vec<FunctionParameter>,
    ret: Option<Box<Type>>,
    body: Box<Expr>,
) -> StmtRef {
    Stmt::new_function_definition(
        sp(n),
        Visibility::Private,
        Mutability::ImplicitlyImmutable,
        FunctionDeclKind::Free,
        name(fname, n + 1),
        Generics::new(),
        FunctionPrototype::new(params, ret),
        Some(body),
    )
}

fn let_i32(n: usize, var: &str, init: Box<Expr>) -> StmtRef {
    Stmt::new_variable_decl(
        sp(n),
        Mutability::ImplicitlyImmutable,
        name(var, n + 1),
        Some(int_type(n + 2, IntegerWidth::Int32)),
        init,
    )
}

/// `fn f(a: i32) -> i32 { return a; }`
fn callee_f() -> StmtRef {
    function(
        100,
        "f",
        vec![param("a", 110, IntegerWidth::Int32)],
        Some(int_type(120, IntegerWidth::Int32)),
        block(vec![Stmt::new_return(sp(130), ident("a", 131))], 140),
    )
}

/// `fn g() { <stmts> }`
fn caller_g(stmts: Vec<StmtRef>) -> StmtRef {
    function(200, "g", vec![], None, block(stmts, 290))
}

fn call(callee: Box<Expr>, args: Vec<CallArgument>, n: usize) -> Box<Expr> {
    Expr::new_call(sp(n), callee, args)
}

fn check(ast: &Ast) -> (Result<(), Vec<Diagnostic>>, Module) {
    let mut analyzer = SymbolAnalyzer::new(Module::new());
    analyzer.run(ast).expect("names resolve");
    let mut checker = TypeChecker::new(analyzer.into_module());
    let r = checker.run(ast);
    (r, checker.into_module())
}

fn labels(d: &Diagnostic) -> Vec<String> {
    d.labels().iter().map(|l| l.label().clone()).collect()
}

#[test]
fn compiles_a_call_to_c() {
    let ast: Ast = vec![
        callee_f(),
        caller_g(vec![let_i32(
            210,
            "x",
            call(ident("f", 220), vec![CallArgument::Expr(int_lit(1, 221))], 222),
        )]),
    ];
    let (checked, module) = check(&ast);
    assert!(checked.is_ok());
    let mut lowerer = IrLowerer::new(IrModule::new("root".to_string()), &module);
    assert!(lowerer.lower_ast(ast).is_ok());
    let ir = lowerer.into_ir_module();
    assert!(c_generatable(&ir));
    let c = Cgenerator::generate(&ir);
    let sep = "/* =================================================================== */\n";
    let expected = format!(
        "#include <stdint.h>\n{sep}typedef struct {{}} _unit;\ntypedef void* _rawptr;\n\nint32_t f(int32_t param_0);\n\n_unit g();\n{sep}\nint32_t f(int32_t param_0) {{\n    return param_0;\n}}\n\n_unit g() {{\n    auto local_0 = (int32_t){{0}};\n    auto local_1 = (int32_t){{0}};\n    local_1 = f(1);\n    local_0 = local_1;\n    return (_unit){{}};\n}}\n"
    );
    assert_eq!(c, expected);
}

#[test]
fn calling_a_non_function_is_an_error() {
    let ast: Ast = vec![caller_g(vec![
        let_i32(210, "x", int_lit(1, 213)),
        let_i32(230, "y", call(ident("x", 240), vec![CallArgument::Expr(int_lit(1, 241))], 242)),
    ])];
    let (checked, _) = check(&ast);
    let diags = checked.unwrap_err();
    assert_eq!(diags.len(), 1);
    assert_eq!(diags[0].message(), "invalid type");
    assert_eq!(labels(&diags[0]), vec!["type `i32` is not callable".to_string()]);
}

#[test]
fn an_argument_too_many_is_an_error() {
    let ast: Ast = vec![
        callee_f(),
        caller_g(vec![let_i32(
            210,
            "x",
            call(
                ident("f", 220),
                vec![CallArgument::Expr(int_lit(1, 221)), CallArgument::Expr(int_lit(2, 223))],
                222,
            ),
        )]),
    ];
    let (checked, _) = check(&ast);
    let diags = checked.unwrap_err();
    assert_eq!(diags.len(), 1);
    assert_eq!(diags[0].message(), "unexpected argument");
    assert_eq!(labels(&diags[0]), vec!["no parameter takes this argument".to_string()]);
}

#[test]
fn an_unknown_named_argument_is_reported() {
    let ast: Ast = vec![
        callee_f(),
        caller_g(vec![let_i32(
            210,
            "x",
            call(ident("f", 220), vec![CallArgument::Assign(name("b", 224), int_lit(1, 221))], 222),
        )]),
    ];
    let (checked, _) = check(&ast);
    let diags = checked.unwrap_err();
    assert_eq!(diags.len(), 1);
    assert_eq!(diags[0].message(), "invalid symbol");
    assert_eq!(labels(&diags[0]), vec!["function has no parameter named `b`".to_string()]);
}

#[test]
fn a_named_argument_is_checked_against_its_parameter() {
    let ast: Ast = vec![
        callee_f(),
        caller_g(vec![let_i32(
            210,
            "x",
            call(ident("f", 220), vec![CallArgument::Assign(name("a", 224), int_lit(1, 221))], 222),
        )]),
    ];
    let (checked, _) = check(&ast);
    assert!(checked.is_ok());
}

#[test]
fn an_argument_of_the_wrong_type_is_an_error() {
    let ast: Ast = vec![
        callee_f(),
        function(
            200,
            "g",
            vec![param("w", 250, IntegerWidth::Int64)],
            None,
            block(
                vec![let_i32(
                    210,
                    "x",
                    call(ident("f", 220), vec![CallArgument::Expr(ident("w", 221))], 222),
                )],
                290,
            ),
        ),
    ];
    let (checked, _) = check(&ast);
    let diags = checked.unwrap_err();
    assert_eq!(diags.len(), 1);
    assert_eq!(diags[0].message(), "unexpected type");
    assert_eq!(labels(&diags[0]), vec!["expected `i32` got `i64`".to_string()]);
}

#[test]
fn a_function_value_has_a_function_type_name() {
    let ast: Ast = vec![callee_f(), caller_g(vec![let_i32(210, "x", ident("f", 220))])];
    let (checked, _) = check(&ast);
    let diags = checked.unwrap_err();
    assert_eq!(diags.len(), 1);
    assert_eq!(diags[0].message(), "type mismatch");
    assert_eq!(
        labels(&diags[0]),
        vec![
            "expected type `i32` got value of type `fn(i32) -> i32`".to_string(),
            "type specified here".to_string()
        ]
    );
}
