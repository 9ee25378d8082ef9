use qu::ast::{Ast, ExprData, IntegerWidth, StmtData, TypeData};
use qu::context::Source;
use qu::diagnostics::{Diagnostic, Severity};
use qu::frontend::compile;
use qu::lexer::Lexer;
use qu::module::Module;
use qu::parser::Parser;
use qu::span::{SourceId, Span};
use qu::token::{Keyword, Literal, Separator, Token, TokenKind};
use qu::token_stream::TokenStream;

fn parse_text(source: &str) -> Result<Ast, Vec<Diagnostic>> {
    let ts = TokenStream::new(source, SourceId(0))?;
    let mut parser = Parser::new(source, ts);
    parser.parse()
}

#[test]
fn an_arrow_is_one_token() {
    let mut lx = Lexer::new("->", SourceId(0));
    assert_eq!(
        lx.next_token().unwrap(),
        Token { kind: TokenKind::Separator(Separator::Arrow), span: Span::new(0, 2, SourceId(0)) }
    );
}

#[test]
fn a_keyword_then_a_name_sharing_its_prefix() {
    let mut lx = Lexer::new("fn fnord", SourceId(0));
    assert_eq!(
        lx.next_token().unwrap(),
        Token { kind: TokenKind::Keyword(Keyword::Fn), span: Span::new(0, 2, SourceId(0)) }
    );
    assert_eq!(
        lx.next_token().unwrap(),
        Token { kind: TokenKind::Identifier, span: Span::new(3, 8, SourceId(0)) }
    );
}

#[test]
fn blanks_and_comments_are_skipped() {
    let mut lx = Lexer::new("  // note\n42", SourceId(0));
    assert_eq!(
        lx.next_token().unwrap(),
        Token { kind: TokenKind::Literal(Literal::Integer), span: Span::new(10, 12, SourceId(0)) }
    );
}

#[test]
fn an_unexpected_character_is_reported_and_consumed() {
    let mut lx = Lexer::new("@", SourceId(0));
    let err = lx.next_token().unwrap_err();
    assert_eq!(err.severity(), Severity::Error);
    assert_eq!(lx.next_token().unwrap().kind, TokenKind::EndOfFile);
}

#[test]
fn an_empty_function_spans_its_text() {
    let ast = parse_text("fn f() {}").expect("parses");
    assert_eq!(ast.len(), 1);
    assert_eq!(ast[0].span, Span::new(0, 9, SourceId(0)));
}

#[test]
fn hinted_parameters_are_kept_in_order() {
    let ast = parse_text("fn f(a: i32, b: *u8) {}").expect("parses");
    match &ast[0].data {
        StmtData::FunctionDefinition(f) => {
            let ps = &f.prototype.parameters;
            assert_eq!(ps.len(), 2);
            assert_eq!(ps[0].name.value, "a");
            assert_eq!(ps[1].name.value, "b");
            assert!(ps[0].default_value.is_none());
            match &ps[0].type_hint.as_ref().expect("hinted").data {
                TypeData::SignedInteger(IntegerWidth::Int32) => {}
                _ => panic!("a is not i32"),
            }
            match &ps[1].type_hint.as_ref().expect("hinted").data {
                TypeData::Pointer(inner) => {
                    assert!(matches!(inner.data, TypeData::UnsignedInteger(IntegerWidth::Int8)))
                }
                _ => panic!("b is not a pointer"),
            }
            match &f.body.as_ref().expect("has a body").data {
                ExprData::Block(b) => assert!(b.stmts.is_empty()),
                _ => panic!("body is no block"),
            }
        }
        _ => panic!("not a function"),
    }
}

#[test]
fn an_empty_program_compiles_to_the_bare_header() {
    let sep = "/* =================================================================== */\n";
    let expected =
        format!("#include <stdint.h>\n{sep}typedef struct {{}} _unit;\ntypedef void* _rawptr;\n{sep}");
    let code = compile("  // nothing here\n", SourceId(0), Module::new())
        .expect("handled")
        .expect("compiles");
    assert_eq!(code, expected);
    let code = compile("", SourceId(0), Module::new()).expect("handled").expect("compiles");
    assert_eq!(code, expected);
}

#[test]
fn a_line_table_that_skips_a_newline_still_reads_lines() {
    let src = Source {
        path: "d.qu".to_string(),
        content: "ab\ncd\nef".to_string(),
        line_starts: vec![0, 6],
    };
    assert_eq!(src.get_line(0), Some("ab\ncd".to_string()));
    assert_eq!(src.get_line(1), Some("ef".to_string()));
    assert_eq!(src.get_line(2), None);
}

#[test]
fn two_empty_functions_compile_to_c() {
    let code = compile("fn f() {}\nfn g() {}\n", SourceId(0), Module::new())
        .expect("handled")
        .expect("compiles");
    let sep = "/* =================================================================== */\n";
    let expected = format!(
        "#include <stdint.h>\n{sep}typedef struct {{}} _unit;\ntypedef void* _rawptr;\n\n_unit f();\n\n_unit g();\n{sep}\n_unit f() {{\n    return (_unit){{}};\n}}\n\n_unit g() {{\n    return (_unit){{}};\n}}\n"
    );
    assert_eq!(code, expected);
}

#[test]
fn a_name_defined_twice_stops_the_run_with_its_diagnostic() {
    let diags = compile("fn f() {}\nfn f() {}\n", SourceId(0), Module::new())
        .expect("handled")
        .expect_err("refused");
    assert_eq!(diags.len(), 1);
    assert_eq!(diags[0].severity(), Severity::Error);
    assert_eq!(diags[0].message(), "name `f` defined multiple times");
}

#[test]
fn a_program_of_hinted_functions_keeps_every_parameter() {
    let ast = parse_text("fn f(a: i32, b: u8) {}\nfn g() {}\nfn h(x: bool) {}\n").expect("parses");
    assert_eq!(ast.len(), 3);
    let expected: [&[&str]; 3] = [&["a", "b"], &[], &["x"]];
    for (stmt, names) in ast.iter().zip(expected.iter()) {
        match &stmt.data {
            StmtData::FunctionDefinition(f) => {
                let ps = &f.prototype.parameters;
                assert_eq!(ps.len(), names.len());
                for (p, n) in ps.iter().zip(names.iter()) {
                    assert_eq!(p.name.value, *n);
                    assert!(p.type_hint.is_some());
                    assert!(p.default_value.is_none());
                }
                assert!(f.prototype.return_type.is_none());
            }
            _ => panic!("not a function"),
        }
    }
    match &ast[2].data {
        StmtData::FunctionDefinition(f) => {
            assert_eq!(f.name.value, "h");
            assert!(matches!(
                f.prototype.parameters[0].type_hint.as_ref().expect("hinted").data,
                TypeData::Bool
            ));
        }
        _ => panic!("not a function"),
    }
}

#[test]
fn a_function_with_parameters_and_an_empty_body_only_returns() {
    let code = compile("fn f(a: i32, b: u8) {}\n", SourceId(0), Module::new())
        .expect("handled")
        .expect("compiles");
    let sep = "/* =================================================================== */\n";
    let expected = format!(
        "#include <stdint.h>\n{sep}typedef struct {{}} _unit;\ntypedef void* _rawptr;\n\n_unit f(int32_t param_0, uint8_t param_1);\n{sep}\n_unit f(int32_t param_0, uint8_t param_1) {{\n    return (_unit){{}};\n}}\n"
    );
    assert_eq!(code, expected);
}
