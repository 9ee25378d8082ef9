use qu::ast::BinaryOperator;
use qu::backend::type_writer::write_type;
use qu::backend::TargetKind;
use qu::context::{Context, Source};
use qu::diagnostics::{error_at, Diagnostic, Severity};
use qu::frontend::Target;
use qu::ir::function::{IrCallAbi, IrType};
use qu::ir::value::Value;
use qu::ir::{GlobalId, IrModule};
use qu::layout::{TypeId, TypeKind, TypeLayout};
use qu::module::Module;
use qu::parse_context::push_kind_text;
use qu::parse_state::{State, StateKind};
use qu::parser::{get_rule, parse_integer_literal, Precedence};
use qu::scope::{Scope, ScopeFlag, ScopeId};
use qu::span::{SourceId, Span};
use qu::storage::Storage;
use qu::symbol::SymbolId;
use qu::text::{push_decimal, push_signed_decimal};
use qu::token::{Keyword, Literal, Operator, Separator, Token, TokenKind};
use qu::token_stream::TokenStream;
use qu::type_checker::{CoerceResult, TypeChecker, TypeCoercer};

fn span(start: usize, end: usize) -> Span {
    Span::new(start, end, SourceId(0))
}

#[test]
fn storage_maps_keys_to_ids() {
    let mut s: Storage<String, u32> = Storage::new();
    assert_eq!(s.put("a".to_string(), 10), 0);
    assert_eq!(s.put("b".to_string(), 20), 1);
    assert_eq!(s.get_by_id_key(&"a".to_string()), None);
    assert_eq!(s.map("a".to_string(), 1), None);
    assert_eq!(s.get_by_id_key(&"a".to_string()), Some(1));
    assert_eq!(s.get_from_key(&"a".to_string()), Some(&20));
    assert_eq!(s.map("a".to_string(), 0), Some(1));
    assert_eq!(s.get_from_key(&"a".to_string()), Some(&10));
    if let Some(v) = s.get_from_key_mut(&"a".to_string()) {
        *v = 11;
    }
    assert_eq!(s.get_pool(), &vec![11, 20]);
    // a key that is mapped inserts at its id
    assert_eq!(s.put("a".to_string(), 5), 0);
    assert_eq!(s.get_pool(), &vec![5, 11, 20]);
}

#[test]
fn scope_binds_names() {
    let mut scope = Scope::new(Some(ScopeId(0)), ScopeFlag::Plain);
    assert_eq!(scope.find("x"), None);
    assert_eq!(scope.add("x".to_string(), SymbolId(3)), None);
    assert_eq!(scope.find("x"), Some(SymbolId(3)));
    assert_eq!(scope.add("x".to_string(), SymbolId(4)), Some(SymbolId(3)));
    assert_eq!(scope.find("x"), Some(SymbolId(4)));
    assert_eq!(scope.find("y"), None);
}

#[test]
fn numeric_width_scores() {
    let layout = |k| TypeLayout::new_builtin(k);
    assert_eq!(layout(TypeKind::I32).compare_numeric_widths(&layout(TypeKind::I8)), 24);
    assert_eq!(layout(TypeKind::I8).compare_numeric_widths(&layout(TypeKind::I64)), -56);
    assert_eq!(layout(TypeKind::I32).compare_numeric_widths(&layout(TypeKind::U16)), 15);
    assert_eq!(layout(TypeKind::U32).compare_numeric_widths(&layout(TypeKind::I32)), -1);
    assert_eq!(layout(TypeKind::U64).compare_numeric_widths(&layout(TypeKind::I8)), 56);
    assert_eq!(layout(TypeKind::U8).compare_numeric_widths(&layout(TypeKind::U8)), 0);
    assert!(layout(TypeKind::U16).is_numeric_type());
    assert!(!layout(TypeKind::Bool).is_numeric_type());
}

#[test]
fn coercion_between_builtin_types() {
    let mut checker = TypeChecker::new(Module::new());
    checker.register_builtin_types();
    let i8_ = TypeId(3);
    let i32_ = TypeId(5);
    let u32_ = TypeId(9);
    let string = TypeId(1);
    assert_eq!(TypeCoercer::coerce(&checker, i32_, i32_), CoerceResult::Identity);
    assert_eq!(TypeCoercer::coerce(&checker, i32_, i8_), CoerceResult::IntegerWidening);
    assert_eq!(TypeCoercer::coerce(&checker, i8_, i32_), CoerceResult::IntegerShrinking);
    assert_eq!(TypeCoercer::coerce(&checker, u32_, i32_), CoerceResult::IntegerShrinking);
    assert_eq!(TypeCoercer::coerce(&checker, string, i32_), CoerceResult::Invalid);
    assert_eq!(checker.get_type_name(&i32_), "i32");
    assert_eq!(checker.get_type_name(&TypeId(13)), "void");
    assert_eq!(checker.get_type_name(&TypeId(11)), "f32");
    assert_eq!(checker.module().get_types().get_pool().len(), 14);
}

#[test]
fn targets_by_name() {
    assert!(Target::from_name("exe") == Ok(Target::Executable));
    assert!(Target::from_name("c-code") == Ok(Target::Ccode));
    assert!(Target::from_name("wasm") == Err("`wasm` is not a valid target".to_string()));
    assert_eq!(Target::Ccode.to_backend_target(), TargetKind::Ccode);
    assert_eq!(Target::default().to_backend_target(), TargetKind::Executable);
    let t: Target = "exe".parse().unwrap();
    assert_eq!(t, Target::Executable);
}

#[test]
fn source_lines() {
    let src = Source::from_content("a.qu".to_string(), "a\nbc\n".to_string());
    assert_eq!(src.line_starts, vec![0, 2, 5]);
    assert_eq!(src.get_line(0), Some("a".to_string()));
    assert_eq!(src.get_line(1), Some("bc".to_string()));
    assert_eq!(src.get_line(2), Some("".to_string()));
    assert_eq!(src.get_line(3), None);
    let multi = Source::from_content("b.qu".to_string(), "é\nx".to_string());
    assert_eq!(multi.line_starts, vec![0, 3]);
    assert_eq!(multi.get_line(0), Some("é".to_string()));
    assert_eq!(multi.get_line(1), Some("x".to_string()));
}

#[test]
fn context_registers_sources_and_modules() {
    let mut ctx = Context::new();
    assert_eq!(ctx.lookup_source(&"/a.qu".to_string()), None);
    let id = ctx.add_source("a.qu".to_string(), "fn f() { }".to_string());
    assert_eq!(id, SourceId(0));
    assert_eq!(ctx.get_source(id).map(|s| s.as_str()), Some("fn f() { }"));
    assert!(ctx.get_source(SourceId(1)).is_none());
    let root = ctx.get_or_put_new_module("root".to_string());
    assert_eq!(root.0, 0);
    assert!(ctx.get_module(root).is_some());
}

#[test]
fn value_pool_interns() {
    let mut builder = IrModule::new("m".to_string()).get_builder();
    assert_eq!(builder.create_void().0, 0);
    let a = builder.create_constant_int(7);
    let b = builder.create_constant_int(7);
    let c = builder.create_constant_int(8);
    let s1 = builder.create_constant_string("hi".to_string());
    let s2 = builder.create_constant_string("hi".to_string());
    assert_eq!(a.0, b.0);
    assert_ne!(a.0, c.0);
    assert_eq!(s1.0, s2.0);
    assert_eq!(builder.create_or_get_value(Value::Unit).0, 0);
    let module = builder.into_module();
    assert_eq!(module.value_pool().len(), 4);
}

#[test]
fn functions_are_declared_once_by_name() {
    let mut builder = IrModule::new("m".to_string()).get_builder();
    let ty = || IrType::Function { return_type: Box::new(IrType::Unit), parameter_type: vec![] };
    let f = builder.new_function("f".to_string(), ty(), false, IrCallAbi::C);
    let g = builder.new_function("g".to_string(), ty(), false, IrCallAbi::C);
    let f2 = builder.new_function("f".to_string(), ty(), true, IrCallAbi::System);
    assert_eq!(f, GlobalId(0));
    assert_eq!(g, GlobalId(1));
    assert_eq!(f2, f);
    assert_eq!(builder.find_global("g"), Some(GlobalId(1)));
    assert_eq!(builder.find_global("h"), None);
    assert!(builder.is_in_global_scope());
    let v0 = builder.create_void();
    assert!(builder.create_ret(v0).is_none());
    builder.set_current_function(g);
    assert!(!builder.is_in_global_scope());
    let v = builder.create_void();
    assert!(builder.create_ret(v).is_some());
    let t = builder.create_temporary(IrType::I32).unwrap();
    let n = builder.create_constant_int(1);
    assert!(builder.create_store(t, n).is_some());
    assert_eq!(builder.peek_current_function().unwrap().instructions.len(), 3);
    assert_eq!(builder.pop_current_function(), Some(g));
}

#[test]
fn integer_literals() {
    assert_eq!(parse_integer_literal(&"0".to_string()), Some(0));
    assert_eq!(parse_integer_literal(&"42".to_string()), Some(42));
    assert_eq!(parse_integer_literal(&"9223372036854775807".to_string()), Some(i64::MAX));
    assert_eq!(parse_integer_literal(&"9223372036854775808".to_string()), None);
    assert_eq!(parse_integer_literal(&"".to_string()), None);
    assert_eq!(parse_integer_literal(&"1a".to_string()), None);
}

#[test]
fn c_types() {
    let t = IrType::Function {
        return_type: Box::new(IrType::I32),
        parameter_type: vec![IrType::U8, IrType::TypedPointer(Box::new(IrType::Char))],
    };
    assert_eq!(write_type(&t), "int32_t(*)(uint8_t, char*)");
    assert_eq!(write_type(&IrType::Unit), "_unit");
    assert_eq!(write_type(&IrType::Pointer), "_rawptr");
}

#[test]
fn token_kind_texts() {
    let mut s = String::new();
    push_kind_text(&mut s, TokenKind::Separator(Separator::OpenParen));
    assert_eq!(s, "Separator(OpenParen)");
    let mut s = String::new();
    push_kind_text(&mut s, TokenKind::EndOfFile);
    assert_eq!(s, "EndOfFile");
}

#[test]
fn rule_table() {
    let add = get_rule(TokenKind::Operator(Operator::Add)).unwrap();
    assert_eq!(add.0, Precedence::Term);
    assert!(add.2.is_none() && add.3.is_some());
    let ident = get_rule(TokenKind::Identifier).unwrap();
    assert_eq!(ident.0, Precedence::Primary);
    assert!(get_rule(TokenKind::Keyword(Keyword::Fn)).is_none());
    assert!(get_rule(TokenKind::Literal(Literal::String)).is_some());
    assert!(Precedence::Factor.rank() > Precedence::Term.rank());
}

#[test]
fn decimal_rendering() {
    let mut s = String::new();
    push_decimal(&mut s, 1204);
    assert_eq!(s, "1204");
    let mut s = String::new();
    push_signed_decimal(&mut s, i64::MIN);
    assert_eq!(s, "-9223372036854775808");
}

#[test]
fn spans_cover() {
    let a = span(4, 6);
    let b = span(1, 5);
    assert_eq!(a.cover(b), span(1, 6));
    assert_eq!(b.cover(a), span(1, 6));
}

#[test]
fn diagnostics_build() {
    let d = Diagnostic::new(Severity::Warning, "m".to_string(), span(0, 1), "l".to_string())
        .with_help("h".to_string())
        .with_code("E1".to_string())
        .with_label("second".to_string(), span(2, 3));
    assert_eq!(d.severity(), Severity::Warning);
    assert_eq!(d.help().map(|s| s.as_str()), Some("h"));
    assert_eq!(d.code().map(|s| s.as_str()), Some("E1"));
    assert_eq!(d.labels().len(), 2);
    assert!(d.labels()[0].is_primary());
    assert!(!d.labels()[1].is_primary());
    assert_eq!(d.labels()[1].span(), span(2, 3));
    let e = error_at("x", span(0, 0), "y".to_string());
    assert_eq!(e.severity(), Severity::Error);
    assert_eq!(Severity::Note.as_str(), "note");
}

#[test]
fn lexes_a_function() {
    let ts = TokenStream::new("fn main() -> i32 { return 1; }", SourceId(0)).unwrap();
    let kinds: Vec<TokenKind> = ts.tokens.iter().map(|t| t.kind).collect();
    assert_eq!(
        kinds,
        vec![
            TokenKind::Keyword(Keyword::Fn),
            TokenKind::Identifier,
            TokenKind::Separator(Separator::OpenParen),
            TokenKind::Separator(Separator::CloseParen),
            TokenKind::Separator(Separator::Arrow),
            TokenKind::Identifier,
            TokenKind::Separator(Separator::OpenBrace),
            TokenKind::Keyword(Keyword::Return),
            TokenKind::Literal(Literal::Integer),
            TokenKind::Separator(Separator::SemiColon),
            TokenKind::Separator(Separator::CloseBrace),
            TokenKind::EndOfFile,
        ]
    );
    assert_eq!(ts.tokens[1].span, span(3, 7));
    assert!(ts.all_from(SourceId(0)));
    assert_eq!(ts.peek_nth(-1).kind, TokenKind::Keyword(Keyword::Fn));
    assert_eq!(ts.peek_nth(100).kind, TokenKind::EndOfFile);
}

#[test]
fn token_stream_stops_at_end() {
    let mut ts = TokenStream::new("x", SourceId(0)).unwrap();
    assert_eq!(ts.next().kind, TokenKind::Identifier);
    assert_eq!(ts.next().kind, TokenKind::EndOfFile);
    assert_eq!(ts.next().kind, TokenKind::EndOfFile);
    assert_eq!(ts.cursor, 1);
}

#[test]
fn parser_states() {
    let s: State = StateKind::FunctionBody.into();
    assert_eq!(s.kind(), StateKind::FunctionBody);
    assert!(!s.has_error());
    let tok = Token::new(TokenKind::Identifier, span(0, 1));
    let s = s.with_error().with_begin(tok).with_kind(StateKind::VariableType);
    assert!(s.has_error());
    assert_eq!(s.begin(), Some(tok));
    assert_eq!(s.kind(), StateKind::VariableType);
    assert_eq!(State::new(StateKind::GlobalDeclration), StateKind::GlobalDeclration.into());
}

#[test]
fn binary_operator_symbols() {
    assert_eq!(BinaryOperator::Add.symbol(), "+");
    assert_eq!(BinaryOperator::LessThanEqual.symbol(), "<=");
}

#[test]
fn decimal_round_trip() {
    for n in [0u64, 7, 10, 99, 1204, 9223372036854775807] {
        let mut s = String::new();
        push_decimal(&mut s, n);
        assert_eq!(parse_integer_literal(&s), Some(n as i64));
    }
}

#[test]
fn whole_range_slice_is_the_text() {
    let text = "let é = 1;";
    let ts = TokenStream::new("x", SourceId(0)).unwrap();
    let ctx = qu::parse_context::ParseContext::new(ts, text.chars().collect());
    assert_eq!(ctx.slice(span(0, text.len())), text);
    assert_eq!(ctx.slice(span(4, 6)), "é");
    let src = Source::from_content("c.qu".to_string(), text.to_string());
    assert_eq!(src.get_line(0), Some(text.to_string()));
}

#[test]
fn lexer_stays_at_end_of_file() {
    let mut lexer = qu::lexer::Lexer::new("a  ", SourceId(0));
    let first = lexer.next_token().unwrap();
    assert_eq!(first.kind, TokenKind::Identifier);
    let eof = lexer.next_token().unwrap();
    assert_eq!(eof.kind, TokenKind::EndOfFile);
    let again = lexer.next_token().unwrap();
    assert_eq!(again, eof);
}

#[test]
fn nearest_binding_wins() {
    let mut module = Module::new();
    let mut inner = Scope::new(Some(ScopeId(0)), ScopeFlag::Plain);
    inner.add("x".to_string(), SymbolId(1));
    module.scopes.pool[0].add("x".to_string(), SymbolId(0));
    module.scopes.pool[0].add("y".to_string(), SymbolId(2));
    module.scopes.pool.push(inner);
    let analyzer = qu::symbol_analyzer::SymbolAnalyzer::new(module);
    assert_eq!(analyzer.find_id_in_scope(ScopeId(1), "x"), Some(SymbolId(1)));
    assert_eq!(analyzer.find_id_in_scope(ScopeId(0), "x"), Some(SymbolId(0)));
    assert_eq!(analyzer.find_id_in_scope(ScopeId(1), "y"), Some(SymbolId(2)));
    assert_eq!(analyzer.find_id_in_scope(ScopeId(1), "z"), None);
    assert_eq!(analyzer.find_id_in_scope(ScopeId(5), "x"), None);
}

#[test]
fn widening_is_not_reversible() {
    let mut checker = TypeChecker::new(Module::new());
    checker.register_builtin_types();
    for t in 3..11 {
        for s in 3..11 {
            if TypeCoercer::coerce(&checker, TypeId(t), TypeId(s)) == CoerceResult::IntegerWidening {
                assert_eq!(
                    TypeCoercer::coerce(&checker, TypeId(s), TypeId(t)),
                    CoerceResult::IntegerShrinking
                );
            }
        }
    }
}

fn context_over(text: &str) -> qu::parse_context::ParseContext {
    let ts = TokenStream::new(text, SourceId(0)).unwrap();
    qu::parse_context::ParseContext::new(ts, text.chars().collect())
}

#[test]
fn skipping_stops_at_the_first_wanted_token() {
    let mut ctx = context_over("a b fn c fn");
    assert!(ctx.skip_to(false, &[TokenKind::Keyword(Keyword::Fn)]));
    assert_eq!(ctx.position(), 2);
    assert_eq!(ctx.current_kind(), TokenKind::Keyword(Keyword::Fn));
    assert!(ctx.skip_to(true, &[TokenKind::Keyword(Keyword::Fn)]));
    assert_eq!(ctx.position(), 3);
    assert_eq!(ctx.previous_kind(), TokenKind::Keyword(Keyword::Fn));
    let mut none = context_over("a b c");
    assert!(!none.skip_to(false, &[TokenKind::Keyword(Keyword::Fn)]));
    assert!(none.is_done());
    assert_eq!(none.diagnostic_count(), 0);
}

#[test]
fn skipping_until_a_separator() {
    let mut ctx = context_over("a b ; c ;");
    ctx.skip_until(false, Separator::SemiColon);
    assert_eq!(ctx.position(), 2);
    ctx.skip_until(true, Separator::SemiColon);
    assert_eq!(ctx.position(), 3);
    assert_eq!(ctx.previous_kind(), TokenKind::Separator(Separator::SemiColon));
    let mut end = context_over("a b");
    end.skip_until(true, Separator::SemiColon);
    assert!(end.is_done());
}

#[test]
fn function_signatures() {
    let mut ctx = context_over("(a: i32, b: u8) -> i64 {");
    let sig = qu::parser::parse_function_sig(&mut ctx).expect("parses");
    assert_eq!(sig.parameters.len(), 2);
    assert!(sig.return_type.is_some());
    assert_eq!(ctx.current_kind(), TokenKind::Separator(Separator::OpenBrace));
    let mut bare = context_over("() {");
    let sig = qu::parser::parse_function_sig(&mut bare).expect("parses");
    assert_eq!(sig.parameters.len(), 0);
    assert!(sig.return_type.is_none());
    assert_eq!(bare.previous_kind(), TokenKind::Separator(Separator::CloseParen));
    let mut missing = context_over("a: i32)");
    assert!(qu::parser::parse_function_sig(&mut missing).is_none());
    assert_eq!(missing.position(), 0);
    assert_eq!(missing.diagnostic_count(), 1);
}

#[test]
fn empty_blocks() {
    let mut ctx = context_over("} x");
    let block = qu::parser::parse_block_(&mut ctx).expect("parses");
    assert_eq!(block.stmts.len(), 0);
    assert_eq!(ctx.position(), 1);
    assert_eq!(ctx.diagnostic_count(), 0);
}

#[test]
fn context_keeps_ids_of_paths_and_names() {
    let mut ctx = Context::new();
    let a = ctx.add_source("a.qu".to_string(), "x".to_string());
    let b = ctx.add_source("a.qu".to_string(), "y".to_string());
    assert_eq!(a, SourceId(0));
    assert_eq!(b, SourceId(1));
    assert_eq!(ctx.lookup_source(&"a.qu".to_string()), None);
    assert_eq!(ctx.get_source(b).map(|s| s.as_str()), Some("y"));
    let m = ctx.get_or_put_new_module("m".to_string());
    let n = ctx.get_or_put_new_module("m".to_string());
    assert_eq!(m.0, 0);
    assert_eq!(n.0, 1);
    assert_eq!(ctx.module_count(), 2);
}
