use qu::frontend::compile;
use qu::module::Module;
use qu::span::SourceId;

#[test]
fn compile_gives_the_c_source() {
    let source = "fn add(a: i32, b: i32) -> i32 { let c: i32 = a + b; return c; }";
    let code = compile(source, SourceId(0), Module::new()).expect("handled").expect("compiles");
    let sep = "/* =================================================================== */\n";
    let expected = format!(
        "#include <stdint.h>\n{sep}typedef struct {{}} _unit;\ntypedef void* _rawptr;\n\nint32_t add(int32_t param_0, int32_t param_1);\n{sep}\nint32_t add(int32_t param_0, int32_t param_1) {{\n    auto local_0 = (int32_t){{0}};\n    auto local_1 = (int32_t){{0}};\n    local_1 = param_0 + param_1;\n    local_0 = local_1;\n    return local_0;\n}}\n"
    );
    assert_eq!(code, expected);
}

#[test]
fn compile_stops_at_lexing_errors() {
    let errs = compile("fn f() { let x: i32 = $; }", SourceId(0), Module::new())
        .expect("handled")
        .unwrap_err();
    assert_eq!(errs.len(), 1);
    assert_eq!(errs[0].message(), "unexpected character");
}

#[test]
fn compile_stops_at_parse_errors() {
    let errs = compile("fn f() { 1 }", SourceId(0), Module::new()).expect("handled").unwrap_err();
    assert_eq!(errs.len(), 2);
    assert_eq!(errs[0].message(), "missing semicolon");
}

#[test]
fn compile_stops_at_name_errors() {
    let errs = compile("fn f() { let x: i32 = y; }", SourceId(0), Module::new())
        .expect("handled")
        .unwrap_err();
    assert_eq!(errs.len(), 1);
    assert_eq!(errs[0].message(), "undefined symbol");
}

#[test]
fn compile_stops_at_type_errors() {
    let errs = compile("fn f(a: i64) { let b: i8 = a; }", SourceId(0), Module::new())
        .expect("handled")
        .unwrap_err();
    assert_eq!(errs.len(), 1);
    assert_eq!(errs[0].message(), "type mismatch");
}
