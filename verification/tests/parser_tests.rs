use intlang::lexer;
use intlang::parser;
use intlang::parser::Program;
use intlang::parser::StructuralError;
use intlang::types::DataType;
use intlang::types::Keyword;
use intlang::types::Operator;
use intlang::types::Token;
use intlang::types::Type;

fn lex(s: &str) -> Vec<Token> {
    lexer::process(&String::from(s))
}

fn parse(s: &str) -> Result<Program, StructuralError> {
    parser::process(lex(s))
}

#[test]
fn source_without_global_keyword_has_empty_region() {
    let program = parse("int f() { ret 1; }").unwrap();
    assert_eq!(program.globals, Vec::<Token>::new());
    assert_eq!(program.functions.len(), 1);
}

#[test]
fn scenario_global_and_main() {
    let program = parse("global { x = 5; } int main() { ret 0; }").unwrap();
    assert_eq!(program.globals, lex("x = 5;"));
    assert_eq!(program.functions.len(), 1);
    let main_fn = &program.functions[0];
    assert_eq!(main_fn.name, "usr_main");
    assert_eq!(main_fn.return_type, Type::Int);
    assert!(main_fn.params.is_empty());
    assert_eq!(main_fn.content, lex("ret 0;"));
}

#[test]
fn parameters_parse_in_order_with_zero_defaults() {
    let program = parse("int f(real a, bool b, string c) { }").unwrap();
    let f = &program.functions[0];
    assert_eq!(f.params.len(), 3);
    assert_eq!(f.params[0].typename, Type::Real);
    assert_eq!(f.params[0].name, "usr_a");
    assert_eq!(f.params[0].value, DataType::Real(String::from("0")));
    assert_eq!(f.params[1].typename, Type::Bool);
    assert_eq!(f.params[1].name, "usr_b");
    assert_eq!(f.params[1].value, DataType::Bool(false));
    assert_eq!(f.params[2].typename, Type::String);
    assert_eq!(f.params[2].name, "usr_c");
    assert_eq!(f.params[2].value, DataType::String(String::from("")));
}

#[test]
fn int_and_func_defaults() {
    let program = parse("int f(int n, func g) { }").unwrap();
    let f = &program.functions[0];
    assert_eq!(f.params[0].value, DataType::Int(0));
    assert_eq!(f.params[1].value, DataType::Func());
}

#[test]
fn nested_scopes_stay_in_the_body() {
    let program = parse("int f() { if ( x ) { y = 1; } z = 2; }").unwrap();
    let f = &program.functions[0];
    assert_eq!(f.content, lex("if ( x ) { y = 1; } z = 2;"));
}

#[test]
fn deeply_nested_body_ends_at_own_close() {
    let program = parse("int f() { { { a; } } b; } int g() { }").unwrap();
    assert_eq!(program.functions.len(), 2);
    assert_eq!(program.functions[0].content, lex("{ { a; } } b;"));
    assert_eq!(program.functions[1].content, Vec::<Token>::new());
}

#[test]
fn nested_scopes_inside_global_region_stay_whole() {
    let program = parse("global { a; { b; } c; }").unwrap();
    assert_eq!(program.globals, lex("a; { b; } c;"));
}

#[test]
fn redeclaration_overwrites_in_place() {
    let program = parse("int f() { ret 1; } bool g() { } int f() { ret 2; }").unwrap();
    assert_eq!(program.functions.len(), 2);
    assert_eq!(program.functions[0].name, "usr_f");
    assert_eq!(program.functions[0].content, lex("ret 2;"));
    assert_eq!(program.functions[1].name, "usr_g");
}

#[test]
fn function_order_is_first_appearance() {
    let program = parse("int b() { } int a() { }").unwrap();
    assert_eq!(program.functions[0].name, "usr_b");
    assert_eq!(program.functions[1].name, "usr_a");
}

#[test]
fn global_without_open_scope_is_an_error() {
    assert_eq!(
        parse("global x = 1;"),
        Err(StructuralError::GlobalOpenMissing { index: 1 })
    );
    assert_eq!(
        parse("global"),
        Err(StructuralError::GlobalOpenMissing { index: 1 })
    );
}

#[test]
fn unterminated_global_region_is_an_error() {
    assert_eq!(
        parse("global { x = 1;"),
        Err(StructuralError::GlobalCloseMissing { index: 1 })
    );
}

#[test]
fn missing_param_close_is_an_error() {
    assert_eq!(
        parse("int f("),
        Err(StructuralError::ParamCloseMissing { index: 2 })
    );
}

#[test]
fn missing_body_open_is_an_error() {
    assert_eq!(
        parse("int f()"),
        Err(StructuralError::BodyOpenMissing { index: 4 })
    );
    assert_eq!(
        parse("int f() ret 1;"),
        Err(StructuralError::BodyOpenMissing { index: 4 })
    );
}

#[test]
fn unterminated_body_is_an_error() {
    assert_eq!(
        parse("int f() { ret 1;"),
        Err(StructuralError::BodyCloseMissing { index: 4 })
    );
}

#[test]
fn malformed_parameter_list_is_an_error() {
    assert_eq!(
        parse("int f(int) { }"),
        Err(StructuralError::ParamsMalformed { index: 3 })
    );
    assert_eq!(
        parse("int f(x y) { }"),
        Err(StructuralError::ParamsMalformed { index: 3 })
    );
}

#[test]
fn empty_token_sequence_parses_to_empty_program() {
    let program = parser::process(Vec::new()).unwrap();
    assert!(program.functions.is_empty());
    assert!(program.globals.is_empty());
}

#[test]
fn signature_triple_inside_global_region_is_read_as_function() {
    // the signature heuristic has no lookahead protection by design
    let program = parse("global { int g ( ) { } }").unwrap();
    assert_eq!(program.functions.len(), 1);
    assert_eq!(program.functions[0].name, "usr_g");
}

#[test]
fn global_keyword_token_classifies() {
    assert_eq!(
        lex("global"),
        vec![Token::Key(Keyword::Global)]
    );
    assert_eq!(
        lex("{ }"),
        vec![Token::Op(Operator::ScOpen), Token::Op(Operator::ScClose)]
    );
}
