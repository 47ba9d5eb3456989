use intlang::lexer;
use intlang::parser;
use intlang::parser::Program;
use intlang::translator::EmitPiece;
use intlang::translator::translate_file;
use intlang::translator::translate_func_declaration;
use intlang::translator::translate_func_definition;
use intlang::types::DataType;
use intlang::types::Keyword;
use intlang::types::Operator;
use intlang::types::Token;
use intlang::types::Type;
use intlang::types::default_type_value;
use intlang::types::translate_data;
use intlang::types::translate_key;
use intlang::types::translate_operator;
use intlang::types::translate_token;
use intlang::types::translate_type;

fn parse(s: &str) -> Program {
    parser::process(lexer::process(&String::from(s))).unwrap()
}

const PREAMBLE: &str = "/* ===STD=== */\n#include <string>\n#include <vector>\n#define usr_main main\n\n/* ===GLOBALS=== */\n";

#[test]
fn type_renderings() {
    assert_eq!(translate_type(&Type::Real), "float ");
    assert_eq!(translate_type(&Type::Int), "int ");
    assert_eq!(translate_type(&Type::String), "std::string ");
    assert_eq!(translate_type(&Type::Bool), "bool ");
    assert_eq!(translate_type(&Type::Func), "void ");
}

#[test]
fn keyword_renderings() {
    assert_eq!(translate_key(&Keyword::If), "if ");
    assert_eq!(translate_key(&Keyword::Else), "else ");
    assert_eq!(translate_key(&Keyword::While), "while ");
    assert_eq!(translate_key(&Keyword::Return), "return ");
    assert_eq!(translate_key(&Keyword::Import), "");
    assert_eq!(translate_key(&Keyword::Global), "");
}

#[test]
fn operator_renderings() {
    assert_eq!(translate_operator(&Operator::Add), "+");
    assert_eq!(translate_operator(&Operator::ScOpen), "{\n");
    assert_eq!(translate_operator(&Operator::ScClose), "}\n\n");
    assert_eq!(translate_operator(&Operator::EOL), ";\n");
    assert_eq!(translate_operator(&Operator::Quote), "\"");
    assert_eq!(translate_operator(&Operator::Comma), ",");
}

#[test]
fn data_renderings() {
    assert_eq!(translate_data(&DataType::Int(0)), "0");
    assert_eq!(translate_data(&DataType::Int(123)), "123");
    assert_eq!(translate_data(&DataType::Int(-5)), "-5");
    assert_eq!(translate_data(&DataType::Int(i32::MIN)), "-2147483648");
    assert_eq!(translate_data(&DataType::Int(i32::MAX)), "2147483647");
    assert_eq!(translate_data(&DataType::Real(String::from("1e5"))), "1e5");
    assert_eq!(translate_data(&DataType::String(String::from("hi"))), "hi");
    assert_eq!(translate_data(&DataType::Bool(true)), "true");
    assert_eq!(translate_data(&DataType::Bool(false)), "false");
    assert_eq!(translate_data(&DataType::Func()), " ");
}

#[test]
fn token_rendering_dispatch() {
    assert_eq!(translate_token(&Token::Id(String::from("usr_x"))), "usr_x");
    assert_eq!(translate_token(&Token::Key(Keyword::Return)), "return ");
    assert_eq!(translate_token(&Token::Op(Operator::Dot)), ".");
    assert_eq!(translate_token(&Token::Type(Type::Bool)), "bool ");
    assert_eq!(translate_token(&Token::Data(DataType::Int(7))), "7");
}

#[test]
fn default_values_match_types() {
    assert_eq!(default_type_value(&Type::Real), DataType::Real(String::from("0")));
    assert_eq!(default_type_value(&Type::Int), DataType::Int(0));
    assert_eq!(default_type_value(&Type::String), DataType::String(String::from("")));
    assert_eq!(default_type_value(&Type::Bool), DataType::Bool(false));
    assert_eq!(default_type_value(&Type::Func), DataType::Func());
}

#[test]
fn empty_function_declaration_and_definition() {
    let program = parse("int f() { }");
    let f = &program.functions[0];
    assert_eq!(translate_func_declaration(f), "int usr_f()");
    assert_eq!(translate_func_definition(f), "int usr_f(){\n}\n\n");
}

#[test]
fn declaration_with_parameters() {
    let program = parse("bool check(int n, real x) { }");
    let f = &program.functions[0];
    assert_eq!(translate_func_declaration(f), "bool usr_check(int usr_n,float usr_x)");
}

#[test]
fn definition_renders_body_tokens_in_order() {
    let program = parse("int main() { ret 0; }");
    let f = &program.functions[0];
    assert_eq!(translate_func_definition(f), "int usr_main(){\nreturn 0;\n}\n\n");
}

#[test]
fn whole_file_pieces() {
    let program = parse("global { x = 5; } int main() { ret 0; }");
    let pieces = translate_file(&program);
    assert_eq!(
        pieces,
        vec![
            EmitPiece::Text(String::from(PREAMBLE)),
            EmitPiece::Text(String::from("usr_x")),
            EmitPiece::Text(String::from("=")),
            EmitPiece::Text(String::from("5")),
            EmitPiece::Text(String::from(";\n")),
            EmitPiece::Text(String::from(
                "\n/* ===FUNCTION DECLARATIONS=== */\nint usr_main();\n"
            )),
            EmitPiece::Text(String::from(
                "\n/* ===FUNCTION DEFINITIONS=== */\nint usr_main(){\nreturn 0;\n}\n\n"
            )),
        ]
    );
}

#[test]
fn import_becomes_a_lookup_request() {
    let program = parse("global { import math; }");
    let pieces = translate_file(&program);
    assert_eq!(
        pieces,
        vec![
            EmitPiece::Text(String::from(PREAMBLE)),
            EmitPiece::Import(String::from("math")),
            EmitPiece::Text(String::from(";\n")),
            EmitPiece::Text(String::from("\n/* ===FUNCTION DECLARATIONS=== */\n")),
            EmitPiece::Text(String::from("\n/* ===FUNCTION DEFINITIONS=== */\n")),
        ]
    );
}

#[test]
fn import_keyword_without_identifier_renders_empty() {
    let program = parse("global { import ; }");
    let pieces = translate_file(&program);
    assert_eq!(
        pieces,
        vec![
            EmitPiece::Text(String::from(PREAMBLE)),
            EmitPiece::Text(String::from("")),
            EmitPiece::Text(String::from(";\n")),
            EmitPiece::Text(String::from("\n/* ===FUNCTION DECLARATIONS=== */\n")),
            EmitPiece::Text(String::from("\n/* ===FUNCTION DEFINITIONS=== */\n")),
        ]
    );
}
