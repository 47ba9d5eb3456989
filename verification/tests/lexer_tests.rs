use intlang::lexer;
use intlang::types::DataType;
use intlang::types::Keyword;
use intlang::types::Operator;
use intlang::types::Token;
use intlang::types::Type;
use intlang::types::to_keyword;
use intlang::types::to_operator;
use intlang::types::to_type;
use intlang::types::is_keyword;
use intlang::types::is_operator;
use intlang::types::is_type;
use intlang::types::translate_token;

fn lex(s: &str) -> Vec<Token> {
    lexer::process(&String::from(s))
}

#[test]
fn keywords_classify() {
    assert_eq!(to_keyword("if"), Some(Keyword::If));
    assert_eq!(to_keyword("else"), Some(Keyword::Else));
    assert_eq!(to_keyword("while"), Some(Keyword::While));
    assert_eq!(to_keyword("loop"), Some(Keyword::While));
    assert_eq!(to_keyword("ret"), Some(Keyword::Return));
    assert_eq!(to_keyword("import"), Some(Keyword::Import));
    assert_eq!(to_keyword("global"), Some(Keyword::Global));
    assert_eq!(to_keyword("return"), None);
    assert!(is_keyword("if"));
    assert!(!is_keyword("iff"));
}

#[test]
fn operators_classify() {
    assert_eq!(to_operator('+'), Some(Operator::Add));
    assert_eq!(to_operator('-'), Some(Operator::Sub));
    assert_eq!(to_operator('*'), Some(Operator::Mul));
    assert_eq!(to_operator('/'), Some(Operator::Div));
    assert_eq!(to_operator('='), Some(Operator::Eq));
    assert_eq!(to_operator('&'), Some(Operator::Ref));
    assert_eq!(to_operator('#'), Some(Operator::Hash));
    assert_eq!(to_operator('<'), Some(Operator::Less));
    assert_eq!(to_operator('>'), Some(Operator::Greater));
    assert_eq!(to_operator('{'), Some(Operator::ScOpen));
    assert_eq!(to_operator('}'), Some(Operator::ScClose));
    assert_eq!(to_operator('('), Some(Operator::BrOpen));
    assert_eq!(to_operator(')'), Some(Operator::BrClose));
    assert_eq!(to_operator('"'), Some(Operator::Quote));
    assert_eq!(to_operator(';'), Some(Operator::EOL));
    assert_eq!(to_operator(','), Some(Operator::Comma));
    assert_eq!(to_operator('.'), Some(Operator::Dot));
    assert_eq!(to_operator('a'), None);
    assert!(is_operator('+'));
    assert!(!is_operator('a'));
}

#[test]
fn types_classify() {
    assert_eq!(to_type("real"), Some(Type::Real));
    assert_eq!(to_type("int"), Some(Type::Int));
    assert_eq!(to_type("string"), Some(Type::String));
    assert_eq!(to_type("bool"), Some(Type::Bool));
    assert_eq!(to_type("func"), Some(Type::Func));
    assert_eq!(to_type("float"), None);
    assert!(is_type("int"));
    assert!(!is_type("integer"));
}

#[test]
fn simple_statement() {
    let tokens = lex("x = 1;");
    assert_eq!(
        tokens,
        vec![
            Token::Id(String::from("usr_x")),
            Token::Op(Operator::Eq),
            Token::Data(DataType::Int(1)),
            Token::Op(Operator::EOL),
        ]
    );
}

#[test]
fn identifiers_carry_reserved_prefix() {
    let tokens = lex("class");
    assert_eq!(tokens, vec![Token::Id(String::from("usr_class"))]);
}

#[test]
fn integer_bounds() {
    assert_eq!(lex("2147483647"), vec![Token::Data(DataType::Int(2147483647))]);
    // one past the largest integer literal falls through to a real literal
    assert_eq!(
        lex("2147483648"),
        vec![Token::Data(DataType::Real(String::from("2147483648")))]
    );
}

#[test]
fn exponent_form_is_real() {
    assert_eq!(lex("1e5"), vec![Token::Data(DataType::Real(String::from("1e5")))]);
    assert_eq!(lex("12E03"), vec![Token::Data(DataType::Real(String::from("12E03")))]);
    // a trailing exponent marker with no digits is just an identifier
    assert_eq!(lex("12e"), vec![Token::Id(String::from("usr_12e"))]);
    assert_eq!(lex("e5"), vec![Token::Id(String::from("usr_e5"))]);
}

#[test]
fn booleans_classify() {
    assert_eq!(
        lex("true false"),
        vec![
            Token::Data(DataType::Bool(true)),
            Token::Data(DataType::Bool(false)),
        ]
    );
    assert_eq!(lex("tru"), vec![Token::Id(String::from("usr_tru"))]);
}

#[test]
fn string_literal_preserves_internal_whitespace() {
    let tokens = lex("\"a b\"");
    assert_eq!(
        tokens,
        vec![
            Token::Op(Operator::Quote),
            Token::Data(DataType::String(String::from("a"))),
            Token::Data(DataType::String(String::from(" "))),
            Token::Data(DataType::String(String::from("b"))),
            Token::Op(Operator::Quote),
        ]
    );
    // re-emission reproduces the literal verbatim
    let mut out = String::new();
    for t in &tokens {
        out.push_str(&translate_token(t));
    }
    assert_eq!(out, "\"a b\"");
}

#[test]
fn string_literal_keeps_operators_verbatim() {
    let tokens = lex("\"a+b\"");
    assert_eq!(
        tokens,
        vec![
            Token::Op(Operator::Quote),
            Token::Data(DataType::String(String::from("a"))),
            Token::Data(DataType::String(String::from("+"))),
            Token::Data(DataType::String(String::from("b"))),
            Token::Op(Operator::Quote),
        ]
    );
}

#[test]
fn comment_region_contributes_no_tokens() {
    assert_eq!(lex("# this is ignored # x = 1;"), lex("x = 1;"));
}

#[test]
fn comment_at_end_swallows_rest() {
    assert_eq!(lex("x = 1; # trailing words"), lex("x = 1;"));
}

#[test]
fn hash_inside_string_is_text() {
    let tokens = lex("\"a#b\"");
    assert_eq!(
        tokens,
        vec![
            Token::Op(Operator::Quote),
            Token::Data(DataType::String(String::from("a"))),
            Token::Data(DataType::String(String::from("#"))),
            Token::Data(DataType::String(String::from("b"))),
            Token::Op(Operator::Quote),
        ]
    );
}

#[test]
fn adjacent_operators_each_tokenize() {
    assert_eq!(
        lex("<="),
        vec![Token::Op(Operator::Less), Token::Op(Operator::Eq)]
    );
}

#[test]
fn newlines_between_statements_are_trimmed() {
    assert_eq!(lex("x = 1;\ny = 2;"), lex("x = 1; y = 2;"));
}

#[test]
fn empty_source_has_no_tokens() {
    assert_eq!(lex(""), Vec::<Token>::new());
    assert_eq!(lex("   \n\t  "), Vec::<Token>::new());
}
