//! The token model: keywords, operators, primitive types and literal values,
//! together with their classification from source words and their textual
//! rendering in the emitted host language.

use vstd::prelude::*;

use crate::text::int_text;
use crate::text::int_to_string;
use crate::text::str_eq;

verus! {

/// Control keywords of the source language.
#[derive(Clone, Copy, Debug, PartialEq, Eq, Structural)]
pub enum Keyword {
    If,
    Else,
    While,
    Return,
    Import,
    Global,
}

/// Single-character operator symbols.
#[derive(Clone, Copy, Debug, PartialEq, Eq, Structural)]
pub enum Operator {
    Add,
    Sub,
    Mul,
    Div,
    Eq,
    Ref,
    Hash,
    Less,
    Greater,
    ScOpen,
    ScClose,
    BrOpen,
    BrClose,
    Quote,
    Comma,
    Dot,
    EOL,
}

/// Primitive types of the source language.
#[derive(Clone, Copy, Debug, PartialEq, Eq, Structural)]
pub enum Type {
    Real,
    Int,
    String,
    Bool,
    Func,
}

/// A literal value.  A real literal keeps its source spelling, since the
/// pipeline only ever carries it through to the emitted text.
#[derive(Clone, Debug, PartialEq)]
pub enum DataType {
    Real(String),
    Int(i32),
    String(String),
    Bool(bool),
    Func(),
}

/// One token of the flat intermediate representation.
#[derive(Clone, Debug, PartialEq)]
pub enum Token {
    Op(Operator),
    Type(Type),
    Id(String),
    Key(Keyword),
    Data(DataType),
}

/// The mathematical value of a [`DataType`]: owned strings are abstracted
/// to their character sequences.
pub enum DataValue {
    Real(Seq<char>),
    Int(i32),
    Str(Seq<char>),
    Bool(bool),
    Func,
}

/// The mathematical value of a [`Token`].
pub enum TokenView {
    Op(Operator),
    Prim(Type),
    Id(Seq<char>),
    Key(Keyword),
    Lit(DataValue),
}

impl View for DataType {
    type V = DataValue;

    open spec fn view(&self) -> DataValue {
        match self {
            DataType::Real(s) => DataValue::Real(s@),
            DataType::Int(v) => DataValue::Int(*v),
            DataType::String(s) => DataValue::Str(s@),
            DataType::Bool(b) => DataValue::Bool(*b),
            DataType::Func() => DataValue::Func,
        }
    }
}

impl DeepView for DataType {
    type V = DataValue;

    open spec fn deep_view(&self) -> DataValue {
        self.view()
    }
}

impl View for Token {
    type V = TokenView;

    open spec fn view(&self) -> TokenView {
        match self {
            Token::Op(op) => TokenView::Op(*op),
            Token::Type(t) => TokenView::Prim(*t),
            Token::Id(s) => TokenView::Id(s@),
            Token::Key(k) => TokenView::Key(*k),
            Token::Data(d) => TokenView::Lit(d@),
        }
    }
}

impl DeepView for Token {
    type V = TokenView;

    open spec fn deep_view(&self) -> TokenView {
        self.view()
    }
}

/// The keyword a word names, if any.  Both `while` and `loop` spell the
/// loop keyword.
pub open spec fn keyword_of(s: Seq<char>) -> Option<Keyword> {
    if s == "if"@ {
        Some(Keyword::If)
    } else if s == "else"@ {
        Some(Keyword::Else)
    } else if s == "while"@ || s == "loop"@ {
        Some(Keyword::While)
    } else if s == "ret"@ {
        Some(Keyword::Return)
    } else if s == "import"@ {
        Some(Keyword::Import)
    } else if s == "global"@ {
        Some(Keyword::Global)
    } else {
        None
    }
}

pub fn to_keyword(s: &str) -> (r: Option<Keyword>)
    ensures
        r == keyword_of(s@),
{
    if str_eq(s, "if") {
        Some(Keyword::If)
    } else if str_eq(s, "else") {
        Some(Keyword::Else)
    } else if str_eq(s, "while") || str_eq(s, "loop") {
        Some(Keyword::While)
    } else if str_eq(s, "ret") {
        Some(Keyword::Return)
    } else if str_eq(s, "import") {
        Some(Keyword::Import)
    } else if str_eq(s, "global") {
        Some(Keyword::Global)
    } else {
        None
    }
}

pub fn is_keyword(s: &str) -> (r: bool)
    ensures
        r == keyword_of(s@) is Some,
{
    to_keyword(s).is_some()
}

/// The operator a single character names, if any.
pub open spec fn operator_of(c: char) -> Option<Operator> {
    if c == '+' {
        Some(Operator::Add)
    } else if c == '-' {
        Some(Operator::Sub)
    } else if c == '*' {
        Some(Operator::Mul)
    } else if c == '/' {
        Some(Operator::Div)
    } else if c == '=' {
        Some(Operator::Eq)
    } else if c == '&' {
        Some(Operator::Ref)
    } else if c == '#' {
        Some(Operator::Hash)
    } else if c == '<' {
        Some(Operator::Less)
    } else if c == '>' {
        Some(Operator::Greater)
    } else if c == '{' {
        Some(Operator::ScOpen)
    } else if c == '}' {
        Some(Operator::ScClose)
    } else if c == '(' {
        Some(Operator::BrOpen)
    } else if c == ')' {
        Some(Operator::BrClose)
    } else if c == '"' {
        Some(Operator::Quote)
    } else if c == ';' {
        Some(Operator::EOL)
    } else if c == ',' {
        Some(Operator::Comma)
    } else if c == '.' {
        Some(Operator::Dot)
    } else {
        None
    }
}

pub fn to_operator(c: char) -> (r: Option<Operator>)
    ensures
        r == operator_of(c),
{
    match c {
        '+' => Some(Operator::Add),
        '-' => Some(Operator::Sub),
        '*' => Some(Operator::Mul),
        '/' => Some(Operator::Div),
        '=' => Some(Operator::Eq),
        '&' => Some(Operator::Ref),
        '#' => Some(Operator::Hash),
        '<' => Some(Operator::Less),
        '>' => Some(Operator::Greater),
        '{' => Some(Operator::ScOpen),
        '}' => Some(Operator::ScClose),
        '(' => Some(Operator::BrOpen),
        ')' => Some(Operator::BrClose),
        '"' => Some(Operator::Quote),
        ';' => Some(Operator::EOL),
        ',' => Some(Operator::Comma),
        '.' => Some(Operator::Dot),
        _ => None,
    }
}

pub fn is_operator(c: char) -> (r: bool)
    ensures
        r == operator_of(c) is Some,
{
    to_operator(c).is_some()
}

/// The primitive type a word names, if any.
pub open spec fn type_of(s: Seq<char>) -> Option<Type> {
    if s == "real"@ {
        Some(Type::Real)
    } else if s == "int"@ {
        Some(Type::Int)
    } else if s == "string"@ {
        Some(Type::String)
    } else if s == "bool"@ {
        Some(Type::Bool)
    } else if s == "func"@ {
        Some(Type::Func)
    } else {
        None
    }
}

pub fn to_type(s: &str) -> (r: Option<Type>)
    ensures
        r == type_of(s@),
{
    if str_eq(s, "real") {
        Some(Type::Real)
    } else if str_eq(s, "int") {
        Some(Type::Int)
    } else if str_eq(s, "string") {
        Some(Type::String)
    } else if str_eq(s, "bool") {
        Some(Type::Bool)
    } else if str_eq(s, "func") {
        Some(Type::Func)
    } else {
        None
    }
}

pub fn is_type(s: &str) -> (r: bool)
    ensures
        r == type_of(s@) is Some,
{
    to_type(s).is_some()
}

/// The zero value of each primitive type: a parameter carries it as its
/// default, since the source language has no default-value syntax.
pub open spec fn default_value_of(t: Type) -> DataValue {
    match t {
        Type::Real => DataValue::Real("0"@),
        Type::Int => DataValue::Int(0),
        Type::String => DataValue::Str(""@),
        Type::Bool => DataValue::Bool(false),
        Type::Func => DataValue::Func,
    }
}

pub fn default_type_value(t: &Type) -> (r: DataType)
    ensures
        r@ == default_value_of(*t),
{
    match t {
        Type::Real => DataType::Real(String::from_str("0")),
        Type::Int => DataType::Int(0),
        Type::String => DataType::String(String::from_str("")),
        Type::Bool => DataType::Bool(false),
        Type::Func => DataType::Func(),
    }
}

/// The host-language spelling of a primitive type, trailing space included.
pub open spec fn type_text(t: Type) -> Seq<char> {
    match t {
        Type::Real => "float "@,
        Type::Int => "int "@,
        Type::String => "std::string "@,
        Type::Bool => "bool "@,
        Type::Func => "void "@,
    }
}

pub fn translate_type(typename: &Type) -> (r: String)
    ensures
        r@ == type_text(*typename),
{
    match typename {
        Type::Real => String::from_str("float "),
        Type::Int => String::from_str("int "),
        Type::String => String::from_str("std::string "),
        Type::Bool => String::from_str("bool "),
        Type::Func => String::from_str("void "),
    }
}

/// The host-language spelling of a keyword.  `import` and `global` direct
/// the pipeline itself and render as empty text.
pub open spec fn keyword_text(k: Keyword) -> Seq<char> {
    match k {
        Keyword::Else => "else "@,
        Keyword::If => "if "@,
        Keyword::Return => "return "@,
        Keyword::While => "while "@,
        Keyword::Import => ""@,
        Keyword::Global => ""@,
    }
}

pub fn translate_key(key: &Keyword) -> (r: String)
    ensures
        r@ == keyword_text(*key),
{
    match key {
        Keyword::Else => String::from_str("else "),
        Keyword::If => String::from_str("if "),
        Keyword::Return => String::from_str("return "),
        Keyword::While => String::from_str("while "),
        Keyword::Import => String::from_str(""),
        Keyword::Global => String::from_str(""),
    }
}

/// The host-language spelling of an operator.  Scope delimiters and the
/// statement terminator carry the line breaks of the emitted layout.
pub open spec fn operator_text(op: Operator) -> Seq<char> {
    match op {
        Operator::Add => "+"@,
        Operator::Sub => "-"@,
        Operator::Mul => "*"@,
        Operator::Div => "/"@,
        Operator::Eq => "="@,
        Operator::Ref => "&"@,
        Operator::Hash => "#"@,
        Operator::Less => "<"@,
        Operator::Greater => ">"@,
        Operator::ScOpen => "{\n"@,
        Operator::ScClose => "}\n\n"@,
        Operator::BrOpen => "("@,
        Operator::BrClose => ")"@,
        Operator::Quote => "\""@,
        Operator::Comma => ","@,
        Operator::Dot => "."@,
        Operator::EOL => ";\n"@,
    }
}

pub fn translate_operator(op: &Operator) -> (r: String)
    ensures
        r@ == operator_text(*op),
{
    match op {
        Operator::Add => String::from_str("+"),
        Operator::Sub => String::from_str("-"),
        Operator::Mul => String::from_str("*"),
        Operator::Div => String::from_str("/"),
        Operator::Eq => String::from_str("="),
        Operator::Ref => String::from_str("&"),
        Operator::Hash => String::from_str("#"),
        Operator::Less => String::from_str("<"),
        Operator::Greater => String::from_str(">"),
        Operator::ScOpen => String::from_str("{\n"),
        Operator::ScClose => String::from_str("}\n\n"),
        Operator::BrOpen => String::from_str("("),
        Operator::BrClose => String::from_str(")"),
        Operator::Quote => String::from_str("\""),
        Operator::Comma => String::from_str(","),
        Operator::Dot => String::from_str("."),
        Operator::EOL => String::from_str(";\n"),
    }
}

/// The textual rendering of a literal value.
pub open spec fn data_text(d: DataValue) -> Seq<char> {
    match d {
        DataValue::Real(s) => s,
        DataValue::Int(v) => int_text(v as int),
        DataValue::Str(s) => s,
        DataValue::Bool(b) => if b {
            "true"@
        } else {
            "false"@
        },
        DataValue::Func => " "@,
    }
}

pub fn translate_data(data: &DataType) -> (r: String)
    ensures
        r@ == data_text(data@),
{
    match data {
        DataType::Real(val) => val.clone(),
        DataType::Int(val) => int_to_string(*val),
        DataType::String(val) => val.clone(),
        DataType::Bool(val) => if *val {
            String::from_str("true")
        } else {
            String::from_str("false")
        },
        DataType::Func() => String::from_str(" "),
    }
}

/// Copies a literal value; the copy has the same mathematical value.
pub fn clone_data(d: &DataType) -> (r: DataType)
    ensures
        r@ == d@,
{
    match d {
        DataType::Real(s) => DataType::Real(s.clone()),
        DataType::Int(v) => DataType::Int(*v),
        DataType::String(s) => DataType::String(s.clone()),
        DataType::Bool(b) => DataType::Bool(*b),
        DataType::Func() => DataType::Func(),
    }
}

/// Copies a token; the copy has the same mathematical value.
pub fn clone_token(t: &Token) -> (r: Token)
    ensures
        r@ == t@,
{
    match t {
        Token::Op(op) => Token::Op(*op),
        Token::Type(tp) => Token::Type(*tp),
        Token::Id(s) => Token::Id(s.clone()),
        Token::Key(k) => Token::Key(*k),
        Token::Data(d) => Token::Data(clone_data(d)),
    }
}

/// The textual rendering of any token: emission is a token-by-token
/// substitution that keeps the source token order.
pub open spec fn token_text(t: TokenView) -> Seq<char> {
    match t {
        TokenView::Lit(d) => data_text(d),
        TokenView::Id(s) => s,
        TokenView::Key(k) => keyword_text(k),
        TokenView::Op(op) => operator_text(op),
        TokenView::Prim(t) => type_text(t),
    }
}

pub fn translate_token(token: &Token) -> (r: String)
    ensures
        r@ == token_text(token@),
{
    match token {
        Token::Data(val) => translate_data(val),
        Token::Id(val) => val.clone(),
        Token::Key(val) => translate_key(val),
        Token::Op(val) => translate_operator(val),
        Token::Type(val) => translate_type(val),
    }
}

} // verus!
