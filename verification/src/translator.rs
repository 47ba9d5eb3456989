//! Text emission: renders a segmented program as host-language (C++) text.
//!
//! Emission is a token-by-token substitution preserving the source token
//! order: there is no precedence or statement-grouping logic.  The output is
//! a sequence of pieces: literal text, and import requests that the caller
//! resolves to library header text and splices in verbatim.  Functions are
//! emitted in the order the parser recorded them (first appearance of each
//! name), forward declarations first, then full definitions.

use vstd::prelude::*;

use crate::lexer::id_prefix;
use crate::parser::FnParamView;
use crate::parser::Function;
use crate::parser::FunctionView;
use crate::parser::Program;
use crate::parser::ProgramView;
use crate::parser::id_of;
use crate::types::Keyword;
use crate::types::Operator;
use crate::types::Token;
use crate::types::TokenView;
use crate::types::operator_text;
use crate::types::token_text;
use crate::types::translate_operator;
use crate::types::translate_token;
use crate::types::translate_type;
use crate::types::type_text;

verus! {

/// One piece of emitted output: literal text, or a request to splice in the
/// library header that the named import resolves to.
#[derive(Clone, Debug, PartialEq)]
pub enum EmitPiece {
    Text(String),
    Import(String),
}

/// The mathematical value of an [`EmitPiece`].
pub enum EmitPieceView {
    Text(Seq<char>),
    Import(Seq<char>),
}

impl View for EmitPiece {
    type V = EmitPieceView;

    open spec fn view(&self) -> EmitPieceView {
        match self {
            EmitPiece::Text(s) => EmitPieceView::Text(s@),
            EmitPiece::Import(s) => EmitPieceView::Import(s@),
        }
    }
}

impl DeepView for EmitPiece {
    type V = EmitPieceView;

    open spec fn deep_view(&self) -> EmitPieceView {
        self.view()
    }
}

/// The typed parameter list from position `i` on, comma-separated.
pub open spec fn params_text_from(ps: Seq<FnParamView>, i: int) -> Seq<char>
    decreases ps.len() - i,
{
    if i < 0 || i >= ps.len() {
        Seq::empty()
    } else {
        type_text(ps[i].typename) + ps[i].name + (if i + 1 < ps.len() {
            operator_text(Operator::Comma)
        } else {
            Seq::empty()
        }) + params_text_from(ps, i + 1)
    }
}

/// A function's declaration: return type, name, and the bracketed
/// comma-separated parameter list.
pub open spec fn decl_text(f: FunctionView) -> Seq<char> {
    type_text(f.return_type) + f.name + operator_text(Operator::BrOpen) + params_text_from(
        f.params,
        0,
    ) + operator_text(Operator::BrClose)
}

/// The concatenated rendering of the tokens from position `i` on.
pub open spec fn tokens_text_from(ts: Seq<TokenView>, i: int) -> Seq<char>
    decreases ts.len() - i,
{
    if i < 0 || i >= ts.len() {
        Seq::empty()
    } else {
        token_text(ts[i]) + tokens_text_from(ts, i + 1)
    }
}

/// A function's full definition: declaration, scope open, every body token
/// in source order, scope close.
pub open spec fn defn_text(f: FunctionView) -> Seq<char> {
    decl_text(f) + operator_text(Operator::ScOpen) + tokens_text_from(f.content, 0)
        + operator_text(Operator::ScClose)
}

/// Renders a function's forward declaration.
pub fn translate_func_declaration(function: &Function) -> (r: String)
    ensures
        r@ == decl_text(function.deep_view()),
{
    let ghost fv = function.deep_view();
    let mut buffer = translate_type(&function.return_type);
    buffer.append(function.name.as_str());
    let br_open = translate_operator(&Operator::BrOpen);
    buffer.append(br_open.as_str());
    let ghost head = buffer@;
    let n = function.params.len();
    let mut i: usize = 0;
    while i < n
        invariant
            n == function.params.len(),
            fv == function.deep_view(),
            0 <= i <= n,
            buffer@ + params_text_from(fv.params, i as int) == head + params_text_from(
                fv.params,
                0,
            ),
        decreases n - i,
    {
        let param = &function.params[i];
        proof {
            assert(fv.params[i as int] == function.params@[i as int].deep_view());
        }
        let tt = translate_type(&param.typename);
        buffer.append(tt.as_str());
        buffer.append(param.name.as_str());
        if i < n - 1 {
            let comma = translate_operator(&Operator::Comma);
            buffer.append(comma.as_str());
        }
        proof {
            assert(buffer@ + params_text_from(fv.params, i as int + 1) =~= head + params_text_from(
                fv.params,
                0,
            ));
        }
        i += 1;
    }
    let br_close = translate_operator(&Operator::BrClose);
    buffer.append(br_close.as_str());
    proof {
        assert(buffer@ =~= decl_text(fv));
    }
    buffer
}

/// Renders a function's full definition.
pub fn translate_func_definition(function: &Function) -> (r: String)
    ensures
        r@ == defn_text(function.deep_view()),
{
    let ghost fv = function.deep_view();
    let mut buffer = translate_func_declaration(function);
    let sc_open = translate_operator(&Operator::ScOpen);
    buffer.append(sc_open.as_str());
    let ghost head = buffer@;
    let n = function.content.len();
    let mut i: usize = 0;
    while i < n
        invariant
            n == function.content.len(),
            fv == function.deep_view(),
            0 <= i <= n,
            buffer@ + tokens_text_from(fv.content, i as int) == head + tokens_text_from(
                fv.content,
                0,
            ),
        decreases n - i,
    {
        proof {
            assert(fv.content[i as int] == function.content@[i as int].deep_view());
        }
        let tt = translate_token(&function.content[i]);
        buffer.append(tt.as_str());
        proof {
            assert(buffer@ + tokens_text_from(fv.content, i as int + 1) =~= head + tokens_text_from(
                fv.content,
                0,
            ));
        }
        i += 1;
    }
    let sc_close = translate_operator(&Operator::ScClose);
    buffer.append(sc_close.as_str());
    proof {
        assert(buffer@ =~= defn_text(fv));
    }
    buffer
}

/// The fixed preamble: standard-library includes for text and sequence
/// support, the redirection of the tagged entry-point identifier back to
/// the host language's entry point, and the global-section banner.
pub open spec fn preamble_text() -> Seq<char> {
    "/* ===STD=== */\n#include <string>\n#include <vector>\n#define usr_main main\n\n/* ===GLOBALS=== */\n"@
}

/// The name an import identifier looks up: the identifier with the lexer's
/// reserved-name tag removed, which is the identifier as the source wrote it.
pub open spec fn import_name_of(s: Seq<char>) -> Seq<char> {
    if s.len() >= id_prefix().len() && s.take(id_prefix().len() as int) == id_prefix() {
        s.skip(id_prefix().len() as int)
    } else {
        s
    }
}

/// The pieces of the global region: each token renders as text, except that
/// an `import` keyword followed by an identifier becomes an import request
/// and the two tokens themselves produce no text.
pub open spec fn globals_pieces_from(gs: Seq<TokenView>, i: int) -> Seq<EmitPieceView>
    decreases gs.len() - i,
{
    if i < 0 || i >= gs.len() {
        seq![]
    } else if gs[i] == TokenView::Key(Keyword::Import) && i + 1 < gs.len() && gs[i + 1] is Id {
        seq![EmitPieceView::Import(import_name_of(id_of(gs[i + 1])))] + globals_pieces_from(
            gs,
            i + 2,
        )
    } else {
        seq![EmitPieceView::Text(token_text(gs[i]))] + globals_pieces_from(gs, i + 1)
    }
}

/// The forward-declaration section from function `i` on: one declaration
/// per function, each closed by the statement terminator.
pub open spec fn decls_text_from(fs: Seq<FunctionView>, i: int) -> Seq<char>
    decreases fs.len() - i,
{
    if i < 0 || i >= fs.len() {
        Seq::empty()
    } else {
        decl_text(fs[i]) + operator_text(Operator::EOL) + decls_text_from(fs, i + 1)
    }
}

/// The definition section from function `i` on.
pub open spec fn defns_text_from(fs: Seq<FunctionView>, i: int) -> Seq<char>
    decreases fs.len() - i,
{
    if i < 0 || i >= fs.len() {
        Seq::empty()
    } else {
        defn_text(fs[i]) + defns_text_from(fs, i + 1)
    }
}

/// The whole translation unit: preamble, global region, the banner and the
/// forward declarations, the banner and the definitions.
pub open spec fn file_pieces(p: ProgramView) -> Seq<EmitPieceView> {
    seq![EmitPieceView::Text(preamble_text())] + globals_pieces_from(p.globals, 0) + seq![
        EmitPieceView::Text(
            "\n/* ===FUNCTION DECLARATIONS=== */\n"@ + decls_text_from(p.functions, 0),
        ),
    ] + seq![
        EmitPieceView::Text("\n/* ===FUNCTION DEFINITIONS=== */\n"@ + defns_text_from(p.functions, 0)),
    ]
}

/// Round-trip shape of a trivial function: a function record with no
/// parameters and an empty body renders exactly as the forward declaration
/// `int name();` (with the terminator's line break) and the definition
/// `int name(){` line break `}` two line breaks, with no extra text.
pub proof fn lemma_empty_function_round_trip(name: Seq<char>)
    ensures
        ({
            let f = FunctionView {
                return_type: crate::types::Type::Int,
                name: name,
                params: Seq::empty(),
                content: Seq::empty(),
            };
            &&& decl_text(f) == "int "@ + name + "()"@
            &&& decl_text(f) + operator_text(Operator::EOL) == "int "@ + name + "();\n"@
            &&& defn_text(f) == "int "@ + name + "(){\n}\n\n"@
        }),
{
    reveal_strlit("int ");
    reveal_strlit("(");
    reveal_strlit(")");
    reveal_strlit("()");
    reveal_strlit(";\n");
    reveal_strlit("();\n");
    reveal_strlit("{\n");
    reveal_strlit("}\n\n");
    reveal_strlit("(){\n}\n\n");
    let f = FunctionView {
        return_type: crate::types::Type::Int,
        name: name,
        params: Seq::empty(),
        content: Seq::empty(),
    };
    assert(decl_text(f) =~= "int "@ + name + "()"@);
    assert(decl_text(f) + operator_text(Operator::EOL) =~= "int "@ + name + "();\n"@);
    assert(defn_text(f) =~= "int "@ + name + "(){\n}\n\n"@);
}

fn is_import_tok(t: &Token) -> (r: bool)
    ensures
        r == (t@ == TokenView::Key(Keyword::Import)),
{
    match t {
        Token::Key(Keyword::Import) => true,
        _ => false,
    }
}

fn is_id_tok(t: &Token) -> (r: bool)
    ensures
        r == (t@ is Id),
{
    match t {
        Token::Id(_) => true,
        _ => false,
    }
}

/// Removes the reserved-name tag from an import identifier, giving the name
/// as the source wrote it.
fn strip_import_prefix(s: &String) -> (r: String)
    ensures
        r@ == import_name_of(s@),
{
    let st = s.as_str();
    let n = st.unicode_len();
    proof {
        reveal_strlit("usr_");
    }
    if n >= 4 {
        if st.get_char(0) == 'u' && st.get_char(1) == 's' && st.get_char(2) == 'r'
            && st.get_char(3) == '_' {
            proof {
                assert(s@.take(4) =~= id_prefix());
            }
            let rest = st.substring_char(4, n);
            return String::from_str(rest);
        }
        proof {
            assert(s@.take(4)[0] == s@[0]);
            assert(s@.take(4)[1] == s@[1]);
            assert(s@.take(4)[2] == s@[2]);
            assert(s@.take(4)[3] == s@[3]);
            assert(s@.take(id_prefix().len() as int) != id_prefix());
        }
    }
    s.clone()
}

/// Renders a whole program as output pieces, as `file_pieces` describes.
pub fn translate_file(program: &Program) -> (r: Vec<EmitPiece>)
    ensures
        r.deep_view() == file_pieces(program.deep_view()),
{
    let ghost pv = program.deep_view();
    let mut pieces: Vec<EmitPiece> = Vec::new();
    let preamble = String::from_str(
        "/* ===STD=== */\n#include <string>\n#include <vector>\n#define usr_main main\n\n/* ===GLOBALS=== */\n",
    );
    pieces.push(EmitPiece::Text(preamble));
    let ghost head = pieces.deep_view();
    proof {
        assert(head =~= seq![EmitPieceView::Text(preamble_text())]);
    }
    let n = program.globals.len();
    let mut i: usize = 0;
    proof {
        assert(head + globals_pieces_from(pv.globals, 0) =~= head + globals_pieces_from(
            pv.globals,
            0,
        ));
    }
    while i < n
        invariant
            n == program.globals.len(),
            pv == program.deep_view(),
            0 <= i <= n,
            pieces.deep_view() + globals_pieces_from(pv.globals, i as int) == seq![
                EmitPieceView::Text(preamble_text()),
            ] + globals_pieces_from(pv.globals, 0),
        decreases n - i,
    {
        let ghost dv0 = pieces.deep_view();
        proof {
            assert(pv.globals[i as int] == program.globals@[i as int].deep_view());
            if i + 1 < n {
                assert(pv.globals[i as int + 1] == program.globals@[i as int + 1].deep_view());
            }
        }
        if is_import_tok(&program.globals[i]) && i + 1 < n && is_id_tok(&program.globals[i + 1]) {
            let name = match &program.globals[i + 1] {
                Token::Id(s) => strip_import_prefix(s),
                _ => unreached(),
            };
            pieces.push(EmitPiece::Import(name));
            proof {
                assert(pieces.deep_view() =~= dv0.push(
                    EmitPieceView::Import(import_name_of(id_of(pv.globals[i as int + 1]))),
                ));
                assert(dv0.push(
                    EmitPieceView::Import(import_name_of(id_of(pv.globals[i as int + 1]))),
                ) + globals_pieces_from(pv.globals, i as int + 2) =~= dv0 + globals_pieces_from(
                    pv.globals,
                    i as int,
                ));
            }
            i += 2;
        } else {
            let t = translate_token(&program.globals[i]);
            pieces.push(EmitPiece::Text(t));
            proof {
                assert(pieces.deep_view() =~= dv0.push(
                    EmitPieceView::Text(token_text(pv.globals[i as int])),
                ));
                assert(dv0.push(EmitPieceView::Text(token_text(pv.globals[i as int])))
                    + globals_pieces_from(pv.globals, i as int + 1) =~= dv0 + globals_pieces_from(
                    pv.globals,
                    i as int,
                ));
            }
            i += 1;
        }
    }
    let ghost after_globals = pieces.deep_view();
    proof {
        assert(after_globals =~= seq![EmitPieceView::Text(preamble_text())] + globals_pieces_from(
            pv.globals,
            0,
        ));
    }
    let mut decls = String::from_str("\n/* ===FUNCTION DECLARATIONS=== */\n");
    let ghost decls_head = decls@;
    let fn_count = program.functions.len();
    let mut k: usize = 0;
    while k < fn_count
        invariant
            fn_count == program.functions.len(),
            pv == program.deep_view(),
            0 <= k <= fn_count,
            decls@ + decls_text_from(pv.functions, k as int) == decls_head + decls_text_from(
                pv.functions,
                0,
            ),
        decreases fn_count - k,
    {
        proof {
            assert(pv.functions[k as int] == program.functions@[k as int].deep_view());
        }
        let d = translate_func_declaration(&program.functions[k]);
        decls.append(d.as_str());
        let eol = translate_operator(&Operator::EOL);
        decls.append(eol.as_str());
        proof {
            assert(decls@ + decls_text_from(pv.functions, k as int + 1) =~= decls_head
                + decls_text_from(pv.functions, 0));
        }
        k += 1;
    }
    pieces.push(EmitPiece::Text(decls));
    let mut defns = String::from_str("\n/* ===FUNCTION DEFINITIONS=== */\n");
    let ghost defns_head = defns@;
    let mut k2: usize = 0;
    while k2 < fn_count
        invariant
            fn_count == program.functions.len(),
            pv == program.deep_view(),
            0 <= k2 <= fn_count,
            defns@ + defns_text_from(pv.functions, k2 as int) == defns_head + defns_text_from(
                pv.functions,
                0,
            ),
        decreases fn_count - k2,
    {
        proof {
            assert(pv.functions[k2 as int] == program.functions@[k2 as int].deep_view());
        }
        let d = translate_func_definition(&program.functions[k2]);
        defns.append(d.as_str());
        proof {
            assert(defns@ + defns_text_from(pv.functions, k2 as int + 1) =~= defns_head
                + defns_text_from(pv.functions, 0));
        }
        k2 += 1;
    }
    pieces.push(EmitPiece::Text(defns));
    proof {
        assert(pieces.deep_view() =~= file_pieces(pv));
    }
    pieces
}

} // verus!
