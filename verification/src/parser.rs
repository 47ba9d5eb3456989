//! Structural segmentation: partitions the flat token sequence into one
//! optional global-variable region and a collection of function records.
//!
//! The parser scans positionally and builds no tree.  A function signature is
//! any `type identifier (` triple; the heuristic has no lookahead protection,
//! so such a triple inside an unrelated context is read as a signature too.
//! Both the global region and function bodies are closed by the first
//! unmatched scope-close token, tracked with a nesting counter, so nested
//! scopes inside either region are kept whole.  A missing delimiter is
//! reported as a structured error carrying the offending token index;
//! a source without a `global` keyword simply has an empty global region.
//!
//! Function records are kept in order of the first appearance of each name;
//! a redeclaration silently overwrites the earlier record in place.

use vstd::prelude::*;

use crate::types::DataValue;
use crate::types::Keyword;
use crate::types::Operator;
use crate::types::Token;
use crate::types::TokenView;
use crate::types::Type;
use crate::types::clone_token;
use crate::types::default_type_value;
use crate::types::default_value_of;
use crate::text::str_eq;

verus! {

/// A function parameter.  Its default value is always the zero value of its
/// declared type: the source language has no default-value syntax.
#[derive(Clone, Debug, PartialEq)]
pub struct FnParam {
    pub typename: Type,
    pub name: String,
    pub value: crate::types::DataType,
}

/// One parsed function: return type, name, ordered parameters, and the body
/// as the raw token span between the function's own scope delimiters.
#[derive(Clone, Debug, PartialEq)]
pub struct Function {
    pub return_type: Type,
    pub name: String,
    pub params: Vec<FnParam>,
    pub content: Vec<Token>,
}

/// The parser's whole result: the function records, in order of first
/// appearance of each name, and the global-region token span.
#[derive(Clone, Debug, PartialEq)]
pub struct Program {
    pub functions: Vec<Function>,
    pub globals: Vec<Token>,
}

/// A missing delimiter or region, with the index of the token at which the
/// expected delimiter should have stood (for an unterminated region, the
/// index of the delimiter that opened it).
#[derive(Clone, Copy, Debug, PartialEq, Eq, Structural)]
pub enum StructuralError {
    /// The token after the `global` keyword, at `index`, does not open a scope.
    GlobalOpenMissing { index: usize },
    /// The global region opened at `index` never closes.
    GlobalCloseMissing { index: usize },
    /// The parameter list opened at `index` never closes.
    ParamCloseMissing { index: usize },
    /// The parameter span starting at `index` is not an alternation of
    /// type/name pairs.
    ParamsMalformed { index: usize },
    /// The token after the parameter list, at `index`, does not open a scope.
    BodyOpenMissing { index: usize },
    /// The function body opened at `index` never closes.
    BodyCloseMissing { index: usize },
}

#[verifier::ext_equal]
pub struct FnParamView {
    pub typename: Type,
    pub name: Seq<char>,
    pub value: DataValue,
}

#[verifier::ext_equal]
pub struct FunctionView {
    pub return_type: Type,
    pub name: Seq<char>,
    pub params: Seq<FnParamView>,
    pub content: Seq<TokenView>,
}

#[verifier::ext_equal]
pub struct ProgramView {
    pub functions: Seq<FunctionView>,
    pub globals: Seq<TokenView>,
}

impl View for FnParam {
    type V = FnParamView;

    open spec fn view(&self) -> FnParamView {
        FnParamView { typename: self.typename, name: self.name@, value: self.value@ }
    }
}

impl DeepView for FnParam {
    type V = FnParamView;

    open spec fn deep_view(&self) -> FnParamView {
        self.view()
    }
}

impl View for Function {
    type V = FunctionView;

    open spec fn view(&self) -> FunctionView {
        FunctionView {
            return_type: self.return_type,
            name: self.name@,
            params: self.params.deep_view(),
            content: self.content.deep_view(),
        }
    }
}

impl DeepView for Function {
    type V = FunctionView;

    open spec fn deep_view(&self) -> FunctionView {
        self.view()
    }
}

impl View for Program {
    type V = ProgramView;

    open spec fn view(&self) -> ProgramView {
        ProgramView { functions: self.functions.deep_view(), globals: self.globals.deep_view() }
    }
}

impl DeepView for Program {
    type V = ProgramView;

    open spec fn deep_view(&self) -> ProgramView {
        self.view()
    }
}

/// The index of the first `global` keyword, or `-1` if there is none.
pub open spec fn first_global(ts: Seq<TokenView>) -> int
    decreases ts.len(),
{
    if ts.len() == 0 {
        -1
    } else if ts[0] == TokenView::Key(Keyword::Global) {
        0
    } else {
        let r = first_global(ts.drop_first());
        if r < 0 {
            -1
        } else {
            r + 1
        }
    }
}

/// The index of the first scope-close token at nesting depth zero relative
/// to `depth`, scanning from `i`; `-1` if the scan runs off the end.
pub open spec fn find_scope_close(ts: Seq<TokenView>, i: int, depth: int) -> int
    decreases ts.len() - i,
{
    if i < 0 || i >= ts.len() {
        -1
    } else if ts[i] == TokenView::Op(Operator::ScOpen) {
        find_scope_close(ts, i + 1, depth + 1)
    } else if ts[i] == TokenView::Op(Operator::ScClose) {
        if depth == 0 {
            i
        } else {
            find_scope_close(ts, i + 1, depth - 1)
        }
    } else {
        find_scope_close(ts, i + 1, depth)
    }
}

/// The index of the first parameter-list close token at or after `i`,
/// or `-1` if there is none.
pub open spec fn find_param_close(ts: Seq<TokenView>, i: int) -> int
    decreases ts.len() - i,
{
    if i < 0 || i >= ts.len() {
        -1
    } else if ts[i] == TokenView::Op(Operator::BrClose) {
        i
    } else {
        find_param_close(ts, i + 1)
    }
}

/// The sole function-signature heuristic: a primitive type, an identifier
/// and a parameter-list opener in a row.
pub open spec fn sig_at(ts: Seq<TokenView>, i: int) -> bool {
    &&& 0 <= i
    &&& i + 2 < ts.len()
    &&& ts[i] is Prim
    &&& ts[i + 1] is Id
    &&& ts[i + 2] == TokenView::Op(Operator::BrOpen)
}

/// Every signature position at or after `i`, in ascending order.
pub open spec fn sig_positions_from(ts: Seq<TokenView>, i: int) -> Seq<int>
    decreases ts.len() - i,
{
    if i < 0 || i + 2 >= ts.len() {
        seq![]
    } else if sig_at(ts, i) {
        seq![i] + sig_positions_from(ts, i + 1)
    } else {
        sig_positions_from(ts, i + 1)
    }
}

/// The parameter span with its comma tokens removed.
pub open spec fn strip_commas(ts: Seq<TokenView>) -> Seq<TokenView>
    decreases ts.len(),
{
    if ts.len() == 0 {
        seq![]
    } else if ts[0] == TokenView::Op(Operator::Comma) {
        strip_commas(ts.drop_first())
    } else {
        seq![ts[0]] + strip_commas(ts.drop_first())
    }
}

/// Reads a comma-stripped span as alternating type/name pairs, each pair
/// becoming a parameter whose default is its type's zero value; `None` when
/// the span is not such an alternation.
pub open spec fn pairs_params(f: Seq<TokenView>) -> Option<Seq<FnParamView>>
    decreases f.len(),
{
    if f.len() == 0 {
        Some(seq![])
    } else if f.len() == 1 {
        None
    } else {
        match (f[0], f[1]) {
            (TokenView::Prim(tp), TokenView::Id(name)) => match pairs_params(f.skip(2)) {
                Some(r) => Some(
                    seq![FnParamView { typename: tp, name: name, value: default_value_of(tp) }] + r,
                ),
                None => None,
            },
            _ => None,
        }
    }
}

pub open spec fn prim_of(t: TokenView) -> Type {
    match t {
        TokenView::Prim(tp) => tp,
        _ => arbitrary(),
    }
}

pub open spec fn id_of(t: TokenView) -> Seq<char> {
    match t {
        TokenView::Id(s) => s,
        _ => arbitrary(),
    }
}

/// The function record whose signature stands at `pos`, or the structural
/// error met while reading it: first the parameter-list close, then the
/// scope opener right after it, then the parameter pairs, then the body
/// up to the first unmatched scope close.
pub open spec fn parse_function_at(ts: Seq<TokenView>, pos: int) -> Result<
    FunctionView,
    StructuralError,
> {
    let pe = find_param_close(ts, pos + 3);
    if pe < 0 {
        Err(StructuralError::ParamCloseMissing { index: (pos + 2) as usize })
    } else if pe + 1 >= ts.len() || ts[pe + 1] != TokenView::Op(Operator::ScOpen) {
        Err(StructuralError::BodyOpenMissing { index: (pe + 1) as usize })
    } else {
        match pairs_params(strip_commas(ts.subrange(pos + 3, pe))) {
            None => Err(StructuralError::ParamsMalformed { index: (pos + 3) as usize }),
            Some(ps) => {
                let fe = find_scope_close(ts, pe + 2, 0);
                if fe < 0 {
                    Err(StructuralError::BodyCloseMissing { index: (pe + 1) as usize })
                } else {
                    Ok(
                        FunctionView {
                            return_type: prim_of(ts[pos]),
                            name: id_of(ts[pos + 1]),
                            params: ps,
                            content: ts.subrange(pe + 2, fe),
                        },
                    )
                }
            },
        }
    }
}

/// Adds a record to the collection: a record with the same name is
/// overwritten in place, otherwise the new record goes at the end.
pub open spec fn insert_function(fs: Seq<FunctionView>, f: FunctionView) -> Seq<FunctionView>
    decreases fs.len(),
{
    if fs.len() == 0 {
        seq![f]
    } else if fs[0].name == f.name {
        seq![f] + fs.drop_first()
    } else {
        seq![fs[0]] + insert_function(fs.drop_first(), f)
    }
}

/// Parses every signature position in order, accumulating records; the
/// first structural error aborts the whole parse.
pub open spec fn build_functions(
    ts: Seq<TokenView>,
    ps: Seq<int>,
    acc: Seq<FunctionView>,
) -> Result<Seq<FunctionView>, StructuralError>
    decreases ps.len(),
{
    if ps.len() == 0 {
        Ok(acc)
    } else {
        match parse_function_at(ts, ps[0]) {
            Err(e) => Err(e),
            Ok(f) => build_functions(ts, ps.drop_first(), insert_function(acc, f)),
        }
    }
}

/// All function records of the token sequence.
pub open spec fn spec_functions(ts: Seq<TokenView>) -> Result<Seq<FunctionView>, StructuralError> {
    build_functions(ts, sig_positions_from(ts, 0), seq![])
}

/// The global region: empty without a `global` keyword; otherwise the span
/// between the scope opener that must follow the first `global` keyword and
/// its matching close.
pub open spec fn spec_globals(ts: Seq<TokenView>) -> Result<Seq<TokenView>, StructuralError> {
    let g = first_global(ts);
    if g < 0 {
        Ok(seq![])
    } else if g + 1 >= ts.len() || ts[g + 1] != TokenView::Op(Operator::ScOpen) {
        Err(StructuralError::GlobalOpenMissing { index: (g + 1) as usize })
    } else {
        let c = find_scope_close(ts, g + 2, 0);
        if c < 0 {
            Err(StructuralError::GlobalCloseMissing { index: (g + 1) as usize })
        } else {
            Ok(ts.subrange(g + 2, c))
        }
    }
}

/// The whole segmentation: function records first, then the global region.
pub open spec fn spec_segment(ts: Seq<TokenView>) -> Result<ProgramView, StructuralError> {
    match spec_functions(ts) {
        Err(e) => Err(e),
        Ok(fs) => match spec_globals(ts) {
            Err(e) => Err(e),
            Ok(gs) => Ok(ProgramView { functions: fs, globals: gs }),
        },
    }
}

/// A source without the `global` keyword has an empty global region, and
/// that is not an error.
pub proof fn lemma_no_global_keyword_empty_region(ts: Seq<TokenView>)
    requires
        forall|i: int| 0 <= i < ts.len() ==> #[trigger] ts[i] != TokenView::Key(Keyword::Global),
    ensures
        spec_globals(ts) == Ok::<Seq<TokenView>, StructuralError>(Seq::<TokenView>::empty()),
{
    lemma_first_global(ts, ts.len() as int);
}

/// The token span of a well-formed parameter list: `type name` pairs
/// separated by commas.
pub open spec fn signature_param_span(ps: Seq<(Type, Seq<char>)>) -> Seq<TokenView>
    decreases ps.len(),
{
    if ps.len() == 0 {
        seq![]
    } else if ps.len() == 1 {
        seq![TokenView::Prim(ps[0].0), TokenView::Id(ps[0].1)]
    } else {
        seq![
            TokenView::Prim(ps[0].0),
            TokenView::Id(ps[0].1),
            TokenView::Op(Operator::Comma),
        ] + signature_param_span(ps.drop_first())
    }
}

proof fn lemma_strip_commas_add(a: Seq<TokenView>, b: Seq<TokenView>)
    ensures
        strip_commas(a + b) == strip_commas(a) + strip_commas(b),
    decreases a.len(),
{
    if a.len() == 0 {
        assert(a + b =~= b);
        assert(strip_commas(a) + strip_commas(b) =~= strip_commas(b));
    } else {
        lemma_strip_commas_add(a.drop_first(), b);
        assert((a + b).drop_first() =~= a.drop_first() + b);
        assert((a + b)[0] == a[0]);
        if a[0] == TokenView::Op(Operator::Comma) {
        } else {
            assert(seq![a[0]] + (strip_commas(a.drop_first()) + strip_commas(b)) =~= (seq![a[0]]
                + strip_commas(a.drop_first())) + strip_commas(b));
        }
    }
}

/// A well-formed parameter list — `type name` pairs separated by commas —
/// parses to exactly those pairs, in order, each parameter's default value
/// being the zero value of its declared type.
pub proof fn lemma_params_exact(ps: Seq<(Type, Seq<char>)>)
    ensures
        ({
            let parsed = pairs_params(strip_commas(signature_param_span(ps)));
            &&& parsed is Some
            &&& parsed->Some_0.len() == ps.len()
            &&& forall|i: int|
                0 <= i < ps.len() ==> parsed->Some_0[i] == (FnParamView {
                    typename: ps[i].0,
                    name: ps[i].1,
                    value: default_value_of(ps[i].0),
                })
        }),
    decreases ps.len(),
{
    if ps.len() == 0 {
    } else if ps.len() == 1 {
        reveal_with_fuel(strip_commas, 4);
        reveal_with_fuel(pairs_params, 3);
        let span = signature_param_span(ps);
        assert(span == seq![TokenView::Prim(ps[0].0), TokenView::Id(ps[0].1)]);
        assert(span.drop_first() =~= seq![TokenView::Id(ps[0].1)]);
        assert(span.drop_first().drop_first() =~= Seq::<TokenView>::empty());
        let stripped = strip_commas(span);
        assert(stripped == seq![span[0]] + (seq![span.drop_first()[0]] + Seq::<TokenView>::empty()));
        assert(stripped =~= span);
        assert(stripped.skip(2) =~= Seq::<TokenView>::empty());
        assert(pairs_params(stripped) is Some);
    } else {
        reveal_with_fuel(strip_commas, 5);
        reveal_with_fuel(pairs_params, 3);
        lemma_params_exact(ps.drop_first());
        let head = seq![
            TokenView::Prim(ps[0].0),
            TokenView::Id(ps[0].1),
            TokenView::Op(Operator::Comma),
        ];
        let tail_span = signature_param_span(ps.drop_first());
        lemma_strip_commas_add(head, tail_span);
        assert(head.drop_first() =~= seq![TokenView::Id(ps[0].1), TokenView::Op(Operator::Comma)]);
        assert(head.drop_first().drop_first() =~= seq![TokenView::Op(Operator::Comma)]);
        assert(head.drop_first().drop_first().drop_first() =~= Seq::<TokenView>::empty());
        assert(strip_commas(head) =~= seq![TokenView::Prim(ps[0].0), TokenView::Id(ps[0].1)]);
        let stripped = strip_commas(signature_param_span(ps));
        assert(stripped == strip_commas(head) + strip_commas(tail_span));
        assert(stripped[0] == TokenView::Prim(ps[0].0));
        assert(stripped[1] == TokenView::Id(ps[0].1));
        assert(stripped.skip(2) =~= strip_commas(tail_span));
        let parsed_tail = pairs_params(strip_commas(tail_span));
        assert(parsed_tail is Some);
        assert(stripped.len() >= 2);
        let parsed = pairs_params(stripped);
        assert(parsed == Some(
            seq![
                FnParamView {
                    typename: ps[0].0,
                    name: ps[0].1,
                    value: default_value_of(ps[0].0),
                },
            ] + parsed_tail->Some_0,
        ));
        assert forall|i: int| 0 <= i < ps.len() implies parsed->Some_0[i] == (FnParamView {
            typename: ps[i].0,
            name: ps[i].1,
            value: default_value_of(ps[i].0),
        }) by {
            if i > 0 {
                assert(parsed->Some_0[i] == parsed_tail->Some_0[i - 1]);
                assert(ps.drop_first()[i - 1] == ps[i]);
            }
        }
    }
}

/// The change a token makes to the nesting depth.
pub open spec fn scope_delta(t: TokenView) -> int {
    if t == TokenView::Op(Operator::ScOpen) {
        1
    } else if t == TokenView::Op(Operator::ScClose) {
        -1
    } else {
        0
    }
}

/// The nesting depth after a token span.
pub open spec fn depth_sum(ts: Seq<TokenView>) -> int
    decreases ts.len(),
{
    if ts.len() == 0 {
        0
    } else {
        depth_sum(ts.drop_last()) + scope_delta(ts.last())
    }
}

/// A balanced span: its scope delimiters pair up, and no prefix closes a
/// scope that was not opened inside the span.
pub open spec fn balanced(ts: Seq<TokenView>) -> bool {
    &&& depth_sum(ts) == 0
    &&& forall|k: int|
        0 <= k < ts.len() && #[trigger] ts[k] == TokenView::Op(Operator::ScClose) ==> depth_sum(
            ts.take(k),
        ) > 0
}

proof fn lemma_scan_through(ts: Seq<TokenView>, start: int, b: Seq<TokenView>, j: int)
    requires
        0 <= start,
        start + b.len() <= ts.len(),
        ts.subrange(start, start + b.len()) == b,
        forall|k: int|
            0 <= k < b.len() && #[trigger] b[k] == TokenView::Op(Operator::ScClose) ==> depth_sum(
                b.take(k),
            ) > 0,
        0 <= j <= b.len(),
    ensures
        find_scope_close(ts, start + j, depth_sum(b.take(j))) == find_scope_close(
            ts,
            start + b.len(),
            depth_sum(b),
        ),
    decreases b.len() - j,
{
    if j == b.len() {
        assert(b.take(j) =~= b);
    } else {
        assert(ts[start + j] == b[j]) by {
            assert(ts.subrange(start, start + b.len())[j] == ts[start + j]);
        }
        assert(b.take(j + 1).drop_last() =~= b.take(j));
        assert(b.take(j + 1).last() == b[j]);
        assert(depth_sum(b.take(j + 1)) == depth_sum(b.take(j)) + scope_delta(b[j]));
        if b[j] == TokenView::Op(Operator::ScClose) {
            assert(depth_sum(b.take(j)) > 0);
        }
        lemma_scan_through(ts, start, b, j + 1);
    }
}

/// Body extraction is nesting-safe: scanning from the start of a balanced
/// body span followed by a scope close finds exactly that close, never one
/// inside the body, so the whole nested content is extracted.
pub proof fn lemma_body_scan_nested(ts: Seq<TokenView>, start: int, b: Seq<TokenView>)
    requires
        0 <= start,
        start + b.len() < ts.len(),
        ts.subrange(start, start + b.len()) == b,
        ts[start + b.len()] == TokenView::Op(Operator::ScClose),
        balanced(b),
    ensures
        find_scope_close(ts, start, 0) == start + b.len(),
        ts.subrange(start, find_scope_close(ts, start, 0)) == b,
{
    assert(b.take(0) =~= Seq::<TokenView>::empty());
    lemma_scan_through(ts, start, b, 0);
    assert(find_scope_close(ts, start + b.len(), 0) == start + b.len());
}

/// The global-region scan is nesting-safe in the same way as body
/// extraction: with the first `global` keyword followed by a scope open and
/// a balanced span before the region's own close, the extracted region is
/// exactly that span, nested scope pairs included.
pub proof fn lemma_global_region_nested(ts: Seq<TokenView>, gpos: int, g: Seq<TokenView>)
    requires
        0 <= gpos,
        gpos + 2 + g.len() < ts.len(),
        forall|j: int| 0 <= j < gpos ==> #[trigger] ts[j] != TokenView::Key(Keyword::Global),
        ts[gpos] == TokenView::Key(Keyword::Global),
        ts[gpos + 1] == TokenView::Op(Operator::ScOpen),
        ts.subrange(gpos + 2, gpos + 2 + g.len()) == g,
        ts[gpos + 2 + g.len()] == TokenView::Op(Operator::ScClose),
        balanced(g),
    ensures
        spec_globals(ts) == Ok::<Seq<TokenView>, StructuralError>(g),
{
    lemma_first_global(ts, gpos);
    lemma_body_scan_nested(ts, gpos + 2, g);
}

/// The token shape of a whole well-formed function: the signature triple,
/// the parameter pairs, the parameter-list close, the scope open, the body,
/// and the function's own scope close.
pub open spec fn function_shape(
    rt: Type,
    name: Seq<char>,
    ps: Seq<(Type, Seq<char>)>,
    body: Seq<TokenView>,
) -> Seq<TokenView> {
    seq![TokenView::Prim(rt), TokenView::Id(name), TokenView::Op(Operator::BrOpen)]
        + signature_param_span(ps) + seq![
        TokenView::Op(Operator::BrClose),
        TokenView::Op(Operator::ScOpen),
    ] + body + seq![TokenView::Op(Operator::ScClose)]
}

proof fn lemma_span_no_brclose(ps: Seq<(Type, Seq<char>)>)
    ensures
        forall|k: int|
            0 <= k < signature_param_span(ps).len() ==> #[trigger] signature_param_span(ps)[k]
                != TokenView::Op(Operator::BrClose),
    decreases ps.len(),
{
    if ps.len() <= 1 {
    } else {
        lemma_span_no_brclose(ps.drop_first());
        let head = seq![
            TokenView::Prim(ps[0].0),
            TokenView::Id(ps[0].1),
            TokenView::Op(Operator::Comma),
        ];
        assert forall|k: int| 0 <= k < signature_param_span(ps).len() implies #[trigger] signature_param_span(
            ps,
        )[k] != TokenView::Op(Operator::BrClose) by {
            if k >= 3 {
                assert(signature_param_span(ps)[k] == signature_param_span(ps.drop_first())[k - 3]);
            }
        }
    }
}

proof fn lemma_param_scan_through(ts: Seq<TokenView>, i: int, e: int)
    requires
        0 <= i <= e <= ts.len(),
        forall|j: int| i <= j < e ==> #[trigger] ts[j] != TokenView::Op(Operator::BrClose),
    ensures
        find_param_close(ts, i) == find_param_close(ts, e),
    decreases e - i,
{
    if i < e {
        lemma_param_scan_through(ts, i + 1, e);
    }
}

/// A whole well-formed function parses to exactly the expected record: the
/// declared return type and name, the positional parameter pairs in order
/// with their types' zero values as defaults, and the entire balanced body,
/// terminating at the function's own scope close and never at a nested one.
pub proof fn lemma_well_formed_function_parses(
    ts: Seq<TokenView>,
    pos: int,
    rt: Type,
    name: Seq<char>,
    ps: Seq<(Type, Seq<char>)>,
    body: Seq<TokenView>,
)
    requires
        0 <= pos,
        pos + function_shape(rt, name, ps, body).len() <= ts.len(),
        ts.subrange(pos, pos + function_shape(rt, name, ps, body).len()) == function_shape(
            rt,
            name,
            ps,
            body,
        ),
        balanced(body),
    ensures
        parse_function_at(ts, pos) == Ok::<FunctionView, StructuralError>(
            FunctionView {
                return_type: rt,
                name: name,
                params: Seq::new(
                    ps.len(),
                    |i: int|
                        FnParamView {
                            typename: ps[i].0,
                            name: ps[i].1,
                            value: default_value_of(ps[i].0),
                        },
                ),
                content: body,
            },
        ),
{
    let shape = function_shape(rt, name, ps, body);
    let span = signature_param_span(ps);
    let sl = span.len() as int;
    let bl = body.len() as int;
    assert forall|j: int| 0 <= j < shape.len() implies ts[pos + j] == shape[j] by {
        assert(ts.subrange(pos, pos + shape.len())[j] == ts[pos + j]);
    }
    assert forall|k: int| 0 <= k < sl implies shape[3 + k] == span[k] by {}
    assert(shape[3 + sl] == TokenView::Op(Operator::BrClose));
    assert(shape[4 + sl] == TokenView::Op(Operator::ScOpen));
    assert forall|m: int| 0 <= m < bl implies shape[5 + sl + m] == body[m] by {}
    assert(shape[5 + sl + bl] == TokenView::Op(Operator::ScClose));

    // the first parameter-list close after the signature is the span's own
    lemma_span_no_brclose(ps);
    assert forall|j: int| pos + 3 <= j < pos + 3 + sl implies #[trigger] ts[j] != TokenView::Op(
        Operator::BrClose,
    ) by {
        let k = j - (pos + 3);
        assert(ts[j] == shape[3 + k]);
        assert(shape[3 + k] == span[k]);
        assert(span[k] != TokenView::Op(Operator::BrClose));
    }
    lemma_param_scan_through(ts, pos + 3, pos + 3 + sl);
    let pe = pos + 3 + sl;
    assert(ts[pe] == TokenView::Op(Operator::BrClose));
    assert(find_param_close(ts, pe) == pe);
    assert(find_param_close(ts, pos + 3) == pe);
    assert(ts[pe + 1] == TokenView::Op(Operator::ScOpen));

    // the parameter span parses to exactly the pairs
    assert(ts.subrange(pos + 3, pe) =~= span);
    lemma_params_exact(ps);
    let parsed = pairs_params(strip_commas(span));
    assert(parsed->Some_0 =~= Seq::new(
        ps.len(),
        |i: int|
            FnParamView { typename: ps[i].0, name: ps[i].1, value: default_value_of(ps[i].0) },
    ));

    // the body scan ends exactly at the function's own close
    assert(ts.subrange(pe + 2, pe + 2 + bl) =~= body);
    lemma_body_scan_nested(ts, pe + 2, body);

    let r = parse_function_at(ts, pos);
    assert(pe + 1 < ts.len());
    assert(strip_commas(ts.subrange(pos + 3, pe)) == strip_commas(span));
    assert(find_scope_close(ts, pe + 2, 0) == pe + 2 + bl);
    assert(r is Ok);
    assert(ts.subrange(pos, pos + shape.len())[0] == ts[pos]);
    assert(ts.subrange(pos, pos + shape.len())[1] == ts[pos + 1]);
    assert(ts[pos] == TokenView::Prim(rt));
    assert(prim_of(ts[pos]) == rt);
    assert(ts[pos + 1] == TokenView::Id(name));
    assert(id_of(ts[pos + 1]) == name);
    assert(r->Ok_0.return_type == rt);
    assert(r->Ok_0.name == name);
    assert(r->Ok_0.params == parsed->Some_0);
    assert(r->Ok_0.content == body);
    assert(r->Ok_0 =~= FunctionView {
        return_type: rt,
        name: name,
        params: Seq::new(
            ps.len(),
            |i: int|
                FnParamView { typename: ps[i].0, name: ps[i].1, value: default_value_of(ps[i].0) },
        ),
        content: body,
    });
}

fn is_global_tok(t: &Token) -> (r: bool)
    ensures
        r == (t@ == TokenView::Key(Keyword::Global)),
{
    match t {
        Token::Key(Keyword::Global) => true,
        _ => false,
    }
}

fn is_sc_open_tok(t: &Token) -> (r: bool)
    ensures
        r == (t@ == TokenView::Op(Operator::ScOpen)),
{
    match t {
        Token::Op(Operator::ScOpen) => true,
        _ => false,
    }
}

fn is_sc_close_tok(t: &Token) -> (r: bool)
    ensures
        r == (t@ == TokenView::Op(Operator::ScClose)),
{
    match t {
        Token::Op(Operator::ScClose) => true,
        _ => false,
    }
}

fn is_br_open_tok(t: &Token) -> (r: bool)
    ensures
        r == (t@ == TokenView::Op(Operator::BrOpen)),
{
    match t {
        Token::Op(Operator::BrOpen) => true,
        _ => false,
    }
}

fn is_br_close_tok(t: &Token) -> (r: bool)
    ensures
        r == (t@ == TokenView::Op(Operator::BrClose)),
{
    match t {
        Token::Op(Operator::BrClose) => true,
        _ => false,
    }
}

fn is_comma_tok(t: &Token) -> (r: bool)
    ensures
        r == (t@ == TokenView::Op(Operator::Comma)),
{
    match t {
        Token::Op(Operator::Comma) => true,
        _ => false,
    }
}

fn is_prim_tok(t: &Token) -> (r: bool)
    ensures
        r == (t@ is Prim),
{
    match t {
        Token::Type(_) => true,
        _ => false,
    }
}

fn is_id_tok(t: &Token) -> (r: bool)
    ensures
        r == (t@ is Id),
{
    match t {
        Token::Id(_) => true,
        _ => false,
    }
}

proof fn lemma_first_global(ts: Seq<TokenView>, k: int)
    requires
        0 <= k <= ts.len(),
        forall|j: int| 0 <= j < k ==> #[trigger] ts[j] != TokenView::Key(Keyword::Global),
        k == ts.len() || ts[k] == TokenView::Key(Keyword::Global),
    ensures
        first_global(ts) == if k == ts.len() {
            -1 as int
        } else {
            k
        },
    decreases k,
{
    if k == 0 {
    } else {
        assert forall|j: int| 0 <= j < k - 1 implies #[trigger] ts.drop_first()[j]
            != TokenView::Key(Keyword::Global) by {
            assert(ts.drop_first()[j] == ts[j + 1]);
        }
        assert(k - 1 == ts.drop_first().len() || ts.drop_first()[k - 1] == TokenView::Key(
            Keyword::Global,
        ));
        lemma_first_global(ts.drop_first(), k - 1);
    }
}

/// Scans forward from `start` for the first scope close at relative
/// nesting depth zero, as `find_scope_close` describes.
fn find_close_from(tokens: &Vec<Token>, start: usize) -> (r: Option<usize>)
    ensures
        match r {
            Some(c) => find_scope_close(tokens.deep_view(), start as int, 0) == c as int && start
                <= c < tokens.len(),
            None => find_scope_close(tokens.deep_view(), start as int, 0) == -1,
        },
{
    let ghost ts = tokens.deep_view();
    let n = tokens.len();
    let mut i = start;
    let mut depth: usize = 0;
    while i < n
        invariant
            ts == tokens.deep_view(),
            n == tokens.len(),
            start <= i,
            depth as int <= i as int - start as int,
            find_scope_close(ts, start as int, 0) == find_scope_close(ts, i as int, depth as int),
        decreases n - i,
    {
        let t = &tokens[i];
        proof {
            assert(ts[i as int] == t@);
        }
        if is_sc_open_tok(t) {
            depth += 1;
        } else if is_sc_close_tok(t) {
            if depth == 0 {
                return Some(i);
            }
            depth -= 1;
        }
        i += 1;
    }
    None
}

fn find_br_close_from(tokens: &Vec<Token>, start: usize) -> (r: Option<usize>)
    ensures
        match r {
            Some(c) => find_param_close(tokens.deep_view(), start as int) == c as int && start <= c
                < tokens.len(),
            None => find_param_close(tokens.deep_view(), start as int) == -1,
        },
{
    let ghost ts = tokens.deep_view();
    let n = tokens.len();
    let mut i = start;
    while i < n
        invariant
            ts == tokens.deep_view(),
            n == tokens.len(),
            start <= i,
            find_param_close(ts, start as int) == find_param_close(ts, i as int),
        decreases n - i,
    {
        let t = &tokens[i];
        proof {
            assert(ts[i as int] == t@);
        }
        if is_br_close_tok(t) {
            return Some(i);
        }
        i += 1;
    }
    None
}

/// Copies the token span `[lo, hi)` into a fresh vector.
fn copy_range(tokens: &Vec<Token>, lo: usize, hi: usize) -> (r: Vec<Token>)
    requires
        lo <= hi <= tokens.len(),
    ensures
        r.deep_view() == tokens.deep_view().subrange(lo as int, hi as int),
{
    let ghost ts = tokens.deep_view();
    let mut out: Vec<Token> = Vec::new();
    let mut i = lo;
    proof {
        assert(out.deep_view() =~= ts.subrange(lo as int, lo as int));
    }
    while i < hi
        invariant
            ts == tokens.deep_view(),
            lo <= i <= hi <= tokens.len(),
            out.deep_view() == ts.subrange(lo as int, i as int),
        decreases hi - i,
    {
        let ghost dv0 = out.deep_view();
        let t = clone_token(&tokens[i]);
        out.push(t);
        proof {
            assert(out.deep_view() =~= dv0.push(ts[i as int]));
            assert(dv0.push(ts[i as int]) =~= ts.subrange(lo as int, i as int + 1));
        }
        i += 1;
    }
    out
}

spec fn pp_join(a: Seq<FnParamView>, r: Option<Seq<FnParamView>>) -> Option<Seq<FnParamView>> {
    match r {
        Some(x) => Some(a + x),
        None => None,
    }
}

/// Reads the parameter span `[lo, hi)`: commas are filtered out and the
/// rest read as alternating type/name pairs, as `pairs_params` describes.
fn parse_params_span(tokens: &Vec<Token>, lo: usize, hi: usize) -> (r: Option<Vec<FnParam>>)
    requires
        lo <= hi <= tokens.len(),
    ensures
        ({
            let expected = pairs_params(
                strip_commas(tokens.deep_view().subrange(lo as int, hi as int)),
            );
            match r {
                Some(ps) => expected == Some(ps.deep_view()),
                None => expected is None,
            }
        }),
{
    let ghost ts = tokens.deep_view();
    let ghost sub = ts.subrange(lo as int, hi as int);
    let mut filtered: Vec<Token> = Vec::new();
    let mut i = lo;
    proof {
        assert(filtered.deep_view() =~= Seq::<TokenView>::empty());
        assert(sub.skip(0) =~= sub);
        assert(Seq::<TokenView>::empty() + strip_commas(sub) =~= strip_commas(sub));
    }
    while i < hi
        invariant
            ts == tokens.deep_view(),
            lo <= i <= hi <= tokens.len(),
            sub == ts.subrange(lo as int, hi as int),
            filtered.deep_view() + strip_commas(sub.skip(i as int - lo as int)) == strip_commas(
                sub,
            ),
        decreases hi - i,
    {
        let ghost rest = sub.skip(i as int - lo as int);
        proof {
            crate::text::lemma_skip_step(sub, i as int - lo as int);
            assert(rest[0] == sub[i as int - lo as int]);
            assert(sub[i as int - lo as int] == ts[i as int]);
        }
        let t = &tokens[i];
        proof {
            assert(ts[i as int] == t@);
        }
        if is_comma_tok(t) {
            proof {
                assert(strip_commas(rest) == strip_commas(sub.skip(i as int + 1 - lo as int)));
            }
        } else {
            let ghost dv0 = filtered.deep_view();
            let c = clone_token(t);
            filtered.push(c);
            proof {
                assert(filtered.deep_view() =~= dv0.push(rest[0]));
                assert(strip_commas(rest) == seq![rest[0]] + strip_commas(
                    sub.skip(i as int + 1 - lo as int),
                ));
                assert(dv0.push(rest[0]) + strip_commas(sub.skip(i as int + 1 - lo as int)) =~= dv0
                    + strip_commas(rest));
            }
        }
        i += 1;
    }
    proof {
        assert(sub.skip(hi as int - lo as int) =~= Seq::<TokenView>::empty());
        assert(filtered.deep_view() + Seq::<TokenView>::empty() =~= filtered.deep_view());
        assert(filtered.deep_view() == strip_commas(sub));
    }
    let ghost fd = filtered.deep_view();
    let fl = filtered.len();
    let mut params: Vec<FnParam> = Vec::new();
    let mut k: usize = 0;
    proof {
        assert(fd.skip(0) =~= fd);
        assert(params.deep_view() =~= Seq::<FnParamView>::empty());
        assert(pairs_params(fd) == pp_join(params.deep_view(), pairs_params(fd.skip(0))));
    }
    while fl >= 1 && k < fl - 1
        invariant
            fd == filtered.deep_view(),
            fl == filtered.len(),
            fd == strip_commas(sub),
            sub == tokens.deep_view().subrange(lo as int, hi as int),
            0 <= k <= fl,
            pairs_params(fd) == pp_join(params.deep_view(), pairs_params(fd.skip(k as int))),
        decreases fl - k,
    {
        let ghost rest = fd.skip(k as int);
        proof {
            crate::text::lemma_skip_step(fd, k as int);
            assert(rest[0] == fd[k as int]);
            assert(rest[1] == fd.skip(k as int + 1)[0]);
            crate::text::lemma_skip_step(fd, k as int + 1);
            assert(rest[1] == fd[k as int + 1]);
        }
        let t0 = &filtered[k];
        let t1 = &filtered[k + 1];
        proof {
            assert(fd[k as int] == t0@);
            assert(fd[k as int + 1] == t1@);
        }
        let tp: Type = match t0 {
            Token::Type(tp) => *tp,
            _ => {
                proof {
                    assert(pairs_params(rest) is None);
                }
                return None;
            },
        };
        let nm: String = match t1 {
            Token::Id(s) => s.clone(),
            _ => {
                proof {
                    assert(pairs_params(rest) is None);
                }
                return None;
            },
        };
        let ghost acc0 = params.deep_view();
        let p = FnParam { typename: tp, name: nm, value: default_type_value(&tp) };
        let ghost pv = p@;
        params.push(p);
        proof {
            assert(params.deep_view() =~= acc0.push(pv));
            assert(rest.skip(2) =~= fd.skip(k as int + 2));
            assert(pairs_params(rest) == match pairs_params(fd.skip(k as int + 2)) {
                Some(r) => Some(seq![pv] + r),
                None => None::<Seq<FnParamView>>,
            });
            assert(pp_join(acc0, pairs_params(rest)) == pp_join(
                acc0.push(pv),
                pairs_params(fd.skip(k as int + 2)),
            )) by {
                match pairs_params(fd.skip(k as int + 2)) {
                    Some(r) => {
                        assert(acc0 + (seq![pv] + r) =~= acc0.push(pv) + r);
                    },
                    None => {},
                }
            }
        }
        k += 2;
    }
    if k == fl {
        proof {
            assert(fd.skip(fl as int) =~= Seq::<TokenView>::empty());
            assert(pairs_params(fd.skip(fl as int)) == Some(Seq::<FnParamView>::empty()));
            assert(params.deep_view() + Seq::<FnParamView>::empty() =~= params.deep_view());
        }
        Some(params)
    } else {
        proof {
            assert(fd.skip(k as int).len() == 1);
            assert(pairs_params(fd.skip(k as int)) is None);
        }
        None
    }
}

proof fn lemma_insert_replace(fs: Seq<FunctionView>, f: FunctionView, k: int)
    requires
        0 <= k < fs.len(),
        fs[k].name == f.name,
        forall|j: int| 0 <= j < k ==> #[trigger] fs[j].name != f.name,
    ensures
        insert_function(fs, f) == fs.update(k, f),
    decreases k,
{
    if k == 0 {
        assert(seq![f] + fs.drop_first() =~= fs.update(0, f));
    } else {
        assert forall|j: int| 0 <= j < k - 1 implies #[trigger] fs.drop_first()[j].name
            != f.name by {
            assert(fs.drop_first()[j] == fs[j + 1]);
        }
        lemma_insert_replace(fs.drop_first(), f, k - 1);
        assert(seq![fs[0]] + fs.drop_first().update(k - 1, f) =~= fs.update(k, f));
    }
}

proof fn lemma_insert_append(fs: Seq<FunctionView>, f: FunctionView)
    requires
        forall|j: int| 0 <= j < fs.len() ==> #[trigger] fs[j].name != f.name,
    ensures
        insert_function(fs, f) == fs.push(f),
    decreases fs.len(),
{
    if fs.len() == 0 {
        assert(seq![f] =~= fs.push(f));
    } else {
        assert forall|j: int| 0 <= j < fs.drop_first().len() implies #[trigger] fs.drop_first()[j].name
            != f.name by {
            assert(fs.drop_first()[j] == fs[j + 1]);
        }
        lemma_insert_append(fs.drop_first(), f);
        assert(seq![fs[0]] + fs.drop_first().push(f) =~= fs.push(f));
    }
}

/// Adds a record, overwriting the record with the same name in place if one
/// exists, as `insert_function` describes.
fn insert_function_exec(funcs: &mut Vec<Function>, f: Function)
    ensures
        final(funcs).deep_view() == insert_function(old(funcs).deep_view(), f.deep_view()),
{
    let ghost fsv = funcs.deep_view();
    let ghost fv = f.deep_view();
    let n = funcs.len();
    let mut k: usize = 0;
    while k < n
        invariant
            n == funcs.len(),
            funcs.deep_view() == fsv,
            fsv == old(funcs).deep_view(),
            fv == f.deep_view(),
            0 <= k <= n,
            forall|j: int| 0 <= j < k ==> #[trigger] fsv[j].name != fv.name,
        decreases n - k,
    {
        let same = {
            let nm = &funcs[k].name;
            str_eq(nm.as_str(), f.name.as_str())
        };
        proof {
            assert(fsv[k as int].name == funcs@[k as int].deep_view().name);
        }
        if same {
            proof {
                assert(fsv[k as int].name == fv.name);
            }
            funcs.set(k, f);
            proof {
                assert(funcs.deep_view() =~= fsv.update(k as int, fv));
                lemma_insert_replace(fsv, fv, k as int);
                assert(funcs.deep_view() == insert_function(fsv, fv));
            }
            return ;
        }
        k += 1;
    }
    funcs.push(f);
    proof {
        assert(funcs.deep_view() =~= fsv.push(fv));
        lemma_insert_append(fsv, fv);
    }
}

/// Reads one function record at signature position `pos`, as
/// `parse_function_at` describes.
fn parse_function_at_exec(tokens: &Vec<Token>, pos: usize) -> (r: Result<Function, StructuralError>)
    requires
        sig_at(tokens.deep_view(), pos as int),
    ensures
        match r {
            Ok(f) => parse_function_at(tokens.deep_view(), pos as int) == Ok::<
                FunctionView,
                StructuralError,
            >(f.deep_view()),
            Err(e) => parse_function_at(tokens.deep_view(), pos as int) == Err::<
                FunctionView,
                StructuralError,
            >(e),
        },
{
    let ghost ts = tokens.deep_view();
    let n = tokens.len();
    let pe = match find_br_close_from(tokens, pos + 3) {
        None => {
            return Err(StructuralError::ParamCloseMissing { index: pos + 2 });
        },
        Some(pe) => pe,
    };
    if pe + 1 >= n || !is_sc_open_tok(&tokens[pe + 1]) {
        proof {
            if pe + 1 < n {
                assert(ts[pe as int + 1] == tokens@[pe as int + 1]@);
            }
        }
        return Err(StructuralError::BodyOpenMissing { index: pe + 1 });
    }
    let params = match parse_params_span(tokens, pos + 3, pe) {
        None => {
            return Err(StructuralError::ParamsMalformed { index: pos + 3 });
        },
        Some(ps) => ps,
    };
    let fe = match find_close_from(tokens, pe + 2) {
        None => {
            return Err(StructuralError::BodyCloseMissing { index: pe + 1 });
        },
        Some(fe) => fe,
    };
    let content = copy_range(tokens, pe + 2, fe);
    let return_type: Type = match &tokens[pos] {
        Token::Type(tp) => *tp,
        _ => {
            proof {
                assert(ts[pos as int] == tokens@[pos as int]@);
                assert(false);
            }
            unreached()
        },
    };
    let name: String = match &tokens[pos + 1] {
        Token::Id(s) => s.clone(),
        _ => {
            proof {
                assert(ts[pos as int + 1] == tokens@[pos as int + 1]@);
                assert(false);
            }
            unreached()
        },
    };
    let f = Function { return_type, name, params, content };
    proof {
        assert(f.deep_view() =~= parse_function_at(ts, pos as int)->Ok_0);
    }
    Ok(f)
}

/// Finds every signature position and reads a record at each, later
/// declarations of a name overwriting earlier ones, as `spec_functions`
/// describes.
fn parse_functions(tokens: &Vec<Token>) -> (r: Result<Vec<Function>, StructuralError>)
    ensures
        match r {
            Ok(fs) => spec_functions(tokens.deep_view()) == Ok::<
                Seq<FunctionView>,
                StructuralError,
            >(fs.deep_view()),
            Err(e) => spec_functions(tokens.deep_view()) == Err::<
                Seq<FunctionView>,
                StructuralError,
            >(e),
        },
{
    let ghost ts = tokens.deep_view();
    let n = tokens.len();
    let mut positions: Vec<usize> = Vec::new();
    let mut i: usize = 0;
    proof {
        assert(positions@.map_values(|x: usize| x as int) =~= Seq::<int>::empty());
        assert(Seq::<int>::empty() + sig_positions_from(ts, 0) =~= sig_positions_from(ts, 0));
    }
    while n >= 3 && i < n - 2
        invariant
            ts == tokens.deep_view(),
            n == tokens.len(),
            0 <= i <= n,
            positions@.map_values(|x: usize| x as int) + sig_positions_from(ts, i as int)
                == sig_positions_from(ts, 0),
            forall|j: int|
                0 <= j < positions.len() ==> sig_at(ts, #[trigger] positions@[j] as int),
        decreases n - i,
    {
        let ghost pm0 = positions@.map_values(|x: usize| x as int);
        let found = is_prim_tok(&tokens[i]) && is_id_tok(&tokens[i + 1]) && is_br_open_tok(
            &tokens[i + 2],
        );
        proof {
            assert(ts[i as int] == tokens@[i as int]@);
            assert(ts[i as int + 1] == tokens@[i as int + 1]@);
            assert(ts[i as int + 2] == tokens@[i as int + 2]@);
        }
        if found {
            positions.push(i);
            proof {
                assert(positions@.map_values(|x: usize| x as int) =~= pm0.push(i as int));
                assert(sig_positions_from(ts, i as int) == seq![i as int] + sig_positions_from(
                    ts,
                    i as int + 1,
                ));
                assert(pm0.push(i as int) + sig_positions_from(ts, i as int + 1) =~= pm0
                    + sig_positions_from(ts, i as int));
            }
        } else {
            proof {
                assert(sig_positions_from(ts, i as int) == sig_positions_from(ts, i as int + 1));
            }
        }
        i += 1;
    }
    proof {
        assert(sig_positions_from(ts, i as int) == Seq::<int>::empty());
        assert(positions@.map_values(|x: usize| x as int) + Seq::<int>::empty()
            =~= positions@.map_values(|x: usize| x as int));
    }
    let ghost posm = sig_positions_from(ts, 0);
    let mut funcs: Vec<Function> = Vec::new();
    let mut k: usize = 0;
    proof {
        assert(posm.skip(0) =~= posm);
        assert(funcs.deep_view() =~= Seq::<FunctionView>::empty());
    }
    while k < positions.len()
        invariant
            ts == tokens.deep_view(),
            positions@.map_values(|x: usize| x as int) == posm,
            posm == sig_positions_from(ts, 0),
            forall|j: int|
                0 <= j < positions.len() ==> sig_at(ts, #[trigger] positions@[j] as int),
            0 <= k <= positions.len(),
            spec_functions(ts) == build_functions(ts, posm.skip(k as int), funcs.deep_view()),
        decreases positions.len() - k,
    {
        let pos = positions[k];
        let ghost rest = posm.skip(k as int);
        proof {
            crate::text::lemma_skip_step(posm, k as int);
            assert(rest[0] == posm[k as int]);
            assert(posm[k as int] == pos as int);
        }
        match parse_function_at_exec(tokens, pos) {
            Err(e) => {
                proof {
                    assert(build_functions(ts, rest, funcs.deep_view()) == Err::<
                        Seq<FunctionView>,
                        StructuralError,
                    >(e));
                }
                return Err(e);
            },
            Ok(f) => {
                let ghost fv = f.deep_view();
                let ghost acc0 = funcs.deep_view();
                insert_function_exec(&mut funcs, f);
                proof {
                    assert(build_functions(ts, rest, acc0) == build_functions(
                        ts,
                        posm.skip(k as int + 1),
                        insert_function(acc0, fv),
                    ));
                }
            },
        }
        k += 1;
    }
    proof {
        assert(posm.skip(positions.len() as int) =~= Seq::<int>::empty());
    }
    Ok(funcs)
}

/// Extracts the global region, as `spec_globals` describes: empty without a
/// `global` keyword, and closed by the first unmatched scope close.
fn parse_globals(tokens: &Vec<Token>) -> (r: Result<Vec<Token>, StructuralError>)
    ensures
        match r {
            Ok(g) => spec_globals(tokens.deep_view()) == Ok::<Seq<TokenView>, StructuralError>(
                g.deep_view(),
            ),
            Err(e) => spec_globals(tokens.deep_view()) == Err::<Seq<TokenView>, StructuralError>(e),
        },
{
    let ghost ts = tokens.deep_view();
    let n = tokens.len();
    let mut i: usize = 0;
    while i < n && !is_global_tok(&tokens[i])
        invariant
            ts == tokens.deep_view(),
            n == tokens.len(),
            0 <= i <= n,
            forall|j: int| 0 <= j < i ==> #[trigger] ts[j] != TokenView::Key(Keyword::Global),
        decreases n - i,
    {
        proof {
            assert(ts[i as int] == tokens@[i as int]@);
        }
        i += 1;
    }
    proof {
        if i < n {
            assert(ts[i as int] == tokens@[i as int]@);
        }
        lemma_first_global(ts, i as int);
    }
    if i == n {
        let r: Vec<Token> = Vec::new();
        proof {
            assert(r.deep_view() =~= Seq::<TokenView>::empty());
        }
        return Ok(r);
    }
    if i + 1 >= n || !is_sc_open_tok(&tokens[i + 1]) {
        proof {
            if i + 1 < n {
                assert(ts[i as int + 1] == tokens@[i as int + 1]@);
            }
        }
        return Err(StructuralError::GlobalOpenMissing { index: i + 1 });
    }
    match find_close_from(tokens, i + 2) {
        None => Err(StructuralError::GlobalCloseMissing { index: i + 1 }),
        Some(c) => {
            let g = copy_range(tokens, i + 2, c);
            Ok(g)
        },
    }
}

/// Segments the token sequence into its function records and its global
/// region, as `spec_segment` describes; the first missing delimiter aborts
/// the parse with a structured error.
pub fn process(tokens: Vec<Token>) -> (r: Result<Program, StructuralError>)
    ensures
        match r {
            Ok(p) => spec_segment(tokens.deep_view()) == Ok::<ProgramView, StructuralError>(
                p.deep_view(),
            ),
            Err(e) => spec_segment(tokens.deep_view()) == Err::<ProgramView, StructuralError>(e),
        },
{
    let functions = match parse_functions(&tokens) {
        Err(e) => {
            return Err(e);
        },
        Ok(fs) => fs,
    };
    let globals = match parse_globals(&tokens) {
        Err(e) => {
            return Err(e);
        },
        Ok(gs) => gs,
    };
    let p = Program { functions, globals };
    proof {
        assert(p.deep_view() =~= spec_segment(tokens.deep_view())->Ok_0);
    }
    Ok(p)
}

} // verus!
