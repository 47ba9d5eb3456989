//! Lexical analysis: raw source text to the flat token sequence.
//!
//! The source is first split into fragments: maximal runs of characters that
//! are neither spaces nor operator symbols, and single delimiter characters.
//! A three-state machine (ordinary text, inside a string literal, inside a
//! line comment) then classifies each fragment.  Fragments inside a string
//! literal are kept verbatim, so the whitespace inside a string survives;
//! everything between two hash symbols is discarded.  An unrecognized word is
//! never an error: it falls through to an identifier token, tagged with a
//! fixed reserved-name prefix so that no emitted identifier can collide with
//! a host-language reserved word.

use vstd::prelude::*;

use crate::text::lemma_skip_step;
use crate::text::push_char;
use crate::text::str_eq;
use crate::types::DataType;
use crate::types::DataValue;
use crate::types::Operator;
use crate::types::Token;
use crate::types::TokenView;
use crate::types::is_operator;
use crate::types::keyword_of;
use crate::types::operator_of;
use crate::types::to_keyword;
use crate::types::to_operator;
use crate::types::to_type;
use crate::types::type_of;

verus! {

/// The lexer's mode: ordinary text, inside a string literal, or inside a
/// line comment.  The modes are mutually exclusive.
#[derive(Clone, Copy, Debug, PartialEq, Eq, Structural)]
pub enum LexMode {
    Normal,
    InString,
    InComment,
}

/// A delimiter ends a fragment: a space or any operator symbol.
pub open spec fn is_delimiter(c: char) -> bool {
    c == ' ' || operator_of(c) is Some
}

/// Whitespace removed from the ends of a fragment outside string literals.
pub open spec fn is_space(c: char) -> bool {
    c == ' ' || c == '\n' || c == '\t' || c == '\r'
}

/// The fragments of `s`, with `cur` the run of non-delimiter characters
/// read so far: each delimiter is a fragment of its own, and each maximal
/// non-delimiter run is one fragment.
pub open spec fn fragments_from(s: Seq<char>, cur: Seq<char>) -> Seq<Seq<char>>
    decreases s.len(),
{
    if s.len() == 0 {
        if cur.len() == 0 {
            seq![]
        } else {
            seq![cur]
        }
    } else if is_delimiter(s[0]) {
        (if cur.len() == 0 {
            seq![]
        } else {
            seq![cur]
        }) + seq![seq![s[0]]] + fragments_from(s.drop_first(), seq![])
    } else {
        fragments_from(s.drop_first(), cur.push(s[0]))
    }
}

pub open spec fn fragments(s: Seq<char>) -> Seq<Seq<char>> {
    fragments_from(s, seq![])
}

/// Every fragment is nonempty.
pub proof fn lemma_fragments_nonempty(s: Seq<char>, cur: Seq<char>)
    ensures
        forall|k: int|
            0 <= k < fragments_from(s, cur).len() ==> #[trigger] fragments_from(s, cur)[k].len()
                > 0,
    decreases s.len(),
{
    if s.len() == 0 {
        if cur.len() == 0 {
            assert(fragments_from(s, cur) == Seq::<Seq<char>>::empty());
        } else {
            assert(fragments_from(s, cur) == seq![cur]);
        }
    } else if is_delimiter(s[0]) {
        lemma_fragments_nonempty(s.drop_first(), seq![]);
        let pre: Seq<Seq<char>> = if cur.len() == 0 {
            seq![]
        } else {
            seq![cur]
        };
        let tail = fragments_from(s.drop_first(), seq![]);
        assert(fragments_from(s, cur) == pre + seq![seq![s[0]]] + tail);
        assert forall|k: int| 0 <= k < fragments_from(s, cur).len() implies #[trigger] fragments_from(
            s,
            cur,
        )[k].len() > 0 by {
            if k < pre.len() {
                assert(fragments_from(s, cur)[k] == cur);
            } else if k == pre.len() {
                assert(fragments_from(s, cur)[k] == seq![s[0]]);
            } else {
                assert(fragments_from(s, cur)[k] == tail[k - pre.len() - 1]);
            }
        }
    } else {
        lemma_fragments_nonempty(s.drop_first(), cur.push(s[0]));
        assert(fragments_from(s, cur) == fragments_from(s.drop_first(), cur.push(s[0])));
    }
}

pub open spec fn drop_leading_space(s: Seq<char>) -> Seq<char>
    decreases s.len(),
{
    if s.len() > 0 && is_space(s[0]) {
        drop_leading_space(s.drop_first())
    } else {
        s
    }
}

pub open spec fn drop_trailing_space(s: Seq<char>) -> Seq<char>
    decreases s.len(),
{
    if s.len() > 0 && is_space(s[s.len() - 1]) {
        drop_trailing_space(s.drop_last())
    } else {
        s
    }
}

/// A fragment with the whitespace at both ends removed.
pub open spec fn trimmed(s: Seq<char>) -> Seq<char> {
    drop_trailing_space(drop_leading_space(s))
}

proof fn lemma_comment_consumes(inner: Seq<Seq<char>>, rest: Seq<Seq<char>>)
    requires
        forall|k: int|
            0 <= k < inner.len() ==> #[trigger] inner[k].len() > 0 && inner[k][0] != '#',
    ensures
        lex_fragments(inner + seq![seq!['#']] + rest, LexMode::InComment) == lex_fragments(
            rest,
            LexMode::Normal,
        ),
    decreases inner.len(),
{
    let whole = inner + seq![seq!['#']] + rest;
    if inner.len() == 0 {
        assert(whole[0] == seq!['#']);
        assert(whole.drop_first() =~= rest);
    } else {
        assert(whole[0] == inner[0]);
        assert(whole.drop_first() =~= inner.drop_first() + seq![seq!['#']] + rest);
        assert forall|k: int| 0 <= k < inner.drop_first().len() implies #[trigger] inner.drop_first()[k].len()
            > 0 && inner.drop_first()[k][0] != '#' by {
            assert(inner.drop_first()[k] == inner[k + 1]);
        }
        lemma_comment_consumes(inner.drop_first(), rest);
    }
}

/// Comment skipping: everything between two hash symbols contributes no
/// token, so lexing resumes after the closing hash exactly as if the
/// hashed span were absent.  The fragments between the hashes must be
/// nonempty and not themselves start with a hash.
pub proof fn lemma_comment_region_skipped(inner: Seq<Seq<char>>, rest: Seq<Seq<char>>)
    requires
        forall|k: int|
            0 <= k < inner.len() ==> #[trigger] inner[k].len() > 0 && inner[k][0] != '#',
    ensures
        lex_fragments(seq![seq!['#']] + inner + seq![seq!['#']] + rest, LexMode::Normal)
            == lex_fragments(rest, LexMode::Normal),
{
    let whole = seq![seq!['#']] + inner + seq![seq!['#']] + rest;
    assert(whole[0] == seq!['#']);
    assert(whole.drop_first() =~= inner + seq![seq!['#']] + rest);
    assert(trimmed(seq!['#']) == seq!['#']);
    assert(trimmed(whole[0])[0] == '#');
    lemma_comment_consumes(inner, rest);
}

proof fn lemma_string_fragments_verbatim(inner: Seq<Seq<char>>, rest: Seq<Seq<char>>)
    requires
        forall|k: int|
            0 <= k < inner.len() ==> #[trigger] inner[k].len() > 0 && inner[k][0] != '"',
    ensures
        lex_fragments(inner + rest, LexMode::InString) == Seq::new(
            inner.len(),
            |k: int| TokenView::Lit(DataValue::Str(inner[k])),
        ) + lex_fragments(rest, LexMode::InString),
    decreases inner.len(),
{
    let whole = inner + rest;
    let mapped = Seq::new(inner.len(), |k: int| TokenView::Lit(DataValue::Str(inner[k])));
    if inner.len() == 0 {
        assert(whole =~= rest);
        assert(mapped + lex_fragments(rest, LexMode::InString) =~= lex_fragments(
            rest,
            LexMode::InString,
        ));
    } else {
        assert(whole[0] == inner[0]);
        assert(whole.drop_first() =~= inner.drop_first() + rest);
        assert forall|k: int| 0 <= k < inner.drop_first().len() implies #[trigger] inner.drop_first()[k].len()
            > 0 && inner.drop_first()[k][0] != '"' by {
            assert(inner.drop_first()[k] == inner[k + 1]);
        }
        lemma_string_fragments_verbatim(inner.drop_first(), rest);
        let mapped_tail = Seq::new(
            inner.drop_first().len(),
            |k: int| TokenView::Lit(DataValue::Str(inner.drop_first()[k])),
        );
        assert(seq![TokenView::Lit(DataValue::Str(inner[0]))] + (mapped_tail + lex_fragments(
            rest,
            LexMode::InString,
        )) =~= mapped + lex_fragments(rest, LexMode::InString));
    }
}

/// String-literal lexing preserves the source span verbatim: a quote
/// fragment, any fragments that do not begin with a quote, and a closing
/// quote fragment lex to the quote operator, one string-literal token per
/// fragment holding exactly that fragment's characters (internal whitespace
/// included, each space being its own fragment), and the quote operator.
/// A string-literal token renders as its own characters, so re-emission
/// reproduces the quoted span exactly.
pub proof fn lemma_string_literal_verbatim(inner: Seq<Seq<char>>, rest: Seq<Seq<char>>)
    requires
        forall|k: int|
            0 <= k < inner.len() ==> #[trigger] inner[k].len() > 0 && inner[k][0] != '"',
    ensures
        lex_fragments(seq![seq!['"']] + inner + seq![seq!['"']] + rest, LexMode::Normal) == seq![
            TokenView::Op(Operator::Quote),
        ] + Seq::new(inner.len(), |k: int| TokenView::Lit(DataValue::Str(inner[k]))) + seq![
            TokenView::Op(Operator::Quote),
        ] + lex_fragments(rest, LexMode::Normal),
{
    let whole = seq![seq!['"']] + inner + seq![seq!['"']] + rest;
    let mapped = Seq::new(inner.len(), |k: int| TokenView::Lit(DataValue::Str(inner[k])));
    assert(whole[0] == seq!['"']);
    assert(whole.drop_first() =~= inner + (seq![seq!['"']] + rest));
    assert(trimmed(seq!['"']) == seq!['"']);
    assert(trimmed(whole[0])[0] == '"');
    lemma_string_fragments_verbatim(inner, seq![seq!['"']] + rest);
    let closing = seq![seq!['"']] + rest;
    assert(closing[0] == seq!['"']);
    assert(closing.drop_first() =~= rest);
    assert(lex_fragments(closing, LexMode::InString) == seq![TokenView::Op(Operator::Quote)]
        + lex_fragments(rest, LexMode::Normal));
    assert(seq![TokenView::Op(Operator::Quote)] + (mapped + (seq![TokenView::Op(Operator::Quote)]
        + lex_fragments(rest, LexMode::Normal))) =~= seq![TokenView::Op(Operator::Quote)] + mapped
        + seq![TokenView::Op(Operator::Quote)] + lex_fragments(rest, LexMode::Normal));
}

proof fn lemma_drop_leading(s: Seq<char>, k: int)
    requires
        0 <= k <= s.len(),
        forall|i: int| 0 <= i < k ==> is_space(#[trigger] s[i]),
        k == s.len() || !is_space(s[k]),
    ensures
        drop_leading_space(s) == s.skip(k),
    decreases k,
{
    if k == 0 {
        assert(s.skip(0) =~= s);
    } else {
        lemma_drop_leading(s.drop_first(), k - 1);
        assert(s.drop_first() =~= s.skip(1));
        assert(s.skip(1).skip(k - 1) =~= s.skip(k));
    }
}

proof fn lemma_drop_trailing(s: Seq<char>, h: int)
    requires
        0 <= h <= s.len(),
        forall|i: int| h <= i < s.len() ==> is_space(#[trigger] s[i]),
        h == 0 || !is_space(s[h - 1]),
    ensures
        drop_trailing_space(s) == s.take(h),
    decreases s.len() - h,
{
    if h == s.len() {
        assert(s.take(h) =~= s);
    } else {
        assert(is_space(s[s.len() - 1]));
        lemma_drop_trailing(s.drop_last(), h);
        assert(s.drop_last() =~= s.take(s.len() - 1));
        assert(s.take(s.len() - 1).take(h) =~= s.take(h));
    }
}

fn is_space_char(c: char) -> (r: bool)
    ensures
        r == is_space(c),
{
    c == ' ' || c == '\n' || c == '\t' || c == '\r'
}

/// Removes the whitespace at both ends of a fragment.
fn trim_str<'a>(f: &'a str) -> (r: &'a str)
    ensures
        r@ == trimmed(f@),
{
    let n = f.unicode_len();
    let mut lo: usize = 0;
    while lo < n && is_space_char(f.get_char(lo))
        invariant
            n == f@.len(),
            0 <= lo <= n,
            forall|i: int| 0 <= i < lo ==> is_space(#[trigger] f@[i]),
        decreases n - lo,
    {
        lo += 1;
    }
    let mut hi: usize = n;
    while hi > lo && is_space_char(f.get_char(hi - 1))
        invariant
            n == f@.len(),
            lo <= hi <= n,
            forall|i: int| hi <= i < n ==> is_space(#[trigger] f@[i]),
        decreases hi,
    {
        hi -= 1;
    }
    proof {
        lemma_drop_leading(f@, lo as int);
        let rest = f@.skip(lo as int);
        lemma_drop_trailing(rest, hi - lo);
        assert forall|i: int| (hi - lo) <= i < rest.len() implies is_space(#[trigger] rest[i]) by {
            assert(rest[i] == f@[i + lo]);
        }
        assert(rest.take(hi - lo) =~= f@.subrange(lo as int, hi as int));
    }
    f.substring_char(lo, hi)
}

/// The numeric value of a decimal digit character, `-1` for any other.
pub open spec fn digit_val(c: char) -> int {
    if c == '0' {
        0
    } else if c == '1' {
        1
    } else if c == '2' {
        2
    } else if c == '3' {
        3
    } else if c == '4' {
        4
    } else if c == '5' {
        5
    } else if c == '6' {
        6
    } else if c == '7' {
        7
    } else if c == '8' {
        8
    } else if c == '9' {
        9
    } else {
        -1
    }
}

pub open spec fn is_digit(c: char) -> bool {
    digit_val(c) >= 0
}

fn digit_of(c: char) -> (r: Option<u32>)
    ensures
        match r {
            Some(d) => digit_val(c) == d as int,
            None => !is_digit(c),
        },
{
    match c {
        '0' => Some(0),
        '1' => Some(1),
        '2' => Some(2),
        '3' => Some(3),
        '4' => Some(4),
        '5' => Some(5),
        '6' => Some(6),
        '7' => Some(7),
        '8' => Some(8),
        '9' => Some(9),
        _ => None,
    }
}

/// A nonempty word consisting of decimal digits only.
pub open spec fn all_digits(s: Seq<char>) -> bool {
    s.len() > 0 && forall|i: int| 0 <= i < s.len() ==> is_digit(#[trigger] s[i])
}

/// The value of a digit word, most significant digit first.
pub open spec fn digits_val(s: Seq<char>) -> int
    decreases s.len(),
{
    if s.len() == 0 {
        0
    } else {
        digits_val(s.drop_last()) * 10 + digit_val(s.last())
    }
}

/// An integer literal: a digit word whose value fits the token's integer.
pub open spec fn is_int_literal(s: Seq<char>) -> bool {
    all_digits(s) && digits_val(s) <= 2147483647
}

/// The index of the first non-digit character, or the length if none.
pub open spec fn first_nondigit(s: Seq<char>) -> int
    decreases s.len(),
{
    if s.len() == 0 {
        0
    } else if !is_digit(s[0]) {
        0
    } else {
        1 + first_nondigit(s.drop_first())
    }
}

proof fn lemma_first_nondigit(s: Seq<char>, k: int)
    requires
        0 <= k <= s.len(),
        forall|i: int| 0 <= i < k ==> is_digit(#[trigger] s[i]),
        k == s.len() || !is_digit(s[k]),
    ensures
        first_nondigit(s) == k,
    decreases k,
{
    if k == 0 {
    } else {
        lemma_first_nondigit(s.drop_first(), k - 1);
    }
}

/// An exponent-form real literal: a digit run, `e` or `E`, a digit run.
/// A word can hold no decimal point or sign, since those split fragments.
pub open spec fn is_exp_literal(s: Seq<char>) -> bool {
    let k = first_nondigit(s);
    0 < k < s.len() && (s[k] == 'e' || s[k] == 'E') && k + 1 < s.len() && all_digits(
        s.skip(k + 1),
    )
}

/// A real literal: an exponent form, or a digit word too large for the
/// integer token.  Its source spelling is kept.
pub open spec fn is_real_literal(s: Seq<char>) -> bool {
    (all_digits(s) && digits_val(s) > 2147483647) || is_exp_literal(s)
}

/// Parses a digit word whose value fits, as `is_int_literal` describes.
fn parse_int(t: &str) -> (r: Option<i32>)
    ensures
        match r {
            Some(v) => is_int_literal(t@) && v as int == digits_val(t@),
            None => !is_int_literal(t@),
        },
{
    let n = t.unicode_len();
    if n == 0 {
        return None;
    }
    let mut acc: u64 = 0;
    let mut big: bool = false;
    let mut i: usize = 0;
    while i < n
        invariant
            n == t@.len(),
            0 <= i <= n,
            forall|j: int| 0 <= j < i ==> is_digit(#[trigger] t@[j]),
            big ==> digits_val(t@.take(i as int)) > 2147483647,
            !big ==> acc as int == digits_val(t@.take(i as int)) && acc <= 2147483647,
        decreases n - i,
    {
        let c = t.get_char(i);
        match digit_of(c) {
            None => {
                proof {
                    assert(!is_digit(t@[i as int]));
                }
                return None;
            },
            Some(d) => {
                proof {
                    assert(t@.take(i + 1).drop_last() =~= t@.take(i as int));
                    assert(t@.take(i + 1).last() == t@[i as int]);
                }
                if big {
                    proof {
                        let v = digits_val(t@.take(i as int));
                        assert(v * 10 + digit_val(t@[i as int]) > 2147483647) by (nonlinear_arith)
                            requires
                                v > 2147483647,
                                digit_val(t@[i as int]) >= 0,
                        ;
                    }
                } else {
                    let next: u64 = acc * 10 + (d as u64);
                    if next > 2147483647 {
                        big = true;
                    } else {
                        acc = next;
                    }
                }
            },
        }
        i += 1;
    }
    proof {
        assert(t@.take(n as int) =~= t@);
    }
    if big {
        None
    } else {
        Some(acc as i32)
    }
}

/// Decides the real-literal classification, as `is_real_literal` describes.
fn is_real_word(t: &str) -> (r: bool)
    ensures
        r == is_real_literal(t@),
{
    let n = t.unicode_len();
    let mut k: usize = 0;
    while k < n && digit_of(t.get_char(k)).is_some()
        invariant
            n == t@.len(),
            0 <= k <= n,
            forall|j: int| 0 <= j < k ==> is_digit(#[trigger] t@[j]),
        decreases n - k,
    {
        k += 1;
    }
    proof {
        lemma_first_nondigit(t@, k as int);
    }
    if k == n {
        // all digits (when nonempty): a real exactly when too large to be
        // an integer literal
        if n == 0 {
            false
        } else {
            parse_int(t).is_none()
        }
    } else {
        let c = t.get_char(k);
        if (c == 'e' || c == 'E') && k > 0 && k + 1 < n {
            let mut j: usize = k + 1;
            let mut ok: bool = true;
            while j < n
                invariant
                    n == t@.len(),
                    k + 1 <= j <= n,
                    ok ==> forall|m: int| k + 1 <= m < j ==> is_digit(#[trigger] t@[m]),
                    !ok ==> !all_digits(t@.skip(k + 1 as int)),
                decreases n - j,
            {
                if digit_of(t.get_char(j)).is_none() {
                    proof {
                        assert(t@.skip(k + 1 as int)[j - k - 1] == t@[j as int]);
                    }
                    ok = false;
                }
                j += 1;
            }
            proof {
                if ok {
                    assert forall|m: int| 0 <= m < t@.skip(k + 1 as int).len() implies is_digit(
                        #[trigger] t@.skip(k + 1 as int)[m],
                    ) by {
                        assert(t@.skip(k + 1 as int)[m] == t@[m + k + 1]);
                    }
                }
                assert(!all_digits(t@) || first_nondigit(t@) == t@.len()) by {
                    if all_digits(t@) {
                        lemma_first_nondigit(t@, t@.len() as int);
                    }
                }
            }
            ok
        } else {
            proof {
                if all_digits(t@) {
                    lemma_first_nondigit(t@, t@.len() as int);
                }
            }
            false
        }
    }
}

/// The reserved-name prefix put in front of every identifier, so that an
/// emitted identifier can never collide with a host-language reserved word.
/// The emitted preamble redirects the tagged entry-point name back to the
/// host language's real entry point.
pub open spec fn id_prefix() -> Seq<char> {
    "usr_"@
}

/// The token of a trimmed, nonempty word that is not an operator: primitive
/// type, keyword, integer literal, real literal, boolean literal, and
/// identifier as the fallback, tried in that order.
pub open spec fn word_token(t: Seq<char>) -> TokenView {
    match type_of(t) {
        Some(tp) => TokenView::Prim(tp),
        None => match keyword_of(t) {
            Some(k) => TokenView::Key(k),
            None => if is_int_literal(t) {
                TokenView::Lit(DataValue::Int(digits_val(t) as i32))
            } else if is_real_literal(t) {
                TokenView::Lit(DataValue::Real(t))
            } else if t == "true"@ {
                TokenView::Lit(DataValue::Bool(true))
            } else if t == "false"@ {
                TokenView::Lit(DataValue::Bool(false))
            } else {
                TokenView::Id(id_prefix() + t)
            },
        },
    }
}

fn word_to_token(t: &str) -> (tok: Token)
    ensures
        tok@ == word_token(t@),
{
    if let Some(tp) = to_type(t) {
        Token::Type(tp)
    } else if let Some(k) = to_keyword(t) {
        Token::Key(k)
    } else if let Some(v) = parse_int(t) {
        Token::Data(DataType::Int(v))
    } else if is_real_word(t) {
        Token::Data(DataType::Real(String::from_str(t)))
    } else if str_eq(t, "true") {
        Token::Data(DataType::Bool(true))
    } else if str_eq(t, "false") {
        Token::Data(DataType::Bool(false))
    } else {
        let mut id = String::from_str("usr_");
        id.append(t);
        Token::Id(id)
    }
}

/// The classification machine over the fragment sequence, in mode `mode`.
pub open spec fn lex_fragments(frs: Seq<Seq<char>>, mode: LexMode) -> Seq<TokenView>
    decreases frs.len(),
{
    if frs.len() == 0 {
        seq![]
    } else {
        let f = frs[0];
        let rest = frs.drop_first();
        match mode {
            LexMode::Normal => {
                let t = trimmed(f);
                if t.len() == 0 {
                    lex_fragments(rest, LexMode::Normal)
                } else {
                    match operator_of(t[0]) {
                        Some(op) => if op == Operator::Hash {
                            lex_fragments(rest, LexMode::InComment)
                        } else if op == Operator::Quote {
                            seq![TokenView::Op(Operator::Quote)] + lex_fragments(
                                rest,
                                LexMode::InString,
                            )
                        } else {
                            seq![TokenView::Op(op)] + lex_fragments(rest, LexMode::Normal)
                        },
                        None => seq![word_token(t)] + lex_fragments(rest, LexMode::Normal),
                    }
                }
            },
            LexMode::InString => {
                if f.len() > 0 && f[0] == '"' {
                    seq![TokenView::Op(Operator::Quote)] + lex_fragments(rest, LexMode::Normal)
                } else {
                    seq![TokenView::Lit(DataValue::Str(f))] + lex_fragments(rest, LexMode::InString)
                }
            },
            LexMode::InComment => {
                if f.len() > 0 && f[0] == '#' {
                    lex_fragments(rest, LexMode::Normal)
                } else {
                    lex_fragments(rest, LexMode::InComment)
                }
            },
        }
    }
}

/// The tokens of a whole source text.
pub open spec fn spec_tokenize(s: Seq<char>) -> Seq<TokenView> {
    lex_fragments(fragments(s), LexMode::Normal)
}

/// Converts source text into the flat token sequence.  Never fails:
/// malformed input degrades to identifier tokens.
pub fn process(source_code: &String) -> (r: Vec<Token>)
    ensures
        r.deep_view() == spec_tokenize(source_code@),
{
    let s = source_code.as_str();
    let n = s.unicode_len();
    let mut frags: Vec<String> = Vec::new();
    let mut cur = String::new();
    let mut i: usize = 0;
    proof {
        assert(frags.deep_view() =~= Seq::<Seq<char>>::empty());
        assert(s@.skip(0) =~= s@);
        assert(Seq::<Seq<char>>::empty() + fragments_from(s@, cur@) =~= fragments_from(s@, cur@));
    }
    while i < n
        invariant
            n == s@.len(),
            0 <= i <= n,
            frags.deep_view() + fragments_from(s@.skip(i as int), cur@) == fragments(s@),
        decreases n - i,
    {
        let c = s.get_char(i);
        let ghost rest = s@.skip(i as int);
        proof {
            lemma_skip_step(s@, i as int);
        }
        if is_operator(c) || c == ' ' {
            let ghost dv0 = frags.deep_view();
            let ghost cur0 = cur@;
            if !cur.as_str().is_empty() {
                frags.push(cur);
                proof {
                    assert(frags.deep_view() =~= dv0.push(cur0));
                }
                cur = String::new();
            }
            let ghost dv1 = frags.deep_view();
            let mut one = String::new();
            push_char(&mut one, c);
            proof {
                assert(one@ =~= seq![s@[i as int]]);
            }
            frags.push(one);
            proof {
                assert(frags.deep_view() =~= dv1.push(seq![s@[i as int]]));
                assert(dv0 + fragments_from(rest, cur0) =~= frags.deep_view() + fragments_from(
                    s@.skip(i as int + 1),
                    Seq::<char>::empty(),
                ));
                assert(cur@ =~= Seq::<char>::empty());
            }
        } else {
            let ghost cur0 = cur@;
            push_char(&mut cur, c);
            proof {
                assert(cur@ == cur0.push(s@[i as int]));
                assert(fragments_from(rest, cur0) == fragments_from(s@.skip(i as int + 1), cur@));
            }
        }
        i += 1;
    }
    proof {
        assert(s@.skip(n as int) =~= Seq::<char>::empty());
    }
    if !cur.as_str().is_empty() {
        let ghost dv0 = frags.deep_view();
        let ghost cur0 = cur@;
        frags.push(cur);
        proof {
            assert(frags.deep_view() =~= dv0.push(cur0));
            assert(dv0.push(cur0) =~= dv0 + seq![cur0]);
        }
    }
    proof {
        assert(frags.deep_view() == fragments(s@));
        lemma_fragments_nonempty(s@, Seq::<char>::empty());
    }
    let ghost fv = frags.deep_view();
    let mut tokens: Vec<Token> = Vec::new();
    let mut mode: LexMode = LexMode::Normal;
    let mut j: usize = 0;
    proof {
        assert(tokens.deep_view() =~= Seq::<TokenView>::empty());
        assert(fv.skip(0) =~= fv);
        assert(Seq::<TokenView>::empty() + lex_fragments(fv, LexMode::Normal) =~= lex_fragments(
            fv,
            LexMode::Normal,
        ));
    }
    while j < frags.len()
        invariant
            frags.deep_view() == fv,
            fv == fragments(s@),
            forall|k: int| 0 <= k < fv.len() ==> #[trigger] fv[k].len() > 0,
            0 <= j <= frags.len(),
            tokens.deep_view() + lex_fragments(fv.skip(j as int), mode) == lex_fragments(
                fv,
                LexMode::Normal,
            ),
        decreases frags.len() - j,
    {
        let f: &String = &frags[j];
        let ghost rest = fv.skip(j as int);
        let ghost pre = tokens.deep_view();
        proof {
            lemma_skip_step(fv, j as int);
            assert(rest[0] == f@);
        }
        match mode {
            LexMode::Normal => {
                let t = trim_str(f.as_str());
                if t.is_empty() {
                    proof {
                        assert(lex_fragments(rest, LexMode::Normal) == lex_fragments(
                            fv.skip(j as int + 1),
                            LexMode::Normal,
                        ));
                    }
                } else {
                    let c0 = t.get_char(0);
                    match to_operator(c0) {
                        Some(op) => {
                            if op == Operator::Hash {
                                mode = LexMode::InComment;
                                proof {
                                    assert(lex_fragments(rest, LexMode::Normal) == lex_fragments(
                                        fv.skip(j as int + 1),
                                        LexMode::InComment,
                                    ));
                                }
                            } else if op == Operator::Quote {
                                tokens.push(Token::Op(op));
                                mode = LexMode::InString;
                                proof {
                                    assert(tokens.deep_view() =~= pre.push(
                                        TokenView::Op(Operator::Quote),
                                    ));
                                    assert(pre.push(TokenView::Op(Operator::Quote)) + lex_fragments(
                                        fv.skip(j as int + 1),
                                        LexMode::InString,
                                    ) =~= pre + lex_fragments(rest, LexMode::Normal));
                                }
                            } else {
                                tokens.push(Token::Op(op));
                                proof {
                                    assert(tokens.deep_view() =~= pre.push(TokenView::Op(op)));
                                    assert(pre.push(TokenView::Op(op)) + lex_fragments(
                                        fv.skip(j as int + 1),
                                        LexMode::Normal,
                                    ) =~= pre + lex_fragments(rest, LexMode::Normal));
                                }
                            }
                        },
                        None => {
                            let tok = word_to_token(t);
                            let ghost tokv = tok@;
                            tokens.push(tok);
                            proof {
                                assert(tokens.deep_view() =~= pre.push(tokv));
                                assert(pre.push(tokv) + lex_fragments(
                                    fv.skip(j as int + 1),
                                    LexMode::Normal,
                                ) =~= pre + lex_fragments(rest, LexMode::Normal));
                            }
                        },
                    }
                }
            },
            LexMode::InString => {
                let c0 = f.as_str().get_char(0);
                if c0 == '"' {
                    tokens.push(Token::Op(Operator::Quote));
                    mode = LexMode::Normal;
                    proof {
                        assert(tokens.deep_view() =~= pre.push(TokenView::Op(Operator::Quote)));
                        assert(pre.push(TokenView::Op(Operator::Quote)) + lex_fragments(
                            fv.skip(j as int + 1),
                            LexMode::Normal,
                        ) =~= pre + lex_fragments(rest, LexMode::InString));
                    }
                } else {
                    let tok = Token::Data(DataType::String(f.clone()));
                    let ghost tokv = tok@;
                    tokens.push(tok);
                    proof {
                        assert(tokv == TokenView::Lit(DataValue::Str(f@)));
                        assert(tokens.deep_view() =~= pre.push(tokv));
                        assert(pre.push(tokv) + lex_fragments(
                            fv.skip(j as int + 1),
                            LexMode::InString,
                        ) =~= pre + lex_fragments(rest, LexMode::InString));
                    }
                }
            },
            LexMode::InComment => {
                let c0 = f.as_str().get_char(0);
                if c0 == '#' {
                    mode = LexMode::Normal;
                    proof {
                        assert(lex_fragments(rest, LexMode::InComment) == lex_fragments(
                            fv.skip(j as int + 1),
                            LexMode::Normal,
                        ));
                    }
                } else {
                    proof {
                        assert(lex_fragments(rest, LexMode::InComment) == lex_fragments(
                            fv.skip(j as int + 1),
                            LexMode::InComment,
                        ));
                    }
                }
            },
        }
        j += 1;
    }
    proof {
        assert(fv.skip(frags.len() as int) =~= Seq::<Seq<char>>::empty());
        assert(tokens.deep_view() + Seq::<TokenView>::empty() =~= tokens.deep_view());
    }
    tokens
}

} // verus!
