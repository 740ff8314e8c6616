//! The comma-separated element list of `scholium::mark(...)`: each element
//! is a bare identifier, a path (`group::id`) or `key = "string literal"`.
use vstd::prelude::*;

use crate::outside::{lit_str_value, string_literal_value};
use crate::text::same_text;
use crate::tokens::{
    is_ident_named_at, is_joint_punct_at, is_punct_at, peek2_eq_at, peek2_path_sep_at, peek3_lt_at,
    peek3_paren_at, peek_generic_open_at, peek_path_sep_at,
    closing_span, ident_text, is_ident, is_joint_punct, is_punct, open_span, peek2_eq, peek2_path_sep, peek3_lt,
    peek3_paren, peek_generic_open, peek_path_sep, token_span, SpanRange, Token,
};

verus! {

/// A parse failure: a message and the source range it points at.
#[derive(Clone, Debug, PartialEq, Eq)]
pub struct MarkError {
    pub message: String,
    pub span: SpanRange,
}

/// The mathematical content of a [`MarkError`].
pub type ErrorModel = (Seq<char>, SpanRange);

impl View for MarkError {
    type V = ErrorModel;

    open spec fn view(&self) -> ErrorModel {
        (self.message@, self.span)
    }
}

/// One parsed element of the argument list.
#[derive(Clone, Debug, PartialEq, Eq)]
pub enum Element {
    /// A single identifier.
    Value { ident: String, span: SpanRange },
    /// A path of identifiers separated by `::`, not absolute.
    Path { segments: Vec<String>, span: SpanRange },
    /// `key = "value"`; the value is the unescaped string literal.
    KeyValue { key: String, key_span: SpanRange, value: String },
}

/// The mathematical content of an [`Element`].
pub enum ElementModel {
    Value(Seq<char>, SpanRange),
    Path(Seq<Seq<char>>, SpanRange),
    KeyValue(Seq<char>, SpanRange, Seq<char>),
}

pub open spec fn texts(v: Seq<String>) -> Seq<Seq<char>> {
    v.map_values(|s: String| s@)
}

impl View for Element {
    type V = ElementModel;

    open spec fn view(&self) -> ElementModel {
        match self {
            Element::Value { ident, span } => ElementModel::Value(ident@, *span),
            Element::Path { segments, span } => ElementModel::Path(texts(segments@), *span),
            Element::KeyValue { key, key_span, value } => ElementModel::KeyValue(
                key@,
                *key_span,
                value@,
            ),
        }
    }
}

pub open spec fn elements_view(v: Seq<Element>) -> Seq<ElementModel> {
    v.map_values(|e: Element| e@)
}

/// An error reported at token `i`, or at the end of input when there is none.
pub open spec fn error_at(toks: Seq<Token>, i: int, scope: SpanRange, msg: Seq<char>) -> ErrorModel {
    if 0 <= i < toks.len() {
        (msg, open_span(toks[i]))
    } else {
        ("unexpected end of input, "@ + msg, scope)
    }
}

/// Words that cannot stand as a plain identifier.
pub open spec fn is_keyword(s: Seq<char>) -> bool {
    ||| s == "_"@ ||| s == "abstract"@ ||| s == "as"@ ||| s == "async"@ ||| s == "await"@
    ||| s == "become"@ ||| s == "box"@ ||| s == "break"@ ||| s == "const"@ ||| s == "continue"@
    ||| s == "crate"@ ||| s == "do"@ ||| s == "dyn"@ ||| s == "else"@ ||| s == "enum"@
    ||| s == "extern"@ ||| s == "false"@ ||| s == "final"@ ||| s == "fn"@ ||| s == "for"@
    ||| s == "if"@ ||| s == "impl"@ ||| s == "in"@ ||| s == "let"@ ||| s == "loop"@
    ||| s == "macro"@ ||| s == "match"@ ||| s == "mod"@ ||| s == "move"@ ||| s == "mut"@
    ||| s == "override"@ ||| s == "priv"@ ||| s == "pub"@ ||| s == "ref"@ ||| s == "return"@
    ||| s == "Self"@ ||| s == "self"@ ||| s == "static"@ ||| s == "struct"@ ||| s == "super"@
    ||| s == "trait"@ ||| s == "true"@ ||| s == "try"@ ||| s == "type"@ ||| s == "typeof"@
    ||| s == "unsafe"@ ||| s == "unsized"@ ||| s == "use"@ ||| s == "virtual"@ ||| s == "where"@
    ||| s == "while"@ ||| s == "yield"@
}

/// A plain identifier at `i`: its text and span. Keywords are refused.
pub open spec fn spec_parse_ident(toks: Seq<Token>, i: int, scope: SpanRange) -> Result<
    (Seq<char>, SpanRange),
    ErrorModel,
> {
    if is_ident(toks, i) {
        if is_keyword(ident_text(toks, i)) {
            Err(
                (
                    "expected identifier, found keyword `"@ + ident_text(toks, i) + "`"@,
                    token_span(toks[i]),
                ),
            )
        } else {
            Ok((ident_text(toks, i), token_span(toks[i])))
        }
    } else {
        Err(error_at(toks, i, scope, "expected identifier"@))
    }
}

/// Path-segment keywords that are taken as they are.
pub open spec fn is_segment_keyword(s: Seq<char>) -> bool {
    s == "super"@ || s == "self"@ || s == "crate"@ || s == "try"@ || s == "Self"@
}

/// A `>` at `k` that closes a bracket: not the head of an arrow `->`.
pub open spec fn is_angle_closer(toks: Seq<Token>, k: int) -> bool {
    is_punct(toks, k, '>') && !(k > 0 && is_joint_punct(toks, k - 1, '-'))
}

/// With `depth` angle brackets open before `k`, the index just past the
/// `>` that closes the first of them; none when the input ends first.
/// Groups are single tokens, so brackets inside them do not count.
pub open spec fn angle_close(toks: Seq<Token>, k: int, depth: int) -> Option<int>
    decreases toks.len() - k,
{
    if k < 0 || k >= toks.len() {
        None
    } else if is_punct(toks, k, '<') {
        angle_close(toks, k + 1, depth + 1)
    } else if is_angle_closer(toks, k) {
        if depth <= 1 {
            Some(k + 1)
        } else {
            angle_close(toks, k + 1, depth - 1)
        }
    } else {
        angle_close(toks, k + 1, depth)
    }
}

pub proof fn lemma_angle_close_bound(toks: Seq<Token>, k: int, depth: int)
    ensures
        angle_close(toks, k, depth) matches Some(e) ==> k < e <= toks.len(),
    decreases toks.len() - k,
{
    if 0 <= k < toks.len() {
        if is_punct(toks, k, '<') {
            lemma_angle_close_bound(toks, k + 1, depth + 1);
        } else if is_angle_closer(toks, k) {
            if depth > 1 {
                lemma_angle_close_bound(toks, k + 1, depth - 1);
            }
        } else {
            lemma_angle_close_bound(toks, k + 1, depth);
        }
    }
}

/// Where the generic arguments that follow the segment identifier at `i`
/// open: at `i + 1` for `<`, at `i + 3` for `::<`; none when none follow.
pub open spec fn generic_open_at(toks: Seq<Token>, i: int) -> Option<int> {
    if peek_generic_open(toks, i + 1) {
        Some(i + 1)
    } else if peek_path_sep(toks, i + 1) && peek3_lt(toks, i + 1) {
        Some(i + 3)
    } else {
        None
    }
}

/// One path segment at `i`: its identifier, then any angle-bracketed
/// generic arguments, which are skipped up to their closing `>`. On success
/// it is the identifier's text and the index just past the segment.
pub open spec fn spec_parse_segment(toks: Seq<Token>, i: int, scope: SpanRange) -> Result<
    (Seq<char>, int),
    ErrorModel,
> {
    let plain_keyword = is_ident(toks, i) && (ident_text(toks, i) == "super"@ || ident_text(
        toks,
        i,
    ) == "self"@ || ident_text(toks, i) == "crate"@ || ident_text(toks, i) == "try"@);
    let ident = if is_ident(toks, i) && is_segment_keyword(ident_text(toks, i)) {
        Ok((ident_text(toks, i), token_span(toks[i])))
    } else {
        spec_parse_ident(toks, i, scope)
    };
    match ident {
        Err(e) => Err(e),
        Ok((text, _)) => {
            if plain_keyword {
                Ok((text, i + 1))
            } else {
                match generic_open_at(toks, i) {
                    None => Ok((text, i + 1)),
                    Some(g) => match angle_close(toks, g + 1, 1) {
                        Some(e) => Ok((text, e)),
                        None => Err(error_at(toks, toks.len() as int, scope, "expected `>`"@)),
                    },
                }
            }
        },
    }
}

pub proof fn lemma_segment_advances(toks: Seq<Token>, i: int, scope: SpanRange)
    ensures
        spec_parse_segment(toks, i, scope) matches Ok((_, e)) ==> 0 <= i < e <= toks.len(),
{
    if let Some(g) = generic_open_at(toks, i) {
        lemma_angle_close_bound(toks, g + 1, 1);
    }
}

/// The `::segment` continuations of a path, from `k`.
pub open spec fn spec_parse_path_rest(
    toks: Seq<Token>,
    k: int,
    scope: SpanRange,
    segs: Seq<Seq<char>>,
) -> Result<(Seq<Seq<char>>, int), ErrorModel>
    decreases toks.len() - k,
{
    if 0 <= k && peek_path_sep(toks, k) && !peek3_paren(toks, k) {
        match spec_parse_segment(toks, k + 2, scope) {
            Err(e) => Err(e),
            Ok((seg, next)) => {
                proof {
                    lemma_segment_advances(toks, k + 2, scope);
                }
                spec_parse_path_rest(toks, next, scope, segs.push(seg))
            },
        }
    } else {
        Ok((segs, k))
    }
}

/// A path at `i`, with an optional leading `::`.
pub open spec fn spec_parse_path(toks: Seq<Token>, i: int, scope: SpanRange) -> Result<
    (ElementModel, int),
    ErrorModel,
> {
    let j = if peek_path_sep(toks, i) {
        i + 2
    } else {
        i
    };
    match spec_parse_segment(toks, j, scope) {
        Err(e) => Err(e),
        Ok((seg, next)) => match spec_parse_path_rest(toks, next, scope, seq![seg]) {
            Err(e) => Err(e),
            Ok((segs, end)) => Ok(
                (
                    ElementModel::Path(
                        segs,
                        SpanRange {
                            start: token_span(toks[i]).start,
                            end: token_span(toks[end - 1]).end,
                        },
                    ),
                    end,
                ),
            ),
        },
    }
}

/// One element at `i`: a path when the second token tree is `::`,
/// `key = "value"` when it is `=`, a bare identifier otherwise.
pub open spec fn spec_parse_element(toks: Seq<Token>, i: int, scope: SpanRange) -> Result<
    (ElementModel, int),
    ErrorModel,
> {
    if peek2_path_sep(toks, i) {
        spec_parse_path(toks, i, scope)
    } else if peek2_eq(toks, i) {
        match spec_parse_ident(toks, i, scope) {
            Err(e) => Err(e),
            Ok((key, key_span)) => {
                let lit = i + 2;
                if lit < toks.len() && toks[lit] is Literal && string_literal_value(
                    literal_text(toks[lit]),
                ) is Some {
                    Ok(
                        (
                            ElementModel::KeyValue(
                                key,
                                key_span,
                                string_literal_value(literal_text(toks[lit]))->0,
                            ),
                            lit + 1,
                        ),
                    )
                } else {
                    Err(error_at(toks, lit, scope, "expected string literal"@))
                }
            },
        }
    } else {
        match spec_parse_ident(toks, i, scope) {
            Err(e) => Err(e),
            Ok((ident, span)) => Ok((ElementModel::Value(ident, span), i + 1)),
        }
    }
}

pub open spec fn literal_text(t: Token) -> Seq<char> {
    match t {
        Token::Literal { text, .. } => text@,
        _ => Seq::empty(),
    }
}

pub proof fn lemma_path_rest_advances(
    toks: Seq<Token>,
    k: int,
    scope: SpanRange,
    segs: Seq<Seq<char>>,
)
    requires
        0 <= k <= toks.len(),
    ensures
        spec_parse_path_rest(toks, k, scope, segs) matches Ok((s, end)) ==> k <= end <= toks.len()
            && s.len() >= segs.len(),
    decreases toks.len() - k,
{
    if 0 <= k && peek_path_sep(toks, k) && !peek3_paren(toks, k) {
        lemma_segment_advances(toks, k + 2, scope);
        if let Ok((seg, next)) = spec_parse_segment(toks, k + 2, scope) {
            lemma_path_rest_advances(toks, next, scope, segs.push(seg));
        }
    }
}

/// A parsed element is at least one token long.
pub proof fn lemma_element_advances(toks: Seq<Token>, i: int, scope: SpanRange)
    requires
        0 <= i < toks.len(),
    ensures
        spec_parse_element(toks, i, scope) matches Ok((_, j)) ==> i < j <= toks.len(),
{
    if peek2_path_sep(toks, i) {
        let j = if peek_path_sep(toks, i) {
            i + 2
        } else {
            i
        };
        lemma_segment_advances(toks, j, scope);
        if let Ok((seg, next)) = spec_parse_segment(toks, j, scope) {
            lemma_path_rest_advances(toks, next, scope, seq![seg]);
        }
    }
}

/// The whole comma-separated list from `i`; a trailing comma is allowed.
pub open spec fn spec_parse_elements(toks: Seq<Token>, i: int, scope: SpanRange) -> Result<
    Seq<ElementModel>,
    ErrorModel,
>
    decreases toks.len() - i,
{
    if i < 0 || i >= toks.len() {
        Ok(Seq::empty())
    } else {
        match spec_parse_element(toks, i, scope) {
            Err(e) => Err(e),
            Ok((el, j)) => {
                proof {
                    lemma_element_advances(toks, i, scope);
                }
                if j >= toks.len() {
                    Ok(seq![el])
                } else if is_punct(toks, j, ',') {
                    match spec_parse_elements(toks, j + 1, scope) {
                        Err(e) => Err(e),
                        Ok(rest) => Ok(seq![el] + rest),
                    }
                } else {
                    Err(("expected `,`"@, open_span(toks[j])))
                }
            },
        }
    }
}

/// A message made of the characters of `lit`.
fn message(lit: &str) -> (m: String)
    ensures
        m@ == lit@,
{
    lit.to_owned()
}

fn error_at_token(toks: &Vec<Token>, i: usize, scope: SpanRange, msg: &str) -> (e: MarkError)
    ensures
        e@ == error_at(toks@, i as int, scope, msg@),
{
    if i < toks.len() {
        MarkError { message: message(msg), span: toks[i].open_span() }
    } else {
        let mut m = message("unexpected end of input, ");
        m.append(msg);
        MarkError { message: m, span: scope }
    }
}

/// Whether `s` is one of the words that cannot stand as a plain identifier.
pub fn is_keyword_text(s: &str) -> (r: bool)
    ensures
        r == is_keyword(s@),
{
    same_text(s, "_") || same_text(s, "abstract") || same_text(s, "as") || same_text(s, "async")
        || same_text(s, "await") || same_text(s, "become") || same_text(s, "box") || same_text(
        s,
        "break",
    ) || same_text(s, "const") || same_text(s, "continue") || same_text(s, "crate") || same_text(
        s,
        "do",
    ) || same_text(s, "dyn") || same_text(s, "else") || same_text(s, "enum") || same_text(
        s,
        "extern",
    ) || same_text(s, "false") || same_text(s, "final") || same_text(s, "fn") || same_text(
        s,
        "for",
    ) || same_text(s, "if") || same_text(s, "impl") || same_text(s, "in") || same_text(s, "let")
        || same_text(s, "loop") || same_text(s, "macro") || same_text(s, "match") || same_text(
        s,
        "mod",
    ) || same_text(s, "move") || same_text(s, "mut") || same_text(s, "override") || same_text(
        s,
        "priv",
    ) || same_text(s, "pub") || same_text(s, "ref") || same_text(s, "return") || same_text(
        s,
        "Self",
    ) || same_text(s, "self") || same_text(s, "static") || same_text(s, "struct") || same_text(
        s,
        "super",
    ) || same_text(s, "trait") || same_text(s, "true") || same_text(s, "try") || same_text(
        s,
        "type",
    ) || same_text(s, "typeof") || same_text(s, "unsafe") || same_text(s, "unsized") || same_text(
        s,
        "use",
    ) || same_text(s, "virtual") || same_text(s, "where") || same_text(s, "while") || same_text(
        s,
        "yield",
    )
}

fn parse_ident(toks: &Vec<Token>, i: usize, scope: SpanRange) -> (r: Result<
    (String, SpanRange),
    MarkError,
>)
    ensures
        match (r, spec_parse_ident(toks@, i as int, scope)) {
            (Ok((t, sp)), Ok((t2, sp2))) => t@ == t2 && sp == sp2,
            (Err(e), Err(e2)) => e@ == e2,
            _ => false,
        },
{
    if i < toks.len() {
        match &toks[i] {
            Token::Ident { text, span } => {
                if is_keyword_text(text.as_str()) {
                    let mut m = message("expected identifier, found keyword `");
                    m.append(text.as_str());
                    m.append("`");
                    return Err(MarkError { message: m, span: *span });
                } else {
                    return Ok((text.clone(), *span));
                }
            },
            _ => {},
        }
    }
    Err(error_at_token(toks, i, scope, "expected identifier"))
}

/// The index just past the `>` that closes generic arguments opened just
/// before `start`; none when the input ends first.
fn angle_close_at(toks: &Vec<Token>, start: usize) -> (r: Option<usize>)
    requires
        1 <= start,
    ensures
        match r {
            Some(e) => angle_close(toks@, start as int, 1) == Some(e as int),
            None => angle_close(toks@, start as int, 1) is None,
        },
{
    let n = toks.len();
    let mut k: usize = start;
    let mut depth: usize = 1;
    while k < n
        invariant
            n == toks@.len(),
            1 <= start <= k,
            1 <= depth <= k - start + 1,
            angle_close(toks@, start as int, 1) == angle_close(toks@, k as int, depth as int),
        decreases n - k,
    {
        if is_punct_at(toks, k, '<') {
            depth = depth + 1;
        } else if is_punct_at(toks, k, '>') && !(k > 0 && is_joint_punct_at(toks, k - 1, '-')) {
            if depth <= 1 {
                return Some(k + 1);
            }
            depth = depth - 1;
        }
        k = k + 1;
    }
    None
}

fn parse_segment(toks: &Vec<Token>, i: usize, scope: SpanRange) -> (r: Result<(String, usize), MarkError>)
    ensures
        match (r, spec_parse_segment(toks@, i as int, scope)) {
            (Ok((t, e)), Ok((t2, e2))) => t@ == t2 && e == e2,
            (Err(e), Err(e2)) => e@ == e2,
            _ => false,
        },
{
    let n = toks.len();
    let plain_keyword = is_ident_named_at(toks, i, "super") || is_ident_named_at(toks, i, "self")
        || is_ident_named_at(toks, i, "crate") || is_ident_named_at(toks, i, "try");
    let text = if plain_keyword || is_ident_named_at(toks, i, "Self") {
        match &toks[i] {
            Token::Ident { text, .. } => text.clone(),
            _ => {
                return Err(error_at_token(toks, i, scope, "expected identifier"));
            },
        }
    } else {
        match parse_ident(toks, i, scope) {
            Ok((t, _)) => t,
            Err(e) => {
                return Err(e);
            },
        }
    };
    if plain_keyword {
        return Ok((text, i + 1));
    }
    let open = if peek_generic_open_at(toks, i + 1) {
        Some(i + 1)
    } else if peek_path_sep_at(toks, i + 1) && peek3_lt_at(toks, i + 1) {
        Some(i + 3)
    } else {
        None
    };
    match open {
        None => Ok((text, i + 1)),
        Some(g) => match angle_close_at(toks, g + 1) {
            Some(e) => Ok((text, e)),
            None => Err(error_at_token(toks, n, scope, "expected `>`")),
        },
    }
}

fn parse_path(toks: &Vec<Token>, i: usize, scope: SpanRange) -> (r: Result<
    (Element, usize),
    MarkError,
>)
    requires
        i < toks@.len(),
    ensures
        match (r, spec_parse_path(toks@, i as int, scope)) {
            (Ok((el, j)), Ok((el2, j2))) => el@ == el2 && j == j2,
            (Err(e), Err(e2)) => e@ == e2,
            _ => false,
        },
{
    let n = toks.len();
    let j = if peek_path_sep_at(toks, i) {
        i + 2
    } else {
        i
    };
    let (first, mut k) = match parse_segment(toks, j, scope) {
        Ok(t) => t,
        Err(e) => {
            return Err(e);
        },
    };
    proof {
        lemma_segment_advances(toks@, j as int, scope);
    }
    let mut segments: Vec<String> = Vec::new();
    segments.push(first);
    proof {
        assert(texts(segments@) =~= seq![first@]);
    }
    while peek_path_sep_at(toks, k) && !peek3_paren_at(toks, k)
        invariant
            n == toks@.len(),
            i < n,
            j + 1 <= k <= n,
            j == (if peek_path_sep(toks@, i as int) {
                i + 2
            } else {
                i as int
            }),
            spec_parse_segment(toks@, j as int, scope) is Ok,
            spec_parse_path(toks@, i as int, scope) == (match spec_parse_path_rest(
                toks@,
                k as int,
                scope,
                texts(segments@),
            ) {
                Err(e) => Err(e),
                Ok((segs, end)) => Ok(
                    (
                        ElementModel::Path(
                            segs,
                            SpanRange {
                                start: token_span(toks@[i as int]).start,
                                end: token_span(toks@[end - 1]).end,
                            },
                        ),
                        end,
                    ),
                ),
            }),
        decreases n - k,
    {
        match parse_segment(toks, k + 2, scope) {
            Ok((t, next)) => {
                proof {
                    lemma_segment_advances(toks@, k + 2, scope);
                    assert(texts(segments@.push(t)) =~= texts(segments@).push(t@));
                }
                segments.push(t);
                k = next;
            },
            Err(e) => {
                return Err(e);
            },
        }
    }
    let span = SpanRange { start: toks[i].span().start, end: toks[k - 1].span().end };
    Ok((Element::Path { segments, span }, k))
}

/// Parses the element that starts at token `i`.
pub fn parse_element(toks: &Vec<Token>, i: usize, scope: SpanRange) -> (r: Result<
    (Element, usize),
    MarkError,
>)
    requires
        i < toks@.len(),
    ensures
        match (r, spec_parse_element(toks@, i as int, scope)) {
            (Ok((el, j)), Ok((el2, j2))) => el@ == el2 && j == j2,
            (Err(e), Err(e2)) => e@ == e2,
            _ => false,
        },
{
    let n = toks.len();
    if peek2_path_sep_at(toks, i) {
        return parse_path(toks, i, scope);
    }
    if peek2_eq_at(toks, i) {
        let (key, key_span) = match parse_ident(toks, i, scope) {
            Ok(p) => p,
            Err(e) => {
                return Err(e);
            },
        };
        let lit = i + 2;
        if lit < toks.len() {
            match &toks[lit] {
                Token::Literal { text, .. } => {
                    match lit_str_value(text.as_str()) {
                        Some(value) => {
                            return Ok((Element::KeyValue { key, key_span, value }, lit + 1));
                        },
                        None => {},
                    }
                },
                _ => {},
            }
        }
        return Err(error_at_token(toks, lit, scope, "expected string literal"));
    }
    match parse_ident(toks, i, scope) {
        Ok((ident, span)) => Ok((Element::Value { ident, span }, i + 1)),
        Err(e) => Err(e),
    }
}

/// Parses the whole comma-separated element list; a trailing comma is
/// accepted. `scope` is where end-of-input errors point.
pub fn parse_elements(toks: &Vec<Token>, scope: SpanRange) -> (r: Result<Vec<Element>, MarkError>)
    ensures
        match (r, spec_parse_elements(toks@, 0, scope)) {
            (Ok(v), Ok(v2)) => elements_view(v@) == v2,
            (Err(e), Err(e2)) => e@ == e2,
            _ => false,
        },
{
    let n = toks.len();
    let mut out: Vec<Element> = Vec::new();
    let mut i: usize = 0;
    while i < n
        invariant
            n == toks@.len(),
            i <= n,
            spec_parse_elements(toks@, 0, scope) == (match spec_parse_elements(toks@, i as int, scope) {
                Err(e) => Err(e),
                Ok(rest) => Ok(elements_view(out@) + rest),
            }),
        decreases n - i,
    {
        let (el, j) = match parse_element(toks, i, scope) {
            Ok(p) => p,
            Err(e) => {
                return Err(e);
            },
        };
        let ghost before = elements_view(out@);
        proof {
            lemma_element_advances(toks@, i as int, scope);
            assert(elements_view(out@.push(el)) =~= elements_view(out@).push(el@));
        }
        out.push(el);
        if j >= n {
            proof {
                assert(elements_view(out@) =~= before + seq![el@]);
            }
            return Ok(out);
        }
        if !is_punct_at(toks, j, ',') {
            return Err(MarkError { message: message("expected `,`"), span: toks[j].open_span() });
        }
        proof {
            match spec_parse_elements(toks@, j + 1, scope) {
                Err(e) => {},
                Ok(rest) => {
                    assert(before + (seq![el@] + rest) =~= elements_view(out@) + rest);
                },
            }
        }
        i = j + 1;
    }
    proof {
        assert(elements_view(out@) =~= elements_view(out@) + Seq::<ElementModel>::empty());
    }
    Ok(out)
}

} // verus!
