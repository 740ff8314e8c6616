//! A plain model of the top level of a Rust token stream, as the
//! `scholium::mark` argument grammar reads it.
use vstd::prelude::*;

use crate::text::same_text;

verus! {

/// A position in source text: 1-based line, 0-based column in characters.
#[derive(Clone, Copy, Debug, PartialEq, Eq)]
pub struct LineColumn {
    pub line: usize,
    pub column: usize,
}

/// The source range covered by a token or by a sequence of tokens.
#[derive(Clone, Copy, Debug, PartialEq, Eq)]
pub struct SpanRange {
    pub start: LineColumn,
    pub end: LineColumn,
}

/// Whether a punctuation character is immediately followed by another one.
#[derive(Clone, Copy, Debug, PartialEq, Eq)]
pub enum PunctSpacing {
    Alone,
    Joint,
}

/// The delimiter of a token group.
#[derive(Clone, Copy, Debug, PartialEq, Eq)]
pub enum GroupDelimiter {
    Parenthesis,
    Brace,
    Bracket,
    Invisible,
}

/// One top-level token tree. A group is kept whole: the grammar never
/// looks inside one.
#[derive(Clone, Debug, PartialEq, Eq)]
pub enum Token {
    /// An identifier, as it is written (raw identifiers keep their `r#`).
    Ident { text: String, span: SpanRange },
    /// A punctuation character.
    Punct { ch: char, spacing: PunctSpacing, span: SpanRange },
    /// A literal, as it is written in the source.
    Literal { text: String, span: SpanRange },
    /// A delimited group with the spans of its delimiters.
    Group { delimiter: GroupDelimiter, span: SpanRange, open: SpanRange, close: SpanRange },
}

/// The span that covers the whole token.
pub open spec fn token_span(t: Token) -> SpanRange {
    match t {
        Token::Ident { span, .. } => span,
        Token::Punct { span, .. } => span,
        Token::Literal { span, .. } => span,
        Token::Group { span, .. } => span,
    }
}

/// The span an error points at when it is reported at this token: the
/// opening delimiter for a group, the token itself otherwise.
pub open spec fn open_span(t: Token) -> SpanRange {
    match t {
        Token::Group { open, .. } => open,
        _ => token_span(t),
    }
}

/// The span of the last character of the token: the closing delimiter
/// for a group, the token itself otherwise.
pub open spec fn closing_span(t: Token) -> SpanRange {
    match t {
        Token::Group { close, .. } => close,
        _ => token_span(t),
    }
}

pub open spec fn is_punct(toks: Seq<Token>, i: int, c: char) -> bool {
    0 <= i < toks.len() && (toks[i] matches Token::Punct { ch, .. } && ch == c)
}

pub open spec fn is_joint_punct(toks: Seq<Token>, i: int, c: char) -> bool {
    0 <= i < toks.len() && (toks[i] matches Token::Punct { ch, spacing, .. } && ch == c
        && spacing == PunctSpacing::Joint)
}

pub open spec fn is_ident(toks: Seq<Token>, i: int) -> bool {
    0 <= i < toks.len() && toks[i] is Ident
}

/// The text of the identifier at `i` (meaningful when `is_ident(toks, i)`).
pub open spec fn ident_text(toks: Seq<Token>, i: int) -> Seq<char> {
    match toks[i] {
        Token::Ident { text, .. } => text@,
        _ => Seq::empty(),
    }
}

pub open spec fn is_ident_named(toks: Seq<Token>, i: int, name: Seq<char>) -> bool {
    is_ident(toks, i) && ident_text(toks, i) == name
}

/// Index of the token tree after the one at `i`; a lifetime (`'` joined to
/// an identifier) counts as one tree.
pub open spec fn skip_one(toks: Seq<Token>, i: int) -> int {
    if is_joint_punct(toks, i, '\'') && is_ident(toks, i + 1) {
        i + 2
    } else {
        i + 1
    }
}

/// `::` starts at `i`.
pub open spec fn peek_path_sep(toks: Seq<Token>, i: int) -> bool {
    is_joint_punct(toks, i, ':') && is_punct(toks, i + 1, ':')
}

/// `=` starts at `i`.
pub open spec fn peek_eq(toks: Seq<Token>, i: int) -> bool {
    is_punct(toks, i, '=')
}

/// The second token tree from `i` satisfies the `::` test.
pub open spec fn peek2_path_sep(toks: Seq<Token>, i: int) -> bool {
    0 <= i < toks.len() && peek_path_sep(toks, skip_one(toks, i))
}

/// The second token tree from `i` satisfies the `=` test.
pub open spec fn peek2_eq(toks: Seq<Token>, i: int) -> bool {
    0 <= i < toks.len() && peek_eq(toks, skip_one(toks, i))
}

/// The third token tree from `i` is a parenthesized group.
pub open spec fn peek3_paren(toks: Seq<Token>, i: int) -> bool {
    0 <= i < toks.len() && 0 <= skip_one(toks, i) < toks.len() && {
        let k = skip_one(toks, skip_one(toks, i));
        0 <= k < toks.len() && (toks[k] matches Token::Group { delimiter, .. } && delimiter
            == GroupDelimiter::Parenthesis)
    }
}

/// The third token tree from `i` is `<`.
pub open spec fn peek3_lt(toks: Seq<Token>, i: int) -> bool {
    0 <= i < toks.len() && 0 <= skip_one(toks, i) < toks.len() && is_punct(
        toks,
        skip_one(toks, skip_one(toks, i)),
        '<',
    )
}

/// A `<` at `i` that is neither `<=` nor `<<=`: the start of generic arguments.
pub open spec fn peek_generic_open(toks: Seq<Token>, i: int) -> bool {
    &&& is_punct(toks, i, '<')
    &&& !(is_joint_punct(toks, i, '<') && is_punct(toks, i + 1, '='))
    &&& !(is_joint_punct(toks, i, '<') && is_joint_punct(toks, i + 1, '<') && is_punct(
        toks,
        i + 2,
        '=',
    ))
}

impl Token {
    pub fn span(&self) -> (r: SpanRange)
        ensures
            r == token_span(*self),
    {
        match self {
            Token::Ident { span, .. } => *span,
            Token::Punct { span, .. } => *span,
            Token::Literal { span, .. } => *span,
            Token::Group { span, .. } => *span,
        }
    }

    pub fn open_span(&self) -> (r: SpanRange)
        ensures
            r == open_span(*self),
    {
        match self {
            Token::Group { open, .. } => *open,
            _ => self.span(),
        }
    }

    pub fn closing_span(&self) -> (r: SpanRange)
        ensures
            r == closing_span(*self),
    {
        match self {
            Token::Group { close, .. } => *close,
            _ => self.span(),
        }
    }
}

pub fn is_punct_at(toks: &Vec<Token>, i: usize, c: char) -> (r: bool)
    ensures
        r == is_punct(toks@, i as int, c),
{
    if i < toks.len() {
        match &toks[i] {
            Token::Punct { ch, .. } => *ch == c,
            _ => false,
        }
    } else {
        false
    }
}

pub fn is_joint_punct_at(toks: &Vec<Token>, i: usize, c: char) -> (r: bool)
    ensures
        r == is_joint_punct(toks@, i as int, c),
{
    if i < toks.len() {
        match &toks[i] {
            Token::Punct { ch, spacing, .. } => *ch == c && matches!(spacing, PunctSpacing::Joint),
            _ => false,
        }
    } else {
        false
    }
}

pub fn is_ident_at(toks: &Vec<Token>, i: usize) -> (r: bool)
    ensures
        r == is_ident(toks@, i as int),
{
    i < toks.len() && matches!(toks[i], Token::Ident { .. })
}

pub fn is_ident_named_at(toks: &Vec<Token>, i: usize, name: &str) -> (r: bool)
    ensures
        r == is_ident_named(toks@, i as int, name@),
{
    if i < toks.len() {
        match &toks[i] {
            Token::Ident { text, .. } => same_text(text.as_str(), name),
            _ => false,
        }
    } else {
        false
    }
}

pub fn skip_one_at(toks: &Vec<Token>, i: usize) -> (r: usize)
    requires
        i < toks@.len(),
    ensures
        r as int == skip_one(toks@, i as int),
        i < r <= toks@.len(),
{
    let n = toks.len();
    if is_joint_punct_at(toks, i, '\'') && is_ident_at(toks, i + 1) {
        i + 2
    } else {
        i + 1
    }
}

pub fn peek_path_sep_at(toks: &Vec<Token>, i: usize) -> (r: bool)
    ensures
        r == peek_path_sep(toks@, i as int),
{
    i < toks.len() && is_joint_punct_at(toks, i, ':') && is_punct_at(toks, i + 1, ':')
}

pub fn peek2_path_sep_at(toks: &Vec<Token>, i: usize) -> (r: bool)
    ensures
        r == peek2_path_sep(toks@, i as int),
{
    i < toks.len() && peek_path_sep_at(toks, skip_one_at(toks, i))
}

pub fn peek2_eq_at(toks: &Vec<Token>, i: usize) -> (r: bool)
    ensures
        r == peek2_eq(toks@, i as int),
{
    i < toks.len() && is_punct_at(toks, skip_one_at(toks, i), '=')
}

pub fn peek3_paren_at(toks: &Vec<Token>, i: usize) -> (r: bool)
    ensures
        r == peek3_paren(toks@, i as int),
{
    if i < toks.len() {
        let j = skip_one_at(toks, i);
        if j < toks.len() {
            let k = skip_one_at(toks, j);
            k < toks.len() && matches!(
                toks[k],
                Token::Group { delimiter: GroupDelimiter::Parenthesis, .. }
            )
        } else {
            false
        }
    } else {
        false
    }
}

pub fn peek3_lt_at(toks: &Vec<Token>, i: usize) -> (r: bool)
    ensures
        r == peek3_lt(toks@, i as int),
{
    if i < toks.len() {
        let j = skip_one_at(toks, i);
        if j < toks.len() {
            is_punct_at(toks, skip_one_at(toks, j), '<')
        } else {
            false
        }
    } else {
        false
    }
}

pub fn peek_generic_open_at(toks: &Vec<Token>, i: usize) -> (r: bool)
    ensures
        r == peek_generic_open(toks@, i as int),
{
    let n = toks.len();
    if !is_punct_at(toks, i, '<') {
        return false;
    }
    if !is_joint_punct_at(toks, i, '<') || i + 1 >= toks.len() {
        return true;
    }
    if is_punct_at(toks, i + 1, '=') {
        return false;
    }
    !(is_joint_punct_at(toks, i + 1, '<') && i + 2 < toks.len() && is_punct_at(toks, i + 2, '='))
}

} // verus!
