//! Calls into outside crates, each with the contract this library relies on.
use vstd::prelude::*;

use crate::elements::texts;
use crate::packages::{component_views, PathComponent};
use crate::render::PaintStyle;
use crate::reports::{AttributeArguments, FileAttribute, SourceFailure};
use crate::tokens::{GroupDelimiter, LineColumn, PunctSpacing, SpanRange, Token};

verus! {

/// The value of a Rust string literal written as `text` (its escapes
/// resolved, any suffix dropped), or nothing when `text` is not a string
/// literal. Defined by `syn`'s literal rules.
pub uninterp spec fn string_literal_value(text: Seq<char>) -> Option<Seq<char>>;

/// `syn::parse_str::<syn::LitStr>` followed by `LitStr::value`. Claimed:
/// the result is `string_literal_value` of the text, a function of the text
/// alone.
#[verifier::external_body]
pub(crate) fn lit_str_value(text: &str) -> (r: Option<String>)
    ensures
        match r {
            Some(v) => string_literal_value(text@) == Some(v@),
            None => string_literal_value(text@) is None,
        },
{
    match syn::parse_str::<syn::LitStr>(text) {
        Ok(lit) => Some(lit.value()),
        Err(_) => None,
    }
}

#[verifier::external_type_specification]
#[verifier::external_body]
pub struct ExTokenStream(proc_macro2::TokenStream);

#[verifier::external_type_specification]
#[verifier::external_body]
pub struct ExTokenTree(proc_macro2::TokenTree);

#[verifier::external_type_specification]
#[verifier::external_body]
pub struct ExSpan(proc_macro2::Span);

#[verifier::external_type_specification]
#[verifier::external_body]
pub struct ExSpacing(proc_macro2::Spacing);

#[verifier::external_type_specification]
#[verifier::external_body]
pub struct ExDelimiter(proc_macro2::Delimiter);

/// The top-level token trees of a `proc_macro2::TokenStream`, in order
/// (`IntoIterator::into_iter` collected). Nothing is claimed of them.
#[verifier::external_body]
pub(crate) fn token_trees(stream: proc_macro2::TokenStream) -> Vec<proc_macro2::TokenTree> {
    stream.into_iter().collect()
}

/// The start and end of a `proc_macro2::Span` (`Span::start`, `Span::end`).
/// Nothing is claimed of the positions.
#[verifier::external_body]
pub(crate) fn span_range(span: &proc_macro2::Span) -> SpanRange {
    let (start, end) = (span.start(), span.end());
    SpanRange {
        start: LineColumn { line: start.line, column: start.column },
        end: LineColumn { line: end.line, column: end.column },
    }
}

/// The range of `proc_macro2::Span::call_site()`. Nothing is claimed of it.
#[verifier::external_body]
pub(crate) fn call_site_span() -> SpanRange {
    span_range(&proc_macro2::Span::call_site())
}

/// `proc_macro2::Spacing` as this library's `PunctSpacing`, variant for variant.
#[verifier::external_body]
pub(crate) fn spacing_of(spacing: proc_macro2::Spacing) -> PunctSpacing {
    match spacing {
        proc_macro2::Spacing::Alone => PunctSpacing::Alone,
        proc_macro2::Spacing::Joint => PunctSpacing::Joint,
    }
}

/// `proc_macro2::Delimiter` as this library's `GroupDelimiter`, variant for variant.
#[verifier::external_body]
pub(crate) fn delimiter_of(delimiter: proc_macro2::Delimiter) -> GroupDelimiter {
    match delimiter {
        proc_macro2::Delimiter::Parenthesis => GroupDelimiter::Parenthesis,
        proc_macro2::Delimiter::Brace => GroupDelimiter::Brace,
        proc_macro2::Delimiter::Bracket => GroupDelimiter::Bracket,
        proc_macro2::Delimiter::None => GroupDelimiter::Invisible,
    }
}

/// One `proc_macro2::TokenTree` as a `Token`: the text of an identifier or
/// literal is its `to_string()`, a punctuation keeps `as_char()` and
/// `spacing()`, a group keeps its delimiter and spans. Nothing is claimed of
/// the values.
#[verifier::external_body]
pub(crate) fn token_of(tree: &proc_macro2::TokenTree) -> Token {
    match tree {
        proc_macro2::TokenTree::Ident(i) => Token::Ident { text: i.to_string(), span: span_range(&i.span()) },
        proc_macro2::TokenTree::Literal(l) => Token::Literal { text: l.to_string(), span: span_range(&l.span()) },
        proc_macro2::TokenTree::Punct(p) => {
            Token::Punct { ch: p.as_char(), spacing: spacing_of(p.spacing()), span: span_range(&p.span()) }
        },
        proc_macro2::TokenTree::Group(g) => Token::Group {
            delimiter: delimiter_of(g.delimiter()),
            span: span_range(&g.span()),
            open: span_range(&g.span_open()),
            close: span_range(&g.span_close()),
        },
    }
}

/// Whether `c` has the Unicode property XID_Start, as `unicode-ident`
/// tabulates it.
pub uninterp spec fn xid_start(c: char) -> bool;

/// Whether `c` has the Unicode property XID_Continue, as `unicode-ident`
/// tabulates it.
pub uninterp spec fn xid_continue(c: char) -> bool;

pub open spec fn is_ascii_letter(c: char) -> bool {
    ('a' <= c && c <= 'z') || ('A' <= c && c <= 'Z')
}

pub open spec fn is_ascii_digit(c: char) -> bool {
    '0' <= c && c <= '9'
}

/// `unicode_ident::is_xid_start`. Claimed: the result is `xid_start(c)`;
/// among ASCII characters exactly the letters qualify (its `ASCII_START`
/// table).
#[verifier::external_body]
pub(crate) fn is_xid_start(c: char) -> (r: bool)
    ensures
        r == xid_start(c),
        (c as u32) < 128 ==> (r <==> is_ascii_letter(c)),
{
    unicode_ident::is_xid_start(c)
}

/// `unicode_ident::is_xid_continue`. Claimed: the result is
/// `xid_continue(c)`; among ASCII characters exactly letters, digits and `_`
/// qualify (its `ASCII_CONTINUE` table).
#[verifier::external_body]
pub(crate) fn is_xid_continue(c: char) -> (r: bool)
    ensures
        r == xid_continue(c),
        (c as u32) < 128 ==> (r <==> (is_ascii_letter(c) || is_ascii_digit(c) || c == '_')),
{
    unicode_ident::is_xid_continue(c)
}

/// Rust's `Debug` rendering of a string: quoted, with escapes.
pub uninterp spec fn debug_quoted(s: Seq<char>) -> Seq<char>;

/// `format!("{:?}", s)` for a `str`. Claimed: the result is
/// `debug_quoted(s)`, a function of the text alone.
#[verifier::external_body]
pub(crate) fn debug_text(s: &str) -> (r: String)
    ensures
        r@ == debug_quoted(s@),
{
    format!("{:?}", s)
}

#[verifier::external_type_specification]
#[verifier::external_body]
pub struct ExAttribute(syn::Attribute);

#[verifier::external_type_specification]
#[verifier::external_body]
pub struct ExSynError(syn::Error);

/// A lower-case hexadecimal digit for `n` in `0..16`.
pub open spec fn hex_digit(n: int) -> char {
    if n < 10 {
        (n + 48) as char
    } else {
        (n + 87) as char
    }
}

/// How a JSON string writes one character: `"` and `\` behind a
/// backslash, backspace, tab, line feed, form feed and carriage return as
/// `\b`, `\t`, `\n`, `\f`, `\r`, other control characters below
/// `0x20` as `\u00` and two hexadecimal digits, anything else as it is.
pub open spec fn json_escaped_char(c: char) -> Seq<char> {
    let n = c as int;
    if c == '"' {
        seq!['\\', '"']
    } else if c == '\\' {
        seq!['\\', '\\']
    } else if n == 8 {
        seq!['\\', 'b']
    } else if n == 9 {
        seq!['\\', 't']
    } else if n == 10 {
        seq!['\\', 'n']
    } else if n == 12 {
        seq!['\\', 'f']
    } else if n == 13 {
        seq!['\\', 'r']
    } else if n < 32 {
        seq!['\\', 'u', '0', '0', hex_digit(n / 16), hex_digit(n % 16)]
    } else {
        seq![c]
    }
}

/// The characters of `s`, each as a JSON string writes it.
pub open spec fn json_escaped(s: Seq<char>) -> Seq<char>
    decreases s.len(),
{
    if s.len() == 0 {
        Seq::empty()
    } else {
        json_escaped(s.drop_last()) + json_escaped_char(s.last())
    }
}

/// The first `n` strings of `items`, each quoted and escaped, separated by
/// commas.
pub open spec fn json_string_list(items: Seq<Seq<char>>, n: int) -> Seq<char>
    decreases n,
{
    if n <= 0 {
        Seq::empty()
    } else {
        json_string_list(items, n - 1) + (if n > 1 {
            seq![',']
        } else {
            Seq::empty()
        }) + seq!['"'] + json_escaped(items[n - 1]) + seq!['"']
    }
}

/// The JSON text `serde_json::to_string` writes for a list of strings: the
/// strings, quoted and escaped, separated by commas, in square brackets,
/// with no spaces.
pub open spec fn json_string_array(items: Seq<Seq<char>>) -> Seq<char> {
    seq!['['] + json_string_list(items, items.len() as int) + seq![']']
}

/// The strings of a JSON text that is an array of strings, as
/// `serde_json::from_str::<Vec<String>>` reads them; nothing for any other
/// text.
pub uninterp spec fn json_string_array_value(text: Seq<char>) -> Option<Seq<Seq<char>>>;

/// `serde_json::to_string` on a list of strings, which cannot fail for
/// strings. Claimed: the result is `json_string_array` of the strings, as
/// serde_json's compact formatter and its escape table write them.
#[verifier::external_body]
pub(crate) fn to_json_strings(items: &Vec<String>) -> (r: String)
    ensures
        r@ == json_string_array(texts(items@)),
{
    serde_json::to_string(items).expect("Vec<String> must be serializable to json")
}

/// `serde_json::from_str::<Vec<String>>`. Claimed: the result is
/// `json_string_array_value` of the text, and a text that `to_json_strings`
/// wrote for some strings reads back as those strings.
#[verifier::external_body]
pub(crate) fn from_json_strings(text: &str) -> (r: Option<Vec<String>>)
    ensures
        match r {
            Some(v) => json_string_array_value(text@) == Some(texts(v@)),
            None => json_string_array_value(text@) is None,
        },
        forall|items: Seq<Seq<char>>|
            text@ == #[trigger] json_string_array(items) ==> r is Some && texts(r->Some_0@) == items,
{
    serde_json::from_str::<Vec<String>>(text).ok()
}

/// The escape sequence that starts text in `style`: bold (`1`), then the
/// foreground colour (`94` light blue, `93` light yellow).
pub open spec fn style_prefix(style: PaintStyle) -> Seq<char> {
    match style {
        PaintStyle::LightBlueBold => "\x1b[1;94m"@,
        PaintStyle::LightYellowBold => "\x1b[1;93m"@,
    }
}

/// The text `nu_ansi_term` writes for `text` painted in `style`: the
/// style's escape sequence, the text, and the reset sequence.
pub open spec fn painted(style: PaintStyle, text: Seq<char>) -> Seq<char> {
    style_prefix(style) + text + "\x1b[0m"@
}

/// `nu_ansi_term::Style::paint`, written out with `to_string()`, in
/// `Color::LightBlue.bold()` or `Color::LightYellow.bold()` as `style` says.
/// Claimed, as its `Display` writes it: the style's prefix, the text, then
/// the reset sequence (`painted`).
#[verifier::external_body]
pub(crate) fn paint(style: PaintStyle, text: &str) -> (r: String)
    ensures
        r@ == painted(style, text@),
{
    let style = match style {
        PaintStyle::LightBlueBold => nu_ansi_term::Color::LightBlue.bold(),
        PaintStyle::LightYellowBold => nu_ansi_term::Color::LightYellow.bold(),
    };
    style.paint(text).to_string()
}

/// `std::path::Path::parent` of a path given as text, as text. How a path
/// splits depends on the platform only through `\`, prefixes such as `C:`
/// and a leading `//`. Claimed on every platform: the parent is the path
/// without its final component, so a proper prefix of the text
/// (`Components::as_path` is a slice of it); it is `None` only for an empty
/// path or one that ends in a root or prefix, so a path that ends in an
/// ordinary name has one; and for a portable path (plain names joined by
/// single `/`) it is the text before the last `/`, the root when that `/`
/// leads, or the empty path when there is none.
#[verifier::external_body]
pub(crate) fn path_parent(path: &str) -> (r: Option<String>)
    ensures
        r matches Some(p) ==> p@.len() < path@.len() && path@.take(p@.len() as int) == p@,
        crate::packages::ends_in_name(path@) ==> r is Some,
        crate::packages::portable_path(path@) ==> (r is Some && r->Some_0@
            == crate::packages::portable_parent(path@)),
{
    std::path::Path::new(path).parent().map(|parent| parent.to_string_lossy().into_owned())
}

/// The components of a path given as text (`std::path::Path::components`),
/// each told apart by its kind, with the text of prefixes and names.
/// Claimed for the empty path, the root alone and portable paths, which
/// split the same way on every platform: the root for a leading `/`, then
/// each name. Nothing is claimed of other paths.
#[verifier::external_body]
pub(crate) fn path_components(path: &str) -> (r: Vec<PathComponent>)
    ensures
        crate::packages::simple_path(path@) ==> component_views(r@) == crate::packages::simple_components(path@),
{
    std::path::Path::new(path).components().map(|component| match component {
        std::path::Component::Prefix(p) => PathComponent::Prefix(p.as_os_str().to_string_lossy().into_owned()),
        std::path::Component::RootDir => PathComponent::RootDir,
        std::path::Component::CurDir => PathComponent::CurDir,
        std::path::Component::ParentDir => PathComponent::ParentDir,
        std::path::Component::Normal(n) => PathComponent::Normal(n.to_string_lossy().into_owned()),
    }).collect()
}

#[verifier::external_type_specification]
#[verifier::external_body]
#[verifier::reject_recursive_types(T)]
#[verifier::reject_recursive_types(S)]
pub struct ExIndexSet<T, S>(indexmap::IndexSet<T, S>);

/// The items of a set of path components, in insertion order.
pub uninterp spec fn component_set_items(set: indexmap::IndexSet<Vec<String>>) -> Seq<Seq<Seq<char>>>;

/// `indexmap::IndexSet::new`. Claimed: the set is empty.
#[verifier::external_body]
pub(crate) fn new_component_set() -> (set: indexmap::IndexSet<Vec<String>>)
    ensures
        component_set_items(set) == Seq::<Seq<Seq<char>>>::empty(),
{
    indexmap::IndexSet::new()
}

/// `indexmap::IndexSet::insert`. Claimed, as its documentation says: when
/// an equal item (equal strings, in order) is already in the set, nothing
/// changes and the result is `false`; otherwise the item is added last and
/// the result is `true`.
#[verifier::external_body]
pub(crate) fn component_set_insert(set: &mut indexmap::IndexSet<Vec<String>>, item: Vec<String>) -> (added: bool)
    ensures
        added == !component_set_items(*old(set)).contains(texts(item@)),
        component_set_items(*final(set)) == if added {
            component_set_items(*old(set)).push(texts(item@))
        } else {
            component_set_items(*old(set))
        },
{
    set.insert(item)
}

/// Where a `syn::Error` starts (`Error::span`, then `Span::start`) and its
/// message (`to_string()`), as the syntax-tree walk records them.
#[verifier::external_body]
fn failure_of(error: &syn::Error) -> SourceFailure {
    let start = error.span().start();
    SourceFailure { location: LineColumn { line: start.line, column: start.column }, message: error.to_string() }
}

/// Collects the attributes a syntax-tree walk meets, in order, as plain
/// values.
struct AttributeCollector {
    attributes: Vec<FileAttribute>,
}

impl<'ast> syn::visit::Visit<'ast> for AttributeCollector {
    /// Records the attribute: its path segments (`Attribute::path`, each
    /// identifier's `to_string()`) and, for `path(...)`, its tokens, the span
    /// of the closing delimiter and the call site; for any other form the
    /// error `Attribute::parse_args` gives. Then walks on into it
    /// (`syn::visit::visit_attribute`).
    #[verifier::external_body]
    fn visit_attribute(&mut self, i: &'ast syn::Attribute) {
        let arguments = match &i.meta {
            syn::Meta::List(list) => Ok(AttributeArguments {
                tokens: list.tokens.clone().into_iter().map(|tree| token_of(&tree)).collect(),
                scope: span_range(&list.delimiter.span().close()),
                call_site: call_site_span(),
            }),
            _ => Err(failure_of(&i.parse_args::<proc_macro2::TokenStream>().unwrap_err())),
        };
        let path = i.path().segments.iter().map(|segment| segment.ident.to_string()).collect();
        self.attributes.push(FileAttribute { path, arguments });
        syn::visit::visit_attribute(self, i);
    }
}

/// What `syn::parse_file` and a `syn::visit::Visit` walk give for a Rust
/// source text: each attribute met, in order, as plain values, or the parse
/// error. Positions are counted within the text, so this is a function of
/// the text alone.
pub uninterp spec fn rust_file_attributes(content: Seq<char>) -> Result<Seq<FileAttribute>, SourceFailure>;

/// `syn::parse_file`, then the attributes that a `syn::visit::Visit` walk of
/// the file meets, in order, recorded as plain values. Claimed: the result
/// is `rust_file_attributes` of the text.
#[verifier::external_body]
pub(crate) fn file_attributes(content: &str) -> (r: Result<Vec<FileAttribute>, SourceFailure>)
    ensures
        match r {
            Ok(v) => rust_file_attributes(content@) == Ok::<Seq<FileAttribute>, SourceFailure>(v@),
            Err(f) => rust_file_attributes(content@) == Err::<Seq<FileAttribute>, SourceFailure>(f),
        },
{
    match syn::parse_file(content) {
        Ok(file) => {
            let mut collector = AttributeCollector { attributes: Vec::new() };
            syn::visit::Visit::visit_file(&mut collector, &file);
            Ok(collector.attributes)
        },
        Err(error) => Err(failure_of(&error)),
    }
}

} // verus!
