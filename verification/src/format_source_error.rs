//! Human output of an error bound to a place in a source file.
//!
//! Fields taken: `file`, where the error occurred; `line` and `column`,
//! where in the file; `message`, what happened; `source_line`, the line of
//! the file when it is known; `error`, the underlying error when there is
//! one; and `report_id`.
use vstd::prelude::*;

use crate::format_results::{position_text, push_position, FieldError};
use crate::render::{
    decimal, decimal_text, prefix, prefixed, spaces, spaces_text, styled, styled_text, PaintStyle,
};
use crate::setup::FieldDetail;
use crate::text::same_text;

verus! {

/// Formats source errors at the given detail.
#[derive(Clone, Copy, Debug, PartialEq, Eq)]
pub struct SourceErrorFormatter(pub FieldDetail);

/// The fields of a source error event.
#[derive(Clone, Debug, PartialEq, Eq)]
pub struct FieldVisitor {
    pub file: Option<String>,
    pub line: Option<u64>,
    pub column: Option<u64>,
    pub source_line: Option<String>,
    pub report_id: Option<String>,
    pub error: Option<String>,
    pub message: Option<String>,
}

/// The names of the text fields a source error event carries.
pub open spec fn is_text_field(name: Seq<char>) -> bool {
    name == "file"@ || name == "source_line"@ || name == "error"@ || name == "message"@ || name
        == "report_id"@
}

impl FieldVisitor {
    /// No field recorded yet.
    pub fn default() -> (r: FieldVisitor)
        ensures
            r.file is None && r.line is None && r.column is None && r.source_line is None,
            r.report_id is None && r.error is None && r.message is None,
    {
        FieldVisitor {
            file: None,
            line: None,
            column: None,
            source_line: None,
            report_id: None,
            error: None,
            message: None,
        }
    }

    /// Records a text field: `file`, `source_line`, `error`, `message` or
    /// `report_id`. Any other name is an error that leaves the fields as
    /// they were.
    pub fn record_debug(&mut self, name: &str, value: String) -> (r: Result<(), FieldError>)
        ensures
            name@ == "file"@ ==> r is Ok && *final(self) == (FieldVisitor { file: Some(value), ..*old(self) }),
            name@ == "source_line"@ ==> r is Ok && *final(self) == (FieldVisitor { source_line: Some(value), ..*old(self) }),
            name@ == "error"@ ==> r is Ok && *final(self) == (FieldVisitor { error: Some(value), ..*old(self) }),
            name@ == "message"@ ==> r is Ok && *final(self) == (FieldVisitor { message: Some(value), ..*old(self) }),
            name@ == "report_id"@ ==> r is Ok && *final(self) == (FieldVisitor { report_id: Some(value), ..*old(self) }),
            !is_text_field(name@) ==> (r matches Err(FieldError::Unsupported(n)) && n@ == name@)
                && *final(self) == *old(self),
    {
        proof {
            reveal_strlit("file");
            reveal_strlit("source_line");
            reveal_strlit("error");
            reveal_strlit("message");
            reveal_strlit("report_id");
            assert("file"@.len() == 4 && "source_line"@.len() == 11 && "error"@.len() == 5);
            assert("message"@.len() == 7 && "report_id"@.len() == 9);
        }
        if same_text(name, "file") {
            self.file = Some(value);
        } else if same_text(name, "source_line") {
            self.source_line = Some(value);
        } else if same_text(name, "error") {
            self.error = Some(value);
        } else if same_text(name, "message") {
            self.message = Some(value);
        } else if same_text(name, "report_id") {
            self.report_id = Some(value);
        } else {
            return Err(FieldError::Unsupported(name.to_owned()));
        }
        Ok(())
    }

    /// Records a number field: `line` or `column`. Any other name is an
    /// error that leaves the fields as they were.
    pub fn record_u64(&mut self, name: &str, value: u64) -> (r: Result<(), FieldError>)
        ensures
            name@ == "line"@ ==> r is Ok && *final(self) == (FieldVisitor { line: Some(value), ..*old(self) }),
            name@ == "column"@ ==> r is Ok && *final(self) == (FieldVisitor { column: Some(value), ..*old(self) }),
            name@ != "line"@ && name@ != "column"@ ==> (r matches Err(FieldError::Unsupported(n))
                && n@ == name@) && *final(self) == *old(self),
    {
        proof {
            reveal_strlit("line");
            reveal_strlit("column");
            assert("line"@.len() == 4 && "column"@.len() == 6);
        }
        if same_text(name, "line") {
            self.line = Some(value);
        } else if same_text(name, "column") {
            self.column = Some(value);
        } else {
            return Err(FieldError::Unsupported(name.to_owned()));
        }
        Ok(())
    }
}

/// `: error` when there is an error, nothing otherwise.
pub open spec fn error_suffix(error: Option<String>) -> Seq<char> {
    match error {
        Some(e) => ": "@ + e@,
        None => Seq::empty(),
    }
}

/// The text a source error event is written as: nothing without its file,
/// line, column and message. In full detail with the source line known:
/// the message and error; the position after an arrow; the source line
/// numbered between two blank gutter lines; a caret under the column; and
/// a last gutter. Otherwise `file:line:column: message`, then `: error`
/// when there is one.
pub open spec fn source_error_text(detail: FieldDetail, v: FieldVisitor, is_ansi: bool) -> Seq<char> {
    match (v.file, v.line, v.column, v.message) {
        (Some(file), Some(line), Some(column), Some(message)) => match (detail, v.source_line) {
            (FieldDetail::Full, Some(source_line)) => {
                let number = decimal_text(line as nat);
                let white = prefixed(is_ansi, " "@ + spaces_text(number.len()) + " | "@);
                message@ + error_suffix(v.error) + "\n"@ + prefixed(is_ansi, "  --> "@)
                    + position_text(file@, line, column) + "\n"@ + white + "\n"@ + prefixed(
                    is_ansi,
                    " "@ + number + " | "@,
                ) + source_line@ + "\n"@ + white + spaces_text(column as nat) + styled_text(
                    is_ansi,
                    "^"@,
                    PaintStyle::LightYellowBold,
                ) + "\n"@ + white
            },
            _ => position_text(file@, line, column) + ": "@ + message@ + error_suffix(v.error),
        },
        _ => Seq::empty(),
    }
}

/// In full detail, the blank gutter lines are exactly as wide as the
/// numbered one, so the caret stands under the source character at the
/// column: the text ends with the numbered source line, then a line with
/// as many blanks before `| ` as the numbered gutter has before its `| `,
/// `column` more blanks and the caret, then that blank gutter again.
pub proof fn law_caret_stands_under_the_column(v: FieldVisitor)
    requires
        v.file is Some,
        v.line is Some,
        v.column is Some,
        v.message is Some,
        v.source_line is Some,
    ensures
        ({
            let numbered = " "@ + decimal_text(v.line->Some_0 as nat) + " | "@;
            let blank = spaces_text((numbered.len() - 2) as nat) + "| "@;
            let tail = numbered + v.source_line->Some_0@ + "\n"@ + blank + spaces_text(
                v.column->Some_0 as nat,
            ) + "^"@ + "\n"@ + blank;
            let t = source_error_text(FieldDetail::Full, v, false);
            &&& tail.len() <= t.len()
            &&& t.skip(t.len() - tail.len()) == tail
        }),
{
    reveal_strlit(" ");
    reveal_strlit(" | ");
    reveal_strlit("| ");
    let number = decimal_text(v.line->Some_0 as nat);
    let numbered = " "@ + number + " | "@;
    let blank = spaces_text((numbered.len() - 2) as nat) + "| "@;
    let white = " "@ + spaces_text(number.len()) + " | "@;
    assert(white =~= blank);
    let tail = numbered + v.source_line->Some_0@ + "\n"@ + blank + spaces_text(
        v.column->Some_0 as nat,
    ) + "^"@ + "\n"@ + blank;
    let t = source_error_text(FieldDetail::Full, v, false);
    let head = v.message->Some_0@ + error_suffix(v.error) + "\n"@ + "  --> "@ + position_text(
        v.file->Some_0@,
        v.line->Some_0,
        v.column->Some_0,
    ) + "\n"@ + white + "\n"@;
    assert(t =~= head + tail);
    assert(t.skip(t.len() - tail.len()) =~= tail);
}

impl SourceErrorFormatter {
    pub fn new(detail: FieldDetail) -> (r: Self)
        ensures
            r.0 == detail,
    {
        SourceErrorFormatter(detail)
    }

    /// The text a source error event with these fields is written as;
    /// `is_ansi` tells whether the output takes colours.
    /// The column is written one-based, so when every field is there it
    /// must be below `u64::MAX`.
    pub fn format_fields(&self, v: &FieldVisitor, is_ansi: bool) -> (r: String)
        requires
            v.file is Some && v.line is Some && v.message is Some && v.column is Some
                ==> v.column->Some_0 < u64::MAX,
        ensures
            r@ == source_error_text(self.0, *v, is_ansi),
    {
        let mut out = String::new();
        let (file, line, column, message) = match (&v.file, v.line, v.column, &v.message) {
            (Some(f), Some(l), Some(c), Some(m)) => (f, l, c, m),
            _ => {
                return out;
            },
        };
        let full = match (self.0, &v.source_line) {
            (FieldDetail::Full, Some(source_line)) => Some(source_line),
            _ => None,
        };
        match full {
            Some(source_line) => {
                let number = decimal(line);
                let width = number.unicode_len();
                let mut white_text = " ".to_owned();
                let gap = spaces(width as u64);
                white_text.append(gap.as_str());
                white_text.append(" | ");
                let white = prefix(is_ansi, white_text.as_str());
                let mut line_text = " ".to_owned();
                line_text.append(number.as_str());
                line_text.append(" | ");
                let line_prefix = prefix(is_ansi, line_text.as_str());
                out.append(message.as_str());
                match &v.error {
                    Some(e) => {
                        out.append(": ");
                        out.append(e.as_str());
                    },
                    None => {},
                }
                out.append("\n");
                let p = prefix(is_ansi, "  --> ");
                out.append(p.as_str());
                push_position(&mut out, file.as_str(), line, column);
                out.append("\n");
                out.append(white.as_str());
                out.append("\n");
                out.append(line_prefix.as_str());
                out.append(source_line.as_str());
                out.append("\n");
                out.append(white.as_str());
                let caret_gap = spaces(column);
                out.append(caret_gap.as_str());
                let caret = styled(is_ansi, "^", PaintStyle::LightYellowBold);
                out.append(caret.as_str());
                out.append("\n");
                out.append(white.as_str());
            },
            None => {
                push_position(&mut out, file.as_str(), line, column);
                out.append(": ");
                out.append(message.as_str());
                match &v.error {
                    Some(e) => {
                        out.append(": ");
                        out.append(e.as_str());
                    },
                    None => {},
                }
            },
        }
        assert(out@ =~= source_error_text(self.0, *v, is_ansi));
        out
    }
}

} // verus!
