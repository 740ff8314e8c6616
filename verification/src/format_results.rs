//! Human output of a report: the fields a report event carries, and the
//! text they are written as.
use vstd::prelude::*;

use crate::elements::texts;
use crate::outside::{from_json_strings, json_string_array, json_string_array_value};
use crate::render::{decimal, decimal_text, prefix, prefixed};
use crate::setup::FieldDetail;
use crate::text::same_text;

verus! {

/// Formats report events at the given detail.
#[derive(Clone, Copy, Debug, PartialEq, Eq)]
pub struct ResultFormatter(pub FieldDetail);

/// A field an event carries that a formatter does not take.
#[derive(Clone, Debug, PartialEq, Eq)]
pub enum FieldError {
    /// A field of this name is not supported.
    Unsupported(String),
    /// The `see_also` field is not a JSON list of strings.
    NotStringList,
}

/// The fields of a report event.
#[derive(Clone, Debug, PartialEq, Eq)]
pub struct FieldVisitor {
    pub file: Option<String>,
    pub line: Option<u64>,
    pub column: Option<u64>,
    pub reason: Option<String>,
    pub see_also: Vec<String>,
    pub report_id: Option<String>,
    pub info: Option<String>,
    pub message: Option<String>,
}

impl FieldVisitor {
    /// No field recorded yet.
    pub fn default() -> (r: FieldVisitor)
        ensures
            r.file is None && r.line is None && r.column is None && r.reason is None,
            r.see_also@.len() == 0,
            r.report_id is None && r.info is None && r.message is None,
    {
        FieldVisitor {
            file: None,
            line: None,
            column: None,
            reason: None,
            see_also: Vec::new(),
            report_id: None,
            info: None,
            message: None,
        }
    }

    /// Records a text field: `file`, `report_id`, `info`, `reason`,
    /// `message`, or `see_also`, which is read as a JSON list of strings.
    /// Any other name, or a `see_also` that is no such list, is an error
    /// that leaves the fields as they were.
    pub fn record_debug(&mut self, name: &str, value: String) -> (r: Result<(), FieldError>)
        ensures
            name@ == "file"@ ==> r is Ok && *final(self) == (FieldVisitor { file: Some(value), ..*old(self) }),
            name@ == "report_id"@ ==> r is Ok && *final(self) == (FieldVisitor { report_id: Some(value), ..*old(self) }),
            name@ == "info"@ ==> r is Ok && *final(self) == (FieldVisitor { info: Some(value), ..*old(self) }),
            name@ == "reason"@ ==> r is Ok && *final(self) == (FieldVisitor { reason: Some(value), ..*old(self) }),
            name@ == "message"@ ==> r is Ok && *final(self) == (FieldVisitor { message: Some(value), ..*old(self) }),
            name@ == "see_also"@ ==> match json_string_array_value(value@) {
                Some(items) => r is Ok && texts(final(self).see_also@) == items
                    && *final(self) == (FieldVisitor { see_also: final(self).see_also, ..*old(self) }),
                None => r == Err::<(), FieldError>(FieldError::NotStringList) && *final(self) == *old(self),
            },
            name@ == "see_also"@ ==> forall|items: Seq<Seq<char>>|
                value@ == #[trigger] json_string_array(items) ==> texts(final(self).see_also@) == items,
            !is_text_field(name@) ==> (r matches Err(FieldError::Unsupported(n)) && n@ == name@)
                && *final(self) == *old(self),
    {
        proof {
            reveal_strlit("file");
            reveal_strlit("report_id");
            reveal_strlit("info");
            reveal_strlit("reason");
            reveal_strlit("message");
            reveal_strlit("see_also");
            assert("file"@.len() == 4 && "report_id"@.len() == 9 && "info"@.len() == 4);
            assert("reason"@.len() == 6 && "message"@.len() == 7 && "see_also"@.len() == 8);
            assert("file"@[0] == 'f' && "info"@[0] == 'i');
        }
        if same_text(name, "file") {
            self.file = Some(value);
        } else if same_text(name, "report_id") {
            self.report_id = Some(value);
        } else if same_text(name, "info") {
            self.info = Some(value);
        } else if same_text(name, "reason") {
            self.reason = Some(value);
        } else if same_text(name, "message") {
            self.message = Some(value);
        } else if same_text(name, "see_also") {
            match from_json_strings(value.as_str()) {
                Some(items) => {
                    self.see_also = items;
                },
                None => {
                    return Err(FieldError::NotStringList);
                },
            }
        } else {
            return Err(FieldError::Unsupported(name.to_owned()));
        }
        Ok(())
    }

    /// Records a number field: `line` or `column`. Any other name is an
    /// error that leaves the fields as they were.
    pub fn record_u64(&mut self, name: &str, value: u64) -> (r: Result<(), FieldError>)
        ensures
            name@ == "line"@ ==> r is Ok && *final(self) == (FieldVisitor { line: Some(value), ..*old(self) }),
            name@ == "column"@ ==> r is Ok && *final(self) == (FieldVisitor { column: Some(value), ..*old(self) }),
            name@ != "line"@ && name@ != "column"@ ==> (r matches Err(FieldError::Unsupported(n))
                && n@ == name@) && *final(self) == *old(self),
    {
        proof {
            reveal_strlit("line");
            reveal_strlit("column");
            assert("line"@.len() == 4 && "column"@.len() == 6);
        }
        if same_text(name, "line") {
            self.line = Some(value);
        } else if same_text(name, "column") {
            self.column = Some(value);
        } else {
            return Err(FieldError::Unsupported(name.to_owned()));
        }
        Ok(())
    }
}

/// The names of the text fields a report event carries.
pub open spec fn is_text_field(name: Seq<char>) -> bool {
    name == "file"@ || name == "report_id"@ || name == "info"@ || name == "see_also"@ || name
        == "reason"@ || name == "message"@
}

/// `file:line:column`, the column counted from 1.
pub open spec fn position_text(file: Seq<char>, line: u64, column: u64) -> Seq<char> {
    file + ":"@ + decimal_text(line as nat) + ":"@ + decimal_text((column + 1) as nat)
}

/// One `see also` line for each item, each after a line break.
pub open spec fn see_also_lines(is_ansi: bool, items: Seq<Seq<char>>) -> Seq<char>
    decreases items.len(),
{
    if items.len() == 0 {
        Seq::empty()
    } else {
        see_also_lines(is_ansi, items.drop_last()) + "\n"@ + prefixed(is_ansi, "  = see also: "@)
            + items.last()
    }
}

/// The text a report event is written as: nothing without its file, line,
/// column, reason and message. In full detail, the message; the position
/// after an arrow; the reason; a line for each `see also`; the info unless
/// it is empty; and, with a report id, how to have it explained. In
/// compact detail, `file:line:column: message: reason`.
pub open spec fn result_text(detail: FieldDetail, v: FieldVisitor, is_ansi: bool) -> Seq<char> {
    match (v.file, v.line, v.column, v.reason, v.message) {
        (Some(file), Some(line), Some(column), Some(reason), Some(message)) => match detail {
            FieldDetail::Full => message@ + "\n"@ + prefixed(is_ansi, "  --> "@) + position_text(
                file@,
                line,
                column,
            ) + "\n"@ + prefixed(is_ansi, "  = reason: "@) + reason@ + see_also_lines(
                is_ansi,
                texts(v.see_also@),
            ) + match v.info {
                Some(info) => if info@.len() > 0 {
                    "\n"@ + prefixed(is_ansi, "  = info: "@) + info@
                } else {
                    Seq::empty()
                },
                None => Seq::empty(),
            } + match v.report_id {
                Some(id) => "\n"@ + prefixed(is_ansi, "  = help: "@)
                    + "for further information run `cargo scholium explain "@ + id@ + "`"@,
                None => Seq::empty(),
            },
            FieldDetail::Compact => position_text(file@, line, column) + ": "@ + message@ + ": "@
                + reason@,
        },
        _ => Seq::empty(),
    }
}

/// Appends `file:line:column`, the column counted from 1.
pub fn push_position(out: &mut String, file: &str, line: u64, column: u64)
    requires
        column < u64::MAX,
    ensures
        final(out)@ == old(out)@ + position_text(file@, line, column),
{
    out.append(file);
    out.append(":");
    let l = decimal(line);
    out.append(l.as_str());
    out.append(":");
    let c = decimal(column + 1);
    out.append(c.as_str());
}

impl ResultFormatter {
    pub fn new(detail: FieldDetail) -> (r: Self)
        ensures
            r.0 == detail,
    {
        ResultFormatter(detail)
    }

    /// The text a report event with these fields is written as;
    /// `is_ansi` tells whether the output takes colours.
    /// The column is written one-based, so when every field is there it
    /// must be below `u64::MAX`.
    pub fn format_fields(&self, v: &FieldVisitor, is_ansi: bool) -> (r: String)
        requires
            v.file is Some && v.line is Some && v.reason is Some && v.message is Some && v.column
                is Some ==> v.column->Some_0 < u64::MAX,
        ensures
            r@ == result_text(self.0, *v, is_ansi),
    {
        let mut out = String::new();
        let (file, line, column, reason, message) = match (&v.file, v.line, v.column, &v.reason, &v.message) {
            (Some(f), Some(l), Some(c), Some(r), Some(m)) => (f, l, c, r, m),
            _ => {
                return out;
            },
        };
        match self.0 {
            FieldDetail::Full => {
                out.append(message.as_str());
                out.append("\n");
                let p = prefix(is_ansi, "  --> ");
                out.append(p.as_str());
                push_position(&mut out, file.as_str(), line, column);
                out.append("\n");
                let p = prefix(is_ansi, "  = reason: ");
                out.append(p.as_str());
                out.append(reason.as_str());
                let ghost head = out@;
                let n = v.see_also.len();
                let mut i: usize = 0;
                while i < n
                    invariant
                        n == v.see_also@.len(),
                        i <= n,
                        out@ == head + see_also_lines(is_ansi, texts(v.see_also@).take(i as int)),
                    decreases n - i,
                {
                    out.append("\n");
                    let p = prefix(is_ansi, "  = see also: ");
                    out.append(p.as_str());
                    out.append(v.see_also[i].as_str());
                    proof {
                        let items = texts(v.see_also@).take(i + 1);
                        assert(items.drop_last() =~= texts(v.see_also@).take(i as int));
                        assert(items.last() == v.see_also@[i as int]@);
                    }
                    i = i + 1;
                }
                assert(texts(v.see_also@).take(n as int) =~= texts(v.see_also@));
                match &v.info {
                    Some(info) => {
                        if info.unicode_len() > 0 {
                            out.append("\n");
                            let p = prefix(is_ansi, "  = info: ");
                            out.append(p.as_str());
                            out.append(info.as_str());
                        }
                    },
                    None => {},
                }
                match &v.report_id {
                    Some(id) => {
                        out.append("\n");
                        let p = prefix(is_ansi, "  = help: ");
                        out.append(p.as_str());
                        out.append("for further information run `cargo scholium explain ");
                        out.append(id.as_str());
                        out.append("`");
                    },
                    None => {},
                }
            },
            FieldDetail::Compact => {
                push_position(&mut out, file.as_str(), line, column);
                out.append(": ");
                out.append(message.as_str());
                out.append(": ");
                out.append(reason.as_str());
            },
        }
        assert(out@ =~= result_text(self.0, *v, is_ansi));
        out
    }
}

} // verus!
