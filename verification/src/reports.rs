//! From parsed `scholium::mark` attributes to the reports of one file:
//! collecting the report ids a file marks, and deciding, for each of them,
//! what is reported and at which severity.
use vstd::prelude::*;

use crate::arguments::{
    parse_arguments, severity_name, spec_parse_arguments, Arguments, ArgumentsModel,
    ReportIdModel as MarkIdModel,
};
use crate::config::ReportDefinition;
use crate::elements::{texts, ErrorModel, MarkError};
use crate::outside::{file_attributes, json_string_array, rust_file_attributes, to_json_strings};
use crate::tokens::{SpanRange, Token};
use crate::ident::{
    severity_text, spec_report_id_from_parts, spec_severity_from_mark, ReportId, ReportIdError,
    ReportIdErrorModel, ReportIdKey, Severity,
};
use crate::text::{chars_of, same_text, string_of};
use crate::tokens::LineColumn;

verus! {

/// The index of the first `\n` in `s` at or after `from`.
pub open spec fn first_newline(s: Seq<char>, from: int) -> Option<int>
    decreases s.len() - from,
{
    if from < 0 || from >= s.len() {
        None
    } else if s[from] == '\n' {
        Some(from)
    } else {
        first_newline(s, from + 1)
    }
}

/// A line that ended in `\n`, without a `\r` just before it.
pub open spec fn strip_cr(line: Seq<char>) -> Seq<char> {
    if line.len() > 0 && line.last() == '\r' {
        line.drop_last()
    } else {
        line
    }
}

/// The lines of `s` as `str::lines` gives them: split at each `\n`, a `\r`
/// just before a `\n` dropped, and no empty line after a final `\n`.
pub open spec fn text_lines(s: Seq<char>) -> Seq<Seq<char>>
    decreases s.len(),
{
    if s.len() == 0 {
        Seq::empty()
    } else {
        match first_newline(s, 0) {
            Some(i) => if 0 <= i < s.len() {
                seq![strip_cr(s.take(i))] + text_lines(s.skip(i + 1))
            } else {
                Seq::empty()
            },
            None => seq![s],
        }
    }
}

proof fn lemma_first_newline_in_range(s: Seq<char>, from: int)
    ensures
        first_newline(s, from) matches Some(i) ==> from <= i < s.len() && s[i] == '\n' && forall|
            k: int,
        | from <= k < i ==> s[k] != '\n',
    decreases s.len() - from,
{
    if from >= 0 && from < s.len() && s[from] != '\n' {
        lemma_first_newline_in_range(s, from + 1);
    }
}

/// Line `line` (counted from 1) of `s`; empty when there is no such line.
pub open spec fn nth_line(s: Seq<char>, line: int) -> Seq<char> {
    if 1 <= line <= text_lines(s).len() {
        text_lines(s)[line - 1]
    } else {
        Seq::empty()
    }
}

/// Line `line` (counted from 1) of `content`, or an empty string when
/// `content` has no such line.
pub fn content_line(content: &str, line: usize) -> (r: String)
    ensures
        r@ == nth_line(content@, line as int),
{
    let chars = chars_of(content);
    let n = chars.len();
    if line == 0 {
        return String::new();
    }
    let ghost s = content@;
    let mut start: usize = 0;
    let mut skipped: usize = 0;
    assert(s.skip(0) =~= s);
    while start < n
        invariant
            s == content@,
            chars@ == s,
            n == s.len(),
            start <= n,
            1 <= line,
            skipped < line,
            nth_line(s, line as int) == nth_line(s.skip(start as int), line - skipped),
        decreases n - start,
    {
        let ghost rest = s.skip(start as int);
        let mut j: usize = start;
        while j < n && chars[j] != '\n'
            invariant
                s == content@,
                chars@ == s,
                n == s.len(),
                start <= j <= n,
                rest == s.skip(start as int),
                1 <= line,
                skipped < line,
                nth_line(s, line as int) == nth_line(rest, line - skipped),
                first_newline(rest, 0) == first_newline(rest, j - start),
            decreases n - j,
        {
            j = j + 1;
        }
        proof {
            lemma_first_newline_in_range(rest, 0);
            assert(rest.len() > 0);
        }
        if j == n {
            proof {
                assert(first_newline(rest, j - start) is None);
                assert(text_lines(rest) == seq![rest]);
            }
            if skipped + 1 == line {
                let r = string_of(&chars, start, n);
                proof {
                    assert(rest =~= chars@.subrange(start as int, n as int));
                    assert(nth_line(rest, 1) == rest);
                }
                return r;
            }
            return String::new();
        }
        let ghost i = j - start;
        proof {
            assert(first_newline(rest, i) == Some(i));
            assert(rest.skip(i + 1) =~= s.skip(j + 1));
            assert(text_lines(rest) == seq![strip_cr(rest.take(i))] + text_lines(s.skip(j + 1)));
        }
        if skipped + 1 == line {
            let mut end: usize = j;
            if j > start && chars[j - 1] == '\r' {
                end = j - 1;
            }
            let r = string_of(&chars, start, end);
            proof {
                assert(rest.take(i) =~= chars@.subrange(start as int, j as int));
                assert(strip_cr(rest.take(i)) =~= chars@.subrange(start as int, end as int));
                assert(nth_line(rest, 1) == strip_cr(rest.take(i)));
            }
            return r;
        }
        proof {
            let m = line - skipped;
            assert(m > 1);
            let tl = text_lines(s.skip(j + 1));
            assert(text_lines(rest).len() == tl.len() + 1);
            if 1 <= m - 1 <= tl.len() {
                assert(text_lines(rest)[m - 1] == tl[m - 2]);
            }
            assert(nth_line(rest, m) == nth_line(s.skip(j + 1), m - 1));
        }
        skipped = skipped + 1;
        start = j + 1;
    }
    proof {
        assert(s.skip(start as int).len() == 0);
        assert(text_lines(s.skip(start as int)).len() == 0);
    }
    String::new()
}

/// The path `scholium::mark`.
pub open spec fn is_mark_path(segments: Seq<Seq<char>>) -> bool {
    segments.len() == 2 && segments[0] == "scholium"@ && segments[1] == "mark"@
}

/// Whether an attribute path, given by its segments, is `scholium::mark`.
pub fn path_is(segments: &Vec<String>) -> (r: bool)
    ensures
        r == is_mark_path(segments@.map_values(|s: String| s@)),
{
    segments.len() == 2 && same_text(segments[0].as_str(), "scholium") && same_text(
        segments[1].as_str(),
        "mark",
    )
}

/// The severity a report is given: suppressed when the profile or the
/// command line suppressed its report id, otherwise the severity written
/// in the code, or failing that the definition's.
pub open spec fn spec_report_severity(
    suppressed: bool,
    item: Option<Severity>,
    definition: Severity,
) -> Severity {
    if suppressed {
        Severity::Suppress
    } else {
        match item {
            Some(s) => s,
            None => definition,
        }
    }
}

/// Calculates the severity to report: [`Severity::Suppress`] where the
/// default was overridden to it by the command line or the profile;
/// otherwise the code may override the severity. So a definition that
/// suppresses is reported at `warning` when the code says `warning`, and a
/// definition at `info` that the profile suppresses stays suppressed though
/// the code says `warning`.
pub fn report_severity(suppressed: bool, item: Option<Severity>, definition: Severity) -> (r:
    Severity)
    ensures
        r == spec_report_severity(suppressed, item, definition),
{
    if suppressed {
        Severity::Suppress
    } else {
        match item {
            Some(s) => s,
            None => definition,
        }
    }
}

/// A problem at a place in a source file: the source line, the position
/// and the message.
#[derive(Clone, Debug, PartialEq, Eq)]
pub struct LocatedError {
    pub line: String,
    pub location: LineColumn,
    pub message: String,
}

pub type LocatedErrorModel = (Seq<char>, LineColumn, Seq<char>);

impl View for LocatedError {
    type V = LocatedErrorModel;

    open spec fn view(&self) -> LocatedErrorModel {
        (self.line@, self.location, self.message@)
    }
}

/// Why a file yields no reports.
#[derive(Clone, Debug, PartialEq, Eq)]
pub enum ProcessError {
    /// The file could not be read: the reader's message.
    Io(String),
    /// The file is not valid Rust: the source line, position and message.
    Syn(String, LineColumn, String),
    /// A marked report id is not a valid report id. The attribute parser
    /// accepts only valid ones, so this does not occur.
    ReportId(LineColumn, ReportIdError),
}

pub enum ProcessErrorModel {
    Io(Seq<char>),
    Syn(Seq<char>, LineColumn, Seq<char>),
    ReportId(LineColumn, ReportIdErrorModel),
}

impl View for ProcessError {
    type V = ProcessErrorModel;

    open spec fn view(&self) -> ProcessErrorModel {
        match self {
            ProcessError::Io(m) => ProcessErrorModel::Io(m@),
            ProcessError::Syn(l, c, m) => ProcessErrorModel::Syn(l@, *c, m@),
            ProcessError::ReportId(c, e) => ProcessErrorModel::ReportId(*c, e@),
        }
    }
}

/// One marked report id of a file.
#[derive(Clone, Debug, PartialEq, Eq)]
pub struct RawItem {
    /// User-defined severity.
    pub severity: Option<Severity>,
    /// The report id.
    pub report_id: ReportId,
    /// Where the report id is written.
    pub location: LineColumn,
    pub see_also: Vec<String>,
    /// User-defined reason why this annotation is located here.
    pub reason: String,
}

pub struct RawItemModel {
    pub severity: Option<Severity>,
    pub report_id: ReportIdKey,
    pub location: LineColumn,
    pub see_also: Seq<Seq<char>>,
    pub reason: Seq<char>,
}

impl View for RawItem {
    type V = RawItemModel;

    open spec fn view(&self) -> RawItemModel {
        RawItemModel {
            severity: self.severity,
            report_id: self.report_id@,
            location: self.location,
            see_also: texts(self.see_also@),
            reason: self.reason@,
        }
    }
}

/// The marks of one file: its report ids and its malformed attributes.
#[derive(Clone, Debug, PartialEq, Eq)]
pub struct Raw {
    pub reports: Vec<RawItem>,
    pub errors: Vec<LocatedError>,
}

pub struct RawModel {
    pub reports: Seq<RawItemModel>,
    pub errors: Seq<LocatedErrorModel>,
}

impl View for Raw {
    type V = RawModel;

    open spec fn view(&self) -> RawModel {
        RawModel {
            reports: self.reports@.map_values(|r: RawItem| r@),
            errors: self.errors@.map_values(|e: LocatedError| e@),
        }
    }
}

/// A parsed mark as mathematical values: its arguments, or its error.
pub type MarkModel = Result<ArgumentsModel, ErrorModel>;

pub open spec fn mark_view(m: Result<Arguments, MarkError>) -> MarkModel {
    match m {
        Ok(a) => Ok(a@),
        Err(e) => Err(e@),
    }
}

pub open spec fn mark_views(marks: Seq<Result<Arguments, MarkError>>) -> Seq<MarkModel> {
    marks.map_values(|m: Result<Arguments, MarkError>| mark_view(m))
}

/// Each report id of the well-formed marks, in order, with its mark.
pub open spec fn mark_entries(marks: Seq<MarkModel>) -> Seq<
    (MarkIdModel, ArgumentsModel),
>
    decreases marks.len(),
{
    if marks.len() == 0 {
        Seq::empty()
    } else {
        mark_entries(marks.drop_last()) + match marks.last() {
            Ok(a) => a.report_ids.map_values(|r: MarkIdModel| (r, a)),
            Err(_) => Seq::empty(),
        }
    }
}

/// A parse error of a mark, placed in `content`.
pub open spec fn located(content: Seq<char>, e: ErrorModel) -> LocatedErrorModel {
    (nth_line(content, e.1.start.line as int), e.1.start, e.0)
}

/// The errors of the malformed marks, in order.
pub open spec fn mark_errors(content: Seq<char>, marks: Seq<MarkModel>) -> Seq<
    LocatedErrorModel,
>
    decreases marks.len(),
{
    if marks.len() == 0 {
        Seq::empty()
    } else {
        mark_errors(content, marks.drop_last()) + match marks.last() {
            Ok(_) => Seq::empty(),
            Err(e) => seq![located(content, e)],
        }
    }
}

/// The report id an entry names, or why it is not one.
pub open spec fn entry_key(e: (MarkIdModel, ArgumentsModel)) -> Result<ReportIdKey, ReportIdErrorModel> {
    spec_report_id_from_parts(e.0.group, e.0.report_id)
}

/// The first entry that is not a valid report id: where, and why.
pub open spec fn first_id_error(entries: Seq<(MarkIdModel, ArgumentsModel)>) -> Option<
    (LineColumn, ReportIdErrorModel),
>
    decreases entries.len(),
{
    if entries.len() == 0 {
        None
    } else {
        match first_id_error(entries.drop_last()) {
            Some(x) => Some(x),
            None => match entry_key(entries.last()) {
                Err(e) => Some((entries.last().0.span.start, e)),
                Ok(_) => None,
            },
        }
    }
}

/// The item an entry with a valid report id gives.
pub open spec fn entry_item(e: (MarkIdModel, ArgumentsModel)) -> RawItemModel {
    RawItemModel {
        severity: match e.1.severity {
            Some(s) => Some(spec_severity_from_mark(s)),
            None => None,
        },
        report_id: entry_key(e)->Ok_0,
        location: e.0.span.start,
        see_also: e.1.see_also,
        reason: e.1.reason,
    }
}

/// The items of the entries whose report ids are not suppressed, in order.
pub open spec fn kept_items(entries: Seq<(MarkIdModel, ArgumentsModel)>, suppressed: Seq<ReportIdKey>) -> Seq<
    RawItemModel,
>
    decreases entries.len(),
{
    if entries.len() == 0 {
        Seq::empty()
    } else {
        kept_items(entries.drop_last(), suppressed) + if suppressed.contains(
            entry_key(entries.last())->Ok_0,
        ) {
            Seq::<RawItemModel>::empty()
        } else {
            seq![entry_item(entries.last())]
        }
    }
}

pub open spec fn report_id_keys(v: Seq<ReportId>) -> Seq<ReportIdKey> {
    v.map_values(|r: ReportId| r@)
}

/// What a file's marks give: the first invalid report id as an error, or
/// else the items of the report ids that are not suppressed, and the
/// errors of the malformed marks.
pub open spec fn spec_gather(
    content: Seq<char>,
    marks: Seq<MarkModel>,
    suppressed: Seq<ReportIdKey>,
) -> Result<RawModel, ProcessErrorModel> {
    match first_id_error(mark_entries(marks)) {
        Some(x) => Err(ProcessErrorModel::ReportId(x.0, x.1)),
        None => Ok(
            RawModel {
                reports: kept_items(mark_entries(marks), suppressed),
                errors: mark_errors(content, marks),
            },
        ),
    }
}

/// Whether `v` holds the report id `id`.
pub fn contains_report_id(v: &Vec<ReportId>, id: &ReportId) -> (r: bool)
    ensures
        r == report_id_keys(v@).contains(id@),
{
    let n = v.len();
    let mut i: usize = 0;
    while i < n
        invariant
            n == v@.len(),
            i <= n,
            forall|k: int| 0 <= k < i ==> (#[trigger] v@[k])@ != id@,
        decreases n - i,
    {
        if v[i].same(id) {
            assert(report_id_keys(v@)[i as int] == id@);
            return true;
        }
        i = i + 1;
    }
    assert forall|k: int| 0 <= k < report_id_keys(v@).len() implies report_id_keys(v@)[k] != id@ by {
        assert(report_id_keys(v@)[k] == v@[k]@);
    }
    false
}

/// A copy of a list of strings.
pub fn copy_texts(v: &Vec<String>) -> (r: Vec<String>)
    ensures
        texts(r@) == texts(v@),
{
    let n = v.len();
    let mut r: Vec<String> = Vec::new();
    let mut i: usize = 0;
    while i < n
        invariant
            n == v@.len(),
            i <= n,
            r@.len() == i,
            texts(r@) == texts(v@).take(i as int),
        decreases n - i,
    {
        let c = v[i].clone();
        let ghost before = r@;
        r.push(c);
        assert forall|k: int| 0 <= k < i + 1 implies #[trigger] texts(r@)[k] == texts(v@)[k] by {
            if k < i {
                assert(r@[k] == before[k]);
                assert(texts(before)[k] == texts(v@).take(i as int)[k]);
            }
        }
        assert(texts(r@) =~= texts(v@).take(i + 1));
        i = i + 1;
    }
    assert(texts(v@).take(n as int) =~= texts(v@));
    r
}

/// Turns the parsed marks of a file, in the order they occur in it, into
/// its reports: each report id of a well-formed mark becomes an item,
/// unless it is suppressed; each malformed mark becomes an error placed at
/// its line of `content`. A report id that is not valid makes the whole
/// file an error.
pub fn gather_reports(
    content: &str,
    marks: &Vec<Result<Arguments, MarkError>>,
    suppressed: &Vec<ReportId>,
) -> (r: Result<Raw, ProcessError>)
    ensures
        match (r, spec_gather(content@, mark_views(marks@), report_id_keys(suppressed@))) {
            (Ok(raw), Ok(m)) => raw@ == m,
            (Err(e), Err(m)) => e@ == m,
            _ => false,
        },
{
    let ghost sup = report_id_keys(suppressed@);
    let ghost mv = mark_views(marks@);
    let mut reports: Vec<RawItem> = Vec::new();
    let mut errors: Vec<LocatedError> = Vec::new();
    let n = marks.len();
    let mut i: usize = 0;
    while i < n
        invariant
            n == marks@.len(),
            mv == mark_views(marks@),
            i <= n,
            sup == report_id_keys(suppressed@),
            first_id_error(mark_entries(mv.take(i as int))) is None,
            reports@.map_values(|x: RawItem| x@) == kept_items(mark_entries(mv.take(i as int)), sup),
            errors@.map_values(|x: LocatedError| x@) == mark_errors(content@, mv.take(i as int)),
        decreases n - i,
    {
        let ghost before = mv.take(i as int);
        assert(mv.take(i + 1).drop_last() =~= before);
        assert(mv.take(i + 1).last() == mark_view(marks@[i as int]));
        match &marks[i] {
            Err(e) => {
                let line = content_line(content, e.span.start.line);
                errors.push(LocatedError { line, location: e.span.start, message: e.message.clone() });
                assert(errors@.map_values(|x: LocatedError| x@) =~= mark_errors(content@, mv.take(i as int)) + seq![located(content@, e@)]);
                assert(mark_entries(mv.take(i + 1)) =~= mark_entries(before));
            },
            Ok(a) => {
                let ghost entries0 = mark_entries(before);
                let ghost add = a@.report_ids.map_values(|x: MarkIdModel| (x, a@));
                assert(mark_view(marks@[i as int]) == Ok::<ArgumentsModel, ErrorModel>(a@));
                let m = a.report_ids.len();
                let mut j: usize = 0;
                assert(mark_entries(mv.take(i + 1)) == entries0 + add);
                while j < m
                    invariant
                        i < n,
                        n == marks@.len(),
                        mv == mark_views(marks@),
                        entries0 == mark_entries(mv.take(i as int)),
                        mark_entries(mv.take(i + 1)) == entries0 + add,
                        m == a.report_ids@.len(),
                        j <= m,
                        sup == report_id_keys(suppressed@),
                        add == a@.report_ids.map_values(|x: MarkIdModel| (x, a@)),
                        add.len() == m,
                        first_id_error(entries0 + add.take(j as int)) is None,
                        reports@.map_values(|x: RawItem| x@) == kept_items(entries0 + add.take(j as int), sup),
                    decreases m - j,
                {
                    let rid = &a.report_ids[j];
                    let ghost e = add[j as int];
                    let ghost prev = entries0 + add.take(j as int);
                    assert(e == (rid@, a@));
                    assert((entries0 + add.take(j + 1)).drop_last() =~= prev);
                    assert((entries0 + add.take(j + 1)).last() == e);
                    match ReportId::from_parts_raw(rid.group.as_str(), rid.report_id.as_str()) {
                        Err(err) => {
                            proof {
                                let pre = entries0 + add.take(j + 1);
                                assert(first_id_error(pre) == Some((rid.span.start, err@)));
                                let upto = mv.take(i + 1);
                                lemma_mark_entries_prefix(mv, i + 1);
                                let all = mark_entries(mv);
                                assert(all.take(pre.len() as int) =~= pre) by {
                                    assert forall|k: int| 0 <= k < pre.len() implies all[k] == pre[k] by {
                                        assert(all.take(mark_entries(upto).len() as int)[k] == mark_entries(upto)[k]);
                                    }
                                }
                                lemma_first_id_error_prefix(all, pre);
                            }
                            return Err(ProcessError::ReportId(rid.span.start, err));
                        },
                        Ok(id) => {
                            let ghost before_items = reports@.map_values(|x: RawItem| x@);
                            if !contains_report_id(suppressed, &id) {
                                let severity = match a.severity {
                                    Some(s) => Some(Severity::from_mark(s)),
                                    None => None,
                                };
                                reports.push(RawItem {
                                    severity,
                                    report_id: id,
                                    location: rid.span.start,
                                    see_also: copy_texts(&a.see_also),
                                    reason: a.reason.clone(),
                                });
                                assert(reports@.map_values(|x: RawItem| x@) =~= before_items.push(entry_item(e)));
                            }
                        },
                    }
                    j = j + 1;
                }
                assert(add.take(m as int) =~= add);
                assert(mark_entries(mv.take(i + 1)) == entries0 + add);
                assert(mark_errors(content@, mv.take(i + 1)) =~= mark_errors(content@, before));
            },
        }
        i = i + 1;
    }
    assert(mv.take(n as int) =~= mv);
    Ok(Raw { reports, errors })
}

/// The entries of the first marks start the entries of all of them.
proof fn lemma_mark_entries_prefix(marks: Seq<MarkModel>, k: int)
    requires
        0 <= k <= marks.len(),
    ensures
        mark_entries(marks.take(k)).len() <= mark_entries(marks).len(),
        mark_entries(marks).take(mark_entries(marks.take(k)).len() as int) =~= mark_entries(
            marks.take(k),
        ),
    decreases marks.len(),
{
    if k < marks.len() {
        assert(marks.drop_last().take(k) =~= marks.take(k));
        lemma_mark_entries_prefix(marks.drop_last(), k);
    } else {
        assert(marks.take(k) =~= marks);
    }
}

/// Whether `r` is the outcome that `m` describes.
pub open spec fn gathered_is(r: Result<Raw, ProcessError>, m: Result<RawModel, ProcessErrorModel>) -> bool {
    match (r, m) {
        (Ok(raw), Ok(rm)) => raw@ == rm,
        (Err(e), Err(em)) => e@ == em,
        _ => false,
    }
}

/// The arguments of an attribute written `path(...)`: its top-level
/// tokens, the span of its closing delimiter, and the call-site span (where
/// an empty list is reported).
#[derive(Clone, Debug, PartialEq, Eq)]
pub struct AttributeArguments {
    pub tokens: Vec<Token>,
    pub scope: SpanRange,
    pub call_site: SpanRange,
}

/// Why a text is not what was expected: where, and the message.
#[derive(Clone, Debug, PartialEq, Eq)]
pub struct SourceFailure {
    pub location: LineColumn,
    pub message: String,
}

/// An attribute of a Rust file: its path segments, and its arguments when
/// it is written `path(...)`, or the error for any other form.
#[derive(Debug, PartialEq, Eq)]
pub struct FileAttribute {
    pub path: Vec<String>,
    pub arguments: Result<AttributeArguments, SourceFailure>,
}

/// The parsed mark an attribute with the `scholium::mark` path gives.
pub open spec fn attribute_mark(a: FileAttribute) -> MarkModel {
    match a.arguments {
        Ok(args) => spec_parse_arguments(args.tokens@, args.scope, args.call_site),
        Err(f) => Err((f.message@, SpanRange { start: f.location, end: f.location })),
    }
}

/// The marks of a file's attributes: those whose path is exactly
/// `scholium::mark`, in order, each parsed.
pub open spec fn file_marks(attributes: Seq<FileAttribute>) -> Seq<MarkModel>
    decreases attributes.len(),
{
    if attributes.len() == 0 {
        Seq::empty()
    } else {
        file_marks(attributes.drop_last()) + if is_mark_path(texts(attributes.last().path@)) {
            seq![attribute_mark(attributes.last())]
        } else {
            Seq::empty()
        }
    }
}

/// What the reports of a file are, given what parsing it as Rust gave: a
/// parse error is the file's error, placed at its line; otherwise the marks
/// of its attributes gathered.
pub open spec fn spec_collect(
    content: Seq<char>,
    parsed: Result<Seq<FileAttribute>, SourceFailure>,
    suppressed: Seq<ReportIdKey>,
) -> Result<RawModel, ProcessErrorModel> {
    match parsed {
        Err(f) => Err(
            ProcessErrorModel::Syn(nth_line(content, f.location.line as int), f.location, f.message@),
        ),
        Ok(attributes) => spec_gather(content, file_marks(attributes), suppressed),
    }
}

/// The `scholium::mark` attributes among `attributes`, in order, each
/// parsed as mark arguments.
fn read_marks(attributes: &Vec<FileAttribute>) -> (marks: Vec<Result<Arguments, MarkError>>)
    ensures
        mark_views(marks@) == file_marks(attributes@),
{
    let mut marks: Vec<Result<Arguments, MarkError>> = Vec::new();
    let n = attributes.len();
    let mut i: usize = 0;
    while i < n
        invariant
            n == attributes@.len(),
            i <= n,
            mark_views(marks@) == file_marks(attributes@.take(i as int)),
        decreases n - i,
    {
        let attribute = &attributes[i];
        assert(attributes@.take(i + 1).drop_last() =~= attributes@.take(i as int));
        assert(attributes@.take(i + 1).last() == *attribute);
        assert(texts(attribute.path@) == attribute.path@.map_values(|s: String| s@));
        let ghost before = mark_views(marks@);
        if path_is(&attribute.path) {
            let mark = match &attribute.arguments {
                Ok(args) => parse_arguments(&args.tokens, args.scope, args.call_site),
                Err(failure) => Err(MarkError {
                    message: failure.message.clone(),
                    span: SpanRange { start: failure.location, end: failure.location },
                }),
            };
            assert(mark_view(mark) == attribute_mark(*attribute));
            marks.push(mark);
            assert(mark_views(marks@) =~= before.push(mark_view(mark)));
        }
        i = i + 1;
    }
    assert(attributes@.take(n as int) =~= attributes@);
    marks
}

/// What parsing a file gave, with its attributes as a sequence.
pub open spec fn parsed_view(p: Result<Vec<FileAttribute>, SourceFailure>) -> Result<
    Seq<FileAttribute>,
    SourceFailure,
> {
    match p {
        Ok(v) => Ok(v@),
        Err(f) => Err(f),
    }
}

/// Collects the reports a file marks from what parsing `content` as a Rust
/// file gave: its attributes in the order a syntax-tree walk meets them,
/// or the parse error. A parse error makes the file an error placed at its
/// line of `content`; otherwise the attributes whose path is exactly
/// `scholium::mark` are parsed and their outcomes gathered as
/// [`gather_reports`] gathers them.
pub fn annotations_of(
    content: &str,
    parsed: Result<Vec<FileAttribute>, SourceFailure>,
    suppressed: &Vec<ReportId>,
) -> (r: Result<Raw, ProcessError>)
    ensures
        gathered_is(r, spec_collect(content@, parsed_view(parsed), report_id_keys(suppressed@))),
{
    match parsed {
        Err(failure) => {
            let line = content_line(content, failure.location.line);
            Err(ProcessError::Syn(line, failure.location, failure.message))
        },
        Ok(attributes) => {
            let marks = read_marks(&attributes);
            gather_reports(content, &marks, suppressed)
        },
    }
}

/// Collects the reports that the `scholium::mark` attributes of a Rust
/// source file mark, leaving out the suppressed report ids: the file is
/// parsed and walked, and what that gives is collected as
/// [`annotations_of`] collects it.
pub fn collect_annotations(content: &str, suppressed: &Vec<ReportId>) -> (r: Result<Raw, ProcessError>)
    ensures
        gathered_is(r, spec_collect(content@, rust_file_attributes(content@), report_id_keys(suppressed@))),
{
    annotations_of(content, file_attributes(content), suppressed)
}

/// What one report comes to.
#[derive(Clone, Debug, PartialEq, Eq)]
pub enum ReportAction {
    /// The file could not be read.
    ReadFailed(String),
    /// The file is not valid Rust.
    SyntaxError(LocatedError),
    /// A report id was not valid.
    BadReportId(LineColumn, ReportIdError),
    /// A `scholium::mark` attribute is malformed.
    Malformed(LocatedError),
    /// A report id without a definition, while unknown report ids are not
    /// reported.
    UnknownNotFound { location: LineColumn, report_id: ReportId },
    /// A report id without a definition, reported at `severity`.
    Unknown {
        location: LineColumn,
        report_id: ReportId,
        severity: Severity,
        reason: String,
        /// The `see_also` list as JSON.
        see_also: String,
    },
    /// A defined report id, reported at `severity`.
    Found {
        location: LineColumn,
        report_id: ReportId,
        severity: Severity,
        reason: String,
        display_name: String,
        /// The definition's message: the long one when asked for and
        /// present, the short one otherwise.
        info: String,
        /// The `see_also` list as JSON.
        see_also: String,
    },
}

pub enum ReportActionModel {
    ReadFailed(Seq<char>),
    SyntaxError(LocatedErrorModel),
    BadReportId(LineColumn, ReportIdErrorModel),
    Malformed(LocatedErrorModel),
    UnknownNotFound(LineColumn, ReportIdKey),
    Unknown(LineColumn, ReportIdKey, Severity, Seq<char>, Seq<char>),
    Found(LineColumn, ReportIdKey, Severity, Seq<char>, Seq<char>, Seq<char>, Seq<char>),
}

impl View for ReportAction {
    type V = ReportActionModel;

    open spec fn view(&self) -> ReportActionModel {
        match self {
            ReportAction::ReadFailed(m) => ReportActionModel::ReadFailed(m@),
            ReportAction::SyntaxError(e) => ReportActionModel::SyntaxError(e@),
            ReportAction::BadReportId(c, e) => ReportActionModel::BadReportId(*c, e@),
            ReportAction::Malformed(e) => ReportActionModel::Malformed(e@),
            ReportAction::UnknownNotFound { location, report_id } => ReportActionModel::UnknownNotFound(
                *location,
                report_id@,
            ),
            ReportAction::Unknown { location, report_id, severity, reason, see_also } =>
                ReportActionModel::Unknown(*location, report_id@, *severity, reason@, see_also@),
            ReportAction::Found {
                location,
                report_id,
                severity,
                reason,
                display_name,
                info,
                see_also,
            } => ReportActionModel::Found(
                *location,
                report_id@,
                *severity,
                reason@,
                display_name@,
                info@,
                see_also@,
            ),
        }
    }
}

/// The first definition of `k` in `defs`.
pub open spec fn lookup_definition(defs: Seq<(ReportId, ReportDefinition)>, k: ReportIdKey) -> Option<
    ReportDefinition,
>
    decreases defs.len(),
{
    if defs.len() == 0 {
        None
    } else if defs[0].0@ == k {
        Some(defs[0].1)
    } else {
        lookup_definition(defs.skip(1), k)
    }
}

/// The message of a definition shown in a report.
pub open spec fn shown_info(d: ReportDefinition, is_long: bool) -> Seq<char> {
    if is_long {
        match d.long_message {
            Some(l) => l@,
            None => d.short_message@,
        }
    } else {
        d.short_message@
    }
}

/// What a marked report id comes to.
pub open spec fn item_action(
    item: RawItemModel,
    unknown: Option<Severity>,
    defs: Seq<(ReportId, ReportDefinition)>,
    suppressed: Seq<ReportIdKey>,
    is_long: bool,
) -> ReportActionModel {
    let is_suppressed = suppressed.contains(item.report_id);
    match lookup_definition(defs, item.report_id) {
        None => match unknown {
            Some(s) => ReportActionModel::Unknown(
                item.location,
                item.report_id,
                spec_report_severity(is_suppressed, item.severity, s),
                item.reason,
                json_string_array(item.see_also),
            ),
            None => ReportActionModel::UnknownNotFound(item.location, item.report_id),
        },
        Some(d) => ReportActionModel::Found(
            item.location,
            item.report_id,
            spec_report_severity(is_suppressed, item.severity, d.severity),
            item.reason,
            d.display_name@,
            shown_info(d, is_long),
            json_string_array(item.see_also),
        ),
    }
}

/// What a file's reports come to: its error alone, or each malformed mark
/// and then each marked report id, in order.
pub open spec fn spec_plan(
    result: Result<RawModel, ProcessErrorModel>,
    unknown: Option<Severity>,
    defs: Seq<(ReportId, ReportDefinition)>,
    suppressed: Seq<ReportIdKey>,
    is_long: bool,
) -> Seq<ReportActionModel> {
    match result {
        Err(ProcessErrorModel::Io(m)) => seq![ReportActionModel::ReadFailed(m)],
        Err(ProcessErrorModel::Syn(l, c, m)) => seq![ReportActionModel::SyntaxError((l, c, m))],
        Err(ProcessErrorModel::ReportId(c, e)) => seq![ReportActionModel::BadReportId(c, e)],
        Ok(raw) => raw.errors.map_values(|e: LocatedErrorModel| ReportActionModel::Malformed(e))
            + raw.reports.map_values(
            |it: RawItemModel| item_action(it, unknown, defs, suppressed, is_long),
        ),
    }
}

pub open spec fn located_views(v: Seq<LocatedError>) -> Seq<LocatedErrorModel> {
    v.map_values(|e: LocatedError| e@)
}

pub open spec fn item_views(v: Seq<RawItem>) -> Seq<RawItemModel> {
    v.map_values(|x: RawItem| x@)
}

pub open spec fn action_views(v: Seq<ReportAction>) -> Seq<ReportActionModel> {
    v.map_values(|a: ReportAction| a@)
}

pub open spec fn result_view(r: Result<Raw, ProcessError>) -> Result<RawModel, ProcessErrorModel> {
    match r {
        Ok(raw) => Ok(raw@),
        Err(e) => Err(e@),
    }
}

/// The definition of `id` in `defs`, if any.
fn find_definition<'a>(defs: &'a Vec<(ReportId, ReportDefinition)>, id: &ReportId) -> (r: Option<
    &'a ReportDefinition,
>)
    ensures
        match r {
            Some(d) => lookup_definition(defs@, id@) == Some(*d),
            None => lookup_definition(defs@, id@) is None,
        },
{
    let n = defs.len();
    let mut i: usize = 0;
    assert(defs@.skip(0) =~= defs@);
    while i < n
        invariant
            n == defs@.len(),
            i <= n,
            lookup_definition(defs@, id@) == lookup_definition(defs@.skip(i as int), id@),
        decreases n - i,
    {
        assert(defs@.skip(i as int)[0] == defs@[i as int]);
        assert(defs@.skip(i as int).skip(1) =~= defs@.skip(i + 1));
        if defs[i].0.same(id) {
            return Some(&defs[i].1);
        }
        i = i + 1;
    }
    None
}

/// Decides what each report of a file comes to. An error of the file is
/// reported alone. Otherwise each malformed mark is reported, then each
/// marked report id: with its definition, at the severity that
/// [`report_severity`] gives from the definition's (the long message when
/// `is_long` asks for it and there is one); without one, at the severity
/// for unknown report ids when there is one, or as not found.
pub fn process_reports(
    result: Result<Raw, ProcessError>,
    unknown_severity: Option<Severity>,
    definitions: &Vec<(ReportId, ReportDefinition)>,
    suppressed: &Vec<ReportId>,
    is_long: bool,
) -> (actions: Vec<ReportAction>)
    ensures
        action_views(actions@) == spec_plan(
            result_view(result),
            unknown_severity,
            definitions@,
            report_id_keys(suppressed@),
            is_long,
        ),
{
    let ghost rv = result_view(result);
    let ghost sup = report_id_keys(suppressed@);
    let mut actions: Vec<ReportAction> = Vec::new();
    let raw = match result {
        Ok(raw) => raw,
        Err(ProcessError::Io(message)) => {
            actions.push(ReportAction::ReadFailed(message));
            assert(action_views(actions@) =~= spec_plan(rv, unknown_severity, definitions@, sup, is_long));
            return actions;
        },
        Err(ProcessError::Syn(line, location, message)) => {
            actions.push(ReportAction::SyntaxError(LocatedError { line, location, message }));
            assert(action_views(actions@) =~= spec_plan(rv, unknown_severity, definitions@, sup, is_long));
            return actions;
        },
        Err(ProcessError::ReportId(location, error)) => {
            actions.push(ReportAction::BadReportId(location, error));
            assert(action_views(actions@) =~= spec_plan(rv, unknown_severity, definitions@, sup, is_long));
            return actions;
        },
    };
    let ghost rm = raw@;
    let ghost malformed = rm.errors.map_values(|e: LocatedErrorModel| ReportActionModel::Malformed(e));
    let ghost items = rm.reports.map_values(
        |it: RawItemModel| item_action(it, unknown_severity, definitions@, sup, is_long),
    );
    let Raw { reports, errors } = raw;
    let mut errors = errors;
    let ne = errors.len();
    let mut i: usize = 0;
    while i < ne
        invariant
            ne == rm.errors.len(),
            i <= ne,
            errors@.len() == ne - i,
            located_views(errors@) == rm.errors.skip(i as int),
            malformed == rm.errors.map_values(|e: LocatedErrorModel| ReportActionModel::Malformed(e)),
            actions@.len() == i,
            action_views(actions@) == malformed.take(i as int),
        decreases ne - i,
    {
        let ghost rest = errors@;
        let error = errors.remove(0);
        assert(error@ == rm.errors[i as int]) by {
            assert(located_views(rest)[0] == error@);
            assert(rm.errors.skip(i as int)[0] == rm.errors[i as int]);
        }
        assert forall|k: int| 0 <= k < errors@.len() implies #[trigger] located_views(errors@)[k]
            == rm.errors.skip(i + 1)[k] by {
            assert(errors@[k] == rest[k + 1]);
            assert(located_views(rest)[k + 1] == rest[k + 1]@);
            assert(rm.errors.skip(i as int)[k + 1] == rm.errors[i + 1 + k]);
        }
        assert(located_views(errors@) =~= rm.errors.skip(i + 1));
        let ghost prior = actions@;
        actions.push(ReportAction::Malformed(error));
        assert forall|k: int| 0 <= k < i + 1 implies #[trigger] action_views(actions@)[k]
            == malformed.take(i + 1)[k] by {
            if k < i {
                assert(actions@[k] == prior[k]);
                assert(action_views(prior)[k] == malformed.take(i as int)[k]);
            }
        }
        assert(action_views(actions@) =~= malformed.take(i + 1));
        i = i + 1;
    }
    assert(malformed.take(ne as int) =~= malformed);
    let mut reports = reports;
    let nr = reports.len();
    let mut j: usize = 0;
    while j < nr
        invariant
            nr == rm.reports.len(),
            j <= nr,
            reports@.len() == nr - j,
            sup == report_id_keys(suppressed@),
            item_views(reports@) == rm.reports.skip(j as int),
            items == rm.reports.map_values(
                |it: RawItemModel| item_action(it, unknown_severity, definitions@, sup, is_long),
            ),
            actions@.len() == malformed.len() + j,
            action_views(actions@) == malformed + items.take(j as int),
        decreases nr - j,
    {
        let ghost rest = reports@;
        let item = reports.remove(0);
        assert(item@ == rm.reports[j as int]) by {
            assert(item_views(rest)[0] == item@);
            assert(rm.reports.skip(j as int)[0] == rm.reports[j as int]);
        }
        assert forall|k: int| 0 <= k < reports@.len() implies #[trigger] item_views(reports@)[k]
            == rm.reports.skip(j + 1)[k] by {
            assert(reports@[k] == rest[k + 1]);
            assert(item_views(rest)[k + 1] == rest[k + 1]@);
            assert(rm.reports.skip(j as int)[k + 1] == rm.reports[j + 1 + k]);
        }
        assert(item_views(reports@) =~= rm.reports.skip(j + 1));
        let is_suppressed = contains_report_id(suppressed, &item.report_id);
        let RawItem { severity, report_id, location, see_also, reason } = item;
        let see_also_json = to_json_strings(&see_also);
        let action = match find_definition(definitions, &report_id) {
            None => match unknown_severity {
                Some(s) => ReportAction::Unknown {
                    location,
                    report_id,
                    severity: report_severity(is_suppressed, severity, s),
                    reason,
                    see_also: see_also_json,
                },
                None => ReportAction::UnknownNotFound { location, report_id },
            },
            Some(definition) => {
                let info = if is_long {
                    match &definition.long_message {
                        Some(l) => l.clone(),
                        None => definition.short_message.clone(),
                    }
                } else {
                    definition.short_message.clone()
                };
                ReportAction::Found {
                    location,
                    report_id,
                    severity: report_severity(is_suppressed, severity, definition.severity),
                    reason,
                    display_name: definition.display_name.clone(),
                    info,
                    see_also: see_also_json,
                }
            },
        };
        assert(action@ == items[j as int]);
        let ghost prior = actions@;
        actions.push(action);
        assert forall|k: int| 0 <= k < malformed.len() + j + 1 implies #[trigger] action_views(actions@)[k]
            == (malformed + items.take(j + 1))[k] by {
            if k < malformed.len() + j {
                assert(actions@[k] == prior[k]);
                assert(action_views(prior)[k] == (malformed + items.take(j as int))[k]);
            }
        }
        assert(action_views(actions@) =~= malformed + items.take(j + 1));
        j = j + 1;
    }
    assert(items.take(nr as int) =~= items);
    actions
}

/// An entry list extended at its end keeps its first invalid report id.
proof fn lemma_first_id_error_prefix(
    all: Seq<(MarkIdModel, ArgumentsModel)>,
    pre: Seq<(MarkIdModel, ArgumentsModel)>,
)
    requires
        pre.len() <= all.len(),
        all.take(pre.len() as int) =~= pre,
        first_id_error(pre) is Some,
    ensures
        first_id_error(all) == first_id_error(pre),
    decreases all.len(),
{
    if all.len() > pre.len() {
        assert(all.drop_last().take(pre.len() as int) =~= pre);
        lemma_first_id_error_prefix(all.drop_last(), pre);
    } else {
        assert(all =~= pre);
    }
}

/// A file's reports never hold a suppressed report id: the items kept are
/// those of the entries whose report ids are not suppressed.
pub proof fn law_kept_items_are_not_suppressed(
    entries: Seq<(MarkIdModel, ArgumentsModel)>,
    suppressed: Seq<ReportIdKey>,
)
    ensures
        forall|i: int|
            0 <= i < kept_items(entries, suppressed).len() ==> !suppressed.contains(
                (#[trigger] kept_items(entries, suppressed)[i]).report_id,
            ),
    decreases entries.len(),
{
    if entries.len() > 0 {
        law_kept_items_are_not_suppressed(entries.drop_last(), suppressed);
        let prev = kept_items(entries.drop_last(), suppressed);
        let all = kept_items(entries, suppressed);
        assert forall|i: int| 0 <= i < all.len() implies !suppressed.contains((#[trigger] all[i]).report_id) by {
            if i < prev.len() {
                assert(all[i] == prev[i]);
            }
        }
    }
}

/// Unknown reports are not affected by overrides: a report id without a
/// definition, and not suppressed, is reported at the severity written in
/// the code, or else at the severity for unknown report ids, when there is
/// one; without one it is reported as not found.
pub proof fn law_unknown_reports_ignore_overrides(
    item: RawItemModel,
    unknown: Option<Severity>,
    defs: Seq<(ReportId, ReportDefinition)>,
    suppressed: Seq<ReportIdKey>,
    is_long: bool,
)
    requires
        lookup_definition(defs, item.report_id) is None,
        !suppressed.contains(item.report_id),
    ensures
        item_action(item, unknown, defs, suppressed, is_long) == match unknown {
            Some(s) => ReportActionModel::Unknown(
                item.location,
                item.report_id,
                match item.severity {
                    Some(code) => code,
                    None => s,
                },
                item.reason,
                json_string_array(item.see_also),
            ),
            None => ReportActionModel::UnknownNotFound(item.location, item.report_id),
        },
{
}

/// A defined report id is reported as found: at `suppress` when the
/// command line or the profile suppressed it; otherwise at the severity
/// written in its mark when the mark carries one, and only when it carries
/// none at its definition's severity. The action stands after the file's
/// malformed marks, at the place of its report.
pub proof fn law_found_reports_take_the_mark_severity(
    raw: RawModel,
    unknown: Option<Severity>,
    defs: Seq<(ReportId, ReportDefinition)>,
    suppressed: Seq<ReportIdKey>,
    is_long: bool,
    i: int,
    d: ReportDefinition,
)
    requires
        0 <= i < raw.reports.len(),
        lookup_definition(defs, raw.reports[i].report_id) == Some(d),
    ensures
        spec_plan(Ok(raw), unknown, defs, suppressed, is_long).len() == raw.errors.len()
            + raw.reports.len(),
        spec_plan(Ok(raw), unknown, defs, suppressed, is_long)[raw.errors.len() + i] matches
            ReportActionModel::Found(location, k, severity, reason, name, _, _) && location
            == raw.reports[i].location && k == raw.reports[i].report_id && reason
            == raw.reports[i].reason && name == d.display_name@ && severity == (if suppressed.contains(
            k,
        ) {
            Severity::Suppress
        } else {
            match raw.reports[i].severity {
                Some(code) => code,
                None => d.severity,
            }
        }),
{
    let plan = spec_plan(Ok(raw), unknown, defs, suppressed, is_long);
    let malformed = raw.errors.map_values(|e: LocatedErrorModel| ReportActionModel::Malformed(e));
    let acts = raw.reports.map_values(
        |it: RawItemModel| item_action(it, unknown, defs, suppressed, is_long),
    );
    assert(plan == malformed + acts);
    assert(plan[raw.errors.len() + i] == acts[i]);
}

/// A gathered report keeps the severity its mark was written with, under
/// the same name, and has none when the mark has none.
pub proof fn law_gathered_severity_is_the_marks(e: (MarkIdModel, ArgumentsModel))
    ensures
        e.1.severity is None ==> entry_item(e).severity is None,
        e.1.severity matches Some(m) ==> entry_item(e).severity matches Some(s) && severity_text(s)
            == severity_name(m),
{
    if let Some(m) = e.1.severity {
        crate::ident::law_mark_severity_keeps_its_name(m);
    }
}

/// The report id an action is about, if it is about one.
pub open spec fn action_report_id(a: ReportActionModel) -> Option<ReportIdKey> {
    match a {
        ReportActionModel::UnknownNotFound(_, k) => Some(k),
        ReportActionModel::Unknown(_, k, _, _, _) => Some(k),
        ReportActionModel::Found(_, k, _, _, _, _, _) => Some(k),
        _ => None,
    }
}

/// A report id that the command line or the profile suppressed is never
/// reported: no report of a file, gathered and decided with the same
/// suppressed report ids, is about one of them.
pub proof fn law_suppressed_ids_are_never_reported(
    content: Seq<char>,
    marks: Seq<MarkModel>,
    suppressed: Seq<ReportIdKey>,
    unknown: Option<Severity>,
    defs: Seq<(ReportId, ReportDefinition)>,
    is_long: bool,
)
    ensures
        forall|i: int|
            0 <= i < spec_plan(spec_gather(content, marks, suppressed), unknown, defs, suppressed, is_long).len()
                ==> match action_report_id(
                #[trigger] spec_plan(spec_gather(content, marks, suppressed), unknown, defs, suppressed, is_long)[i],
            ) {
                Some(k) => !suppressed.contains(k),
                None => true,
            },
{
    let plan = spec_plan(spec_gather(content, marks, suppressed), unknown, defs, suppressed, is_long);
    let entries = mark_entries(marks);
    law_kept_items_are_not_suppressed(entries, suppressed);
    if first_id_error(entries) is None {
        let items = kept_items(entries, suppressed);
        let errors = mark_errors(content, marks);
        let malformed = errors.map_values(|e: LocatedErrorModel| ReportActionModel::Malformed(e));
        let acts = items.map_values(|it: RawItemModel| item_action(it, unknown, defs, suppressed, is_long));
        assert(plan == malformed + acts);
        assert forall|i: int| 0 <= i < plan.len() implies match action_report_id(#[trigger] plan[i]) {
            Some(k) => !suppressed.contains(k),
            None => true,
        } by {
            if i < malformed.len() {
                assert(plan[i] == malformed[i]);
            } else {
                let j = i - malformed.len();
                assert(plan[i] == acts[j]);
                assert(acts[j] == item_action(items[j], unknown, defs, suppressed, is_long));
                assert(!suppressed.contains(items[j].report_id));
            }
        }
    }
}

} // verus!
