//! The checked arguments of `scholium::mark(...)`:
//! `[<severity>,] <report-id>, ... [, see_also = "..."]*, reason = "..."`.
use vstd::prelude::*;

use crate::elements::{
    elements_view, parse_elements, spec_parse_elements, texts, Element, ElementModel, ErrorModel,
    MarkError,
};
use crate::outside::{call_site_span, span_range, token_of, token_trees};
use crate::text::same_text;
use crate::tokens::{closing_span, token_span, SpanRange, Token};

verus! {

/// Annotation severity levels a mark may set.
#[derive(Clone, Copy, Debug, PartialEq, Eq, Structural)]
pub enum Severity {
    Error,
    Warning,
    Info,
    Debug,
    Trace,
}

/// The severity a lower-case name stands for.
pub open spec fn severity_named(s: Seq<char>) -> Option<Severity> {
    if s == "error"@ {
        Some(Severity::Error)
    } else if s == "warning"@ {
        Some(Severity::Warning)
    } else if s == "info"@ {
        Some(Severity::Info)
    } else if s == "debug"@ {
        Some(Severity::Debug)
    } else if s == "trace"@ {
        Some(Severity::Trace)
    } else {
        None
    }
}

/// The lower-case name of a severity.
pub open spec fn severity_name(s: Severity) -> Seq<char> {
    match s {
        Severity::Error => "error"@,
        Severity::Warning => "warning"@,
        Severity::Info => "info"@,
        Severity::Debug => "debug"@,
        Severity::Trace => "trace"@,
    }
}

impl Severity {
    /// The severity an identifier names; `Err(())` for any other word.
    pub fn try_from_ident(value: &str) -> (r: Result<Severity, ()>)
        ensures
            match r {
                Ok(s) => severity_named(value@) == Some(s),
                Err(()) => severity_named(value@) is None,
            },
    {
        if same_text(value, "error") {
            Ok(Severity::Error)
        } else if same_text(value, "warning") {
            Ok(Severity::Warning)
        } else if same_text(value, "info") {
            Ok(Severity::Info)
        } else if same_text(value, "debug") {
            Ok(Severity::Debug)
        } else if same_text(value, "trace") {
            Ok(Severity::Trace)
        } else {
            Err(())
        }
    }

    /// The lower-case name of the severity.
    pub fn to_string(&self) -> (r: String)
        ensures
            r@ == severity_name(*self),
    {
        match self {
            Severity::Error => "error".to_owned(),
            Severity::Warning => "warning".to_owned(),
            Severity::Info => "info".to_owned(),
            Severity::Debug => "debug".to_owned(),
            Severity::Trace => "trace".to_owned(),
        }
    }
}

/// A report id of a mark: `group::report_id` and where it was written.
#[derive(Clone, Debug, PartialEq, Eq)]
pub struct ReportId {
    pub group: String,
    pub report_id: String,
    pub span: SpanRange,
}

pub struct ReportIdModel {
    pub group: Seq<char>,
    pub report_id: Seq<char>,
    pub span: SpanRange,
}

impl View for ReportId {
    type V = ReportIdModel;

    open spec fn view(&self) -> ReportIdModel {
        ReportIdModel { group: self.group@, report_id: self.report_id@, span: self.span }
    }
}

impl ReportId {
    /// `group::report_id`.
    pub fn to_string(&self) -> (r: String)
        ensures
            r@ == self.group@ + "::"@ + self.report_id@,
    {
        let mut s = self.group.clone();
        s.append("::");
        s.append(self.report_id.as_str());
        s
    }
}

/// Parsed and checked annotation arguments.
#[derive(Clone, Debug, PartialEq, Eq)]
pub struct Arguments {
    /// User-defined severity.
    pub severity: Option<Severity>,
    /// Report ids, in the order written.
    pub report_ids: Vec<ReportId>,
    /// `see_also` values, in the order written.
    pub see_also: Vec<String>,
    /// User-defined reason why this annotation is located here.
    pub reason: String,
}

pub struct ArgumentsModel {
    pub severity: Option<Severity>,
    pub report_ids: Seq<ReportIdModel>,
    pub see_also: Seq<Seq<char>>,
    pub reason: Seq<char>,
}

impl View for Arguments {
    type V = ArgumentsModel;

    open spec fn view(&self) -> ArgumentsModel {
        ArgumentsModel {
            severity: self.severity,
            report_ids: self.report_ids@.map_values(|r: ReportId| r@),
            see_also: texts(self.see_also@),
            reason: self.reason@,
        }
    }
}

/// What the checker has seen so far and collected.
pub struct CheckState {
    pub met_severity: bool,
    pub met_report_ids: bool,
    pub met_key_value: bool,
    pub met_reason: bool,
    pub args: ArgumentsModel,
}

pub open spec fn initial_state() -> CheckState {
    CheckState {
        met_severity: false,
        met_report_ids: false,
        met_key_value: false,
        met_reason: false,
        args: ArgumentsModel {
            severity: None,
            report_ids: Seq::empty(),
            see_also: Seq::empty(),
            reason: Seq::empty(),
        },
    }
}

pub open spec fn order_message() -> Seq<char> {
    "expected order of elements: [<severity>], <list of report-ids>, [see_also=<str>,] reason=<str>"@
}

pub open spec fn underscore_message() -> Seq<char> {
    "report id should not contain segments starting with `_`"@
}

pub open spec fn starts_with_underscore(s: Seq<char>) -> bool {
    s.len() > 0 && s[0] == '_'
}

/// The checker's reaction to one element.
pub open spec fn check_step(st: CheckState, el: ElementModel) -> Result<CheckState, ErrorModel> {
    match el {
        ElementModel::Value(ident, span) => {
            if st.met_severity || st.met_report_ids {
                Err((order_message(), span))
            } else {
                match severity_named(ident) {
                    None => Err(("unable to parse severity"@, span)),
                    Some(sev) => Ok(
                        CheckState {
                            met_severity: true,
                            args: ArgumentsModel { severity: Some(sev), ..st.args },
                            ..st
                        },
                    ),
                }
            }
        },
        ElementModel::Path(segs, span) => {
            if st.met_key_value {
                Err((order_message(), span))
            } else if segs.len() == 2 {
                if starts_with_underscore(segs[0]) || starts_with_underscore(segs[1]) {
                    Err((underscore_message(), span))
                } else {
                    Ok(
                        CheckState {
                            met_report_ids: true,
                            args: ArgumentsModel {
                                report_ids: st.args.report_ids.push(
                                    ReportIdModel { group: segs[0], report_id: segs[1], span },
                                ),
                                ..st.args
                            },
                            ..st
                        },
                    )
                }
            } else {
                Err(("expected exactly 2 path segments"@, span))
            }
        },
        ElementModel::KeyValue(key, key_span, value) => {
            if !st.met_report_ids {
                Err((order_message(), key_span))
            } else if key == "reason"@ {
                if st.met_reason {
                    Err((order_message(), key_span))
                } else {
                    Ok(
                        CheckState {
                            met_key_value: true,
                            met_reason: true,
                            args: ArgumentsModel { reason: value, ..st.args },
                            ..st
                        },
                    )
                }
            } else if key == "see_also"@ {
                Ok(
                    CheckState {
                        met_key_value: true,
                        args: ArgumentsModel { see_also: st.args.see_also.push(value), ..st.args },
                        ..st
                    },
                )
            } else {
                Err(("unknown element"@, key_span))
            }
        },
    }
}

/// The checker run over `els` from the start.
pub open spec fn check_run(els: Seq<ElementModel>) -> Result<CheckState, ErrorModel>
    decreases els.len(),
{
    if els.len() == 0 {
        Ok(initial_state())
    } else {
        match check_run(els.drop_last()) {
            Err(e) => Err(e),
            Ok(st) => check_step(st, els.last()),
        }
    }
}

/// The checked arguments of an element list; `whole` is the range of the
/// whole argument list, where a missing `reason` is reported.
pub open spec fn spec_check_elements(els: Seq<ElementModel>, whole: SpanRange) -> Result<
    ArgumentsModel,
    ErrorModel,
> {
    match check_run(els) {
        Err(e) => Err(e),
        Ok(st) => if st.met_reason {
            Ok(st.args)
        } else {
            Err((order_message(), whole))
        },
    }
}

/// The range of the whole token list: from its first token to the closing
/// character of its last one; `call_site` when there is none.
pub open spec fn whole_span(toks: Seq<Token>, call_site: SpanRange) -> SpanRange {
    if toks.len() == 0 {
        call_site
    } else {
        SpanRange {
            start: token_span(toks[0]).start,
            end: closing_span(toks[toks.len() - 1]).end,
        }
    }
}

/// The arguments of a mark written as `toks`. End-of-input errors point at
/// `scope`; an empty list is reported at `call_site`.
pub open spec fn spec_parse_arguments(
    toks: Seq<Token>,
    scope: SpanRange,
    call_site: SpanRange,
) -> Result<ArgumentsModel, ErrorModel> {
    match spec_parse_elements(toks, 0, scope) {
        Err(e) => Err(e),
        Ok(els) => spec_check_elements(els, whole_span(toks, call_site)),
    }
}

/// An error met on a prefix of the elements is the error of the whole run.
pub proof fn lemma_check_run_error_persists(els: Seq<ElementModel>, k: int)
    requires
        0 <= k <= els.len(),
        check_run(els.subrange(0, k)) is Err,
    ensures
        check_run(els) == check_run(els.subrange(0, k)),
    decreases els.len() - k,
{
    if k < els.len() {
        assert(els.subrange(0, k + 1).drop_last() =~= els.subrange(0, k));
        lemma_check_run_error_persists(els, k + 1);
    } else {
        assert(els.subrange(0, k) =~= els);
    }
}

fn message(lit: &str) -> (m: String)
    ensures
        m@ == lit@,
{
    lit.to_owned()
}

fn starts_with_underscore_text(s: &String) -> (r: bool)
    ensures
        r == starts_with_underscore(s@),
{
    s.as_str().unicode_len() > 0 && s.as_str().get_char(0) == '_'
}

/// Checks an element list against the order and content rules of a mark.
pub fn check_elements(els: &Vec<Element>, whole: SpanRange) -> (r: Result<Arguments, MarkError>)
    ensures
        match (r, spec_check_elements(elements_view(els@), whole)) {
            (Ok(a), Ok(m)) => a@ == m,
            (Err(e), Err(m)) => e@ == m,
            _ => false,
        },
{
    let ghost model = elements_view(els@);
    let mut met_severity = false;
    let mut met_report_ids = false;
    let mut met_key_value = false;
    let mut met_reason = false;
    let mut severity: Option<Severity> = None;
    let mut report_ids: Vec<ReportId> = Vec::new();
    let mut see_also: Vec<String> = Vec::new();
    let mut reason = String::new();
    let n = els.len();
    let mut i: usize = 0;
    proof {
        assert(model.subrange(0, 0) =~= Seq::<ElementModel>::empty());
        assert(report_ids@.map_values(|r: ReportId| r@) =~= Seq::<ReportIdModel>::empty());
        assert(texts(see_also@) =~= Seq::<Seq<char>>::empty());
    }
    while i < n
        invariant
            n == els@.len(),
            i <= n,
            model == elements_view(els@),
            check_run(model.subrange(0, i as int)) == Ok::<CheckState, ErrorModel>(
                CheckState {
                    met_severity,
                    met_report_ids,
                    met_key_value,
                    met_reason,
                    args: Arguments { severity, report_ids, see_also, reason }@,
                },
            ),
        decreases n - i,
    {
        proof {
            assert(model.subrange(0, i + 1).drop_last() =~= model.subrange(0, i as int));
            assert(model.subrange(0, i + 1).last() == els@[i as int]@);
        }
        let ghost st = CheckState {
            met_severity,
            met_report_ids,
            met_key_value,
            met_reason,
            args: Arguments { severity, report_ids, see_also, reason }@,
        };
        proof {
            if check_run(model.subrange(0, i + 1)) is Err {
                lemma_check_run_error_persists(model, i + 1);
            }
        }
        match &els[i] {
            Element::Value { ident, span } => {
                if met_severity || met_report_ids {
                    return Err(MarkError { message: message(
                        "expected order of elements: [<severity>], <list of report-ids>, [see_also=<str>,] reason=<str>",
                    ), span: *span });
                }
                met_severity = true;
                match Severity::try_from_ident(ident.as_str()) {
                    Ok(value) => {
                        severity = Some(value);
                    },
                    Err(()) => {
                        return Err(
                            MarkError { message: message("unable to parse severity"), span: *span },
                        );
                    },
                }
            },
            Element::Path { segments, span } => {
                if met_key_value {
                    return Err(MarkError { message: message(
                        "expected order of elements: [<severity>], <list of report-ids>, [see_also=<str>,] reason=<str>",
                    ), span: *span });
                }
                met_report_ids = true;
                if segments.len() == 2 {
                    let group = segments[0].clone();
                    let report_id = segments[1].clone();
                    proof {
                        assert(texts(segments@)[0] == segments@[0]@);
                        assert(texts(segments@)[1] == segments@[1]@);
                    }
                    if starts_with_underscore_text(&group) || starts_with_underscore_text(
                        &report_id,
                    ) {
                        return Err(
                            MarkError {
                                message: message(
                                    "report id should not contain segments starting with `_`",
                                ),
                                span: *span,
                            },
                        );
                    }
                    let ghost before = report_ids@;
                    report_ids.push(ReportId { group, report_id, span: *span });
                    proof {
                        assert(report_ids@.map_values(|r: ReportId| r@) =~= before.map_values(
                            |r: ReportId| r@,
                        ).push(report_ids@.last()@));
                    }
                } else {
                    return Err(
                        MarkError {
                            message: message("expected exactly 2 path segments"),
                            span: *span,
                        },
                    );
                }
            },
            Element::KeyValue { key, key_span, value } => {
                if !met_report_ids {
                    return Err(MarkError { message: message(
                        "expected order of elements: [<severity>], <list of report-ids>, [see_also=<str>,] reason=<str>",
                    ), span: *key_span });
                }
                met_key_value = true;
                if same_text(key.as_str(), "reason") {
                    if met_reason {
                        return Err(MarkError { message: message(
                            "expected order of elements: [<severity>], <list of report-ids>, [see_also=<str>,] reason=<str>",
                        ), span: *key_span });
                    }
                    met_reason = true;
                    reason = value.clone();
                } else if same_text(key.as_str(), "see_also") {
                    let ghost before = see_also@;
                    see_also.push(value.clone());
                    proof {
                        assert(texts(see_also@) =~= texts(before).push(value@));
                    }
                } else {
                    return Err(MarkError { message: message("unknown element"), span: *key_span });
                }
            },
        }
        i = i + 1;
    }
    proof {
        assert(model.subrange(0, n as int) =~= model);
    }
    if !met_reason {
        return Err(MarkError { message: message(
            "expected order of elements: [<severity>], <list of report-ids>, [see_also=<str>,] reason=<str>",
        ), span: whole });
    }
    Ok(Arguments { severity, report_ids, see_also, reason })
}

/// The range of the whole token list (see [`whole_span`]).
pub fn whole_span_of(toks: &Vec<Token>, call_site: SpanRange) -> (r: SpanRange)
    ensures
        r == whole_span(toks@, call_site),
{
    let n = toks.len();
    if n == 0 {
        call_site
    } else {
        SpanRange { start: toks[0].span().start, end: toks[n - 1].closing_span().end }
    }
}

/// Parses and checks the arguments of a mark given as tokens. End-of-input
/// errors point at `scope`; an empty list is reported at `call_site`.
pub fn parse_arguments(toks: &Vec<Token>, scope: SpanRange, call_site: SpanRange) -> (r: Result<
    Arguments,
    MarkError,
>)
    ensures
        match (r, spec_parse_arguments(toks@, scope, call_site)) {
            (Ok(a), Ok(m)) => a@ == m,
            (Err(e), Err(m)) => e@ == m,
            _ => false,
        },
{
    let els = match parse_elements(toks, scope) {
        Ok(els) => els,
        Err(e) => {
            return Err(e);
        },
    };
    check_elements(&els, whole_span_of(toks, call_site))
}

/// Some element of `s` is a path.
pub open spec fn any_path(s: Seq<ElementModel>) -> bool
    decreases s.len(),
{
    s.len() > 0 && (any_path(s.drop_last()) || s.last() is Path)
}

/// Some element of `s` is a key-value pair.
pub open spec fn any_key_value(s: Seq<ElementModel>) -> bool
    decreases s.len(),
{
    s.len() > 0 && (any_key_value(s.drop_last()) || s.last() is KeyValue)
}

pub open spec fn is_reason(e: ElementModel) -> bool {
    e matches ElementModel::KeyValue(k, _, _) && k == "reason"@
}

/// Some element of `s` is a `reason`.
pub open spec fn any_reason(s: Seq<ElementModel>) -> bool
    decreases s.len(),
{
    s.len() > 0 && (any_reason(s.drop_last()) || is_reason(s.last()))
}

/// The report ids that the paths of `s` name, in order.
pub open spec fn report_ids_of(s: Seq<ElementModel>) -> Seq<ReportIdModel>
    decreases s.len(),
{
    if s.len() == 0 {
        Seq::empty()
    } else {
        match s.last() {
            ElementModel::Path(segs, span) => report_ids_of(s.drop_last()).push(
                ReportIdModel { group: segs[0], report_id: segs[1], span },
            ),
            _ => report_ids_of(s.drop_last()),
        }
    }
}

/// The `see_also` values of `s`, in order.
pub open spec fn see_also_of(s: Seq<ElementModel>) -> Seq<Seq<char>>
    decreases s.len(),
{
    if s.len() == 0 {
        Seq::empty()
    } else {
        match s.last() {
            ElementModel::KeyValue(k, _, v) => if k == "see_also"@ {
                see_also_of(s.drop_last()).push(v)
            } else {
                see_also_of(s.drop_last())
            },
            _ => see_also_of(s.drop_last()),
        }
    }
}

/// The value of the last `reason` of `s` (empty when there is none).
pub open spec fn reason_of(s: Seq<ElementModel>) -> Seq<char>
    decreases s.len(),
{
    if s.len() == 0 {
        Seq::empty()
    } else {
        match s.last() {
            ElementModel::KeyValue(k, _, v) => if k == "reason"@ {
                v
            } else {
                reason_of(s.drop_last())
            },
            _ => reason_of(s.drop_last()),
        }
    }
}

/// The severity a leading identifier names, if the list starts with one.
pub open spec fn leading_severity(s: Seq<ElementModel>) -> Option<Severity> {
    if s.len() > 0 && s[0] is Value {
        match s[0] {
            ElementModel::Value(t, _) => severity_named(t),
            _ => None,
        }
    } else {
        None
    }
}

/// Element `i` of `s` is allowed where it stands: a severity only first; a
/// two-segment report id without leading `_` only before any key-value; a
/// key-value only after some report id, with key `see_also`, or `reason`
/// when no `reason` came before.
pub open spec fn in_place(s: Seq<ElementModel>, i: int) -> bool {
    let before = s.take(i);
    match s[i] {
        ElementModel::Value(t, _) => i == 0 && severity_named(t) is Some,
        ElementModel::Path(segs, _) => segs.len() == 2 && !starts_with_underscore(segs[0])
            && !starts_with_underscore(segs[1]) && !any_key_value(before),
        ElementModel::KeyValue(k, _, _) => any_path(before) && (k == "see_also"@ || (k
            == "reason"@ && !any_reason(before))),
    }
}

pub open spec fn all_in_place(s: Seq<ElementModel>) -> bool {
    forall|i: int| 0 <= i < s.len() ==> #[trigger] in_place(s, i)
}

/// The state the checker is in after reading `s` without error.
pub open spec fn expected_state(s: Seq<ElementModel>) -> CheckState {
    CheckState {
        met_severity: s.len() > 0 && s[0] is Value,
        met_report_ids: any_path(s),
        met_key_value: any_key_value(s),
        met_reason: any_reason(s),
        args: ArgumentsModel {
            severity: leading_severity(s),
            report_ids: report_ids_of(s),
            see_also: see_also_of(s),
            reason: reason_of(s),
        },
    }
}

proof fn lemma_check_run_characterized(s: Seq<ElementModel>)
    ensures
        check_run(s) is Ok <==> all_in_place(s),
        check_run(s) matches Ok(st) ==> st == expected_state(s),
    decreases s.len(),
{
    if s.len() > 0 {
        let t = s.drop_last();
        let n = t.len() as int;
        lemma_check_run_characterized(t);
        assert forall|i: int| 0 <= i < n implies in_place(s, i) == in_place(t, i) by {
            assert(s.take(i) =~= t.take(i));
        }
        assert(s.take(n) =~= t);
        if n > 0 {
            assert(t[0] == s[0]);
        }
        match check_run(t) {
            Err(e) => {
                let i = choose|i: int| 0 <= i < n && !#[trigger] in_place(t, i);
                assert(!in_place(s, i));
            },
            Ok(st) => {
                let e = s.last();
                assert(check_run(s) == check_step(st, e));
                reveal_strlit("reason");
                reveal_strlit("see_also");
                assert("reason"@[0] != "see_also"@[0]);
                if n > 0 {
                    assert(in_place(t, 0));
                    if t[0] is Path {
                        lemma_any_path_at(t, 0);
                    }
                }
                assert(s.take(n) == t);
                assert(s[n] == e);
                if n > 0 && t[0] is KeyValue {
                    assert(t.take(0) =~= Seq::<ElementModel>::empty());
                    assert(!any_path(t.take(0)));
                }
                match e {
                    ElementModel::Value(tx, sp) => {
                        assert(in_place(s, n) <==> check_step(st, e) is Ok);
                    },
                    ElementModel::Path(segs, sp) => {
                        assert(in_place(s, n) <==> check_step(st, e) is Ok);
                    },
                    ElementModel::KeyValue(k, ks, v) => {
                        assert(in_place(s, n) <==> check_step(st, e) is Ok);
                    },
                }
                if check_run(s) is Ok {
                    let st2 = check_step(st, e)->Ok_0;
                    if n == 0 {
                        assert(s[0] == e);
                    } else {
                        assert(s[0] == t[0]);
                    }
                    assert(st2.args.report_ids == report_ids_of(s));
                    assert(st2.args.see_also == see_also_of(s));
                    assert(st2.args.reason == reason_of(s));
                    assert(st2.args.severity == leading_severity(s));
                    assert(st2.met_severity == (s.len() > 0 && s[0] is Value));
                }
                if check_run(s) is Ok {
                    assert forall|i: int| 0 <= i < s.len() implies #[trigger] in_place(s, i) by {
                        if i < n {
                            assert(in_place(t, i));
                        }
                    }
                }
                if all_in_place(s) {
                    assert(in_place(s, n));
                }
            },
        }
    }
}

proof fn lemma_any_path_at(s: Seq<ElementModel>, i: int)
    requires
        0 <= i < s.len(),
        s[i] is Path,
    ensures
        any_path(s),
    decreases s.len(),
{
    if i < s.len() - 1 {
        lemma_any_path_at(s.drop_last(), i);
    }
}

/// A mark's element list is accepted exactly when every element stands
/// where it is allowed and a `reason` is present; the accepted arguments are
/// the leading severity, the report ids of all paths, the `see_also` values
/// in order, and the `reason` value.
pub proof fn law_accepted_iff_in_place(els: Seq<ElementModel>, whole: SpanRange)
    ensures
        spec_check_elements(els, whole) is Ok <==> all_in_place(els) && any_reason(els),
        spec_check_elements(els, whole) matches Ok(a) ==> {
            &&& a.severity == leading_severity(els)
            &&& a.report_ids == report_ids_of(els)
            &&& a.see_also == see_also_of(els)
            &&& a.reason == reason_of(els)
        },
{
    lemma_check_run_characterized(els);
}

/// Whether `r` is the outcome that `m` describes.
pub open spec fn outcome_is(r: Result<Arguments, MarkError>, m: Result<ArgumentsModel, ErrorModel>) -> bool {
    match (r, m) {
        (Ok(a), Ok(am)) => a@ == am,
        (Err(e), Err(em)) => e@ == em,
        _ => false,
    }
}

/// `toks` is the conversion of all of the stream's top-level token trees:
/// the trees `token_trees` gives for it, each turned into one token by
/// `token_of`, in order, none left out.
pub closed spec fn stream_tokens(stream: proc_macro2::TokenStream, toks: Seq<Token>) -> bool {
    exists|trees: Vec<proc_macro2::TokenTree>|
        call_ensures(token_trees, (stream,), trees) && toks.len() == trees@.len() && (forall|i: int|
            0 <= i < trees@.len() ==> call_ensures(token_of, (&trees@[i],), #[trigger] toks[i]))
}

/// The top level of a token stream as plain tokens, in order.
fn tokens_of_stream(stream: proc_macro2::TokenStream) -> (toks: Vec<Token>)
    ensures
        stream_tokens(stream, toks@),
{
    let ghost s = stream;
    let trees = token_trees(stream);
    assert(call_ensures(token_trees, (s,), trees));
    let mut toks: Vec<Token> = Vec::new();
    let n = trees.len();
    let mut i: usize = 0;
    while i < n
        invariant
            n == trees@.len(),
            i <= n,
            toks@.len() == i,
            forall|k: int| 0 <= k < i ==> call_ensures(token_of, (&trees@[k],), #[trigger] toks@[k]),
        decreases n - i,
    {
        let t = token_of(&trees[i]);
        assert(call_ensures(token_of, (&trees@[i as int],), t));
        toks.push(t);
        i = i + 1;
    }
    toks
}

/// Parses `scholium::mark` attribute arguments:
///
/// * `<severity>, <list of report-ids>, see_also=<str>, reason=<str>`
/// * `<severity>, <list of report-ids>, reason=<str>`
/// * `<list of report-ids>, see_also=<str>, reason=<str>`
/// * `<list of report-ids>, reason=<str>`
///
/// `severity` is a lower-case [`Severity`] name; report ids are one or more
/// two-segment, non-absolute paths whose segments do not start with `_`
/// (generic arguments on a segment, as in `a::b<T>`, are skipped);
/// `see_also` may repeat and mix with the single, mandatory `reason`.
/// The outcome is the one [`spec_parse_arguments`] gives for the stream's
/// tokens, with end-of-input errors at the call site. The contract says only
/// that it is that outcome for some token list: how the stream becomes
/// plain tokens is proc-macro2's work and is not stated here, and
/// [`parse_arguments`] states the outcome for given tokens exactly.
pub fn parse_mark_attrs(tokens: proc_macro2::TokenStream) -> (r: Result<Arguments, MarkError>)
    ensures
        exists|toks: Seq<Token>, site: SpanRange| #[trigger]
            outcome_is(r, spec_parse_arguments(toks, site, site)),
        exists|toks: Seq<Token>, site: SpanRange|
            stream_tokens(tokens, toks) && #[trigger] outcome_is(
                r,
                spec_parse_arguments(toks, site, site),
            ),
{
    let ghost stream = tokens;
    let toks = tokens_of_stream(tokens);
    let site = call_site_span();
    let r = parse_arguments(&toks, site, site);
    assert(outcome_is(r, spec_parse_arguments(toks@, site, site)));
    assert(stream_tokens(stream, toks@));
    r
}

/// Parses the arguments of an attribute whose argument list closes at
/// `scope` (end-of-input errors point there), as [`parse_mark_attrs`] does
/// otherwise. As there, the contract names the grammar's outcome for some
/// token list and spans, not for the stream's own tokens.
pub fn parse_mark_args_in(tokens: proc_macro2::TokenStream, scope: &proc_macro2::Span) -> (r: Result<
    Arguments,
    MarkError,
>)
    ensures
        exists|toks: Seq<Token>, scope_range: SpanRange, site: SpanRange| #[trigger]
            outcome_is(r, spec_parse_arguments(toks, scope_range, site)),
        exists|toks: Seq<Token>, scope_range: SpanRange, site: SpanRange|
            stream_tokens(tokens, toks) && #[trigger] outcome_is(
                r,
                spec_parse_arguments(toks, scope_range, site),
            ),
{
    let ghost stream = tokens;
    let toks = tokens_of_stream(tokens);
    let scope_range = span_range(scope);
    let site = call_site_span();
    let r = parse_arguments(&toks, scope_range, site);
    assert(outcome_is(r, spec_parse_arguments(toks@, scope_range, site)));
    assert(stream_tokens(stream, toks@));
    r
}

} // verus!
