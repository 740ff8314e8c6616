//! The text of the `list` and `explain` commands.
use vstd::prelude::*;

use crate::config::{has_definition, Configuration, ReportDefinition};
use crate::ident::{severity_text, Ident, ReportId, ReportIdKey};
use crate::setup::FieldDetail;

verus! {

/// The display name of `group` in `groups`, the first one listed.
pub open spec fn group_name(groups: Seq<(Ident, String)>, group: Seq<char>) -> Option<Seq<char>>
    decreases groups.len(),
{
    if groups.len() == 0 {
        None
    } else if groups[0].0@ == group {
        Some(groups[0].1@)
    } else {
        group_name(groups.skip(1), group)
    }
}

/// `group::id`.
pub open spec fn report_id_text(k: ReportIdKey) -> Seq<char> {
    k.0 + "::"@ + k.1
}

/// The lines listed for definition `i`. In compact detail, its report id.
/// In full detail, where its group differs from the one before and has a
/// display name, first a blank line (unless it is the first definition)
/// and `group: display name`; then `group::id: display name`.
pub open spec fn item_lines(
    defs: Seq<(ReportId, ReportDefinition)>,
    groups: Seq<(Ident, String)>,
    detail: FieldDetail,
    i: int,
) -> Seq<Seq<char>> {
    let k = defs[i].0@;
    match detail {
        FieldDetail::Compact => seq![report_id_text(k)],
        FieldDetail::Full => {
            let header = if i == 0 || defs[i - 1].0@.0 != k.0 {
                match group_name(groups, k.0) {
                    Some(name) => (if i > 0 {
                        seq![Seq::<char>::empty()]
                    } else {
                        Seq::empty()
                    }) + seq![k.0 + ": "@ + name],
                    None => Seq::empty(),
                }
            } else {
                Seq::empty()
            };
            header + seq![report_id_text(k) + ": "@ + defs[i].1.display_name@]
        },
    }
}

/// The lines listed for the first `n` definitions.
pub open spec fn listed_lines(
    defs: Seq<(ReportId, ReportDefinition)>,
    groups: Seq<(Ident, String)>,
    detail: FieldDetail,
    n: int,
) -> Seq<Seq<char>>
    decreases n,
{
    if n <= 0 {
        Seq::empty()
    } else {
        listed_lines(defs, groups, detail, n - 1) + item_lines(defs, groups, detail, n - 1)
    }
}

/// The display name of `group`, the first one listed.
fn find_group_name<'a>(groups: &'a Vec<(Ident, String)>, group: &Ident) -> (r: Option<&'a String>)
    ensures
        match r {
            Some(n) => group_name(groups@, group@) == Some(n@),
            None => group_name(groups@, group@) is None,
        },
{
    let n = groups.len();
    let mut i: usize = 0;
    assert(groups@.skip(0) =~= groups@);
    while i < n
        invariant
            n == groups@.len(),
            i <= n,
            group_name(groups@, group@) == group_name(groups@.skip(i as int), group@),
        decreases n - i,
    {
        assert(groups@.skip(i as int)[0] == groups@[i as int]);
        assert(groups@.skip(i as int).skip(1) =~= groups@.skip(i + 1));
        if groups[i].0.same(group) {
            return Some(&groups[i].1);
        }
        i = i + 1;
    }
    None
}

/// The lines the `list` command prints for the known definitions, in
/// report id order: in compact detail one report id a line; in full detail
/// grouped, each group introduced by its display name.
pub fn list_lines(configuration: &Configuration, detail: FieldDetail) -> (r: Vec<String>)
    ensures
        r@.map_values(|s: String| s@) == listed_lines(
            configuration.definitions(),
            configuration.groups(),
            detail,
            configuration.definitions().len() as int,
        ),
{
    let defs = configuration.report_definitions();
    let groups = configuration.group_display_names();
    let mut lines: Vec<String> = Vec::new();
    let n = defs.len();
    let mut i: usize = 0;
    while i < n
        invariant
            n == defs@.len(),
            defs@ == configuration.definitions(),
            groups@ == configuration.groups(),
            i <= n,
            lines@.map_values(|s: String| s@) == listed_lines(defs@, groups@, detail, i as int),
        decreases n - i,
    {
        let ghost before = lines@.map_values(|s: String| s@);
        let id = &defs[i].0;
        let definition = &defs[i].1;
        let mut id_text = id.to_string();
        match detail {
            FieldDetail::Compact => {
                lines.push(id_text);
            },
            FieldDetail::Full => {
                let new_group = i == 0 || !defs[i - 1].0.group().same(id.group());
                if new_group {
                    match find_group_name(groups, id.group()) {
                        Some(name) => {
                            if i > 0 {
                                lines.push(String::new());
                            }
                            let mut header = id.group().to_string();
                            header.append(": ");
                            header.append(name.as_str());
                            lines.push(header);
                        },
                        None => {},
                    }
                }
                id_text.append(": ");
                id_text.append(definition.display_name.as_str());
                lines.push(id_text);
            },
        }
        assert(lines@.map_values(|s: String| s@) =~= before + item_lines(defs@, groups@, detail, i as int));
        i = i + 1;
    }
    lines
}

/// What `explain` prints for a definition: its short message, its default
/// severity, and its documentation.
pub open spec fn explanation(d: ReportDefinition) -> Seq<char> {
    d.short_message@ + "\nDefault severity: "@ + severity_text(d.severity) + "\n\n"@
        + d.documentation@
}

/// The explanation of a definition leads with its short message, whatever
/// its long message: then the default severity on a line of its own, a
/// blank line, and the documentation last.
pub proof fn law_explanation_leads_with_the_short_message(d: ReportDefinition)
    ensures
        ({
            let lead = d.short_message@ + "\nDefault severity: "@;
            let t = explanation(d);
            &&& lead.len() <= t.len()
            &&& t.take(lead.len() as int) == lead
            &&& t.skip(lead.len() as int).take(severity_text(d.severity).len() as int) == severity_text(d.severity)
            &&& d.documentation@.len() <= t.len()
            &&& t.skip(t.len() - d.documentation@.len()) == d.documentation@
        }),
{
    let lead = d.short_message@ + "\nDefault severity: "@;
    let t = explanation(d);
    let sev = severity_text(d.severity);
    let rest = "\n\n"@ + d.documentation@;
    assert(t =~= lead + sev + "\n\n"@ + d.documentation@);
    assert(t.take(lead.len() as int) =~= lead);
    assert(t.skip(lead.len() as int).take(sev.len() as int) =~= sev);
    assert(t.skip(t.len() - d.documentation@.len()) =~= d.documentation@);
}

/// The explanation of report `id`, when it is defined.
pub fn explain_text(configuration: &Configuration, id: &ReportId) -> (r: Option<String>)
    requires
        configuration.wf(),
    ensures
        match r {
            Some(t) => exists|d: ReportDefinition|
                has_definition(configuration.definitions(), id@, d) && t@ == #[trigger] explanation(d),
            None => forall|d: ReportDefinition| !has_definition(configuration.definitions(), id@, d),
        },
{
    match configuration.definition_of(id) {
        Some(d) => {
            let mut t = d.short_message.clone();
            t.append("\nDefault severity: ");
            let s = d.severity.to_string();
            t.append(s.as_str());
            t.append("\n\n");
            t.append(d.documentation.as_str());
            assert(t@ =~= explanation(*d));
            Some(t)
        },
        None => None,
    }
}

} // verus!
