//! Project configuration: report definitions grouped by file, profiles,
//! and the ordered tables they are collected into.
use vstd::prelude::*;

use crate::ident::{spec_ident_from_str, Ident, Prefix, PrefixKey, ReportId, ReportIdKey, Severity};
use crate::order::{
    lemma_text_lt_asymmetric, lemma_text_lt_irreflexive, lemma_text_lt_total,
    lemma_text_lt_transitive, text_less, text_lt,
};
use crate::setup::{FieldDetail, FormatKind};
use crate::text::{chars_of, same_text, string_of};

verus! {

/// Full report description.
#[derive(Clone, Debug, PartialEq, Eq)]
pub struct ReportDefinition {
    /// Default report severity.
    pub severity: Severity,
    /// Report display name.
    pub display_name: String,
    /// Concise description used in normal output.
    pub short_message: String,
    /// Long description used in normal output if requested; `short_message`
    /// is used by default.
    pub long_message: Option<String>,
    /// Full explanation and motivation used by `cargo scholium explain`.
    pub documentation: String,
}

impl ReportDefinition {
    /// A copy of the definition.
    pub fn duplicate(&self) -> (r: ReportDefinition)
        ensures
            r == *self,
    {
        let long_message = match &self.long_message {
            Some(m) => Some(m.clone()),
            None => None,
        };
        ReportDefinition {
            severity: self.severity,
            display_name: self.display_name.clone(),
            short_message: self.short_message.clone(),
            long_message,
            documentation: self.documentation.clone(),
        }
    }
}

/// Report configuration file of one group.
#[derive(Clone, Debug, PartialEq, Eq)]
pub struct ReportConfig {
    /// Display name for help.
    pub display_name: String,
    /// Report definitions by report id within the group; ids are distinct.
    pub reports: Vec<(Ident, ReportDefinition)>,
}

/// A named set of settings.
#[derive(Clone, Debug, PartialEq, Eq)]
pub struct Profile {
    /// Output format kind.
    pub format: Option<FormatKind>,
    /// Output details for human output.
    pub detail: Option<FieldDetail>,
    /// Default severity for unknown report ids; if provided, unknown report
    /// ids are treated as normal output.
    pub unknown: Option<Severity>,
    /// Output to the provided file.
    pub output: Option<String>,
    /// Severity overrides by prefix; prefixes are distinct.
    pub overrides: Vec<(Prefix, Severity)>,
}

/// The project configuration file: profiles by name; names are distinct.
#[derive(Clone, Debug, PartialEq, Eq)]
pub struct ProjectConfig {
    pub profiles: Option<Vec<(String, Profile)>>,
}

impl Profile {
    /// The empty profile: nothing set, no overrides.
    pub fn default() -> (r: Profile)
        ensures
            r.format is None,
            r.detail is None,
            r.unknown is None,
            r.output is None,
            r.overrides@.len() == 0,
    {
        Profile { format: None, detail: None, unknown: None, output: None, overrides: Vec::new() }
    }
}

impl ProjectConfig {
    /// The configuration of a project without a configuration file.
    pub fn default() -> (r: ProjectConfig)
        ensures
            r.profiles is None,
    {
        ProjectConfig { profiles: None }
    }
}

/// The profile named `id` in `profiles`, if any.
pub open spec fn profile_named(profiles: Seq<(String, Profile)>, id: Seq<char>) -> Option<Profile>
    decreases profiles.len(),
{
    if profiles.len() == 0 {
        None
    } else if profiles.last().0@ == id {
        Some(profiles.last().1)
    } else {
        profile_named(profiles.drop_last(), id)
    }
}

/// The profile that `profile_id` selects among `profiles`, if any.
pub open spec fn selected_profile(
    profiles: Option<Vec<(String, Profile)>>,
    profile_id: Option<&str>,
) -> Option<Profile> {
    match (profile_id, profiles) {
        (Some(id), Some(p)) => profile_named(p@, id@),
        _ => None,
    }
}

/// Nothing is set in `p`.
pub open spec fn is_empty_profile(p: Profile) -> bool {
    p.format is None && p.detail is None && p.unknown is None && p.output is None
        && p.overrides@.len() == 0
}

/// The profile a run uses: the one named `profile_id` when there is one by
/// that name, the empty profile otherwise.
pub fn obtain_profile(config: ProjectConfig, profile_id: Option<&str>) -> (r: Profile)
    ensures
        match selected_profile(config.profiles, profile_id) {
            Some(p) => r == p,
            None => is_empty_profile(r),
        },
{
    let id = match profile_id {
        Some(id) => id,
        None => {
            return Profile::default();
        },
    };
    let mut profiles = match config.profiles {
        Some(p) => p,
        None => {
            return Profile::default();
        },
    };
    let ghost all = profiles@;
    assert(config.profiles->Some_0@ == all);
    while profiles.len() > 0
        invariant
            config.profiles->Some_0@ == all,
            config.profiles is Some,
            profile_id == Some(id),
            profile_named(all, id@) == profile_named(profiles@, id@),
        decreases profiles@.len(),
    {
        let ghost before = profiles@;
        let (name, profile) = profiles.pop().unwrap();
        assert(before.last() == (name, profile));
        assert(profiles@ == before.drop_last());
        if same_text(name.as_str(), id) {
            assert(profile_named(before, id@) == Some(profile));
            return profile;
        }
    }
    Profile::default()
}

/// Key order of report ids: by group, then by id.
pub open spec fn report_id_lt(a: ReportIdKey, b: ReportIdKey) -> bool {
    text_lt(a.0, b.0) || (a.0 == b.0 && text_lt(a.1, b.1))
}

pub fn report_id_less(a: &ReportId, b: &ReportId) -> (r: bool)
    ensures
        r == report_id_lt(a@, b@),
{
    text_less(a.group().as_str(), b.group().as_str()) || (same_text(
        a.group().as_str(),
        b.group().as_str(),
    ) && text_less(a.id().as_str(), b.id().as_str()))
}

pub proof fn lemma_report_id_lt_order(a: ReportIdKey, b: ReportIdKey, c: ReportIdKey)
    ensures
        !report_id_lt(a, a),
        report_id_lt(a, b) && report_id_lt(b, c) ==> report_id_lt(a, c),
        report_id_lt(a, b) || report_id_lt(b, a) || a == b,
        report_id_lt(a, b) ==> !report_id_lt(b, a),
{
    lemma_text_lt_irreflexive(a.0);
    lemma_text_lt_irreflexive(a.1);
    lemma_text_lt_total(a.0, b.0);
    lemma_text_lt_total(a.1, b.1);
    if text_lt(a.0, b.0) && text_lt(b.0, c.0) {
        lemma_text_lt_transitive(a.0, b.0, c.0);
    }
    if text_lt(a.1, b.1) && text_lt(b.1, c.1) {
        lemma_text_lt_transitive(a.1, b.1, c.1);
    }
    if text_lt(a.0, b.0) {
        lemma_text_lt_asymmetric(a.0, b.0);
    }
    if text_lt(a.1, b.1) {
        lemma_text_lt_asymmetric(a.1, b.1);
    }
}

pub open spec fn group_keys(v: Seq<(Ident, String)>) -> Seq<Seq<char>> {
    v.map_values(|e: (Ident, String)| e.0@)
}

pub open spec fn definition_keys(v: Seq<(ReportId, ReportDefinition)>) -> Seq<ReportIdKey> {
    v.map_values(|e: (ReportId, ReportDefinition)| e.0@)
}

/// Keys strictly ascending.
pub open spec fn texts_ascending(keys: Seq<Seq<char>>) -> bool {
    forall|i: int, j: int| 0 <= i < j < keys.len() ==> text_lt(keys[i], keys[j])
}

/// Keys strictly ascending.
pub open spec fn report_ids_ascending(keys: Seq<ReportIdKey>) -> bool {
    forall|i: int, j: int| 0 <= i < j < keys.len() ==> report_id_lt(keys[i], keys[j])
}

/// All known report definitions, and group display names, each table
/// ordered by key without repeats.
#[derive(Debug, PartialEq, Eq)]
pub struct Configuration {
    group_display_names: Vec<(Ident, String)>,
    report_definitions: Vec<(ReportId, ReportDefinition)>,
}

/// The group `group` is shown as `name` in `entries`.
pub open spec fn has_group(entries: Seq<(Ident, String)>, group: Seq<char>, name: Seq<char>) -> bool {
    exists|i: int| 0 <= i < entries.len() && #[trigger] entries[i].0@ == group && entries[i].1@ == name
}

/// The report `id` is defined as `def` in `entries`.
pub open spec fn has_definition(
    entries: Seq<(ReportId, ReportDefinition)>,
    id: ReportIdKey,
    def: ReportDefinition,
) -> bool {
    exists|i: int| 0 <= i < entries.len() && #[trigger] entries[i].0@ == id && entries[i].1 == def
}

impl Configuration {
    /// Both tables ordered by key, without repeats.
    pub closed spec fn wf(&self) -> bool {
        &&& texts_ascending(group_keys(self.group_display_names@))
        &&& report_ids_ascending(definition_keys(self.report_definitions@))
    }

    pub closed spec fn groups(&self) -> Seq<(Ident, String)> {
        self.group_display_names@
    }

    pub closed spec fn definitions(&self) -> Seq<(ReportId, ReportDefinition)> {
        self.report_definitions@
    }

    /// The configuration with nothing defined.
    pub fn new() -> (r: Configuration)
        ensures
            r.wf(),
            r.groups().len() == 0,
            r.definitions().len() == 0,
    {
        let r = Configuration { group_display_names: Vec::new(), report_definitions: Vec::new() };
        assert(group_keys(r.group_display_names@) =~= Seq::<Seq<char>>::empty());
        assert(definition_keys(r.report_definitions@) =~= Seq::<ReportIdKey>::empty());
        r
    }

    /// Group display names, ascending by group.
    pub fn group_display_names(&self) -> (r: &Vec<(Ident, String)>)
        ensures
            r@ == self.groups(),
    {
        &self.group_display_names
    }

    /// Report definitions, ascending by report id.
    pub fn report_definitions(&self) -> (r: &Vec<(ReportId, ReportDefinition)>)
        ensures
            r@ == self.definitions(),
    {
        &self.report_definitions
    }

    /// Sets the display name of `group`, replacing any earlier one.
    pub fn insert_group(&mut self, group: Ident, name: String)
        requires
            old(self).wf(),
        ensures
            final(self).wf(),
            final(self).definitions() == old(self).definitions(),
            forall|g: Seq<char>, n: Seq<char>|
                has_group(final(self).groups(), g, n) <==> ((g == group@ && n == name@) || (g
                    != group@ && has_group(old(self).groups(), g, n))),
    {
        let ghost before = self.group_display_names@;
        let ghost keys = group_keys(before);
        let len = self.group_display_names.len();
        let mut i: usize = 0;
        while i < len && text_less(
            self.group_display_names[i].0.as_str(),
            group.as_str(),
        )
            invariant
                len == before.len(),
                self.group_display_names@ == before,
                keys == group_keys(before),
                i <= len,
                forall|k: int| 0 <= k < i ==> text_lt(#[trigger] keys[k], group@),
            decreases len - i,
        {
            assert(keys[i as int] == before[i as int].0@);
            i = i + 1;
        }
        let present = i < len && same_text(self.group_display_names[i].0.as_str(), group.as_str());
        proof {
            if i < len {
                assert(keys[i as int] == before[i as int].0@);
                lemma_text_lt_total(keys[i as int], group@);
            }
        }
        let ghost gkey = group@;
        let ghost gname = name@;
        if present {
            self.group_display_names.set(i, (group, name));
        } else {
            self.group_display_names.insert(i, (group, name));
        }
        proof {
            if !present {
                assert forall|k: int| i <= k < keys.len() implies text_lt(gkey, #[trigger] keys[k]) by {
                    if k > i {
                        lemma_text_lt_transitive(gkey, keys[i as int], keys[k]);
                    }
                }
            }
            let after = self.group_display_names@;
            let akeys = group_keys(after);
            assert forall|a: int, b: int| 0 <= a < b < akeys.len() implies text_lt(
                akeys[a],
                akeys[b],
            ) by {
                if present {
                    assert(akeys[a] == if a == i {
                        gkey
                    } else {
                        keys[a]
                    });
                    assert(akeys[b] == if b == i {
                        gkey
                    } else {
                        keys[b]
                    });
                } else {
                    assert(akeys[a] == if a < i {
                        keys[a]
                    } else if a == i {
                        gkey
                    } else {
                        keys[a - 1]
                    });
                    assert(akeys[b] == if b < i {
                        keys[b]
                    } else if b == i {
                        gkey
                    } else {
                        keys[b - 1]
                    });
                    if a < i && b > i {
                        assert(text_lt(gkey, keys[b - 1]));
                        lemma_text_lt_transitive(keys[a], gkey, keys[b - 1]);
                    }
                    if a == i && b > i {
                        assert(text_lt(gkey, keys[b - 1]));
                    }
                }
            }
            assert forall|g: Seq<char>, n: Seq<char>|
                has_group(after, g, n) <==> ((g == gkey && n == gname) || (g != gkey && has_group(
                    before,
                    g,
                    n,
                ))) by {
                if has_group(after, g, n) {
                    let k = choose|k: int|
                        0 <= k < after.len() && #[trigger] after[k].0@ == g && after[k].1@ == n;
                    if k != i {
                        let kb = if present || k < i {
                            k
                        } else {
                            k - 1
                        };
                        assert(after[k] == before[kb]);
                        assert(keys[kb] == before[kb].0@);
                        if g == gkey {
                            if kb < i {
                                lemma_text_lt_irreflexive(gkey);
                            } else if present {
                                assert(kb > i);
                                assert(text_lt(keys[i as int], keys[kb]));
                                lemma_text_lt_irreflexive(gkey);
                            } else {
                                assert(kb >= i);
                                if kb > i {
                                    lemma_text_lt_transitive(gkey, keys[i as int], keys[kb]);
                                }
                                lemma_text_lt_irreflexive(gkey);
                            }
                        }
                    }
                }
                if g == gkey && n == gname {
                    assert(after[i as int].0@ == g);
                }
                if g != gkey && has_group(before, g, n) {
                    let k = choose|k: int|
                        0 <= k < before.len() && #[trigger] before[k].0@ == g && before[k].1@ == n;
                    assert(keys[k] == before[k].0@);
                    if present {
                        assert(k != i);
                        assert(after[k] == before[k]);
                    } else if k < i {
                        assert(after[k] == before[k]);
                    } else {
                        assert(after[k + 1] == before[k]);
                    }
                }
            }
        }
    }

    /// Sets the definition of report `id`, replacing any earlier one.
    pub fn insert_definition(&mut self, id: ReportId, definition: ReportDefinition)
        requires
            old(self).wf(),
        ensures
            final(self).wf(),
            final(self).groups() == old(self).groups(),
            forall|k: ReportIdKey, d: ReportDefinition|
                has_definition(final(self).definitions(), k, d) <==> ((k == id@ && d == definition)
                    || (k != id@ && has_definition(old(self).definitions(), k, d))),
    {
        let ghost before = self.report_definitions@;
        let ghost keys = definition_keys(before);
        let len = self.report_definitions.len();
        let mut i: usize = 0;
        while i < len && report_id_less(&self.report_definitions[i].0, &id)
            invariant
                len == before.len(),
                self.report_definitions@ == before,
                keys == definition_keys(before),
                i <= len,
                forall|k: int| 0 <= k < i ==> report_id_lt(#[trigger] keys[k], id@),
            decreases len - i,
        {
            assert(keys[i as int] == before[i as int].0@);
            i = i + 1;
        }
        let present = i < len && self.report_definitions[i].0.same(&id);
        let ghost ikey = id@;
        proof {
            if i < len {
                assert(keys[i as int] == before[i as int].0@);
                lemma_report_id_lt_order(keys[i as int], ikey, ikey);
            }
        }
        let ghost idef = definition;
        if present {
            self.report_definitions.set(i, (id, definition));
        } else {
            self.report_definitions.insert(i, (id, definition));
        }
        proof {
            if !present {
                assert forall|k: int| i <= k < keys.len() implies report_id_lt(ikey, #[trigger] keys[k]) by {
                    lemma_report_id_lt_order(ikey, keys[i as int], keys[k]);
                }
            }
            let after = self.report_definitions@;
            let akeys = definition_keys(after);
            assert forall|a: int, b: int| 0 <= a < b < akeys.len() implies report_id_lt(
                akeys[a],
                akeys[b],
            ) by {
                if present {
                    assert(akeys[a] == if a == i {
                        ikey
                    } else {
                        keys[a]
                    });
                    assert(akeys[b] == if b == i {
                        ikey
                    } else {
                        keys[b]
                    });
                } else {
                    assert(akeys[a] == if a < i {
                        keys[a]
                    } else if a == i {
                        ikey
                    } else {
                        keys[a - 1]
                    });
                    assert(akeys[b] == if b < i {
                        keys[b]
                    } else if b == i {
                        ikey
                    } else {
                        keys[b - 1]
                    });
                    if a < i && b > i {
                        assert(report_id_lt(ikey, keys[b - 1]));
                        lemma_report_id_lt_order(keys[a], ikey, keys[b - 1]);
                    }
                    if a == i && b > i {
                        assert(report_id_lt(ikey, keys[b - 1]));
                    }
                }
            }
            assert forall|k: ReportIdKey, d: ReportDefinition|
                has_definition(after, k, d) <==> ((k == ikey && d == idef) || (k != ikey
                    && has_definition(before, k, d))) by {
                if has_definition(after, k, d) {
                    let j = choose|j: int|
                        0 <= j < after.len() && #[trigger] after[j].0@ == k && after[j].1 == d;
                    if j != i {
                        let jb = if present || j < i {
                            j
                        } else {
                            j - 1
                        };
                        assert(after[j] == before[jb]);
                        assert(keys[jb] == before[jb].0@);
                        if k == ikey {
                            lemma_report_id_lt_order(ikey, ikey, ikey);
                            if jb < i {
                            } else if present {
                                assert(jb > i);
                                assert(report_id_lt(keys[i as int], keys[jb]));
                            } else {
                                if jb > i {
                                    lemma_report_id_lt_order(ikey, keys[i as int], keys[jb]);
                                }
                            }
                        }
                    }
                }
                if k == ikey && d == idef {
                    assert(after[i as int].0@ == k);
                }
                if k != ikey && has_definition(before, k, d) {
                    let j = choose|j: int|
                        0 <= j < before.len() && #[trigger] before[j].0@ == k && before[j].1 == d;
                    assert(keys[j] == before[j].0@);
                    if present {
                        assert(j != i);
                        assert(after[j] == before[j]);
                    } else if j < i {
                        assert(after[j] == before[j]);
                    } else {
                        assert(after[j + 1] == before[j]);
                    }
                }
            }
        }
    }

    /// The definition of report `id`, if there is one.
    pub fn definition_of(&self, id: &ReportId) -> (r: Option<&ReportDefinition>)
        requires
            self.wf(),
        ensures
            match r {
                Some(d) => has_definition(self.definitions(), id@, *d),
                None => forall|d: ReportDefinition| !has_definition(self.definitions(), id@, d),
            },
    {
        let len = self.report_definitions.len();
        let mut i: usize = 0;
        while i < len
            invariant
                len == self.report_definitions@.len(),
                i <= len,
                forall|k: int| 0 <= k < i ==> #[trigger] self.report_definitions@[k].0@ != id@,
            decreases len - i,
        {
            if self.report_definitions[i].0.same(id) {
                return Some(&self.report_definitions[i].1);
            }
            i = i + 1;
        }
        None
    }

    /// The display name of `group`, if there is one.
    pub fn group_display_name(&self, group: &Ident) -> (r: Option<&String>)
        ensures
            match r {
                Some(n) => has_group(self.groups(), group@, n@),
                None => forall|n: Seq<char>| !has_group(self.groups(), group@, n),
            },
    {
        let len = self.group_display_names.len();
        let mut i: usize = 0;
        while i < len
            invariant
                len == self.group_display_names@.len(),
                i <= len,
                forall|k: int| 0 <= k < i ==> #[trigger] self.group_display_names@[k].0@ != group@,
            decreases len - i,
        {
            if self.group_display_names[i].0.same(group) {
                return Some(&self.group_display_names[i].1);
            }
            i = i + 1;
        }
        None
    }
}

/// A file name split as `Path::file_stem` and `Path::extension` split it:
/// at the last `.`, unless that dot starts the name.
pub open spec fn last_dot(name: Seq<char>, from: int) -> Option<int>
    decreases from,
{
    if from <= 0 {
        None
    } else if name[from - 1] == '.' {
        Some(from - 1)
    } else {
        last_dot(name, from - 1)
    }
}

pub open spec fn file_stem(name: Seq<char>) -> Seq<char> {
    match last_dot(name, name.len() as int) {
        Some(i) if i > 0 => name.take(i),
        _ => name,
    }
}

pub open spec fn file_extension(name: Seq<char>) -> Option<Seq<char>> {
    match last_dot(name, name.len() as int) {
        Some(i) if i > 0 => Some(name.skip(i + 1)),
        _ => None,
    }
}

/// The group a configuration file defines: its stem, when its extension
/// is `toml` and its stem is an identifier.
pub open spec fn spec_group_of_file(name: Seq<char>) -> Option<Seq<char>> {
    if file_extension(name) == Some("toml"@) && spec_ident_from_str(file_stem(name)) is Ok {
        Some(spec_ident_from_str(file_stem(name))->Ok_0)
    } else {
        None
    }
}

/// The group that the configuration file `name` defines, if any.
pub fn group_of_file(name: &str) -> (r: Option<Ident>)
    ensures
        match (r, spec_group_of_file(name@)) {
            (Some(g), Some(t)) => g@ == t,
            (None, None) => true,
            _ => false,
        },
{
    let chars = chars_of(name);
    let n = chars.len();
    let mut i: usize = n;
    while i > 0 && chars[i - 1] != '.'
        invariant
            chars@ == name@,
            n == chars@.len(),
            i <= n,
            last_dot(name@, n as int) == last_dot(name@, i as int),
        decreases i,
    {
        i = i - 1;
    }
    if i <= 1 {
        return None;
    }
    let dot = i - 1;
    let extension = string_of(&chars, dot + 1, n);
    let stem = string_of(&chars, 0, dot);
    proof {
        assert(name@.skip(dot + 1) =~= chars@.subrange(dot + 1, n as int));
        assert(name@.take(dot as int) =~= chars@.subrange(0, dot as int));
    }
    if !same_text(extension.as_str(), "toml") {
        return None;
    }
    match Ident::from_str(stem.as_str()) {
        Ok(group) => Some(group),
        Err(_) => None,
    }
}

/// The report definitions of a well-formed configuration ascend by report
/// id.
pub proof fn lemma_definitions_ascending(config: Configuration)
    requires
        config.wf(),
    ensures
        report_ids_ascending(definition_keys(config.definitions())),
{
}

/// Entry `j` of `reports` is the first with its id among those from `from` on.
pub open spec fn first_from(reports: Seq<(Ident, ReportDefinition)>, from: int, j: int) -> bool {
    &&& from <= j < reports.len()
    &&& forall|l: int| from <= l < j ==> (#[trigger] reports[l]).0@ != reports[j].0@
}

/// Some entry of `reports` from `from` on has the id `id`.
pub open spec fn has_id_from(reports: Seq<(Ident, ReportDefinition)>, from: int, id: Seq<char>) -> bool {
    exists|j: int| from <= j < reports.len() && (#[trigger] reports[j]).0@ == id
}

/// The definitions after adding the entries of `reports` from `from` on
/// under `group`: for each id, its first entry; the definitions before for
/// every other key.
pub open spec fn defined_after(
    before: Seq<(ReportId, ReportDefinition)>,
    group: Seq<char>,
    reports: Seq<(Ident, ReportDefinition)>,
    from: int,
    k: ReportIdKey,
    d: ReportDefinition,
) -> bool {
    ||| (k.0 == group && exists|j: int|
        first_from(reports, from, j) && (#[trigger] reports[j]).0@ == k.1 && reports[j].1 == d)
    ||| (has_definition(before, k, d) && !(k.0 == group && has_id_from(reports, from, k.1)))
}

/// Adds one group's configuration: its display name and each of its report
/// definitions under `group::id`, replacing earlier ones with the same keys.
/// Where a group configuration repeats an id, its first entry is kept.
pub fn add_group(config: &mut Configuration, group: Ident, group_config: ReportConfig)
    requires
        old(config).wf(),
    ensures
        final(config).wf(),
        forall|g: Seq<char>, n: Seq<char>|
            has_group(final(config).groups(), g, n) <==> ((g == group@ && n
                == group_config.display_name@) || (g != group@ && has_group(
                old(config).groups(),
                g,
                n,
            ))),
        forall|k: ReportIdKey, d: ReportDefinition|
            #[trigger] has_definition(final(config).definitions(), k, d) <==> defined_after(
                old(config).definitions(),
                group@,
                group_config.reports@,
                0,
                k,
                d,
            ),
{
    let ghost old_defs = config.definitions();
    let ghost gkey = group@;
    let ReportConfig { display_name, mut reports } = group_config;
    let ghost rs = reports@;
    config.insert_group(group.duplicate(), display_name);
    let ghost groups_after = config.groups();
    let ghost n = rs.len() as int;
    assert forall|k: ReportIdKey, d: ReportDefinition|
        #[trigger] has_definition(config.definitions(), k, d) <==> defined_after(old_defs, gkey, rs, n, k, d) by {
        assert(!has_id_from(rs, n, k.1));
    }
    while reports.len() > 0
        invariant
            n == rs.len(),
            reports@.len() <= n,
            reports@ == rs.take(reports@.len() as int),
            config.wf(),
            config.groups() == groups_after,
            group@ == gkey,
            forall|k: ReportIdKey, d: ReportDefinition|
                #[trigger] has_definition(config.definitions(), k, d) <==> defined_after(
                    old_defs,
                    gkey,
                    rs,
                    reports@.len() as int,
                    k,
                    d,
                ),
        decreases reports@.len(),
    {
        let ghost i = reports@.len() - 1;
        let (id, definition) = reports.pop().unwrap();
        assert(rs[i] == (id, definition));
        let ghost before = config.definitions();
        let ghost ik = (gkey, id@);
        config.insert_definition(ReportId::from_parts(group.duplicate(), id), definition);
        assert(reports@ =~= rs.take(i));
        assert forall|k: ReportIdKey, d: ReportDefinition|
            #[trigger] has_definition(config.definitions(), k, d) <==> defined_after(old_defs, gkey, rs, i, k, d) by {
            if k == ik {
                assert(first_from(rs, i, i) && rs[i].0@ == k.1);
                assert(has_id_from(rs, i, k.1));
                if defined_after(old_defs, gkey, rs, i, k, d) {
                    let j = choose|j: int| first_from(rs, i, j) && (#[trigger] rs[j]).0@ == k.1 && rs[j].1 == d;
                    if j != i {
                        assert(rs[i].0@ != rs[j].0@);
                    }
                }
            } else {
                assert(has_definition(config.definitions(), k, d) == has_definition(before, k, d));
                if k.0 == gkey {
                    assert(k.1 != id@);
                    assert(has_id_from(rs, i, k.1) == has_id_from(rs, i + 1, k.1)) by {
                        if has_id_from(rs, i, k.1) {
                            let j = choose|j: int| i <= j < rs.len() && (#[trigger] rs[j]).0@ == k.1;
                            assert(j != i);
                        }
                    }
                    assert forall|j: int| first_from(rs, i, j) && (#[trigger] rs[j]).0@ == k.1 implies first_from(
                        rs,
                        i + 1,
                        j,
                    ) by {
                        assert(j != i);
                    }
                    assert forall|j: int| first_from(rs, i + 1, j) && (#[trigger] rs[j]).0@ == k.1 implies first_from(
                        rs,
                        i,
                        j,
                    ) by {
                        assert forall|l: int| i <= l < j implies (#[trigger] rs[l]).0@ != rs[j].0@ by {
                            if l == i {
                                assert(rs[i].0@ == id@);
                            }
                        }
                    }
                }
            }
        }
    }
}

/// A report id has at most one definition, and a group at most one
/// display name, in a well-formed configuration: what is read back for a
/// key is what was last set for it.
pub proof fn law_keys_are_unique(config: Configuration)
    requires
        config.wf(),
    ensures
        forall|k: ReportIdKey, d1: ReportDefinition, d2: ReportDefinition|
            has_definition(config.definitions(), k, d1) && has_definition(config.definitions(), k, d2)
                ==> d1 == d2,
        forall|g: Seq<char>, n1: Seq<char>, n2: Seq<char>|
            has_group(config.groups(), g, n1) && has_group(config.groups(), g, n2) ==> n1 == n2,
{
    let defs = config.report_definitions@;
    let keys = definition_keys(defs);
    assert forall|k: ReportIdKey, d1: ReportDefinition, d2: ReportDefinition|
        has_definition(defs, k, d1) && has_definition(defs, k, d2) implies d1 == d2 by {
        let i = choose|i: int| 0 <= i < defs.len() && #[trigger] defs[i].0@ == k && defs[i].1 == d1;
        let j = choose|j: int| 0 <= j < defs.len() && #[trigger] defs[j].0@ == k && defs[j].1 == d2;
        assert(keys[i] == k && keys[j] == k);
        lemma_report_id_lt_order(k, k, k);
        if i < j {
            assert(report_id_lt(keys[i], keys[j]));
        } else if j < i {
            assert(report_id_lt(keys[j], keys[i]));
        }
    }
    let groups = config.group_display_names@;
    let gkeys = group_keys(groups);
    assert forall|g: Seq<char>, n1: Seq<char>, n2: Seq<char>|
        has_group(groups, g, n1) && has_group(groups, g, n2) implies n1 == n2 by {
        let i = choose|i: int| 0 <= i < groups.len() && #[trigger] groups[i].0@ == g && groups[i].1@ == n1;
        let j = choose|j: int| 0 <= j < groups.len() && #[trigger] groups[j].0@ == g && groups[j].1@ == n2;
        assert(gkeys[i] == g && gkeys[j] == g);
        lemma_text_lt_irreflexive(g);
        if i < j {
            assert(text_lt(gkeys[i], gkeys[j]));
        } else if j < i {
            assert(text_lt(gkeys[j], gkeys[i]));
        }
    }
}

} // verus!
