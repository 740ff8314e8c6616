//! Severity overrides: collecting them from the command line and the
//! profile, and applying them to the known report definitions.
use vstd::prelude::*;

use crate::cli::{Output, SeverityOverrides};
use crate::config::{
    definition_keys, lemma_definitions_ascending, lemma_report_id_lt_order, report_id_lt,
    report_ids_ascending, Configuration, Profile, ReportDefinition,
};
use crate::ident::{key_starts_with, Prefix, PrefixKey, ReportId, ReportIdKey, Severity};
use crate::order::{
    lemma_text_lt_asymmetric, lemma_text_lt_irreflexive, lemma_text_lt_prefix, lemma_text_lt_total,
    lemma_text_lt_transitive, text_less, text_lt,
};
use crate::setup::{setup_tracing, FieldDetail, FormatKind, TracingSetup};
use crate::text::same_text;

verus! {

/// A prefix was given twice on the command line.
#[derive(Clone, Debug, PartialEq, Eq)]
pub struct DuplicatePrefix(pub Prefix);

impl DuplicatePrefix {
    /// `duplicate prefix is defined in CLI parameters: <prefix>`.
    pub fn message(&self) -> (r: String)
        ensures
            r@ == "duplicate prefix is defined in CLI parameters: "@ + crate::ident::prefix_text(self.0@),
    {
        let mut s = "duplicate prefix is defined in CLI parameters: ".to_owned();
        let p = self.0.to_string();
        s.append(p.as_str());
        s
    }
}

/// Derived order of prefixes: by group, then by id with no id first.
pub open spec fn prefix_lt(a: PrefixKey, b: PrefixKey) -> bool {
    text_lt(a.0, b.0) || (a.0 == b.0 && match (a.1, b.1) {
        (None, Some(_)) => true,
        (Some(x), Some(y)) => text_lt(x, y),
        _ => false,
    })
}

pub fn prefix_less(a: &Prefix, b: &Prefix) -> (r: bool)
    ensures
        r == prefix_lt(a@, b@),
{
    if text_less(a.group().as_str(), b.group().as_str()) {
        return true;
    }
    if !same_text(a.group().as_str(), b.group().as_str()) {
        return false;
    }
    match (a.id(), b.id()) {
        (None, Some(_)) => true,
        (Some(x), Some(y)) => text_less(x.as_str(), y.as_str()),
        _ => false,
    }
}

proof fn lemma_prefix_lt_order(a: PrefixKey, b: PrefixKey, c: PrefixKey)
    ensures
        !prefix_lt(a, a),
        prefix_lt(a, b) && prefix_lt(b, c) ==> prefix_lt(a, c),
        prefix_lt(a, b) || prefix_lt(b, a) || a == b,
{
    lemma_text_lt_irreflexive(a.0);
    lemma_text_lt_total(a.0, b.0);
    if text_lt(a.0, b.0) && text_lt(b.0, c.0) {
        lemma_text_lt_transitive(a.0, b.0, c.0);
    }
    if text_lt(a.0, b.0) {
        lemma_text_lt_asymmetric(a.0, b.0);
    }
    if text_lt(b.0, c.0) {
        lemma_text_lt_asymmetric(b.0, c.0);
    }
    if let (Some(x), Some(y)) = (a.1, b.1) {
        lemma_text_lt_total(x, y);
        if let Some(z) = c.1 {
            if text_lt(x, y) && text_lt(y, z) {
                lemma_text_lt_transitive(x, y, z);
            }
        }
    }
    if let Some(x) = a.1 {
        lemma_text_lt_irreflexive(x);
    }
}

/// No prefix occurs twice.
pub open spec fn distinct_prefixes(ov: Seq<(Prefix, Severity)>) -> bool {
    forall|i: int, j: int|
        0 <= i < j < ov.len() ==> (#[trigger] ov[i]).0@ != (#[trigger] ov[j]).0@
}

/// Override `i` is the most specific one under which `path` falls: it
/// applies, and no applicable override comes after it in prefix order.
pub open spec fn is_best_override(ov: Seq<(Prefix, Severity)>, path: ReportIdKey, i: int) -> bool {
    &&& 0 <= i < ov.len()
    &&& key_starts_with(path, ov[i].0@)
    &&& forall|j: int|
        0 <= j < ov.len() && key_starts_with(path, (#[trigger] ov[j]).0@) ==> !prefix_lt(
            ov[i].0@,
            ov[j].0@,
        )
}

/// The severity that the overrides give `path`, if any applies.
pub open spec fn override_for(ov: Seq<(Prefix, Severity)>, path: ReportIdKey) -> Option<Severity> {
    if exists|i: int| is_best_override(ov, path, i) {
        Some(ov[choose|i: int| is_best_override(ov, path, i)].1)
    } else {
        None
    }
}

/// With distinct prefixes there is at most one most specific override.
proof fn lemma_best_override_unique(ov: Seq<(Prefix, Severity)>, path: ReportIdKey, i: int, j: int)
    requires
        distinct_prefixes(ov),
        is_best_override(ov, path, i),
        is_best_override(ov, path, j),
    ensures
        i == j,
{
    lemma_prefix_lt_order(ov[i].0@, ov[j].0@, ov[i].0@);
    if i != j {
        if i < j {
            assert(ov[i].0@ != ov[j].0@);
        } else {
            assert(ov[j].0@ != ov[i].0@);
        }
    }
}

/// Applies the most specific override to a definition's severity. Returns
/// whether the report is now suppressed where its definition did not
/// suppress it.
pub fn update_severity(
    path: &ReportId,
    definition: &mut ReportDefinition,
    overrides: &Vec<(Prefix, Severity)>,
) -> (suppressed: bool)
    requires
        distinct_prefixes(overrides@),
    ensures
        final(definition).severity == match override_for(overrides@, path@) {
            Some(s) => s,
            None => old(definition).severity,
        },
        final(definition).display_name == old(definition).display_name,
        final(definition).short_message == old(definition).short_message,
        final(definition).long_message == old(definition).long_message,
        final(definition).documentation == old(definition).documentation,
        suppressed == (final(definition).severity == Severity::Suppress && old(definition).severity
            != Severity::Suppress),
{
    let n = overrides.len();
    let mut best: Option<usize> = None;
    let mut i: usize = 0;
    while i < n
        invariant
            n == overrides@.len(),
            i <= n,
            match best {
                None => forall|j: int|
                    0 <= j < i ==> !key_starts_with(path@, (#[trigger] overrides@[j]).0@),
                Some(b) => b < i && key_starts_with(path@, overrides@[b as int].0@) && forall|j: int|
                    0 <= j < i && key_starts_with(path@, (#[trigger] overrides@[j]).0@) ==> !prefix_lt(
                        overrides@[b as int].0@,
                        overrides@[j].0@,
                    ),
            },
        decreases n - i,
    {
        if path.starts_with(&overrides[i].0) {
            let better = match best {
                None => true,
                Some(b) => prefix_less(&overrides[b].0, &overrides[i].0),
            };
            if better {
                proof {
                    if let Some(b) = best {
                        assert forall|j: int|
                            0 <= j < i + 1 && key_starts_with(path@, (#[trigger] overrides@[j]).0@)
                                implies !prefix_lt(overrides@[i as int].0@, overrides@[j].0@) by {
                            lemma_prefix_lt_order(
                                overrides@[b as int].0@,
                                overrides@[i as int].0@,
                                overrides@[j].0@,
                            );
                            lemma_prefix_lt_order(
                                overrides@[i as int].0@,
                                overrides@[j].0@,
                                overrides@[b as int].0@,
                            );
                        }
                    } else {
                        lemma_prefix_lt_order(overrides@[i as int].0@, overrides@[i as int].0@, overrides@[i as int].0@);
                    }
                }
                best = Some(i);
            } else {
                proof {
                    let b = best->Some_0;
                    lemma_prefix_lt_order(overrides@[b as int].0@, overrides@[b as int].0@, overrides@[b as int].0@);
                }
            }
        }
        i = i + 1;
    }
    let old_severity = definition.severity;
    let result_severity = match best {
        Some(b) => overrides[b].1,
        None => old_severity,
    };
    proof {
        match best {
            Some(b) => {
                assert(is_best_override(overrides@, path@, b as int));
                let c = choose|c: int| is_best_override(overrides@, path@, c);
                lemma_best_override_unique(overrides@, path@, b as int, c);
            },
            None => {
                assert(!exists|c: int| is_best_override(overrides@, path@, c));
            },
        }
    }
    let suppressed = matches!(result_severity, Severity::Suppress) && !matches!(
        old_severity,
        Severity::Suppress
    );
    definition.severity = result_severity;
    suppressed
}

/// Of two prefixes that a report id falls under, the one that comes later
/// in prefix order is the more specific: its id is longer (no id counts as
/// the shortest).
pub proof fn law_later_prefix_is_more_specific(path: ReportIdKey, a: PrefixKey, b: PrefixKey)
    requires
        key_starts_with(path, a),
        key_starts_with(path, b),
        prefix_lt(a, b),
    ensures
        b.1 is Some,
        a.1 matches Some(x) ==> x.len() < b.1->Some_0.len(),
{
    lemma_text_lt_irreflexive(a.0);
    if let (Some(x), Some(y)) = (a.1, b.1) {
        if y.len() <= x.len() {
            assert(x.take(y.len() as int) =~= path.1.take(y.len() as int));
            if y.len() < x.len() {
                lemma_text_lt_prefix(y, x);
                lemma_text_lt_asymmetric(y, x);
            } else {
                assert(x =~= y);
                lemma_text_lt_irreflexive(x);
            }
        }
    }
}

/// The (prefix, severity) pairs that the command line sets, in the order
/// suppress, error, warning, info, debug, trace.
pub open spec fn cli_pairs(o: SeverityOverrides) -> Seq<(Prefix, Severity)> {
    o.suppress@.map_values(|p: Prefix| (p, Severity::Suppress)) + o.error@.map_values(
        |p: Prefix| (p, Severity::Error),
    ) + o.warning@.map_values(|p: Prefix| (p, Severity::Warning)) + o.info@.map_values(
        |p: Prefix| (p, Severity::Info),
    ) + o.debug@.map_values(|p: Prefix| (p, Severity::Debug)) + o.trace@.map_values(
        |p: Prefix| (p, Severity::Trace),
    )
}

/// Pair `j` is the first whose prefix occurred before it.
pub open spec fn is_first_repeat(s: Seq<(Prefix, Severity)>, j: int) -> bool {
    &&& 0 <= j < s.len()
    &&& exists|k: int| 0 <= k < j && (#[trigger] s[k]).0@ == s[j].0@
    &&& distinct_prefixes(s.take(j))
}

fn contains_prefix(v: &Vec<(Prefix, Severity)>, p: &Prefix) -> (r: bool)
    ensures
        r == exists|k: int| 0 <= k < v@.len() && (#[trigger] v@[k]).0@ == p@,
{
    let n = v.len();
    let mut i: usize = 0;
    while i < n
        invariant
            n == v@.len(),
            i <= n,
            forall|k: int| 0 <= k < i ==> (#[trigger] v@[k]).0@ != p@,
        decreases n - i,
    {
        if v[i].0.same(p) {
            return true;
        }
        i = i + 1;
    }
    false
}

/// Appends each prefix with `severity`.
fn tag_prefixes(severity: Severity, prefixes: Vec<Prefix>, out: &mut Vec<(Prefix, Severity)>)
    ensures
        final(out)@ == old(out)@ + prefixes@.map_values(|p: Prefix| (p, severity)),
{
    let ghost start = out@;
    let ghost ps = prefixes@;
    let mut prefixes = prefixes;
    let n = prefixes.len();
    let mut i: usize = 0;
    while i < n
        invariant
            n == ps.len(),
            i <= n,
            prefixes@ == ps.skip(i as int),
            out@ == start + ps.map_values(|p: Prefix| (p, severity)).take(i as int),
        decreases n - i,
    {
        let prefix = prefixes.remove(0);
        assert(prefix == ps[i as int]);
        out.push((prefix, severity));
        assert(ps.skip(i as int).drop_first() =~= ps.skip(i + 1));
        assert(ps.map_values(|p: Prefix| (p, severity)).take(i + 1) =~= ps.map_values(
            |p: Prefix| (p, severity),
        ).take(i as int).push((ps[i as int], severity)));
        i = i + 1;
    }
    assert(ps.map_values(|p: Prefix| (p, severity)).take(n as int) =~= ps.map_values(
        |p: Prefix| (p, severity),
    ));
}

/// Collects the command-line overrides: suppress, error, warning, info,
/// debug and trace prefixes, each with its severity. A prefix given twice
/// is an error that names the first repeated prefix.
pub fn resolve_cli_severity(overrides: SeverityOverrides) -> (r: Result<
    (Vec<(Prefix, Severity)>, Option<Severity>),
    DuplicatePrefix,
>)
    ensures
        r matches Ok(ok) ==> ok.0@ == cli_pairs(overrides) && distinct_prefixes(ok.0@) && ok.1
            == overrides.unknown,
        r matches Err(e) ==> exists|j: int|
            is_first_repeat(cli_pairs(overrides), j) && cli_pairs(overrides)[j].0 == e.0,
{
    let ghost all = cli_pairs(overrides);
    let SeverityOverrides { suppress, error, warning, info, debug, trace, unknown } = overrides;
    let mut pairs: Vec<(Prefix, Severity)> = Vec::new();
    tag_prefixes(Severity::Suppress, suppress, &mut pairs);
    tag_prefixes(Severity::Error, error, &mut pairs);
    tag_prefixes(Severity::Warning, warning, &mut pairs);
    tag_prefixes(Severity::Info, info, &mut pairs);
    tag_prefixes(Severity::Debug, debug, &mut pairs);
    tag_prefixes(Severity::Trace, trace, &mut pairs);
    assert(pairs@ =~= all);
    let n = pairs.len();
    let mut result: Vec<(Prefix, Severity)> = Vec::new();
    let mut i: usize = 0;
    while i < n
        invariant
            n == all.len(),
            all == cli_pairs(overrides),
            i <= n,
            pairs@ == all.skip(i as int),
            result@ == all.take(i as int),
            distinct_prefixes(result@),
        decreases n - i,
    {
        let pair = pairs.remove(0);
        assert(pair == all[i as int]);
        assert(all.skip(i as int).drop_first() =~= all.skip(i + 1));
        if contains_prefix(&result, &pair.0) {
            proof {
                let k = choose|k: int| 0 <= k < result@.len() && (#[trigger] result@[k]).0@ == pair.0@;
                assert(all[k] == result@[k]);
                assert(is_first_repeat(all, i as int));
                assert(all[i as int].0 == pair.0);
                assert(exists|j: int| is_first_repeat(all, j) && all[j].0 == pair.0);
            }
            return Err(DuplicatePrefix(pair.0));
        }
        let ghost before = result@;
        result.push(pair);
        proof {
            assert(all.take(i + 1) =~= all.take(i as int).push(all[i as int]));
            assert forall|a: int, b: int| 0 <= a < b < result@.len() implies (#[trigger] result@[a]).0@
                != (#[trigger] result@[b]).0@ by {
                if b == result@.len() - 1 {
                    assert(result@[a] == before[a]);
                }
            }
        }
        i = i + 1;
    }
    assert(all.take(n as int) =~= all);
    Ok((result, unknown))
}

/// The severity `ov` gives the prefix `k`, if it lists it.
pub open spec fn severity_of_prefix(ov: Seq<(Prefix, Severity)>, k: PrefixKey) -> Option<Severity> {
    if exists|i: int| 0 <= i < ov.len() && (#[trigger] ov[i]).0@ == k {
        Some(ov[choose|i: int| 0 <= i < ov.len() && (#[trigger] ov[i]).0@ == k].1)
    } else {
        None
    }
}

/// `merged` holds the prefixes of `base` and `top`, each once, with the
/// severity from `top` where both list it.
pub open spec fn is_merge(
    base: Seq<(Prefix, Severity)>,
    top: Seq<(Prefix, Severity)>,
    merged: Seq<(Prefix, Severity)>,
) -> bool {
    &&& distinct_prefixes(merged)
    &&& forall|k: PrefixKey|
        #[trigger] severity_of_prefix(merged, k) == match severity_of_prefix(top, k) {
            Some(s) => Some(s),
            None => severity_of_prefix(base, k),
        }
}

proof fn lemma_severity_at(ov: Seq<(Prefix, Severity)>, i: int)
    requires
        distinct_prefixes(ov),
        0 <= i < ov.len(),
    ensures
        severity_of_prefix(ov, ov[i].0@) == Some(ov[i].1),
{
    let k = ov[i].0@;
    let c = choose|c: int| 0 <= c < ov.len() && (#[trigger] ov[c]).0@ == k;
    if c != i {
        if c < i {
            assert(ov[c].0@ != ov[i].0@);
        } else {
            assert(ov[i].0@ != ov[c].0@);
        }
    }
}

proof fn lemma_severity_witness(ov: Seq<(Prefix, Severity)>, k: PrefixKey)
    requires
        distinct_prefixes(ov),
    ensures
        severity_of_prefix(ov, k) is None <==> forall|i: int|
            0 <= i < ov.len() ==> (#[trigger] ov[i]).0@ != k,
        forall|i: int|
            0 <= i < ov.len() && (#[trigger] ov[i]).0@ == k ==> severity_of_prefix(ov, k) == Some(
                ov[i].1,
            ),
{
    assert forall|i: int| 0 <= i < ov.len() && (#[trigger] ov[i]).0@ == k implies severity_of_prefix(
        ov,
        k,
    ) == Some(ov[i].1) by {
        lemma_severity_at(ov, i);
    }
}

/// One merge step: `p` replaces the entry at `idx` of `before` (or is
/// appended when `idx` is its length) and extends `tpre` to `tnext`.
proof fn lemma_merge_step(
    base: Seq<(Prefix, Severity)>,
    tpre: Seq<(Prefix, Severity)>,
    tnext: Seq<(Prefix, Severity)>,
    before: Seq<(Prefix, Severity)>,
    after: Seq<(Prefix, Severity)>,
    p: (Prefix, Severity),
    idx: int,
)
    requires
        distinct_prefixes(before),
        distinct_prefixes(after),
        distinct_prefixes(tnext),
        tnext == tpre.push(p),
        0 <= idx < after.len(),
        after[idx] == p,
        idx <= before.len(),
        idx < before.len() ==> before[idx].0@ == p.0@,
        after.len() == before.len() || (after.len() == before.len() + 1 && idx == before.len()),
        forall|c: int| 0 <= c < after.len() && c != idx ==> after[c] == before[c],
        forall|c: int| 0 <= c < tpre.len() ==> tnext[c] == tpre[c],
        forall|k: PrefixKey|
            #[trigger] severity_of_prefix(before, k) == match severity_of_prefix(tpre, k) {
                Some(s) => Some(s),
                None => severity_of_prefix(base, k),
            },
    ensures
        forall|k: PrefixKey|
            #[trigger] severity_of_prefix(after, k) == match severity_of_prefix(tnext, k) {
                Some(s) => Some(s),
                None => severity_of_prefix(base, k),
            },
{
    assert(distinct_prefixes(tpre)) by {
        assert forall|a: int, b: int| 0 <= a < b < tpre.len() implies (#[trigger] tpre[a]).0@
            != (#[trigger] tpre[b]).0@ by {
            assert(tnext[a] == tpre[a] && tnext[b] == tpre[b]);
        }
    }
    assert forall|k: PrefixKey| #[trigger] severity_of_prefix(after, k) == match severity_of_prefix(
        tnext,
        k,
    ) {
        Some(s) => Some(s),
        None => severity_of_prefix(base, k),
    } by {
        lemma_severity_witness(after, k);
        lemma_severity_witness(before, k);
        lemma_severity_witness(tnext, k);
        lemma_severity_witness(tpre, k);
        assert(severity_of_prefix(before, k) == match severity_of_prefix(tpre, k) {
            Some(s) => Some(s),
            None => severity_of_prefix(base, k),
        });
        if k == p.0@ {
            assert(after[idx].0@ == k);
            assert(tnext[tpre.len() as int].0@ == k);
        } else {
            assert forall|c: int| 0 <= c < after.len() && (#[trigger] after[c]).0@ == k implies c
                < before.len() && before[c] == after[c] by {}
            assert forall|c: int| 0 <= c < before.len() && (#[trigger] before[c]).0@ == k implies c
                != idx && before[c] == after[c] by {}
            assert forall|c: int| 0 <= c < tnext.len() && (#[trigger] tnext[c]).0@ == k implies c
                < tpre.len() && tpre[c] == tnext[c] by {}
            if exists|c: int| 0 <= c < after.len() && (#[trigger] after[c]).0@ == k {
                let c = choose|c: int| 0 <= c < after.len() && (#[trigger] after[c]).0@ == k;
                assert(before[c].0@ == k);
            }
            if exists|c: int| 0 <= c < tnext.len() && (#[trigger] tnext[c]).0@ == k {
                let c = choose|c: int| 0 <= c < tnext.len() && (#[trigger] tnext[c]).0@ == k;
                assert(tpre[c].0@ == k);
            }
        }
    }
}

/// Merges `top` into `merged`: each of its prefixes replaces the severity
/// of an equal prefix, or is added.
fn merge_overrides(merged: &mut Vec<(Prefix, Severity)>, top: Vec<(Prefix, Severity)>)
    requires
        distinct_prefixes(old(merged)@),
        distinct_prefixes(top@),
    ensures
        is_merge(old(merged)@, top@, final(merged)@),
{
    let ghost base = merged@;
    let ghost ts = top@;
    let mut top = top;
    let n = top.len();
    let mut i: usize = 0;
    proof {
        assert forall|k: PrefixKey| #[trigger] severity_of_prefix(merged@, k) == match severity_of_prefix(
            ts.take(0),
            k,
        ) {
            Some(s) => Some(s),
            None => severity_of_prefix(base, k),
        } by {
            assert(ts.take(0).len() == 0);
        }
    }
    while i < n
        invariant
            n == ts.len(),
            i <= n,
            distinct_prefixes(ts),
            top@ == ts.skip(i as int),
            distinct_prefixes(merged@),
            forall|k: PrefixKey|
                #[trigger] severity_of_prefix(merged@, k) == match severity_of_prefix(
                    ts.take(i as int),
                    k,
                ) {
                    Some(s) => Some(s),
                    None => severity_of_prefix(base, k),
                },
        decreases n - i,
    {
        let (prefix, severity) = top.remove(0);
        assert(ts[i as int] == (prefix, severity));
        assert(ts.skip(i as int).drop_first() =~= ts.skip(i + 1));
        let ghost pk = prefix@;
        let ghost before = merged@;
        let len = merged.len();
        let mut j: usize = 0;
        while j < len && !merged[j].0.same(&prefix)
            invariant
                len == merged@.len(),
                j <= len,
                merged@ == before,
                pk == prefix@,
                forall|k: int| 0 <= k < j ==> (#[trigger] merged@[k]).0@ != pk,
            decreases len - j,
        {
            j = j + 1;
        }
        if j < len {
            merged.set(j, (prefix, severity));
        } else {
            merged.push((prefix, severity));
        }
        proof {
            let after = merged@;
            let tpre = ts.take(i as int);
            let tnext = ts.take(i + 1);
            assert(tnext =~= tpre.push((prefix, severity)));
            assert forall|a: int, b: int| 0 <= a < b < after.len() implies (#[trigger] after[a]).0@
                != (#[trigger] after[b]).0@ by {
                if j < len {
                    if a == j {
                        assert(before[b].0@ != before[j as int].0@);
                    } else if b == j {
                        assert(before[a].0@ != before[j as int].0@);
                    } else {
                        assert(after[a] == before[a] && after[b] == before[b]);
                    }
                } else {
                    if b == len {
                        assert(after[a] == before[a]);
                    } else {
                        assert(after[a] == before[a] && after[b] == before[b]);
                    }
                }
            }
            assert(distinct_prefixes(tnext)) by {
                assert forall|a: int, b: int| 0 <= a < b < tnext.len() implies (#[trigger] tnext[a]).0@
                    != (#[trigger] tnext[b]).0@ by {
                    assert(tnext[a] == ts[a] && tnext[b] == ts[b]);
                }
            }
            let idx: int = if j < len {
                j as int
            } else {
                len as int
            };
            assert forall|c: int| 0 <= c < after.len() && c != idx implies after[c] == before[c]
                by {}
            assert forall|c: int| 0 <= c < before.len() && before[c].0@ != pk implies c != idx
                by {}
            assert forall|c: int| 0 <= c < tpre.len() implies tnext[c] == tpre[c] by {}
            lemma_merge_step(base, tpre, tnext, before, after, (prefix, severity), idx);
        }
        i = i + 1;
    }
    assert(ts.take(n as int) =~= ts);
}

/// A definition with the severity the overrides give it.
pub open spec fn updated_definition(
    d: ReportDefinition,
    ov: Seq<(Prefix, Severity)>,
    path: ReportIdKey,
) -> ReportDefinition {
    ReportDefinition {
        severity: match override_for(ov, path) {
            Some(s) => s,
            None => d.severity,
        },
        ..d
    }
}

/// The overrides suppress a report that its definition does not.
pub open spec fn newly_suppressed(d: ReportDefinition, ov: Seq<(Prefix, Severity)>, path: ReportIdKey) -> bool {
    updated_definition(d, ov, path).severity == Severity::Suppress && d.severity != Severity::Suppress
}

pub open spec fn definition_entries(v: Seq<(ReportId, ReportDefinition)>) -> Seq<(ReportIdKey, ReportDefinition)> {
    v.map_values(|e: (ReportId, ReportDefinition)| (e.0@, e.1))
}

/// The definitions that stay reported, in order, with their severities
/// updated.
pub open spec fn kept_definitions(
    defs: Seq<(ReportIdKey, ReportDefinition)>,
    ov: Seq<(Prefix, Severity)>,
) -> Seq<(ReportIdKey, ReportDefinition)>
    decreases defs.len(),
{
    if defs.len() == 0 {
        Seq::empty()
    } else {
        let (k, d) = defs.last();
        kept_definitions(defs.drop_last(), ov) + if newly_suppressed(d, ov, k) {
            Seq::empty()
        } else {
            seq![(k, updated_definition(d, ov, k))]
        }
    }
}

/// The report ids the overrides newly suppress, in order.
pub open spec fn suppressed_keys(
    defs: Seq<(ReportIdKey, ReportDefinition)>,
    ov: Seq<(Prefix, Severity)>,
) -> Seq<ReportIdKey>
    decreases defs.len(),
{
    if defs.len() == 0 {
        Seq::empty()
    } else {
        let (k, d) = defs.last();
        suppressed_keys(defs.drop_last(), ov) + if newly_suppressed(d, ov, k) {
            seq![k]
        } else {
            Seq::empty()
        }
    }
}

pub open spec fn entry_keys(v: Seq<(ReportIdKey, ReportDefinition)>) -> Seq<ReportIdKey> {
    v.map_values(|e: (ReportIdKey, ReportDefinition)| e.0)
}

/// The kept definitions and the suppressed report ids keep the order of
/// the definitions they come from, so each report id occurs once in each.
proof fn lemma_split_ascending(defs: Seq<(ReportIdKey, ReportDefinition)>, ov: Seq<(Prefix, Severity)>)
    requires
        report_ids_ascending(entry_keys(defs)),
    ensures
        report_ids_ascending(entry_keys(kept_definitions(defs, ov))),
        report_ids_ascending(suppressed_keys(defs, ov)),
        defs.len() > 0 ==> forall|i: int|
            0 <= i < kept_definitions(defs, ov).len() ==> (#[trigger] kept_definitions(defs, ov)[i]).0 == defs.last().0
                || report_id_lt(kept_definitions(defs, ov)[i].0, defs.last().0),
        defs.len() > 0 ==> forall|i: int|
            0 <= i < suppressed_keys(defs, ov).len() ==> #[trigger] suppressed_keys(defs, ov)[i] == defs.last().0
                || report_id_lt(suppressed_keys(defs, ov)[i], defs.last().0),
    decreases defs.len(),
{
    if defs.len() > 0 {
        let pre = defs.drop_last();
        let x = defs.last();
        assert(report_ids_ascending(entry_keys(pre))) by {
            assert forall|i: int, j: int| 0 <= i < j < entry_keys(pre).len() implies report_id_lt(
                entry_keys(pre)[i],
                entry_keys(pre)[j],
            ) by {
                assert(entry_keys(pre)[i] == entry_keys(defs)[i]);
                assert(entry_keys(pre)[j] == entry_keys(defs)[j]);
            }
        }
        lemma_split_ascending(pre, ov);
        let kp = kept_definitions(pre, ov);
        let sp = suppressed_keys(pre, ov);
        let k = kept_definitions(defs, ov);
        let sk = suppressed_keys(defs, ov);
        if pre.len() > 0 {
            assert(entry_keys(defs)[pre.len() - 1] == pre.last().0);
            assert(entry_keys(defs)[pre.len() as int] == x.0);
            assert(report_id_lt(pre.last().0, x.0));
        }
        assert forall|i: int| 0 <= i < kp.len() implies report_id_lt(#[trigger] kp[i].0, x.0) by {
            lemma_report_id_lt_order(kp[i].0, pre.last().0, x.0);
        }
        assert forall|i: int| 0 <= i < sp.len() implies report_id_lt(#[trigger] sp[i], x.0) by {
            lemma_report_id_lt_order(sp[i], pre.last().0, x.0);
        }
        assert forall|i: int, j: int| 0 <= i < j < entry_keys(k).len() implies report_id_lt(
            entry_keys(k)[i],
            entry_keys(k)[j],
        ) by {
            if j < kp.len() {
                assert(k[i] == kp[i] && k[j] == kp[j]);
                assert(entry_keys(kp)[i] == kp[i].0 && entry_keys(kp)[j] == kp[j].0);
            } else {
                assert(k[i] == kp[i]);
            }
        }
        assert forall|i: int, j: int| 0 <= i < j < sk.len() implies report_id_lt(sk[i], sk[j]) by {
            if j < sp.len() {
                assert(sk[i] == sp[i] && sk[j] == sp[j]);
            } else {
                assert(sk[i] == sp[i]);
            }
        }
        assert forall|i: int| 0 <= i < k.len() implies (#[trigger] k[i]).0 == x.0 || report_id_lt(k[i].0, x.0) by {
            if i < kp.len() {
                assert(k[i] == kp[i]);
            }
        }
        assert forall|i: int| 0 <= i < sk.len() implies #[trigger] sk[i] == x.0 || report_id_lt(sk[i], x.0) by {
            if i < sp.len() {
                assert(sk[i] == sp[i]);
            }
        }
    }
}

/// Report definitions ready to display, the reports suppressed by the
/// command line or the profile, and the command line's severity for
/// unknown report ids.
#[derive(Clone, Debug, PartialEq, Eq)]
pub struct Reports {
    pub definitions: Vec<(ReportId, ReportDefinition)>,
    pub suppressed: Vec<ReportId>,
    pub unknown: Option<Severity>,
}

/// The known definitions split by the overrides `ov`: kept ones with their
/// severities updated, and the ids of the newly suppressed ones.
pub open spec fn splits_definitions(r: Reports, defs: Seq<(ReportIdKey, ReportDefinition)>, ov: Seq<(Prefix, Severity)>) -> bool {
    &&& definition_entries(r.definitions@) == kept_definitions(defs, ov)
    &&& r.suppressed@.map_values(|x: ReportId| x@) == suppressed_keys(defs, ov)
}

/// Applies the overrides to each known definition.
fn split_definitions(
    known: &Vec<(ReportId, ReportDefinition)>,
    overrides: &Vec<(Prefix, Severity)>,
) -> (r: (Vec<(ReportId, ReportDefinition)>, Vec<ReportId>))
    requires
        distinct_prefixes(overrides@),
    ensures
        definition_entries(r.0@) == kept_definitions(definition_entries(known@), overrides@),
        r.1@.map_values(|x: ReportId| x@) == suppressed_keys(definition_entries(known@), overrides@),
{
    let ghost all = definition_entries(known@);
    let mut definitions: Vec<(ReportId, ReportDefinition)> = Vec::new();
    let mut suppressed: Vec<ReportId> = Vec::new();
    let n = known.len();
    let mut i: usize = 0;
    while i < n
        invariant
            n == known@.len(),
            all == definition_entries(known@),
            i <= n,
            distinct_prefixes(overrides@),
            definition_entries(definitions@) == kept_definitions(all.take(i as int), overrides@),
            suppressed@.map_values(|x: ReportId| x@) == suppressed_keys(all.take(i as int), overrides@),
        decreases n - i,
    {
        let path = known[i].0.duplicate();
        let mut definition = known[i].1.duplicate();
        let ghost d0 = definition;
        assert(all.take(i + 1).drop_last() =~= all.take(i as int));
        assert(all.take(i + 1).last() == (path@, d0));
        let ghost kept = definitions@;
        let ghost sup = suppressed@;
        if update_severity(&path, &mut definition, overrides) {
            suppressed.push(path);
            assert(definition_entries(definitions@) =~= kept_definitions(all.take(i + 1), overrides@));
            assert(suppressed@.map_values(|x: ReportId| x@) =~= suppressed_keys(all.take(i + 1), overrides@));
        } else {
            assert(definition == updated_definition(d0, overrides@, path@));
            definitions.push((path, definition));
            assert(definition_entries(definitions@) =~= kept_definitions(all.take(i + 1), overrides@));
            assert(suppressed@.map_values(|x: ReportId| x@) =~= suppressed_keys(all.take(i + 1), overrides@));
        }
        i = i + 1;
    }
    assert(all.take(n as int) =~= all);
    (definitions, suppressed)
}

/// Resolves the report definitions: the command-line overrides are merged
/// over the profile's (a prefix set by both takes the command line's
/// severity), then each known definition takes the severity of the most
/// specific override that covers it. A definition now suppressed where it
/// was not is listed as suppressed; every other one is kept. A prefix given
/// twice on the command line is an error.
pub fn obtain_report_definitions(
    profile_overrides: Vec<(Prefix, Severity)>,
    cli_severity_overrides: SeverityOverrides,
    configuration: &Configuration,
) -> (r: Result<Reports, DuplicatePrefix>)
    requires
        distinct_prefixes(profile_overrides@),
    ensures
        r is Ok <==> distinct_prefixes(cli_pairs(cli_severity_overrides)),
        r matches Err(e) ==> exists|j: int|
            is_first_repeat(cli_pairs(cli_severity_overrides), j) && cli_pairs(cli_severity_overrides)[j].0 == e.0,
        r matches Ok(reports) ==> reports.unknown == cli_severity_overrides.unknown && exists|merged: Seq<(Prefix, Severity)>|
            is_merge(profile_overrides@, cli_pairs(cli_severity_overrides), merged)
                && #[trigger] splits_definitions(reports, definition_entries(configuration.definitions()), merged),
        configuration.wf() ==> (r matches Ok(reports) ==> report_ids_ascending(
            entry_keys(definition_entries(reports.definitions@)),
        ) && report_ids_ascending(reports.suppressed@.map_values(|x: ReportId| x@))),
{
    let (cli_overrides, unknown) = match resolve_cli_severity(cli_severity_overrides) {
        Ok(ok) => ok,
        Err(e) => {
            proof {
                let all = cli_pairs(cli_severity_overrides);
                let j = choose|j: int| is_first_repeat(all, j) && all[j].0 == e.0;
                let k = choose|k: int| 0 <= k < j && (#[trigger] all[k]).0@ == all[j].0@;
                assert(all[k].0@ == all[j].0@);
            }
            return Err(e);
        },
    };
    let mut overrides = profile_overrides;
    merge_overrides(&mut overrides, cli_overrides);
    let (definitions, suppressed) = split_definitions(configuration.report_definitions(), &overrides);
    let r = Reports { definitions, suppressed, unknown };
    assert(splits_definitions(r, definition_entries(configuration.definitions()), overrides@));
    proof {
        let all = definition_entries(configuration.definitions());
        if configuration.wf() {
            lemma_definitions_ascending(*configuration);
        }
        assert(entry_keys(all) =~= definition_keys(configuration.definitions()));
        if configuration.wf() {
            lemma_split_ascending(all, overrides@);
        }
    }
    Ok(r)
}

/// Resolved information a report run uses.
#[derive(Clone, Debug, PartialEq, Eq)]
pub struct ResolvedProfile {
    /// Default severity for unknown report ids; if provided, unknown report
    /// ids are treated as normal output.
    pub unknown: Option<Severity>,
    /// Report definitions ready to display.
    pub definitions: Vec<(ReportId, ReportDefinition)>,
    /// Reports suppressed via the command line or the profile.
    pub suppressed: Vec<ReportId>,
}

/// Resolves what a report run uses from the selected profile, the known
/// definitions and the command line: the definitions as
/// [`obtain_report_definitions`] resolves them, the output settings as
/// [`setup_tracing`] resolves them, and the severity for unknown report
/// ids from the command line, else from the profile.
pub fn resolve_profile_information(
    profile: Profile,
    configuration: &Configuration,
    cli_output: Output,
    overrides: SeverityOverrides,
) -> (r: Result<(ResolvedProfile, TracingSetup), DuplicatePrefix>)
    requires
        distinct_prefixes(profile.overrides@),
    ensures
        r is Ok <==> distinct_prefixes(cli_pairs(overrides)),
        r matches Err(e) ==> exists|j: int|
            is_first_repeat(cli_pairs(overrides), j) && cli_pairs(overrides)[j].0 == e.0,
        r matches Ok((resolved, setup)) ==> {
            &&& resolved.unknown == crate::setup::first_some(overrides.unknown, profile.unknown)
            &&& exists|merged: Seq<(Prefix, Severity)>|
                is_merge(profile.overrides@, cli_pairs(overrides), merged)
                    && #[trigger] splits_definitions(
                    Reports {
                        definitions: resolved.definitions,
                        suppressed: resolved.suppressed,
                        unknown: overrides.unknown,
                    },
                    definition_entries(configuration.definitions()),
                    merged,
                )
            &&& setup == crate::setup::spec_setup(
                cli_output.format,
                cli_output.detail,
                cli_output.output,
                profile.format,
                profile.detail,
                profile.output,
            )
        },
        configuration.wf() ==> (r matches Ok((resolved, _)) ==> report_ids_ascending(
            entry_keys(definition_entries(resolved.definitions@)),
        ) && report_ids_ascending(resolved.suppressed@.map_values(|x: ReportId| x@))),
{
    let Profile { format, detail, unknown, output, overrides: profile_overrides } = profile;
    let reports = match obtain_report_definitions(profile_overrides, overrides, configuration) {
        Ok(reports) => reports,
        Err(e) => {
            return Err(e);
        },
    };
    let Output { output: cli_file, format: cli_format, detail: cli_detail } = cli_output;
    let setup = setup_tracing(cli_format, cli_detail, cli_file, format, detail, output);
    let unknown = match reports.unknown {
        Some(s) => Some(s),
        None => unknown,
    };
    let Reports { definitions, suppressed, unknown: cli_unknown } = reports;
    let resolved = ResolvedProfile { unknown, definitions, suppressed };
    proof {
        let merged = choose|merged: Seq<(Prefix, Severity)>|
            is_merge(profile.overrides@, cli_pairs(overrides), merged)
                && #[trigger] splits_definitions(
                Reports { definitions: resolved.definitions, suppressed: resolved.suppressed, unknown: cli_unknown },
                definition_entries(configuration.definitions()),
                merged,
            );
        assert(splits_definitions(
            Reports { definitions: resolved.definitions, suppressed: resolved.suppressed, unknown: overrides.unknown },
            definition_entries(configuration.definitions()),
            merged,
        ));
    }
    Ok((resolved, setup))
}

/// The output settings of the `list` and `explain` commands, and the detail
/// they list at: the command line's, else the profile's, else full.
pub fn cmd_setup_tracing(profile: &Profile, cli_detail: Option<FieldDetail>) -> (r: (
    TracingSetup,
    FieldDetail,
))
    ensures
        r.0 == crate::setup::spec_setup(None, cli_detail, None, None, profile.detail, None),
        r.1 == match crate::setup::first_some(cli_detail, profile.detail) {
            Some(d) => d,
            None => FieldDetail::Full,
        },
{
    let setup = setup_tracing(None, cli_detail, None, None, profile.detail, None);
    let detail = match cli_detail {
        Some(d) => d,
        None => match profile.detail {
            Some(d) => d,
            None => FieldDetail::default(),
        },
    };
    (setup, detail)
}

/// A most specific override of one merge has its prefix, at a most
/// specific place, in any other merge of the same overrides.
proof fn lemma_best_override_transfers(
    base: Seq<(Prefix, Severity)>,
    top: Seq<(Prefix, Severity)>,
    m1: Seq<(Prefix, Severity)>,
    m2: Seq<(Prefix, Severity)>,
    path: ReportIdKey,
    i1: int,
)
    requires
        is_merge(base, top, m1),
        is_merge(base, top, m2),
        is_best_override(m1, path, i1),
    ensures
        exists|i2: int| is_best_override(m2, path, i2) && m2[i2].0@ == m1[i1].0@ && m2[i2].1 == m1[i1].1,
{
    let k1 = m1[i1].0@;
    lemma_severity_witness(m1, k1);
    lemma_severity_witness(m2, k1);
    assert(severity_of_prefix(m1, k1) == severity_of_prefix(m2, k1));
    assert(severity_of_prefix(m1, k1) == Some(m1[i1].1));
    let i2 = choose|i2: int| 0 <= i2 < m2.len() && (#[trigger] m2[i2]).0@ == k1;
    assert(severity_of_prefix(m2, k1) == Some(m2[i2].1));
    assert forall|j: int| 0 <= j < m2.len() && key_starts_with(path, (#[trigger] m2[j]).0@) implies !prefix_lt(
        m2[i2].0@,
        m2[j].0@,
    ) by {
        let kj = m2[j].0@;
        lemma_severity_witness(m2, kj);
        lemma_severity_witness(m1, kj);
        assert(severity_of_prefix(m1, kj) == severity_of_prefix(m2, kj));
        let j1 = choose|j1: int| 0 <= j1 < m1.len() && (#[trigger] m1[j1]).0@ == kj;
        assert(key_starts_with(path, m1[j1].0@));
    }
    assert(is_best_override(m2, path, i2));
}

/// The severity the merged overrides give a report id depends only on
/// which prefixes are set and to what: any two merges of the same profile
/// and command-line overrides give every report id the same severity.
pub proof fn law_merge_outcome_is_unique(
    base: Seq<(Prefix, Severity)>,
    top: Seq<(Prefix, Severity)>,
    m1: Seq<(Prefix, Severity)>,
    m2: Seq<(Prefix, Severity)>,
    path: ReportIdKey,
)
    requires
        is_merge(base, top, m1),
        is_merge(base, top, m2),
    ensures
        override_for(m1, path) == override_for(m2, path),
{
    if exists|i: int| is_best_override(m1, path, i) {
        let i1 = choose|i: int| is_best_override(m1, path, i);
        lemma_best_override_transfers(base, top, m1, m2, path, i1);
        let i2 = choose|i2: int| is_best_override(m2, path, i2) && m2[i2].0@ == m1[i1].0@ && m2[i2].1 == m1[i1].1;
        let c2 = choose|c: int| is_best_override(m2, path, c);
        lemma_best_override_unique(m2, path, i2, c2);
    } else if exists|i: int| is_best_override(m2, path, i) {
        let i2 = choose|i: int| is_best_override(m2, path, i);
        lemma_best_override_transfers(base, top, m2, m1, path, i2);
    }
}

/// A command-line override wins over the profile's for the same prefix:
/// after a merge, a prefix that the command line sets has the command
/// line's severity.
pub proof fn law_command_line_wins(
    base: Seq<(Prefix, Severity)>,
    top: Seq<(Prefix, Severity)>,
    merged: Seq<(Prefix, Severity)>,
    i: int,
)
    requires
        distinct_prefixes(top),
        is_merge(base, top, merged),
        0 <= i < top.len(),
    ensures
        severity_of_prefix(merged, top[i].0@) == Some(top[i].1),
{
    lemma_severity_at(top, i);
}

} // verus!
