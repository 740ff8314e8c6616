//! Which source folders a report run walks: the folders of the library and
//! binary targets of the requested packages, each once.
use vstd::prelude::*;

use crate::elements::texts;
use crate::outside::{
    is_ascii_digit, is_ascii_letter, component_set_insert, component_set_items, new_component_set, path_components, path_parent,
};
use crate::reports::copy_texts;
use crate::text::same_text;

verus! {

/// The kind of a cargo target, as far as the walk tells them apart.
#[derive(Clone, Copy, Debug, PartialEq, Eq, Structural)]
pub enum TargetKind {
    Lib,
    Bin,
    /// Any other kind: tests, examples, benches, build scripts and others.
    Other,
}

/// A cargo target: its kinds and the path of its source file.
#[derive(Clone, Debug, PartialEq, Eq)]
pub struct TargetInfo {
    pub kind: Vec<TargetKind>,
    pub src_path: String,
}

/// A package of the workspace: its name and its targets.
#[derive(Clone, Debug, PartialEq, Eq)]
pub struct PackageInfo {
    pub name: String,
    pub targets: Vec<TargetInfo>,
}

/// A target builds a library or a binary.
pub open spec fn builds_lib_or_bin(kinds: Seq<TargetKind>) -> bool {
    exists|i: int| 0 <= i < kinds.len() && (kinds[i] == TargetKind::Lib || kinds[i] == TargetKind::Bin)
}

/// Whether the target builds a library or a binary.
pub fn is_lib_or_bin(target: &TargetInfo) -> (r: bool)
    ensures
        r == builds_lib_or_bin(target.kind@),
{
    let n = target.kind.len();
    let mut i: usize = 0;
    while i < n
        invariant
            n == target.kind@.len(),
            i <= n,
            forall|k: int| 0 <= k < i ==> target.kind@[k] != TargetKind::Lib && target.kind@[k] != TargetKind::Bin,
        decreases n - i,
    {
        match target.kind[i] {
            TargetKind::Lib | TargetKind::Bin => {
                return true;
            },
            TargetKind::Other => {},
        }
        i = i + 1;
    }
    false
}

/// A source folder: its path, and the path's components.
#[derive(Clone, Debug, PartialEq, Eq)]
pub struct RootFolder {
    pub path: String,
    pub components: Vec<String>,
}

pub struct RootModel {
    pub path: Seq<char>,
    pub components: Seq<Seq<char>>,
}

impl View for RootFolder {
    type V = RootModel;

    open spec fn view(&self) -> RootModel {
        RootModel { path: self.path@, components: texts(self.components@) }
    }
}

pub open spec fn root_views(v: Seq<RootFolder>) -> Seq<RootModel> {
    v.map_values(|r: RootFolder| r@)
}

/// The number of components of a folder's path.
pub open spec fn depth(r: RootModel) -> nat {
    r.components.len()
}

/// `base` starts `path`, component by component, as `Path::starts_with`
/// compares them.
pub open spec fn starts_with_components(path: Seq<Seq<char>>, base: Seq<Seq<char>>) -> bool {
    base.len() <= path.len() && path.take(base.len() as int) == base
}

/// `x` inserted into `s` after every folder that is not deeper.
pub open spec fn insert_by_depth(s: Seq<RootModel>, x: RootModel) -> Seq<RootModel>
    decreases s.len(),
{
    if s.len() == 0 {
        seq![x]
    } else if depth(s.last()) <= depth(x) {
        s.push(x)
    } else {
        insert_by_depth(s.drop_last(), x).push(s.last())
    }
}

/// `s` stably sorted by depth, shallowest first.
pub open spec fn sort_by_depth(s: Seq<RootModel>) -> Seq<RootModel>
    decreases s.len(),
{
    if s.len() == 0 {
        Seq::empty()
    } else {
        insert_by_depth(sort_by_depth(s.drop_last()), s.last())
    }
}

/// The folders of `sorted`, in order, each kept unless a folder kept
/// before it starts with it.
pub open spec fn keep_roots(sorted: Seq<RootModel>) -> Seq<RootModel>
    decreases sorted.len(),
{
    if sorted.len() == 0 {
        Seq::empty()
    } else {
        let kept = keep_roots(sorted.drop_last());
        let r = sorted.last();
        if forall|i: int| 0 <= i < kept.len() ==> !starts_with_components(#[trigger] kept[i].components, r.components) {
            kept.push(r)
        } else {
            kept
        }
    }
}

/// No two folders have the same components.
pub open spec fn distinct_roots(s: Seq<RootModel>) -> bool {
    forall|i: int, j: int| 0 <= i < j < s.len() ==> (#[trigger] s[i]).components != (#[trigger] s[j]).components
}

proof fn lemma_keep_roots_distinct(sorted: Seq<RootModel>)
    ensures
        distinct_roots(keep_roots(sorted)),
    decreases sorted.len(),
{
    if sorted.len() > 0 {
        lemma_keep_roots_distinct(sorted.drop_last());
        let kept = keep_roots(sorted.drop_last());
        let r = sorted.last();
        if forall|i: int| 0 <= i < kept.len() ==> !starts_with_components(#[trigger] kept[i].components, r.components) {
            let out = kept.push(r);
            assert forall|i: int, j: int| 0 <= i < j < out.len() implies (#[trigger] out[i]).components
                != (#[trigger] out[j]).components by {
                if j == kept.len() {
                    assert(!starts_with_components(kept[i].components, r.components));
                    if kept[i].components == r.components {
                        assert(kept[i].components.take(r.components.len() as int) =~= r.components);
                    }
                }
            }
        }
    }
}

/// `s` with `x` put after the last folder no deeper than it.
fn insert_root(s: &mut Vec<RootFolder>, x: RootFolder)
    ensures
        root_views(final(s)@) == insert_by_depth(root_views(old(s)@), x@),
{
    let ghost v = root_views(s@);
    let mut p: usize = s.len();
    assert(v.take(p as int) =~= v);
    assert(insert_by_depth(v, x@) =~= insert_by_depth(v.take(p as int), x@) + v.skip(p as int));
    while p > 0 && s[p - 1].components.len() > x.components.len()
        invariant
            p <= s@.len(),
            v == root_views(s@),
            forall|k: int| p <= k < s@.len() ==> depth(#[trigger] v[k]) > depth(x@),
            insert_by_depth(v, x@) == insert_by_depth(v.take(p as int), x@) + v.skip(p as int),
        decreases p,
    {
        proof {
            let t = v.take(p as int);
            assert(t.last() == v[p - 1]);
            assert(t.drop_last() =~= v.take(p - 1));
            assert(depth(v[p - 1]) > depth(x@));
            assert(insert_by_depth(t, x@) == insert_by_depth(v.take(p - 1), x@).push(v[p - 1]));
            assert(insert_by_depth(v.take(p - 1), x@).push(v[p - 1]) + v.skip(p as int) =~= insert_by_depth(
                v.take(p - 1),
                x@,
            ) + v.skip(p - 1));
        }
        p = p - 1;
    }
    proof {
        let t = v.take(p as int);
        if p > 0 {
            assert(t.last() == v[p - 1]);
            assert(insert_by_depth(t, x@) == t.push(x@));
        } else {
            assert(insert_by_depth(t, x@) == seq![x@]);
        }
    }
    s.insert(p, x);
    assert(root_views(s@) =~= insert_by_depth(v, x@)) by {
        assert(insert_by_depth(v, x@) =~= v.take(p as int).push(x@) + v.skip(p as int));
    }
}

/// Whether a folder kept in `kept` starts with `root`.
fn covered(kept: &Vec<RootFolder>, root: &RootFolder) -> (r: bool)
    ensures
        r == exists|i: int| 0 <= i < kept@.len() && starts_with_components(#[trigger] root_views(kept@)[i].components, root@.components),
{
    let n = kept.len();
    let mut i: usize = 0;
    while i < n
        invariant
            n == kept@.len(),
            i <= n,
            forall|k: int| 0 <= k < i ==> !starts_with_components(#[trigger] root_views(kept@)[k].components, root@.components),
        decreases n - i,
    {
        let other = &kept[i].components;
        let base = &root.components;
        let mut starts = base.len() <= other.len();
        let mut j: usize = 0;
        while starts && j < base.len()
            invariant
                i < n,
                n == kept@.len(),
                *other == kept@[i as int].components,
                *base == root.components,
                j <= base@.len(),
                starts ==> base@.len() <= other@.len() && texts(other@).take(j as int) == texts(base@).take(j as int),
                !starts ==> !starts_with_components(texts(other@), texts(base@)),
            decreases base@.len() - j,
        {
            if !same_text(other[j].as_str(), base[j].as_str()) {
                assert(texts(other@).take(base@.len() as int)[j as int] != texts(base@)[j as int]);
                starts = false;
            } else {
                assert(texts(other@).take(j + 1) =~= texts(other@).take(j as int).push(texts(other@)[j as int]));
                assert(texts(base@).take(j + 1) =~= texts(base@).take(j as int).push(texts(base@)[j as int]));
            }
            j = j + 1;
        }
        if starts {
            assert(texts(base@).take(base@.len() as int) =~= texts(base@));
            assert(root_views(kept@)[i as int].components == texts(other@));
            return true;
        }
        assert(root_views(kept@)[i as int].components == texts(other@));
        i = i + 1;
    }
    false
}

/// Orders folders by depth, shallowest first and otherwise as given, and
/// keeps each unless a folder kept before it starts with it.
pub fn select_roots(candidates: Vec<RootFolder>) -> (r: Vec<RootFolder>)
    ensures
        root_views(r@) == keep_roots(sort_by_depth(root_views(candidates@))),
        distinct_roots(root_views(r@)),
{
    let ghost c = root_views(candidates@);
    let mut candidates = candidates;
    let n = candidates.len();
    let mut sorted: Vec<RootFolder> = Vec::new();
    let mut i: usize = 0;
    while i < n
        invariant
            n == c.len(),
            i <= n,
            candidates@.len() == n - i,
            root_views(candidates@) == c.skip(i as int),
            root_views(sorted@) == sort_by_depth(c.take(i as int)),
        decreases n - i,
    {
        let ghost rest = candidates@;
        let x = candidates.remove(0);
        assert(x@ == c[i as int]) by {
            assert(root_views(rest)[0] == x@);
            assert(c.skip(i as int)[0] == c[i as int]);
        }
        assert(root_views(candidates@) =~= c.skip(i + 1)) by {
            assert forall|k: int| 0 <= k < candidates@.len() implies #[trigger] root_views(candidates@)[k] == c.skip(i + 1)[k] by {
                assert(candidates@[k] == rest[k + 1]);
                assert(root_views(rest)[k + 1] == rest[k + 1]@);
            }
        }
        assert(c.take(i + 1).drop_last() =~= c.take(i as int));
        insert_root(&mut sorted, x);
        i = i + 1;
    }
    assert(c.take(n as int) =~= c);
    let ghost sv = root_views(sorted@);
    let m = sorted.len();
    let mut kept: Vec<RootFolder> = Vec::new();
    let mut j: usize = 0;
    while j < m
        invariant
            m == sv.len(),
            j <= m,
            sorted@.len() == m - j,
            root_views(sorted@) == sv.skip(j as int),
            root_views(kept@) == keep_roots(sv.take(j as int)),
        decreases m - j,
    {
        let ghost rest = sorted@;
        let root = sorted.remove(0);
        assert(root@ == sv[j as int]) by {
            assert(root_views(rest)[0] == root@);
            assert(sv.skip(j as int)[0] == sv[j as int]);
        }
        assert(root_views(sorted@) =~= sv.skip(j + 1)) by {
            assert forall|k: int| 0 <= k < sorted@.len() implies #[trigger] root_views(sorted@)[k] == sv.skip(j + 1)[k] by {
                assert(sorted@[k] == rest[k + 1]);
                assert(root_views(rest)[k + 1] == rest[k + 1]@);
            }
        }
        assert(sv.take(j + 1).drop_last() =~= sv.take(j as int));
        let ghost prior = root_views(kept@);
        if !covered(&kept, &root) {
            kept.push(root);
            assert(root_views(kept@) =~= prior.push(root@));
        }
        j = j + 1;
    }
    assert(sv.take(m as int) =~= sv);
    proof {
        lemma_keep_roots_distinct(sv);
    }
    kept
}

/// The folder each of the first `n` targets gives: for a library or binary
/// target whose drawn parent `parents[i]` is there, that parent; none for
/// any other target.
pub open spec fn target_candidates(
    targets: Seq<TargetInfo>,
    parents: Seq<Option<RootModel>>,
    n: int,
) -> Seq<RootModel>
    decreases n,
{
    if n <= 0 {
        Seq::empty()
    } else {
        target_candidates(targets, parents, n - 1) + if builds_lib_or_bin(targets[n - 1].kind@) && n
            - 1 < parents.len() && parents[n - 1] is Some {
            seq![parents[n - 1]->Some_0]
        } else {
            Seq::empty()
        }
    }
}

pub open spec fn parent_views(v: Seq<Option<RootFolder>>) -> Seq<Option<RootModel>> {
    v.map_values(|p: Option<RootFolder>| match p {
        Some(r) => Some(r@),
        None => None,
    })
}

/// The source folders of a package, given the parent folder drawn for each
/// of its targets: the folders of its library and binary targets, ordered
/// and kept as [`select_roots`] does.
pub fn roots_from_parents(package: &PackageInfo, parents: Vec<Option<RootFolder>>) -> (r: Vec<RootFolder>)
    ensures
        root_views(r@) == keep_roots(
            sort_by_depth(
                target_candidates(package.targets@, parent_views(parents@), package.targets@.len() as int),
            ),
        ),
        distinct_roots(root_views(r@)),
{
    let ghost pv = parent_views(parents@);
    let mut parents = parents;
    let n = package.targets.len();
    let mut collected: Vec<RootFolder> = Vec::new();
    let mut i: usize = 0;
    while i < n
        invariant
            n == package.targets@.len(),
            i <= n,
            parents@.len() + i == pv.len() || (i >= pv.len() && parents@.len() == 0),
            forall|k: int| 0 <= k < parents@.len() ==> #[trigger] parent_views(parents@)[k] == pv[i + k],
            root_views(collected@) == target_candidates(package.targets@, pv, i as int),
        decreases n - i,
    {
        let parent = if parents.len() > 0 {
            let ghost rest = parents@;
            let p = parents.remove(0);
            proof {
                assert(parent_views(rest)[0] == pv[i as int]);
                assert forall|k: int| 0 <= k < parents@.len() implies #[trigger] parent_views(parents@)[k] == pv[i + 1 + k] by {
                    assert(parents@[k] == rest[k + 1]);
                    assert(parent_views(rest)[k + 1] == pv[i + (k + 1)]);
                }
            }
            p
        } else {
            None
        };
        let ghost before = root_views(collected@);
        let target = &package.targets[i];
        if is_lib_or_bin(target) {
            match parent {
                Some(root) => {
                    collected.push(root);
                    assert(root_views(collected@) =~= before.push(root@));
                },
                None => {},
            }
        }
        i = i + 1;
    }
    select_roots(collected)
}

/// A component of a path, as `std::path::Component` tells them apart.
#[derive(Clone, Debug, PartialEq, Eq)]
pub enum PathComponent {
    /// A Windows prefix such as `C:`, as text.
    Prefix(String),
    /// The root separator.
    RootDir,
    /// `.` at the start of a path.
    CurDir,
    /// `..`.
    ParentDir,
    /// An ordinary name.
    Normal(String),
}

pub enum ComponentModel {
    Prefix(Seq<char>),
    RootDir,
    CurDir,
    ParentDir,
    Normal(Seq<char>),
}

impl View for PathComponent {
    type V = ComponentModel;

    open spec fn view(&self) -> ComponentModel {
        match self {
            PathComponent::Prefix(p) => ComponentModel::Prefix(p@),
            PathComponent::RootDir => ComponentModel::RootDir,
            PathComponent::CurDir => ComponentModel::CurDir,
            PathComponent::ParentDir => ComponentModel::ParentDir,
            PathComponent::Normal(n) => ComponentModel::Normal(n@),
        }
    }
}

pub open spec fn component_views(v: Seq<PathComponent>) -> Seq<ComponentModel> {
    v.map_values(|c: PathComponent| c@)
}

/// The index of the last `/` of `p`, or `-1` when it has none.
pub open spec fn last_slash(p: Seq<char>) -> int
    decreases p.len(),
{
    if p.len() == 0 {
        -1
    } else if p.last() == '/' {
        p.len() - 1
    } else {
        last_slash(p.drop_last())
    }
}

pub proof fn lemma_last_slash(p: Seq<char>)
    ensures
        -1 <= last_slash(p) < p.len(),
        last_slash(p) >= 0 ==> p[last_slash(p)] == '/',
        forall|k: int| last_slash(p) < k < p.len() ==> p[k] != '/',
    decreases p.len(),
{
    if p.len() > 0 && p.last() != '/' {
        let q = p.drop_last();
        lemma_last_slash(q);
        assert forall|k: int| last_slash(p) < k < p.len() implies p[k] != '/' by {
            if k < q.len() {
                assert(p[k] == q[k]);
            }
        }
    }
}

/// A name that every platform reads as one ordinary component: not empty,
/// not `.` or `..`, and without `/`, `\` or `:`.
pub open spec fn is_plain_name(s: Seq<char>) -> bool {
    &&& s.len() > 0
    &&& s != "."@ && s != ".."@
    &&& forall|k: int| 0 <= k < s.len() ==> s[k] != '/' && s[k] != '\\' && s[k] != ':'
}

/// A path that splits the same way on every platform: plain names joined
/// by single `/`, with or without one leading `/`.
pub open spec fn portable_path(p: Seq<char>) -> bool
    decreases p.len(),
{
    let i = last_slash(p);
    proof {
        lemma_last_slash(p);
    }
    is_plain_name(p.skip(i + 1)) && (i <= 0 || portable_path(p.take(i)))
}

/// The empty path, the root alone, or a portable path.
pub open spec fn simple_path(p: Seq<char>) -> bool {
    p.len() == 0 || p == "/"@ || portable_path(p)
}

/// The components of a simple path: the root for a leading `/`, then each
/// name.
pub open spec fn simple_components(p: Seq<char>) -> Seq<ComponentModel>
    decreases p.len(),
{
    let i = last_slash(p);
    proof {
        lemma_last_slash(p);
    }
    if i < 0 {
        if p.len() == 0 {
            Seq::empty()
        } else {
            seq![ComponentModel::Normal(p)]
        }
    } else if i == 0 {
        seq![ComponentModel::RootDir] + if p.len() > 1 {
            seq![ComponentModel::Normal(p.skip(1))]
        } else {
            Seq::empty()
        }
    } else {
        simple_components(p.take(i)) + seq![ComponentModel::Normal(p.skip(i + 1))]
    }
}

/// The parent of a portable path: the text before its last `/`, the root
/// when that `/` leads, and the empty path when it has none.
pub open spec fn portable_parent(p: Seq<char>) -> Seq<char> {
    let i = last_slash(p);
    if i < 0 {
        Seq::empty()
    } else if i == 0 {
        "/"@
    } else {
        p.take(i)
    }
}

/// The text a folder's component is compared by.
pub open spec fn component_text(c: ComponentModel) -> Seq<char> {
    match c {
        ComponentModel::Prefix(p) => p,
        ComponentModel::RootDir => "/"@,
        ComponentModel::CurDir => "."@,
        ComponentModel::ParentDir => ".."@,
        ComponentModel::Normal(n) => n,
    }
}

pub open spec fn component_texts(v: Seq<ComponentModel>) -> Seq<Seq<char>> {
    v.map_values(|c: ComponentModel| component_text(c))
}

/// The components of a path as the texts folders are compared by: each
/// component's own text, and `/` for the root, so that two component
/// lists are equal exactly when their texts are.
pub fn component_texts_of(components: Vec<PathComponent>) -> (r: Vec<String>)
    ensures
        texts(r@) == component_texts(component_views(components@)),
{
    let n = components.len();
    let mut out: Vec<String> = Vec::new();
    let mut i: usize = 0;
    while i < n
        invariant
            n == components@.len(),
            i <= n,
            texts(out@) == component_texts(component_views(components@)).take(i as int),
        decreases n - i,
    {
        let text = match &components[i] {
            PathComponent::Prefix(p) => p.clone(),
            PathComponent::RootDir => "/".to_owned(),
            PathComponent::CurDir => ".".to_owned(),
            PathComponent::ParentDir => "..".to_owned(),
            PathComponent::Normal(name) => name.clone(),
        };
        proof {
            reveal_strlit("/");
            reveal_strlit(".");
            reveal_strlit("..");
        }
        let ghost before = out@;
        out.push(text);
        assert(texts(out@) =~= texts(before).push(text@));
        assert(component_texts(component_views(components@)).take(i + 1) =~= component_texts(
            component_views(components@),
        ).take(i as int).push(text@));
        i = i + 1;
    }
    assert(component_texts(component_views(components@)).take(n as int) =~= component_texts(
        component_views(components@),
    ));
    out
}

/// A path whose last component is certainly an ordinary name on every
/// platform: it ends in an ASCII letter or digit, and does not start with
/// two separators (which would make a network or device prefix).
pub open spec fn ends_in_name(path: Seq<char>) -> bool {
    &&& path.len() > 0
    &&& (is_ascii_letter(path.last()) || is_ascii_digit(path.last()))
    &&& !(path.len() >= 2 && (path[0] == '/' || path[0] == '\\') && (path[1] == '/' || path[1]
        == '\\'))
}

/// The folder of a source file with a portable path: its parent, with the
/// parent's components.
pub open spec fn portable_root(src: Seq<char>) -> RootModel {
    RootModel {
        path: portable_parent(src),
        components: component_texts(simple_components(portable_parent(src))),
    }
}

/// What holds of the parent drawn for a target, whatever the platform: a
/// library or binary target whose source path ends in a name has one, and
/// one whose source path is portable has exactly the portable parent; a
/// parent's path is a proper prefix of the source path.
pub open spec fn parent_drawn_for(target: TargetInfo, parent: Option<RootModel>) -> bool {
    &&& builds_lib_or_bin(target.kind@) && ends_in_name(target.src_path@) ==> parent is Some
    &&& builds_lib_or_bin(target.kind@) && portable_path(target.src_path@) ==> parent == Some(
        portable_root(target.src_path@),
    )
    &&& parent matches Some(r) ==> r.path.len() < target.src_path@.len() && target.src_path@.take(
        r.path.len() as int,
    ) == r.path
}

/// What [`collect_root_folders`] gives for a package: its library and
/// binary folders, one drawn parent per target, sorted and kept as
/// [`select_roots`] does.
pub open spec fn is_root_list(package: PackageInfo, roots: Seq<RootModel>) -> bool {
    exists|parents: Seq<Option<RootModel>>|
        parents.len() == package.targets@.len() && (forall|i: int|
            0 <= i < parents.len() ==> parent_drawn_for(package.targets@[i], #[trigger] parents[i]))
            && roots == #[trigger] keep_roots(
            sort_by_depth(target_candidates(package.targets@, parents, package.targets@.len() as int)),
        )
}

/// Every library or binary target of the package has a portable source
/// path.
pub open spec fn all_portable(package: PackageInfo) -> bool {
    forall|i: int|
        0 <= i < package.targets@.len() && builds_lib_or_bin(#[trigger] package.targets@[i].kind@)
            ==> portable_path(package.targets@[i].src_path@)
}

/// The folder drawn for each target when its path is portable: the portable
/// parent for a library or binary target, none otherwise.
pub open spec fn portable_parents(targets: Seq<TargetInfo>) -> Seq<Option<RootModel>> {
    targets.map_values(|t: TargetInfo|
        if builds_lib_or_bin(t.kind@) && portable_path(t.src_path@) {
            Some(portable_root(t.src_path@))
        } else {
            None
        })
}

/// The source folders of a package whose library and binary targets have
/// portable paths.
pub open spec fn portable_roots(package: PackageInfo) -> Seq<RootModel> {
    keep_roots(
        sort_by_depth(
            target_candidates(
                package.targets@,
                portable_parents(package.targets@),
                package.targets@.len() as int,
            ),
        ),
    )
}

proof fn lemma_candidates_agree(
    targets: Seq<TargetInfo>,
    a: Seq<Option<RootModel>>,
    b: Seq<Option<RootModel>>,
    n: int,
)
    requires
        n <= a.len(),
        n <= b.len(),
        forall|i: int| 0 <= i < n && builds_lib_or_bin(targets[i].kind@) ==> a[i] == b[i],
    ensures
        target_candidates(targets, a, n) == target_candidates(targets, b, n),
    decreases n,
{
    if n > 0 {
        lemma_candidates_agree(targets, a, b, n - 1);
    }
}

/// On a package whose library and binary targets all have portable paths,
/// the source folders are fixed: they are the portable parents of those
/// targets, ordered and kept as [`select_roots`] does.
pub proof fn law_portable_root_list(package: PackageInfo, roots: Seq<RootModel>)
    requires
        is_root_list(package, roots),
        all_portable(package),
    ensures
        roots == portable_roots(package),
{
    let t = package.targets@;
    let parents = choose|parents: Seq<Option<RootModel>>|
        parents.len() == t.len() && (forall|i: int|
            0 <= i < parents.len() ==> parent_drawn_for(t[i], #[trigger] parents[i])) && roots
            == #[trigger] keep_roots(sort_by_depth(target_candidates(t, parents, t.len() as int)));
    assert forall|i: int| 0 <= i < t.len() && builds_lib_or_bin(t[i].kind@) implies parents[i]
        == portable_parents(t)[i] by {
        assert(parent_drawn_for(t[i], parents[i]));
        assert(builds_lib_or_bin(package.targets@[i].kind@));
    }
    lemma_candidates_agree(t, parents, portable_parents(t), t.len() as int);
}

/// The source folders of a package's library and binary targets: each such
/// target's source file's parent folder, ordered and kept as
/// [`roots_from_parents`] does.
pub fn collect_root_folders(package: &PackageInfo) -> (r: Vec<RootFolder>)
    ensures
        is_root_list(*package, root_views(r@)),
        all_portable(*package) ==> root_views(r@) == portable_roots(*package),
        distinct_roots(root_views(r@)),
{
    let mut parents: Vec<Option<RootFolder>> = Vec::new();
    let n = package.targets.len();
    let mut i: usize = 0;
    while i < n
        invariant
            n == package.targets@.len(),
            i <= n,
            parents@.len() == i,
            forall|k: int| 0 <= k < i ==> parent_drawn_for(package.targets@[k], #[trigger] parent_views(parents@)[k]),
        decreases n - i,
    {
        let target = &package.targets[i];
        let parent = if is_lib_or_bin(target) {
            match path_parent(target.src_path.as_str()) {
                Some(path) => {
                    let components = component_texts_of(path_components(path.as_str()));
                    Some(RootFolder { path, components })
                },
                None => None,
            }
        } else {
            None
        };
        let ghost before = parents@;
        parents.push(parent);
        proof {
            assert forall|k: int| 0 <= k < i + 1 implies parent_drawn_for(package.targets@[k], #[trigger] parent_views(parents@)[k]) by {
                if k < i {
                    assert(parents@[k] == before[k]);
                    assert(parent_views(before)[k] == parent_views(parents@)[k]);
                }
            }
        }
        i = i + 1;
    }
    let r = roots_from_parents(package, parents);
    assert(is_root_list(*package, root_views(r@)));
    proof {
        if all_portable(*package) {
            law_portable_root_list(*package, root_views(r@));
        }
    }
    r
}

/// The requested names that name no package: each once, in the order
/// first requested.
pub open spec fn unknown_names(requested: Seq<Seq<char>>, known: Seq<Seq<char>>) -> Seq<Seq<char>>
    decreases requested.len(),
{
    if requested.len() == 0 {
        Seq::empty()
    } else {
        let prev = unknown_names(requested.drop_last(), known);
        let x = requested.last();
        if known.contains(x) || prev.contains(x) {
            prev
        } else {
            prev.push(x)
        }
    }
}

/// Each unknown name is listed once.
pub proof fn law_unknown_names_are_distinct(requested: Seq<Seq<char>>, known: Seq<Seq<char>>)
    ensures
        forall|i: int, j: int|
            0 <= i < j < unknown_names(requested, known).len() ==> unknown_names(requested, known)[i]
                != unknown_names(requested, known)[j],
    decreases requested.len(),
{
    if requested.len() > 0 {
        law_unknown_names_are_distinct(requested.drop_last(), known);
        let prev = unknown_names(requested.drop_last(), known);
        let all = unknown_names(requested, known);
        let x = requested.last();
        if !(known.contains(x) || prev.contains(x)) {
            assert forall|i: int, j: int| 0 <= i < j < all.len() implies all[i] != all[j] by {
                if j == prev.len() {
                    assert(all[i] == prev[i]);
                    assert(all[j] == x);
                    if all[i] == all[j] {
                        assert(prev.contains(x));
                    }
                } else {
                    assert(all[i] == prev[i] && all[j] == prev[j]);
                }
            }
        }
    }
}

pub open spec fn package_names(packages: Seq<PackageInfo>) -> Seq<Seq<char>> {
    packages.map_values(|p: PackageInfo| p.name@)
}

fn contains_text(v: &Vec<String>, x: &str) -> (r: bool)
    ensures
        r == texts(v@).contains(x@),
{
    let n = v.len();
    let mut i: usize = 0;
    while i < n
        invariant
            n == v@.len(),
            i <= n,
            forall|k: int| 0 <= k < i ==> v@[k]@ != x@,
        decreases n - i,
    {
        if same_text(v[i].as_str(), x) {
            assert(texts(v@)[i as int] == x@);
            return true;
        }
        i = i + 1;
    }
    assert forall|k: int| 0 <= k < texts(v@).len() implies texts(v@)[k] != x@ by {
        assert(texts(v@)[k] == v@[k]@);
    }
    false
}

/// The requested package names that name no package of `packages`, each
/// once, in the order first requested.
pub fn unknown_packages(packages: &Vec<PackageInfo>, requested: &Vec<String>) -> (r: Vec<String>)
    ensures
        texts(r@) == unknown_names(texts(requested@), package_names(packages@)),
{
    let mut known: Vec<String> = Vec::new();
    let np = packages.len();
    let mut k: usize = 0;
    while k < np
        invariant
            np == packages@.len(),
            k <= np,
            known@.len() == k,
            texts(known@) == package_names(packages@).take(k as int),
        decreases np - k,
    {
        let name = packages[k].name.clone();
        let ghost before = known@;
        known.push(name);
        assert forall|q: int| 0 <= q < k + 1 implies #[trigger] texts(known@)[q] == package_names(packages@)[q] by {
            if q < k {
                assert(known@[q] == before[q]);
                assert(texts(before)[q] == package_names(packages@).take(k as int)[q]);
            }
        }
        assert(texts(known@) =~= package_names(packages@).take(k + 1));
        k = k + 1;
    }
    assert(package_names(packages@).take(np as int) =~= package_names(packages@));
    let ghost req = texts(requested@);
    let mut unknown: Vec<String> = Vec::new();
    let n = requested.len();
    let mut i: usize = 0;
    while i < n
        invariant
            n == requested@.len(),
            req == texts(requested@),
            i <= n,
            texts(known@) == package_names(packages@),
            texts(unknown@) == unknown_names(req.take(i as int), package_names(packages@)),
        decreases n - i,
    {
        let name = &requested[i];
        assert(req.take(i + 1).drop_last() =~= req.take(i as int));
        assert(req.take(i + 1).last() == name@);
        if !contains_text(&known, name.as_str()) && !contains_text(&unknown, name.as_str()) {
            unknown.push(name.clone());
            assert(texts(unknown@) =~= unknown_names(req.take(i + 1), package_names(packages@)));
        }
        i = i + 1;
    }
    assert(req.take(n as int) =~= req);
    unknown
}

/// `acc` with each folder of `more` added, in order, unless a folder with
/// the same components is already there.
pub open spec fn add_roots(acc: Seq<RootModel>, more: Seq<RootModel>) -> Seq<RootModel>
    decreases more.len(),
{
    if more.len() == 0 {
        acc
    } else {
        let prev = add_roots(acc, more.drop_last());
        let x = more.last();
        if exists|i: int| 0 <= i < prev.len() && (#[trigger] prev[i]).components == x.components {
            prev
        } else {
            prev.push(x)
        }
    }
}

/// The folders of each list, added in turn to an empty list.
pub open spec fn add_all_roots(lists: Seq<Seq<RootModel>>) -> Seq<RootModel>
    decreases lists.len(),
{
    if lists.len() == 0 {
        Seq::empty()
    } else {
        add_roots(add_all_roots(lists.drop_last()), lists.last())
    }
}

/// The packages a run reports: all when none is requested, otherwise those
/// requested, in workspace order.
pub open spec fn selected_packages(packages: Seq<PackageInfo>, requested: Seq<Seq<char>>) -> Seq<PackageInfo>
    decreases packages.len(),
{
    if packages.len() == 0 {
        Seq::empty()
    } else {
        selected_packages(packages.drop_last(), requested) + if requested.len() == 0
            || requested.contains(packages.last().name@) {
            seq![packages.last()]
        } else {
            Seq::empty()
        }
    }
}

/// The components of each folder.
pub open spec fn root_components(v: Seq<RootFolder>) -> Seq<Seq<Seq<char>>> {
    root_views(v).map_values(|r: RootModel| r.components)
}

/// Adds each folder of `more` unless `roots` already holds one with the
/// same components; `seen` holds the components of the folders in
/// `roots`.
fn extend_roots(roots: &mut Vec<RootFolder>, seen: &mut indexmap::IndexSet<Vec<String>>, more: Vec<RootFolder>)
    requires
        distinct_roots(root_views(old(roots)@)),
        component_set_items(*old(seen)) == root_components(old(roots)@),
    ensures
        distinct_roots(root_views(final(roots)@)),
        component_set_items(*final(seen)) == root_components(final(roots)@),
        root_views(final(roots)@) == add_roots(root_views(old(roots)@), root_views(more@)),
{
    let ghost start = root_views(roots@);
    let ghost all = root_views(more@);
    let mut more = more;
    let total = more.len();
    let mut taken: usize = 0;
    while more.len() > 0
        invariant
            total == all.len(),
            taken + more@.len() == total,
            root_views(more@) == all.skip(taken as int),
            distinct_roots(root_views(roots@)),
            component_set_items(*seen) == root_components(roots@),
            root_views(roots@) == add_roots(start, all.take(taken as int)),
        decreases more@.len(),
    {
        let ghost rest = more@;
        let root = more.remove(0);
        assert(root@ == all[taken as int]) by {
            assert(root_views(rest)[0] == root@);
            assert(all.skip(taken as int)[0] == all[taken as int]);
        }
        assert(root_views(more@) =~= all.skip(taken + 1)) by {
            assert forall|k: int| 0 <= k < more@.len() implies #[trigger] root_views(more@)[k] == all.skip(taken + 1)[k] by {
                assert(more@[k] == rest[k + 1]);
                assert(root_views(rest)[k + 1] == rest[k + 1]@);
            }
        }
        assert(all.take(taken + 1).drop_last() =~= all.take(taken as int));
        assert(all.take(taken + 1).last() == root@);
        let ghost prior = root_views(roots@);
        let ghost prior_components = root_components(roots@);
        let key = copy_texts(&root.components);
        let added = component_set_insert(seen, key);
        proof {
            assert(prior_components.contains(root@.components) <==> exists|q: int|
                0 <= q < prior.len() && (#[trigger] prior[q]).components == root@.components) by {
                if prior_components.contains(root@.components) {
                    let q = choose|q: int| 0 <= q < prior_components.len() && prior_components[q] == root@.components;
                    assert(prior[q].components == prior_components[q]);
                }
                if exists|q: int| 0 <= q < prior.len() && (#[trigger] prior[q]).components == root@.components {
                    let q = choose|q: int| 0 <= q < prior.len() && (#[trigger] prior[q]).components == root@.components;
                    assert(prior_components[q] == prior[q].components);
                }
            }
        }
        if added {
            roots.push(root);
            assert(root_views(roots@) =~= prior.push(root@));
            assert(root_components(roots@) =~= prior_components.push(root@.components));
            assert forall|a: int, b: int| 0 <= a < b < root_views(roots@).len() implies (#[trigger] root_views(roots@)[a]).components
                != (#[trigger] root_views(roots@)[b]).components by {
                if b == prior.len() {
                    assert(root_views(roots@)[a] == prior[a]);
                } else {
                    assert(root_views(roots@)[a] == prior[a] && root_views(roots@)[b] == prior[b]);
                }
            }
        }
        taken = taken + 1;
    }
    assert(all.take(taken as int) =~= all);
}

/// The source folders a report run walks. With no package requested, those
/// of every package; otherwise those of the requested ones, and a
/// requested name that names no package is an error that lists each such
/// name once. A folder already listed, component for component, is not
/// listed again.
pub fn resolve_package_roots(packages: &Vec<PackageInfo>, requested: &Vec<String>) -> (r: Result<
    Vec<RootFolder>,
    Vec<String>,
>)
    ensures
        r is Err <==> unknown_names(texts(requested@), package_names(packages@)).len() > 0,
        r matches Err(unknown) ==> texts(unknown@) == unknown_names(texts(requested@), package_names(packages@)),
        r matches Ok(roots) ==> distinct_roots(root_views(roots@)),
        r matches Ok(roots) ==> exists|lists: Seq<Seq<RootModel>>|
            lists.len() == selected_packages(packages@, texts(requested@)).len()
                && (forall|k: int| 0 <= k < lists.len() ==> is_root_list(
                    selected_packages(packages@, texts(requested@))[k],
                    #[trigger] lists[k],
                ))
                && root_views(roots@) == #[trigger] add_all_roots(lists),
        r matches Ok(roots) ==> ((forall|k: int|
            0 <= k < selected_packages(packages@, texts(requested@)).len() ==> all_portable(
                #[trigger] selected_packages(packages@, texts(requested@))[k],
            )) ==> root_views(roots@) == add_all_roots(
            selected_packages(packages@, texts(requested@)).map_values(
                |p: PackageInfo| portable_roots(p),
            ),
        )),
{
    let unknown = unknown_packages(packages, requested);
    if unknown.len() > 0 {
        return Err(unknown);
    }
    let ghost req = texts(requested@);
    let mut roots: Vec<RootFolder> = Vec::new();
    let mut seen = new_component_set();
    assert(root_components(roots@) =~= Seq::<Seq<Seq<char>>>::empty());
    let ghost mut lists: Seq<Seq<RootModel>> = Seq::empty();
    let n = packages.len();
    let mut i: usize = 0;
    while i < n
        invariant
            n == packages@.len(),
            i <= n,
            req == texts(requested@),
            distinct_roots(root_views(roots@)),
            component_set_items(seen) == root_components(roots@),
            lists.len() == selected_packages(packages@.take(i as int), req).len(),
            forall|k: int| 0 <= k < lists.len() ==> is_root_list(
                selected_packages(packages@.take(i as int), req)[k],
                #[trigger] lists[k],
            ),
            root_views(roots@) == add_all_roots(lists),
        decreases n - i,
    {
        let package = &packages[i];
        let ghost pre = packages@.take(i as int);
        assert(packages@.take(i + 1).drop_last() =~= pre);
        assert(packages@.take(i + 1).last() == *package);
        if requested.len() == 0 || contains_text(requested, package.name.as_str()) {
            let more = collect_root_folders(package);
            let ghost more_view = root_views(more@);
            let ghost before = lists;
            extend_roots(&mut roots, &mut seen, more);
            proof {
                lists = lists.push(more_view);
                assert(lists.drop_last() =~= before);
                assert(selected_packages(packages@.take(i + 1), req) =~= selected_packages(pre, req).push(*package));
                assert forall|k: int| 0 <= k < lists.len() implies is_root_list(
                    selected_packages(packages@.take(i + 1), req)[k],
                    #[trigger] lists[k],
                ) by {
                    if k < before.len() {
                        assert(lists[k] == before[k]);
                        assert(selected_packages(packages@.take(i + 1), req)[k] == selected_packages(pre, req)[k]);
                    } else {
                        assert(lists[k] == more_view);
                    }
                }
            }
        } else {
            assert(selected_packages(packages@.take(i + 1), req) =~= selected_packages(pre, req));
        }
        i = i + 1;
    }
    assert(packages@.take(n as int) =~= packages@);
    proof {
        let sel = selected_packages(packages@, req);
        if forall|k: int| 0 <= k < sel.len() ==> all_portable(#[trigger] sel[k]) {
            assert forall|k: int| 0 <= k < lists.len() implies lists[k] == sel.map_values(
                |p: PackageInfo| portable_roots(p),
            )[k] by {
                assert(all_portable(sel[k]));
                law_portable_root_list(sel[k], lists[k]);
            }
            assert(lists =~= sel.map_values(|p: PackageInfo| portable_roots(p)));
        }
    }
    Ok(roots)
}

/// The message for requested packages that are unknown.
pub open spec fn unknown_packages_text(names: Seq<Seq<char>>) -> Seq<char> {
    if names.len() == 0 {
        "some packages are unknown"@
    } else if names.len() == 1 {
        "package `"@ + names[0] + "` is unknown"@
    } else {
        "unknown packages: "@ + listed_names(names, names.len() as int)
    }
}

/// The first `n` of at least two names: each quoted in backticks, separated
/// by `, `, the last after `, and `.
pub open spec fn listed_names(names: Seq<Seq<char>>, n: int) -> Seq<char>
    decreases n,
{
    if n <= 0 {
        Seq::empty()
    } else {
        let i = n - 1;
        listed_names(names, i) + if i == 0 {
            "`"@ + names[i] + "`"@
        } else if i == names.len() - 1 {
            ", and `"@ + names[i] + "`"@
        } else {
            ", `"@ + names[i] + "`"@
        }
    }
}

/// The message for requested packages that are unknown.
pub fn unknown_packages_message(names: &Vec<String>) -> (r: String)
    ensures
        r@ == unknown_packages_text(texts(names@)),
{
    let n = names.len();
    if n == 0 {
        return "some packages are unknown".to_owned();
    }
    if n == 1 {
        let mut s = "package `".to_owned();
        s.append(names[0].as_str());
        s.append("` is unknown");
        return s;
    }
    let mut s = "unknown packages: ".to_owned();
    let ghost head = s@;
    let mut i: usize = 0;
    while i < n
        invariant
            n == names@.len(),
            n >= 2,
            i <= n,
            s@ == head + listed_names(texts(names@), i as int),
        decreases n - i,
    {
        if i == 0 {
            s.append("`");
        } else if i == n - 1 {
            s.append(", and `");
        } else {
            s.append(", `");
        }
        s.append(names[i].as_str());
        s.append("`");
        i = i + 1;
    }
    s
}

} // verus!
