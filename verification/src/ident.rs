//! Report identifiers: checked identifiers, `group::id` report ids,
//! `group[::partial-id]` prefixes, and report severities.
use vstd::prelude::*;

use crate::arguments::{severity_name, Severity as MarkSeverity};
use crate::outside::{
    debug_quoted, debug_text, is_ascii_digit, is_ascii_letter, is_xid_continue, is_xid_start,
    xid_continue, xid_start,
};
use crate::text::{chars_of, same_text, string_of};

verus! {

/// Text that is a valid identifier here: a Unicode identifier that does
/// not start with `_`.
pub open spec fn is_ident_text(t: Seq<char>) -> bool {
    &&& t.len() > 0
    &&& t[0] != '_'
    &&& xid_start(t[0])
    &&& forall|i: int| 1 <= i < t.len() ==> xid_continue(#[trigger] t[i])
}

/// Among ASCII characters, `t` holds only letters, digits and `_`, as
/// every identifier does.
pub open spec fn ascii_clean(t: Seq<char>) -> bool {
    forall|i: int|
        0 <= i < t.len() && (t[i] as u32) < 128 ==> (is_ascii_letter(#[trigger] t[i])
            || is_ascii_digit(t[i]) || t[i] == '_')
}

/// The text of a valid [`Ident`].
pub open spec fn valid_ident(t: Seq<char>) -> bool {
    is_ident_text(t) && ascii_clean(t)
}

/// Text made of ASCII characters only.
pub open spec fn all_ascii(t: Seq<char>) -> bool {
    forall|i: int| 0 <= i < t.len() ==> (#[trigger] t[i] as u32) < 128
}

/// An ASCII identifier: an ASCII letter, then ASCII letters, digits and `_`.
pub open spec fn ascii_ident(t: Seq<char>) -> bool {
    &&& t.len() > 0
    &&& is_ascii_letter(t[0])
    &&& forall|i: int|
        1 <= i < t.len() ==> is_ascii_letter(#[trigger] t[i]) || is_ascii_digit(t[i]) || t[i]
            == '_'
}

/// Text that reads as an ASCII identifier once a leading `r#` is dropped.
pub open spec fn ascii_ok(t: Seq<char>) -> bool {
    ascii_ident(strip_raw(t))
}

/// `s` without a leading `r#`.
pub open spec fn strip_raw(s: Seq<char>) -> Seq<char> {
    if s.len() >= 2 && s[0] == 'r' && s[1] == '#' {
        s.skip(2)
    } else {
        s
    }
}

/// Identifier parse error.
#[derive(Clone, Debug, PartialEq, Eq)]
pub enum IdentError {
    /// Identifier is an empty string.
    Empty,
    /// Identifier starts with underscore (`_`).
    Underscore(String),
    /// A part is not an ident.
    Unicode(String),
}

pub enum IdentErrorModel {
    Empty,
    Underscore(Seq<char>),
    Unicode(Seq<char>),
}

impl View for IdentError {
    type V = IdentErrorModel;

    open spec fn view(&self) -> IdentErrorModel {
        match self {
            IdentError::Empty => IdentErrorModel::Empty,
            IdentError::Underscore(s) => IdentErrorModel::Underscore(s@),
            IdentError::Unicode(s) => IdentErrorModel::Unicode(s@),
        }
    }
}

/// The outcome of reading `input` as an identifier.
pub open spec fn spec_ident_from_str(input: Seq<char>) -> Result<Seq<char>, IdentErrorModel> {
    let t = strip_raw(input);
    if t.len() == 0 {
        Err(IdentErrorModel::Empty)
    } else if t[0] == '_' {
        Err(IdentErrorModel::Underscore(t))
    } else if is_ident_text(t) {
        Ok(t)
    } else {
        Err(IdentErrorModel::Unicode(t))
    }
}

/// Which part of a report id or prefix an error is about.
#[derive(Clone, Copy, Debug, PartialEq, Eq, Structural)]
pub enum Context {
    /// Group part.
    Group,
    /// Id part.
    Id,
}

/// Report id parse error.
#[derive(Clone, Debug, PartialEq, Eq)]
pub enum ReportIdError {
    /// Identifier is an empty string.
    Empty(Context),
    /// A part is not an ident.
    Ident(Context, IdentError),
}

pub enum ReportIdErrorModel {
    Empty(Context),
    Ident(Context, IdentErrorModel),
}

impl View for ReportIdError {
    type V = ReportIdErrorModel;

    open spec fn view(&self) -> ReportIdErrorModel {
        match self {
            ReportIdError::Empty(c) => ReportIdErrorModel::Empty(*c),
            ReportIdError::Ident(c, e) => ReportIdErrorModel::Ident(*c, e@),
        }
    }
}

/// Prefix parse error.
#[derive(Clone, Debug, PartialEq, Eq)]
pub enum PrefixError {
    /// Whole identifier is empty.
    Empty,
    /// A part is not an ident.
    Ident(Context, IdentError),
}

pub enum PrefixErrorModel {
    Empty,
    Ident(Context, IdentErrorModel),
}

impl View for PrefixError {
    type V = PrefixErrorModel;

    open spec fn view(&self) -> PrefixErrorModel {
        match self {
            PrefixError::Empty => PrefixErrorModel::Empty,
            PrefixError::Ident(c, e) => PrefixErrorModel::Ident(*c, e@),
        }
    }
}

/// Simple checked Unicode identifier; `_` is not allowed at the start.
#[derive(Debug, PartialEq, Eq, PartialOrd, Ord, Hash)]
pub struct Ident(String);

impl Clone for Ident {
    fn clone(&self) -> (r: Self)
        ensures
            r == *self,
    {
        proof {
            use_type_invariant(self);
        }
        Ident(self.0.clone())
    }
}

impl View for Ident {
    type V = Seq<char>;

    closed spec fn view(&self) -> Seq<char> {
        self.0@
    }
}

impl Ident {
    /// Every identifier's text is a valid identifier.
    #[verifier::type_invariant]
    spec fn well_formed(self) -> bool {
        valid_ident(self.0@)
    }

    /// Reads an identifier; a leading `r#` is dropped first.
    pub fn from_str(input: &str) -> (r: Result<Ident, IdentError>)
        ensures
            match (r, spec_ident_from_str(input@)) {
                (Ok(i), Ok(t)) => i@ == t,
                (Err(e), Err(m)) => e@ == m,
                _ => false,
            },
            r matches Ok(i) ==> valid_ident(i@),
            all_ascii(strip_raw(input@)) ==> (r is Ok <==> ascii_ident(strip_raw(input@))),
            r matches Ok(i) ==> i@ == strip_raw(input@),
    {
        let chars = chars_of(input);
        let n = chars.len();
        let start: usize = if n >= 2 && chars[0] == 'r' && chars[1] == '#' {
            2
        } else {
            0
        };
        let text = string_of(&chars, start, n);
        proof {
            assert(strip_raw(input@) =~= chars@.subrange(start as int, n as int));
        }
        if start == n {
            return Err(IdentError::Empty);
        }
        let first = chars[start];
        proof {
            assert(strip_raw(input@)[0] == first);
        }
        if first == '_' {
            return Err(IdentError::Underscore(text));
        }
        if !is_xid_start(first) {
            return Err(IdentError::Unicode(text));
        }
        let mut i: usize = start + 1;
        while i < n
            invariant
                start < i <= n,
                n == chars@.len(),
                text@ == chars@.subrange(start as int, n as int),
                strip_raw(input@) == text@,
                text@[0] != '_',
                xid_start(text@[0]),
                forall|k: int| start + 1 <= k < i ==> xid_continue(#[trigger] chars@[k]),
                (first as u32) < 128 ==> is_ascii_letter(first),
                first == text@[0],
                forall|k: int|
                    start + 1 <= k < i && (chars@[k] as u32) < 128 ==> (is_ascii_letter(#[trigger] chars@[k])
                        || is_ascii_digit(chars@[k]) || chars@[k] == '_'),
            decreases n - i,
        {
            if !is_xid_continue(chars[i]) {
                proof {
                    let t = chars@.subrange(start as int, n as int);
                    assert(t[i - start] == chars@[i as int]);
                    assert(!xid_continue(t[i - start]));
                    assert(!is_ident_text(t));
                }
                return Err(IdentError::Unicode(text));
            }
            i = i + 1;
        }
        proof {
            let t = chars@.subrange(start as int, n as int);
            assert forall|k: int| 1 <= k < t.len() implies xid_continue(#[trigger] t[k]) by {
                assert(t[k] == chars@[start + k]);
            }
            assert forall|k: int| 0 <= k < t.len() && (t[k] as u32) < 128 implies (is_ascii_letter(#[trigger] t[k])
                || is_ascii_digit(t[k]) || t[k] == '_') by {
                if k > 0 {
                    assert(t[k] == chars@[start + k]);
                }
            }
        }
        Ok(Ident(text))
    }

    /// The identifier's text.
    pub fn as_str(&self) -> (r: &str)
        ensures
            r@ == self@,
    {
        self.0.as_str()
    }

    /// The identifier's text, owned.
    pub fn to_string(&self) -> (r: String)
        ensures
            r@ == self@,
            valid_ident(r@),
            spec_ident_from_str(r@) == Ok::<Seq<char>, IdentErrorModel>(self@),
    {
        proof {
            use_type_invariant(self);
            law_ident_text_round_trip(self@);
        }
        self.0.clone()
    }

    /// A copy of the identifier.
    pub fn duplicate(&self) -> (r: Ident)
        ensures
            r == *self,
    {
        proof {
            use_type_invariant(self);
        }
        Ident(self.0.clone())
    }

    /// Whether two identifiers are the same.
    pub fn same(&self, other: &Ident) -> (r: bool)
        ensures
            r == (self@ == other@),
    {
        same_text(self.0.as_str(), other.0.as_str())
    }
}

/// `p` is a prefix of `s`.
pub open spec fn text_starts_with(s: Seq<char>, p: Seq<char>) -> bool {
    p.len() <= s.len() && s.take(p.len() as int) == p
}

/// Whether `s` starts with `p`.
pub fn starts_with_text(s: &str, p: &str) -> (r: bool)
    ensures
        r == text_starts_with(s@, p@),
{
    let sc = chars_of(s);
    let pc = chars_of(p);
    if pc.len() > sc.len() {
        return false;
    }
    let mut i: usize = 0;
    while i < pc.len()
        invariant
            pc@ == p@,
            sc@ == s@,
            pc@.len() <= sc@.len(),
            i <= pc@.len(),
            forall|k: int| 0 <= k < i ==> sc@[k] == pc@[k],
        decreases pc@.len() - i,
    {
        if sc[i] != pc[i] {
            assert(s@.take(p@.len() as int)[i as int] != p@[i as int]);
            return false;
        }
        i = i + 1;
    }
    assert(s@.take(p@.len() as int) =~= p@);
    true
}

/// Full report id: `group::id`.
#[derive(Clone, Debug, PartialEq, Eq, PartialOrd, Ord, Hash)]
pub struct ReportId {
    /// Full group ident.
    group: Ident,
    /// Full report id.
    id: Ident,
}

/// A report id as a pair of texts.
pub type ReportIdKey = (Seq<char>, Seq<char>);

impl View for ReportId {
    type V = ReportIdKey;

    closed spec fn view(&self) -> ReportIdKey {
        (self.group@, self.id@)
    }
}

/// Full or partial, at most two-segment, path prefix: `group` or
/// `group::id-start`.
#[derive(Clone, Debug, PartialEq, Eq, PartialOrd, Ord, Hash)]
pub struct Prefix {
    /// Full group ident.
    group: Ident,
    /// Full or partial report id.
    id: Option<Ident>,
}

/// A prefix as texts.
pub type PrefixKey = (Seq<char>, Option<Seq<char>>);

impl View for Prefix {
    type V = PrefixKey;

    closed spec fn view(&self) -> PrefixKey {
        (
            self.group@,
            match self.id {
                Some(i) => Some(i@),
                None => None,
            },
        )
    }
}

/// The report id `r` falls under the prefix `p`: same group, and the id
/// starts with the prefix's id, if it has one.
pub open spec fn key_starts_with(r: ReportIdKey, p: PrefixKey) -> bool {
    r.0 == p.0 && match p.1 {
        None => true,
        Some(id) => text_starts_with(r.1, id),
    }
}

/// The index of the first `::` in `s` at or after `from`.
pub open spec fn find_separator(s: Seq<char>, from: int) -> Option<int>
    decreases s.len() - from,
{
    if from < 0 || from + 1 >= s.len() {
        None
    } else if s[from] == ':' && s[from + 1] == ':' {
        Some(from)
    } else {
        find_separator(s, from + 1)
    }
}

/// `s` split at its first `::`: the part before, and the part after if there
/// is a separator.
pub open spec fn split_once_separator(s: Seq<char>) -> (Seq<char>, Option<Seq<char>>) {
    match find_separator(s, 0) {
        Some(i) => (s.take(i), Some(s.skip(i + 2))),
        None => (s, None),
    }
}

/// Splits `input` at its first `::`.
pub fn split_separator(input: &str) -> (r: (String, Option<String>))
    ensures
        r.0@ == split_once_separator(input@).0,
        match (r.1, split_once_separator(input@).1) {
            (Some(a), Some(b)) => a@ == b,
            (None, None) => true,
            _ => false,
        },
{
    let chars = chars_of(input);
    let n = chars.len();
    let mut i: usize = 0;
    while n > 0 && i < n - 1
        invariant
            chars@ == input@,
            n == chars@.len(),
            i <= n,
            find_separator(chars@, 0) == find_separator(chars@, i as int),
        decreases n - i,
    {
        if chars[i] == ':' && chars[i + 1] == ':' {
            let before = string_of(&chars, 0, i);
            let after = string_of(&chars, i + 2, n);
            proof {
                assert(chars@.take(i as int) =~= chars@.subrange(0, i as int));
                assert(chars@.skip(i + 2) =~= chars@.subrange(i + 2, n as int));
            }
            return (before, Some(after));
        }
        i = i + 1;
    }
    let all = string_of(&chars, 0, n);
    proof {
        assert(chars@.subrange(0, n as int) =~= chars@);
    }
    (all, None)
}

/// The outcome of building a report id from a group and an id text.
pub open spec fn spec_report_id_from_parts(group: Seq<char>, id: Seq<char>) -> Result<
    ReportIdKey,
    ReportIdErrorModel,
> {
    if group.len() == 0 {
        Err(ReportIdErrorModel::Empty(Context::Group))
    } else if spec_ident_from_str(group) is Err {
        Err(ReportIdErrorModel::Ident(Context::Group, spec_ident_from_str(group)->Err_0))
    } else if id.len() == 0 {
        Err(ReportIdErrorModel::Empty(Context::Id))
    } else if spec_ident_from_str(id) is Err {
        Err(ReportIdErrorModel::Ident(Context::Id, spec_ident_from_str(id)->Err_0))
    } else {
        Ok((spec_ident_from_str(group)->Ok_0, spec_ident_from_str(id)->Ok_0))
    }
}

/// The outcome of building a prefix from a group and an optional id text.
pub open spec fn spec_prefix_from_parts(group: Seq<char>, id: Option<Seq<char>>) -> Result<
    PrefixKey,
    PrefixErrorModel,
> {
    if group.len() == 0 {
        Err(PrefixErrorModel::Empty)
    } else if spec_ident_from_str(group) is Err {
        Err(PrefixErrorModel::Ident(Context::Group, spec_ident_from_str(group)->Err_0))
    } else {
        match id {
            None => Ok((spec_ident_from_str(group)->Ok_0, None)),
            Some(t) => if t.len() == 0 {
                Ok((spec_ident_from_str(group)->Ok_0, None))
            } else if spec_ident_from_str(t) is Err {
                Err(PrefixErrorModel::Ident(Context::Id, spec_ident_from_str(t)->Err_0))
            } else {
                Ok((spec_ident_from_str(group)->Ok_0, Some(spec_ident_from_str(t)->Ok_0)))
            },
        }
    }
}

impl ReportId {
    #[inline]
    pub fn group(&self) -> (r: &Ident)
        ensures
            r@ == self@.0,
    {
        &self.group
    }

    #[inline]
    pub fn id(&self) -> (r: &Ident)
        ensures
            r@ == self@.1,
    {
        &self.id
    }

    #[inline]
    pub fn from_parts(group: Ident, id: Ident) -> (r: Self)
        ensures
            r@ == (group@, id@),
    {
        ReportId { group, id }
    }

    /// Builds a report id from a group and an id text; each must be a
    /// non-empty identifier.
    pub fn from_parts_raw(group: &str, id: &str) -> (r: Result<Self, ReportIdError>)
        ensures
            match (r, spec_report_id_from_parts(group@, id@)) {
                (Ok(v), Ok(m)) => v@ == m,
                (Err(e), Err(m)) => e@ == m,
                _ => false,
            },
            r matches Ok(v) ==> valid_ident(v@.0) && valid_ident(v@.1),
            ascii_ok(group@) && ascii_ok(id@) ==> (r is Ok && r->Ok_0@ == (
                strip_raw(group@),
                strip_raw(id@),
            )),
    {
        if group.unicode_len() == 0 {
            return Err(ReportIdError::Empty(Context::Group));
        }
        let group = match Ident::from_str(group) {
            Ok(g) => g,
            Err(e) => {
                return Err(ReportIdError::Ident(Context::Group, e));
            },
        };
        if id.unicode_len() == 0 {
            return Err(ReportIdError::Empty(Context::Id));
        }
        let id = match Ident::from_str(id) {
            Ok(i) => i,
            Err(e) => {
                return Err(ReportIdError::Ident(Context::Id, e));
            },
        };
        Ok(ReportId { group, id })
    }

    /// Reads `group::id`; without `::` the id is missing.
    pub fn from_str(input: &str) -> (r: Result<Self, ReportIdError>)
        ensures
            match (
                r,
                spec_report_id_from_parts(
                    split_once_separator(input@).0,
                    match split_once_separator(input@).1 {
                        Some(id) => id,
                        None => Seq::empty(),
                    },
                ),
            ) {
                (Ok(v), Ok(m)) => v@ == m,
                (Err(e), Err(m)) => e@ == m,
                _ => false,
            },
            r matches Ok(v) ==> valid_ident(v@.0) && valid_ident(v@.1),
            ascii_ok(split_once_separator(input@).0) && split_once_separator(input@).1 is Some
                && ascii_ok(split_once_separator(input@).1->Some_0) ==> (r is Ok && r->Ok_0@ == (
                strip_raw(split_once_separator(input@).0),
                strip_raw(split_once_separator(input@).1->Some_0),
            )),
    {
        let (group, id) = split_separator(input);
        match id {
            Some(id) => Self::from_parts_raw(group.as_str(), id.as_str()),
            None => {
                let none = String::new();
                Self::from_parts_raw(group.as_str(), none.as_str())
            },
        }
    }

    /// Whether this report id falls under `prefix`.
    pub fn starts_with(&self, prefix: &Prefix) -> (r: bool)
        ensures
            r == key_starts_with(self@, prefix@),
    {
        if !self.group.same(&prefix.group) {
            return false;
        }
        match &prefix.id {
            None => true,
            Some(id) => starts_with_text(self.id.as_str(), id.as_str()),
        }
    }

    /// A copy of the report id.
    pub fn duplicate(&self) -> (r: ReportId)
        ensures
            r == *self,
    {
        ReportId { group: self.group.duplicate(), id: self.id.duplicate() }
    }

    /// Whether two report ids are the same.
    pub fn same(&self, other: &ReportId) -> (r: bool)
        ensures
            r == (self@ == other@),
    {
        self.group.same(&other.group) && self.id.same(&other.id)
    }

    /// `group::id`.
    pub fn to_string(&self) -> (r: String)
        ensures
            r@ == self@.0 + "::"@ + self@.1,
            spec_report_id_from_str(r@) == Ok::<ReportIdKey, ReportIdErrorModel>(self@),
    {
        proof {
            use_type_invariant(&self.group);
            use_type_invariant(&self.id);
            law_report_id_text_round_trip(self@);
        }
        let mut s = self.group.to_string();
        s.append("::");
        s.append(self.id.as_str());
        s
    }
}

impl Prefix {
    #[inline]
    pub fn group(&self) -> (r: &Ident)
        ensures
            r@ == self@.0,
    {
        &self.group
    }

    #[inline]
    pub fn id(&self) -> (r: Option<&Ident>)
        ensures
            match (r, self@.1) {
                (Some(i), Some(t)) => i@ == t,
                (None, None) => true,
                _ => false,
            },
    {
        match &self.id {
            Some(i) => Some(i),
            None => None,
        }
    }

    /// Builds a prefix from a group and an optional id; an empty id counts
    /// as none.
    pub fn from_parts_raw(group: &str, id: Option<&str>) -> (r: Result<Self, PrefixError>)
        ensures
            match (
                r,
                spec_prefix_from_parts(
                    group@,
                    match id {
                        Some(t) => Some(t@),
                        None => None,
                    },
                ),
            ) {
                (Ok(v), Ok(m)) => v@ == m,
                (Err(e), Err(m)) => e@ == m,
                _ => false,
            },
            r matches Ok(v) ==> valid_ident(v@.0) && (v@.1 matches Some(i) ==> valid_ident(i)),
            ascii_ok(group@) && (id is Some ==> id->Some_0@.len() == 0 || ascii_ok(id->Some_0@))
                ==> (r is Ok && r->Ok_0@ == (
                strip_raw(group@),
                match id {
                    Some(t) => if t@.len() == 0 {
                        None
                    } else {
                        Some(strip_raw(t@))
                    },
                    None => None,
                },
            )),
    {
        if group.unicode_len() == 0 {
            return Err(PrefixError::Empty);
        }
        let group = match Ident::from_str(group) {
            Ok(g) => g,
            Err(e) => {
                return Err(PrefixError::Ident(Context::Group, e));
            },
        };
        let id = match id {
            None => None,
            Some(value) => {
                if value.unicode_len() == 0 {
                    None
                } else {
                    match Ident::from_str(value) {
                        Ok(i) => Some(i),
                        Err(e) => {
                            return Err(PrefixError::Ident(Context::Id, e));
                        },
                    }
                }
            },
        };
        Ok(Prefix { group, id })
    }

    /// Reads `group` or `group::id`.
    pub fn from_str(input: &str) -> (r: Result<Self, PrefixError>)
        ensures
            match (
                r,
                spec_prefix_from_parts(
                    split_once_separator(input@).0,
                    split_once_separator(input@).1,
                ),
            ) {
                (Ok(v), Ok(m)) => v@ == m,
                (Err(e), Err(m)) => e@ == m,
                _ => false,
            },
            r matches Ok(v) ==> valid_ident(v@.0) && (v@.1 matches Some(i) ==> valid_ident(i)),
            ascii_ok(split_once_separator(input@).0) && (split_once_separator(input@).1 is Some
                ==> split_once_separator(input@).1->Some_0.len() == 0 || ascii_ok(
                split_once_separator(input@).1->Some_0,
            )) ==> (r is Ok && r->Ok_0@ == (
                strip_raw(split_once_separator(input@).0),
                match split_once_separator(input@).1 {
                    Some(t) => if t.len() == 0 {
                        None
                    } else {
                        Some(strip_raw(t))
                    },
                    None => None,
                },
            )),
    {
        let (group, id) = split_separator(input);
        match id {
            Some(id) => Self::from_parts_raw(group.as_str(), Some(id.as_str())),
            None => Self::from_parts_raw(group.as_str(), None),
        }
    }

    /// A copy of the prefix.
    pub fn duplicate(&self) -> (r: Prefix)
        ensures
            r == *self,
    {
        let id = match &self.id {
            Some(i) => Some(i.duplicate()),
            None => None,
        };
        Prefix { group: self.group.duplicate(), id }
    }

    /// Whether two prefixes are the same.
    pub fn same(&self, other: &Prefix) -> (r: bool)
        ensures
            r == (self@ == other@),
    {
        if !self.group.same(&other.group) {
            return false;
        }
        match (&self.id, &other.id) {
            (None, None) => true,
            (Some(a), Some(b)) => a.same(b),
            _ => false,
        }
    }

    /// `group` or `group::id`.
    pub fn to_string(&self) -> (r: String)
        ensures
            r@ == match self@.1 {
                Some(id) => self@.0 + "::"@ + id,
                None => self@.0,
            },
            spec_prefix_from_str(r@) == Ok::<PrefixKey, PrefixErrorModel>(self@),
    {
        proof {
            use_type_invariant(&self.group);
            if let Some(i) = &self.id {
                use_type_invariant(i);
            }
            law_prefix_text_round_trip(self@);
        }
        let mut s = self.group.to_string();
        match &self.id {
            Some(id) => {
                s.append("::");
                s.append(id.as_str());
            },
            None => {},
        }
        s
    }
}

/// Report severity levels.
#[derive(Clone, Copy, Debug, PartialEq, Eq, Structural)]
pub enum Severity {
    /// Suppress rule reporting.
    Suppress,
    /// Report rule with Error log level.
    Error,
    /// Report rule with Warning log level.
    Warning,
    /// Report rule with Info log level.
    Info,
    /// Report rule with Debug log level.
    Debug,
    /// Report rule with Trace log level.
    Trace,
}

/// Log levels a report can be written at.
#[derive(Clone, Copy, Debug, PartialEq, Eq, Structural)]
pub enum LogLevel {
    Error,
    Warn,
    Info,
    Debug,
    Trace,
}

pub open spec fn severity_text(s: Severity) -> Seq<char> {
    match s {
        Severity::Suppress => "suppress"@,
        Severity::Error => "error"@,
        Severity::Warning => "warning"@,
        Severity::Info => "info"@,
        Severity::Debug => "debug"@,
        Severity::Trace => "trace"@,
    }
}

pub open spec fn spec_severity_from_mark(s: MarkSeverity) -> Severity {
    match s {
        MarkSeverity::Error => Severity::Error,
        MarkSeverity::Warning => Severity::Warning,
        MarkSeverity::Info => Severity::Info,
        MarkSeverity::Debug => Severity::Debug,
        MarkSeverity::Trace => Severity::Trace,
    }
}

/// The report severity a mark's own severity stands for has the same name:
/// a mark written `info` is reported at `info`, and so on for each of the
/// five severities a mark can carry.
pub proof fn law_mark_severity_keeps_its_name(s: MarkSeverity)
    ensures
        severity_text(spec_severity_from_mark(s)) == severity_name(s),
        spec_severity_from_mark(s) != Severity::Suppress,
{
}

pub open spec fn spec_level(s: Severity) -> Option<LogLevel> {
    match s {
        Severity::Suppress => None,
        Severity::Error => Some(LogLevel::Error),
        Severity::Warning => Some(LogLevel::Warn),
        Severity::Info => Some(LogLevel::Info),
        Severity::Debug => Some(LogLevel::Debug),
        Severity::Trace => Some(LogLevel::Trace),
    }
}

impl Severity {
    /// The severity a mark's own severity stands for.
    pub fn from_mark(value: MarkSeverity) -> (r: Severity)
        ensures
            r == spec_severity_from_mark(value),
    {
        match value {
            MarkSeverity::Error => Severity::Error,
            MarkSeverity::Warning => Severity::Warning,
            MarkSeverity::Info => Severity::Info,
            MarkSeverity::Debug => Severity::Debug,
            MarkSeverity::Trace => Severity::Trace,
        }
    }

    /// The log level reports of this severity are written at; none when
    /// suppressed.
    pub fn level(self) -> (r: Option<LogLevel>)
        ensures
            r == spec_level(self),
    {
        match self {
            Severity::Suppress => None,
            Severity::Error => Some(LogLevel::Error),
            Severity::Warning => Some(LogLevel::Warn),
            Severity::Info => Some(LogLevel::Info),
            Severity::Debug => Some(LogLevel::Debug),
            Severity::Trace => Some(LogLevel::Trace),
        }
    }

    /// The lower-case name of the severity.
    pub fn to_string(&self) -> (r: String)
        ensures
            r@ == severity_text(*self),
    {
        match self {
            Severity::Suppress => "suppress".to_owned(),
            Severity::Error => "error".to_owned(),
            Severity::Warning => "warning".to_owned(),
            Severity::Info => "info".to_owned(),
            Severity::Debug => "debug".to_owned(),
            Severity::Trace => "trace".to_owned(),
        }
    }
}

impl Context {
    /// `group` or `id`.
    pub fn to_string(&self) -> (r: String)
        ensures
            r@ == match self {
                Context::Group => "group"@,
                Context::Id => "id"@,
            },
    {
        match self {
            Context::Group => "group".to_owned(),
            Context::Id => "id".to_owned(),
        }
    }
}

impl IdentError {
    /// The error message.
    pub fn to_string(&self) -> (r: String)
        ensures
            r@ == match self@ {
                IdentErrorModel::Empty => "identifier cannot be an empty string"@,
                IdentErrorModel::Underscore(s) => "identifier cannot start with an underscore (`_`) character: "@
                    + debug_quoted(s),
                IdentErrorModel::Unicode(s) => "unable recognise as unicode identifier: "@
                    + debug_quoted(s),
            },
    {
        match self {
            IdentError::Empty => "identifier cannot be an empty string".to_owned(),
            IdentError::Underscore(segment) => {
                let mut m = "identifier cannot start with an underscore (`_`) character: ".to_owned();
                m.append(debug_text(segment.as_str()).as_str());
                m
            },
            IdentError::Unicode(segment) => {
                let mut m = "unable recognise as unicode identifier: ".to_owned();
                m.append(debug_text(segment.as_str()).as_str());
                m
            },
        }
    }
}

impl ReportIdError {
    /// The error message.
    pub fn to_string(&self) -> (r: String)
        ensures
            r@ == match self {
                ReportIdError::Empty(c) => "report id must be in form `group::id`. Missing `"@ + (
                match c {
                    Context::Group => "group"@,
                    Context::Id => "id"@,
                }) + "` part"@,
                ReportIdError::Ident(c, e) => "Report id `"@ + (match c {
                    Context::Group => "group"@,
                    Context::Id => "id"@,
                }) + "` part: "@ + e.to_string_spec(),
            },
    {
        match self {
            ReportIdError::Empty(context) => {
                let mut m = "report id must be in form `group::id`. Missing `".to_owned();
                m.append(context.to_string().as_str());
                m.append("` part");
                m
            },
            ReportIdError::Ident(context, source) => {
                let mut m = "Report id `".to_owned();
                m.append(context.to_string().as_str());
                m.append("` part: ");
                m.append(source.to_string().as_str());
                m
            },
        }
    }
}

impl PrefixError {
    /// The error message.
    pub fn to_string(&self) -> (r: String)
        ensures
            r@ == match self {
                PrefixError::Empty => "prefix must be in form `group` or `group::id` where both parts are valid unicode identifiers."@,
                PrefixError::Ident(c, e) => "Prefix `"@ + (match c {
                    Context::Group => "group"@,
                    Context::Id => "id"@,
                }) + "` part: "@ + e.to_string_spec(),
            },
    {
        match self {
            PrefixError::Empty => "prefix must be in form `group` or `group::id` where both parts are valid unicode identifiers.".to_owned(),
            PrefixError::Ident(context, source) => {
                let mut m = "Prefix `".to_owned();
                m.append(context.to_string().as_str());
                m.append("` part: ");
                m.append(source.to_string().as_str());
                m
            },
        }
    }
}

impl IdentError {
    /// The message [`IdentError::to_string`] gives.
    pub open spec fn to_string_spec(&self) -> Seq<char> {
        match self@ {
            IdentErrorModel::Empty => "identifier cannot be an empty string"@,
            IdentErrorModel::Underscore(s) => "identifier cannot start with an underscore (`_`) character: "@
                + debug_quoted(s),
            IdentErrorModel::Unicode(s) => "unable recognise as unicode identifier: "@
                + debug_quoted(s),
        }
    }
}

/// `group::id`, the text of a report id.
pub open spec fn report_id_text(k: ReportIdKey) -> Seq<char> {
    k.0 + "::"@ + k.1
}

/// `group` or `group::id`, the text of a prefix.
pub open spec fn prefix_text(p: PrefixKey) -> Seq<char> {
    match p.1 {
        Some(id) => p.0 + "::"@ + id,
        None => p.0,
    }
}

/// The report id a text reads as, `::` separating the group from the id.
pub open spec fn spec_report_id_from_str(input: Seq<char>) -> Result<ReportIdKey, ReportIdErrorModel> {
    spec_report_id_from_parts(
        split_once_separator(input).0,
        match split_once_separator(input).1 {
            Some(id) => id,
            None => Seq::empty(),
        },
    )
}

/// The prefix a text reads as.
pub open spec fn spec_prefix_from_str(input: Seq<char>) -> Result<PrefixKey, PrefixErrorModel> {
    spec_prefix_from_parts(split_once_separator(input).0, split_once_separator(input).1)
}

proof fn lemma_no_colon(t: Seq<char>, i: int)
    requires
        ascii_clean(t),
        0 <= i < t.len(),
    ensures
        t[i] != ':',
{
    if t[i] == ':' {
        assert((t[i] as u32) < 128);
        assert(is_ascii_letter(t[i]) || is_ascii_digit(t[i]) || t[i] == '_');
    }
}

/// Searching from `from`, the first `::` is the one at `at` when no `:`
/// comes before it.
proof fn lemma_find_separator_at(s: Seq<char>, from: int, at: int)
    requires
        0 <= from <= at,
        at + 1 < s.len(),
        s[at] == ':' && s[at + 1] == ':',
        forall|k: int| from <= k < at ==> s[k] != ':',
    ensures
        find_separator(s, from) == Some(at),
    decreases at - from,
{
    if from < at {
        lemma_find_separator_at(s, from + 1, at);
    }
}

/// Without a `:` from `from` on, there is no `::` there.
proof fn lemma_find_separator_none(s: Seq<char>, from: int)
    requires
        0 <= from,
        forall|k: int| from <= k < s.len() ==> s[k] != ':',
    ensures
        find_separator(s, from) is None,
    decreases s.len() - from,
{
    if from + 1 < s.len() {
        lemma_find_separator_none(s, from + 1);
    }
}

/// The text of a valid identifier reads back as that identifier.
pub proof fn law_ident_text_round_trip(t: Seq<char>)
    requires
        valid_ident(t),
    ensures
        spec_ident_from_str(t) == Ok::<Seq<char>, IdentErrorModel>(t),
{
    if t.len() >= 2 && t[0] == 'r' && t[1] == '#' {
        assert((t[1] as u32) < 128);
        assert(is_ascii_letter(t[1]) || is_ascii_digit(t[1]) || t[1] == '_');
    }
    assert(strip_raw(t) == t);
}

/// A report id whose group and id are valid identifiers, written as text
/// (`ReportId::to_string`), reads back (`ReportId::from_str`) as the same
/// report id. Every `ReportId` value is one: its identifiers keep that as
/// their type invariant, and `ReportId::to_string` states the round trip.
pub proof fn law_report_id_text_round_trip(k: ReportIdKey)
    requires
        valid_ident(k.0),
        valid_ident(k.1),
    ensures
        spec_report_id_from_str(report_id_text(k)) == Ok::<ReportIdKey, ReportIdErrorModel>(k),
{
    reveal_strlit("::");
    let s = report_id_text(k);
    let g = k.0.len() as int;
    assert("::"@.len() == 2 && "::"@[0] == ':' && "::"@[1] == ':');
    assert forall|i: int| 0 <= i < g implies s[i] != ':' by {
        lemma_no_colon(k.0, i);
    }
    lemma_find_separator_at(s, 0, g);
    assert(s.take(g) =~= k.0);
    assert(s.skip(g + 2) =~= k.1);
    law_ident_text_round_trip(k.0);
    law_ident_text_round_trip(k.1);
}

/// A prefix whose parts are valid identifiers, written as text
/// (`Prefix::to_string`), reads back (`Prefix::from_str`) as the same
/// prefix. Every `Prefix` value is one, and `Prefix::to_string` states the
/// round trip.
pub proof fn law_prefix_text_round_trip(p: PrefixKey)
    requires
        valid_ident(p.0),
        p.1 matches Some(id) ==> valid_ident(id),
    ensures
        spec_prefix_from_str(prefix_text(p)) == Ok::<PrefixKey, PrefixErrorModel>(p),
{
    reveal_strlit("::");
    law_ident_text_round_trip(p.0);
    let s = prefix_text(p);
    let g = p.0.len() as int;
    assert forall|i: int| 0 <= i < g implies s[i] != ':' by {
        lemma_no_colon(p.0, i);
    }
    match p.1 {
        Some(id) => {
            assert("::"@.len() == 2 && "::"@[0] == ':' && "::"@[1] == ':');
            lemma_find_separator_at(s, 0, g);
            assert(s.take(g) =~= p.0);
            assert(s.skip(g + 2) =~= id);
            law_ident_text_round_trip(id);
        },
        None => {
            lemma_find_separator_none(s, 0);
        },
    }
}

/// A prefix compares groups whole: the prefix `gr` covers the report ids
/// of group `gr` and no others (not those of `group`), and a prefix without
/// an id covers every report id of its group.
pub proof fn law_prefix_group_is_whole(r: ReportIdKey, p: PrefixKey)
    ensures
        key_starts_with(r, p) ==> r.0 == p.0,
        p.1 is None ==> (key_starts_with(r, p) <==> r.0 == p.0),
{
}

/// `group::` reads as the same prefix as `group`.
pub proof fn law_empty_id_prefix_is_group(g: Seq<char>)
    requires
        valid_ident(g),
    ensures
        spec_prefix_from_str(g + "::"@) == spec_prefix_from_str(g),
        spec_prefix_from_str(g) == Ok::<PrefixKey, PrefixErrorModel>((g, None)),
{
    reveal_strlit("::");
    assert("::"@.len() == 2 && "::"@[0] == ':' && "::"@[1] == ':');
    law_prefix_text_round_trip((g, None));
    let s = g + "::"@;
    let n = g.len() as int;
    assert forall|i: int| 0 <= i < n implies s[i] != ':' by {
        lemma_no_colon(g, i);
    }
    lemma_find_separator_at(s, 0, n);
    assert(s.take(n) =~= g);
    assert(s.skip(n + 2) =~= Seq::<char>::empty());
}

} // verus!
