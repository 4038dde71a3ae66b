//! Findings as the scanner reports them, and their identity.

use vstd::prelude::*;
use vstd::std_specs::cmp::PartialEqSpecImpl;

verus! {

/// One occurrence of a detected secret.
///
/// Only `rule_id`, `file`, `line`, `matched`, `secret` and `fingerprint` are
/// ever read by the engines of this crate; every other field is provenance
/// that is carried along untouched.
#[derive(Debug, Clone)]
pub struct Finding {
    pub description: String,
    pub start_line: usize,
    pub end_line: usize,
    pub start_column: usize,
    pub end_column: usize,
    /// Full text of the line that holds the match.
    pub line: String,
    /// The text that the detection rule matched.
    pub matched: String,
    /// The part of the match that is taken to be the secret.
    pub secret: String,
    pub file: String,
    pub symlink_file: String,
    pub commit: String,
    /// Entropy of the secret, kept as the bit pattern of the single-precision
    /// number that the scanner reports, so that it travels unchanged.
    pub entropy_bits: u32,
    pub author: String,
    pub email: String,
    pub date: String,
    pub message: String,
    pub tags: Vec<String>,
    /// Identifier of the detection rule that fired.
    pub rule_id: String,
    /// Stable, content-derived identity of the finding.
    pub fingerprint: String,
}

/// What the engines of this crate read of a finding.
pub struct FindingView {
    pub rule_id: Seq<char>,
    pub file: Seq<char>,
    pub line: Seq<char>,
    pub matched: Seq<char>,
    pub secret: Seq<char>,
    pub fingerprint: Seq<char>,
}

impl View for Finding {
    type V = FindingView;

    open spec fn view(&self) -> FindingView {
        FindingView {
            rule_id: self.rule_id@,
            file: self.file@,
            line: self.line@,
            matched: self.matched@,
            secret: self.secret@,
            fingerprint: self.fingerprint@,
        }
    }
}

impl PartialEq for Finding {
    /// Two findings are the same finding exactly when their fingerprints agree.
    fn eq(&self, other: &Self) -> (r: bool) {
        self.fingerprint == other.fingerprint
    }
}

impl PartialEqSpecImpl for Finding {
    open spec fn obeys_eq_spec() -> bool {
        true
    }

    open spec fn eq_spec(&self, other: &Self) -> bool {
        self.fingerprint@ == other.fingerprint@
    }
}

impl Eq for Finding {}

/// `String`'s implementation of `Hash::hash`. Nothing is claimed of what it
/// does to the hasher.
pub assume_specification<H: core::hash::Hasher>[ <String as core::hash::Hash>::hash ](
    text: &String,
    state: &mut H,
);

impl core::hash::Hash for Finding {
    /// Hashes the fingerprint, and nothing else.
    fn hash<H: core::hash::Hasher>(&self, state: &mut H) {
        self.fingerprint.hash(state);
    }
}

/// Things that have an identity by which sets of them are formed: two of
/// them are the same member exactly when their keys are equal.
pub trait Keyed {
    type Key;

    /// The identity of the value.
    spec fn key(&self) -> Self::Key;

    /// Whether two values have the same identity.
    fn same_key(&self, other: &Self) -> (same: bool)
        ensures
            same == (self.key() == other.key()),
    ;
}

/// Some member of `list` has the key `key`.
pub open spec fn has_key<T: Keyed>(list: Seq<T>, key: T::Key) -> bool {
    exists|i: int| 0 <= i < list.len() && #[trigger] list[i].key() == key
}

/// The keys of the members of `list`, as a set.
pub open spec fn keys<T: Keyed>(list: Seq<T>) -> Set<T::Key> {
    Set::new(|key: T::Key| has_key(list, key))
}

impl Keyed for Finding {
    type Key = Seq<char>;

    /// The identity of a finding is its fingerprint, and nothing else.
    open spec fn key(&self) -> Seq<char> {
        self.fingerprint@
    }

    fn same_key(&self, other: &Self) -> (same: bool) {
        self.fingerprint == other.fingerprint
    }
}

/// A finding that an allowlist suppressed, with the id of that allowlist.
#[derive(Debug, Clone, Hash)]
pub struct AllowedFinding {
    pub allow_rule_id: String,
    pub finding: Finding,
}

impl Keyed for AllowedFinding {
    type Key = (Seq<char>, Seq<char>);

    /// An allowed finding is known by the allowlist that allowed it together
    /// with the finding's fingerprint.
    open spec fn key(&self) -> (Seq<char>, Seq<char>) {
        (self.allow_rule_id@, self.finding.fingerprint@)
    }

    fn same_key(&self, other: &Self) -> (same: bool) {
        self.allow_rule_id == other.allow_rule_id && self.finding.fingerprint
            == other.finding.fingerprint
    }
}

impl PartialEq for AllowedFinding {
    /// Two allowed findings are equal exactly when the same allowlist allowed
    /// the same finding.
    fn eq(&self, other: &Self) -> (r: bool) {
        self.allow_rule_id == other.allow_rule_id && self.finding == other.finding
    }
}

impl PartialEqSpecImpl for AllowedFinding {
    open spec fn obeys_eq_spec() -> bool {
        true
    }

    open spec fn eq_spec(&self, other: &Self) -> bool {
        self.allow_rule_id@ == other.allow_rule_id@ && self.finding.fingerprint@
            == other.finding.fingerprint@
    }
}

impl Eq for AllowedFinding {}

/// The findings of one scan target, as the scanner reported them.
#[derive(Debug)]
pub struct Report {
    pub repo_name: String,
    pub findings: Vec<Finding>,
}

/// A key is among the members of a list with one more member exactly when
/// it is among those of the list or is the key of the new member.
pub proof fn lemma_has_key_push<T: Keyed>(list: Seq<T>, member: T, key: T::Key)
    ensures
        has_key(list.push(member), key) == (has_key(list, key) || member.key() == key),
{
    let longer = list.push(member);
    if has_key(list, key) {
        let i = choose|i: int| 0 <= i < list.len() && #[trigger] list[i].key() == key;
        assert(longer[i].key() == key);
    }
    if member.key() == key {
        assert(longer[list.len() as int].key() == key);
    }
    if has_key(longer, key) {
        let i = choose|i: int| 0 <= i < longer.len() && #[trigger] longer[i].key() == key;
        if i < list.len() {
            assert(list[i].key() == key);
        }
    }
}

/// A key is among the members of two lists joined exactly when it is among
/// those of one of them.
pub proof fn lemma_has_key_add<T: Keyed>(left: Seq<T>, right: Seq<T>, key: T::Key)
    ensures
        has_key(left + right, key) == (has_key(left, key) || has_key(right, key)),
{
    let joined = left + right;
    if has_key(left, key) {
        let i = choose|i: int| 0 <= i < left.len() && #[trigger] left[i].key() == key;
        assert(joined[i].key() == key);
    }
    if has_key(right, key) {
        let i = choose|i: int| 0 <= i < right.len() && #[trigger] right[i].key() == key;
        assert(joined[left.len() + i].key() == key);
    }
    if has_key(joined, key) {
        let i = choose|i: int| 0 <= i < joined.len() && #[trigger] joined[i].key() == key;
        if i < left.len() {
            assert(left[i].key() == key);
        } else {
            assert(right[i - left.len()].key() == key);
        }
    }
}

} // verus!
