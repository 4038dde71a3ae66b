//! The diff engine: what changed between two generations of filter results.
//!
//! Findings are told apart by their fingerprints and by nothing else, so the
//! engine is only as good as the fingerprints are stable: a finding whose
//! fingerprint changes between two scans shows up as one finding gone and
//! another one new, and two findings that share a fingerprint count as one.

use vstd::prelude::*;

use crate::filter::{FilterResult, FilterResultView};
use crate::report::{has_key, AllowedFinding, Finding, Keyed};

verus! {

/// The member at `at` is the first of `list` with its key, and no member of
/// `others` has that key.
pub open spec fn is_only_in<T: Keyed>(list: Seq<T>, others: Seq<T>, at: int) -> bool {
    !has_key(list.take(at), list[at].key()) && !has_key(others, list[at].key())
}

/// The members of `list` that `others` lacks: each key once, by its first
/// member in `list`, in the order of `list`.
pub open spec fn only_in<T: Keyed>(list: Seq<T>, others: Seq<T>) -> Seq<T>
    decreases list.len(),
{
    if list.len() == 0 {
        Seq::empty()
    } else {
        let earlier = only_in(list.drop_last(), others);
        if is_only_in(list, others, list.len() - 1) {
            earlier.push(list.last())
        } else {
            earlier
        }
    }
}

/// The symmetric difference of two lists taken as sets of keys: first what
/// only `before` has, then what only `after` has.
pub open spec fn symmetric_difference<T: Keyed>(before: Seq<T>, after: Seq<T>) -> Seq<T> {
    only_in(before, after) + only_in(after, before)
}

/// Whether one of the first `upto` members of `list` has the key of `item`.
fn holds_key<T: Keyed>(list: &Vec<T>, upto: usize, item: &T) -> (found: bool)
    requires
        upto <= list.len(),
    ensures
        found == has_key(list@.take(upto as int), item.key()),
{
    let mut i: usize = 0;
    while i < upto
        invariant
            i <= upto <= list.len(),
            forall|j: int| 0 <= j < i ==> list@[j].key() != item.key(),
        decreases upto - i,
    {
        if list[i].same_key(item) {
            assert(list@.take(upto as int)[i as int].key() == item.key());
            return true;
        }
        i += 1;
    }
    assert forall|j: int| 0 <= j < list@.take(upto as int).len() implies list@.take(
        upto as int,
    )[j].key() != item.key() by {
        assert(list@.take(upto as int)[j] == list@[j]);
    }
    false
}

/// Marks the members of `list` that belong to what only `list` has.
fn mark_only_in<T: Keyed>(list: &Vec<T>, others: &Vec<T>) -> (marks: Vec<bool>)
    ensures
        marks@.len() == list@.len(),
        forall|at: int| 0 <= at < list@.len() ==> marks@[at] == is_only_in(list@, others@, at),
{
    let mut marks: Vec<bool> = Vec::new();
    let mut at: usize = 0;
    while at < list.len()
        invariant
            at <= list.len(),
            marks@.len() == at,
            forall|j: int| 0 <= j < at ==> marks@[j] == is_only_in(list@, others@, j),
        decreases list.len() - at,
    {
        assert(others@.take(others@.len() as int) =~= others@);
        let repeated = holds_key(list, at, &list[at]);
        let shared = holds_key(others, others.len(), &list[at]);
        marks.push(!repeated && !shared);
        at += 1;
    }
    marks
}

/// Moves the marked members of `list` to the end of `out`. The marks are
/// those of `mark_only_in`, so what is moved is what only `list` has.
fn move_only_in<T: Keyed>(list: Vec<T>, marks: &Vec<bool>, others: Ghost<Seq<T>>, out: &mut Vec<T>)
    requires
        marks@.len() == list@.len(),
        forall|at: int| 0 <= at < list@.len() ==> marks@[at] == is_only_in(list@, others@, at),
    ensures
        final(out)@ == old(out)@ + only_in(list@, others@),
{
    let ghost members = list@;
    let ghost start = out@;
    let mut at: usize = 0;
    assert(members.len() == list.len());
    assert(start + only_in(members.take(0), others@) =~= start);
    for member in it: list
        invariant
            it.seq() == members,
            members.len() <= usize::MAX,
            at == it.index(),
            marks@.len() == members.len(),
            forall|j: int| 0 <= j < members.len() ==> marks@[j] == is_only_in(members, others@, j),
            out@ == start + only_in(members.take(at as int), others@),
    {
        let ghost upto = members.take(at + 1);
        assert(upto.drop_last() =~= members.take(at as int));
        assert(upto.take(upto.len() - 1) =~= members.take(at as int));
        assert(upto.last() == members[at as int]);
        assert(is_only_in(upto, others@, upto.len() - 1) == is_only_in(members, others@, at as int));
        if marks[at] {
            out.push(member);
            assert(out@ =~= start + only_in(upto, others@));
        }
        at += 1;
    }
    assert(members.take(members.len() as int) =~= members);
}

/// The symmetric difference of two lists taken as sets of keys.
pub fn symmetric_difference_of<T: Keyed>(before: Vec<T>, after: Vec<T>) -> (difference: Vec<T>)
    ensures
        difference@ == symmetric_difference(before@, after@),
{
    let before_marks = mark_only_in(&before, &after);
    let after_marks = mark_only_in(&after, &before);
    let ghost before_members = before@;
    let ghost after_members = after@;
    let mut difference: Vec<T> = Vec::new();
    move_only_in(before, &before_marks, Ghost(after_members), &mut difference);
    move_only_in(after, &after_marks, Ghost(before_members), &mut difference);
    difference
}

/// What changed for one scan target.
#[derive(Debug)]
pub struct DiffResult {
    pub repo_name: String,
    pub allowed: Vec<AllowedFinding>,
    pub confirmed: Vec<Finding>,
}

/// A diff result as plain mathematics.
pub struct DiffResultView {
    pub repo_name: Seq<char>,
    pub allowed: Seq<AllowedFinding>,
    pub confirmed: Seq<Finding>,
}

impl View for DiffResult {
    type V = DiffResultView;

    open spec fn view(&self) -> DiffResultView {
        DiffResultView {
            repo_name: self.repo_name@,
            allowed: self.allowed@,
            confirmed: self.confirmed@,
        }
    }
}

/// The views of a list of filter results.
pub open spec fn targets(results: Seq<FilterResult>) -> Seq<FilterResultView> {
    results.map_values(|result: FilterResult| result@)
}

/// The views of a list of diff results.
pub open spec fn changes(diffs: Seq<DiffResult>) -> Seq<DiffResultView> {
    diffs.map_values(|diff: DiffResult| diff@)
}

/// A target without findings.
pub open spec fn is_blank(target: FilterResultView) -> bool {
    target.confirmed.len() == 0 && target.allowed.len() == 0
}

/// The diff of a target that only one generation knows: all of its findings.
pub open spec fn everything(target: FilterResultView) -> DiffResultView {
    DiffResultView {
        repo_name: target.repo_name,
        allowed: target.allowed,
        confirmed: target.confirmed,
    }
}

/// The diff of a target that both generations know: the symmetric
/// differences of its allowed and of its confirmed findings.
pub open spec fn difference(before: FilterResultView, after: FilterResultView) -> DiffResultView {
    DiffResultView {
        repo_name: after.repo_name,
        allowed: symmetric_difference(before.allowed, after.allowed),
        confirmed: symmetric_difference(before.confirmed, after.confirmed),
    }
}

/// A diff that reports no change.
pub open spec fn is_unchanged(diff: DiffResultView) -> bool {
    diff.allowed.len() == 0 && diff.confirmed.len() == 0
}

/// The position of the first target that is called `name`.
pub open spec fn position_of(list: Seq<FilterResultView>, name: Seq<char>) -> Option<int>
    decreases list.len(),
{
    if list.len() == 0 {
        None
    } else if list[0].repo_name == name {
        Some(0)
    } else {
        match position_of(list.drop_first(), name) {
            Some(at) => Some(at + 1),
            None => None,
        }
    }
}

/// Where the reconciliation stands after some of the later generation has
/// been gone through.
pub struct Reconciliation {
    /// The targets of the earlier generation that no later target has met.
    pub unmet: Seq<FilterResultView>,
    /// The diffs that the later targets gave rise to, in their order.
    pub diffs: Seq<DiffResultView>,
}

/// Goes through the later generation in order. Each target meets the first
/// earlier target of its name that is still unmet, and the two are
/// compared; a target that meets none is new as a whole. Targets without a
/// change, and new targets without findings, leave no diff.
pub open spec fn reconcile(befores: Seq<FilterResultView>, afters: Seq<FilterResultView>) -> Reconciliation
    decreases afters.len(),
{
    if afters.len() == 0 {
        Reconciliation { unmet: befores, diffs: Seq::empty() }
    } else {
        let so_far = reconcile(befores, afters.drop_last());
        let after = afters.last();
        match position_of(so_far.unmet, after.repo_name) {
            None => Reconciliation {
                unmet: so_far.unmet,
                diffs: if is_blank(after) {
                    so_far.diffs
                } else {
                    so_far.diffs.push(everything(after))
                },
            },
            Some(at) => Reconciliation {
                unmet: so_far.unmet.remove(at),
                diffs: if is_unchanged(difference(so_far.unmet[at], after)) {
                    so_far.diffs
                } else {
                    so_far.diffs.push(difference(so_far.unmet[at], after))
                },
            },
        }
    }
}

/// The diffs of the targets that are gone: each unmet target that has
/// findings, as a whole.
pub open spec fn removed(unmet: Seq<FilterResultView>) -> Seq<DiffResultView>
    decreases unmet.len(),
{
    if unmet.len() == 0 {
        Seq::empty()
    } else if is_blank(unmet.last()) {
        removed(unmet.drop_last())
    } else {
        removed(unmet.drop_last()).push(everything(unmet.last()))
    }
}

/// The diff of two generations: first the targets that are gone, then what
/// the targets of the later generation gave rise to.
pub open spec fn diff_of(befores: Seq<FilterResultView>, afters: Seq<FilterResultView>) -> Seq<DiffResultView> {
    let met = reconcile(befores, afters);
    removed(met.unmet) + met.diffs
}

/// `position_of` finds the first target of the name, and finds none only
/// where there is none.
pub proof fn lemma_position_of(list: Seq<FilterResultView>, name: Seq<char>)
    ensures
        match position_of(list, name) {
            Some(at) => {
                &&& 0 <= at < list.len()
                &&& list[at].repo_name == name
                &&& forall|j: int| 0 <= j < at ==> list[j].repo_name != name
            },
            None => forall|j: int| 0 <= j < list.len() ==> list[j].repo_name != name,
        },
    decreases list.len(),
{
    if list.len() > 0 && list[0].repo_name != name {
        let rest = list.drop_first();
        lemma_position_of(rest, name);
        match position_of(rest, name) {
            Some(at) => {
                assert forall|j: int| 0 <= j < at + 1 implies list[j].repo_name != name by {
                    if j > 0 {
                        assert(rest[j - 1] == list[j]);
                    }
                }
            },
            None => {
                assert forall|j: int| 0 <= j < list.len() implies list[j].repo_name != name by {
                    if j > 0 {
                        assert(rest[j - 1] == list[j]);
                    }
                }
            },
        }
    }
}

/// Finds the first target that is called `name`.
fn find_target(list: &Vec<FilterResult>, name: &String) -> (found: Option<usize>)
    ensures
        found matches Some(at) ==> at < list@.len(),
        position_of(targets(list@), name@) == match found {
            Some(at) => Some(at as int),
            None => None,
        },
{
    let mut at: usize = 0;
    while at < list.len()
        invariant
            at <= list.len(),
            forall|j: int| 0 <= j < at ==> targets(list@)[j].repo_name != name@,
        decreases list.len() - at,
    {
        if list[at].repo_name == *name {
            proof {
                assert(targets(list@)[at as int].repo_name == name@);
                lemma_position_of(targets(list@), name@);
            }
            return Some(at);
        }
        at += 1;
    }
    proof {
        lemma_position_of(targets(list@), name@);
    }
    None
}

/// Compares two generations of filter results, target by target.
///
/// Targets are matched by name. A target of both generations is reported
/// with the symmetric differences of its allowed and of its confirmed
/// findings, unless both are empty. A target of one generation only is
/// reported with all of its findings, unless it has none. Targets that are
/// gone come first, then those of the later generation in their order.
pub fn compute_diff(befores: Vec<FilterResult>, afters: Vec<FilterResult>) -> (diffs: Vec<DiffResult>)
    ensures
        changes(diffs@) == diff_of(targets(befores@), targets(afters@)),
{
    let mut befores = befores;
    let ghost earlier = targets(befores@);
    let ghost later = targets(afters@);
    let mut afters_diffs: Vec<DiffResult> = Vec::new();
    assert(changes(afters_diffs@) =~= Seq::empty());
    for after in it: afters
        invariant
            targets(it.seq()) == later,
            reconcile(earlier, later.take(it.index())) == (Reconciliation {
                unmet: targets(befores@),
                diffs: changes(afters_diffs@),
            }),
    {
        let ghost upto = later.take(it.index() + 1);
        assert(upto.drop_last() =~= later.take(it.index()));
        assert(upto.last() == after@);
        let ghost unmet = targets(befores@);
        let ghost found = changes(afters_diffs@);
        match find_target(&befores, &after.repo_name) {
            None => {
                if !after.is_empty() {
                    afters_diffs.push(
                        DiffResult {
                            repo_name: after.repo_name,
                            allowed: after.allowed,
                            confirmed: after.confirmed,
                        },
                    );
                    assert(changes(afters_diffs@) =~= found.push(everything(after@)));
                }
            },
            Some(at) => {
                let before = befores.remove(at);
                assert(targets(befores@) =~= unmet.remove(at as int));
                assert(unmet[at as int] == before@);
                let allowed = symmetric_difference_of(before.allowed, after.allowed);
                let confirmed = symmetric_difference_of(before.confirmed, after.confirmed);
                if !(allowed.len() == 0 && confirmed.len() == 0) {
                    afters_diffs.push(
                        DiffResult { repo_name: after.repo_name, allowed, confirmed },
                    );
                    assert(changes(afters_diffs@) =~= found.push(difference(before@, after@)));
                }
            },
        }
    }
    assert(later.take(later.len() as int) =~= later);
    let ghost unmet = targets(befores@);
    let mut diffs: Vec<DiffResult> = Vec::new();
    assert(changes(diffs@) =~= removed(unmet.take(0)));
    for before in it: befores
        invariant
            targets(it.seq()) == unmet,
            changes(diffs@) == removed(unmet.take(it.index())),
    {
        let ghost upto = unmet.take(it.index() + 1);
        let ghost found = changes(diffs@);
        assert(upto.drop_last() =~= unmet.take(it.index()));
        assert(upto.last() == before@);
        if !before.is_empty() {
            diffs.push(
                DiffResult {
                    repo_name: before.repo_name,
                    allowed: before.allowed,
                    confirmed: before.confirmed,
                },
            );
            assert(changes(diffs@) =~= found.push(everything(before@)));
        }
    }
    assert(unmet.take(unmet.len() as int) =~= unmet);
    let ghost gone = changes(diffs@);
    let ghost found = changes(afters_diffs@);
    diffs.append(&mut afters_diffs);
    assert(changes(diffs@) =~= gone + found);
    diffs
}

} // verus!
