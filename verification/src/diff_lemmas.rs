//! What holds of the diff engine: the difference of two lists is a
//! symmetric difference of sets of keys, and the diff of a target depends on
//! the entries of that target alone.

use vstd::prelude::*;

use crate::diff::{
    diff_of, difference, everything, is_blank, is_only_in, is_unchanged, lemma_position_of,
    only_in, position_of, reconcile, removed, symmetric_difference, DiffResultView,
};
use crate::filter::FilterResultView;
use crate::report::{has_key, keys, lemma_has_key_add, lemma_has_key_push, Keyed};

verus! {

/// No two members of the list have the same key.
pub open spec fn distinct_keys<T: Keyed>(list: Seq<T>) -> bool {
    forall|i: int, j: int| 0 <= i < j < list.len() ==> list[i].key() != list[j].key()
}

/// What only `list` has is made of the keys that `list` has and `others`
/// lacks, each of them once.
pub proof fn lemma_only_in<T: Keyed>(list: Seq<T>, others: Seq<T>)
    ensures
        forall|key: T::Key|
            has_key(only_in(list, others), key) == (has_key(list, key) && !has_key(others, key)),
        distinct_keys(only_in(list, others)),
    decreases list.len(),
{
    if list.len() > 0 {
        let earlier = list.drop_last();
        let last = list.last();
        let kept = only_in(earlier, others);
        lemma_only_in(earlier, others);
        assert(list.take(list.len() - 1) =~= earlier);
        assert(earlier.push(last) =~= list);
        assert forall|key: T::Key|
            has_key(only_in(list, others), key) == (has_key(list, key) && !has_key(
                others,
                key,
            )) by {
            lemma_has_key_push(earlier, last, key);
            lemma_has_key_push(kept, last, key);
        }
        if is_only_in(list, others, list.len() - 1) {
            let longer = kept.push(last);
            assert forall|i: int, j: int| 0 <= i < j < longer.len() implies longer[i].key()
                != longer[j].key() by {
                if j == kept.len() {
                    assert(kept[i].key() == longer[i].key());
                    assert(has_key(kept, longer[i].key()));
                } else {
                    assert(kept[i].key() != kept[j].key());
                }
            }
        }
    }
}

/// The difference of two lists is the symmetric difference of their sets of
/// keys: a key is in it exactly when one of the two lists has it and the
/// other has not, and no key is in it twice.
pub proof fn lemma_symmetric_difference<T: Keyed>(before: Seq<T>, after: Seq<T>)
    ensures
        forall|key: T::Key|
            has_key(symmetric_difference(before, after), key) == (has_key(before, key)
                != has_key(after, key)),
        distinct_keys(symmetric_difference(before, after)),
{
    let gone = only_in(before, after);
    let new = only_in(after, before);
    let both = symmetric_difference(before, after);
    lemma_only_in(before, after);
    lemma_only_in(after, before);
    assert forall|key: T::Key|
        has_key(both, key) == (has_key(before, key) != has_key(after, key)) by {
        lemma_has_key_add(gone, new, key);
    }
    assert forall|i: int, j: int| 0 <= i < j < both.len() implies both[i].key()
        != both[j].key() by {
        if j < gone.len() {
            assert(both[i] == gone[i] && both[j] == gone[j]);
            assert(gone[i].key() != gone[j].key());
        } else if i >= gone.len() {
            let (m, n) = (i - gone.len(), j - gone.len());
            assert(both[i] == new[m] && both[j] == new[n]);
            assert(new[m].key() != new[n].key());
        } else {
            let n = j - gone.len();
            assert(both[i] == gone[i] && both[j] == new[n]);
            assert(has_key(gone, gone[i].key()));
            assert(has_key(new, new[n].key()));
            assert(has_key(before, gone[i].key()) && !has_key(after, gone[i].key()));
            assert(has_key(after, new[n].key()));
        }
    }
}

/// Two lists differ in nothing exactly when they have the same keys.
pub proof fn lemma_no_difference<T: Keyed>(before: Seq<T>, after: Seq<T>)
    ensures
        symmetric_difference(before, after).len() == 0 <==> keys(before) == keys(after),
{
    let both = symmetric_difference(before, after);
    lemma_symmetric_difference(before, after);
    if both.len() == 0 {
        assert forall|key: T::Key| has_key(before, key) == has_key(after, key) by {
            assert(!has_key(both, key));
        }
        assert(keys(before) =~= keys(after));
    }
    if keys(before) == keys(after) {
        if both.len() > 0 {
            let key = both[0].key();
            assert(has_key(both, key));
            assert(keys(before).contains(key) == keys(after).contains(key));
        }
    }
}

/// The keys of the members of a list, in order.
pub open spec fn key_list<T: Keyed>(list: Seq<T>) -> Seq<T::Key> {
    list.map_values(|member: T| member.key())
}

/// The difference of two lists looks at keys only: lists that hold the same
/// keys at the same places, whatever else their members hold, have
/// differences that hold the same keys at the same places.
pub proof fn lemma_difference_by_key<T: Keyed>(
    before: Seq<T>,
    after: Seq<T>,
    other_before: Seq<T>,
    other_after: Seq<T>,
)
    requires
        key_list(before) == key_list(other_before),
        key_list(after) == key_list(other_after),
    ensures
        key_list(symmetric_difference(before, after)) == key_list(
            symmetric_difference(other_before, other_after),
        ),
{
    lemma_only_in_by_key(before, after, other_before, other_after);
    lemma_only_in_by_key(after, before, other_after, other_before);
    assert(key_list(symmetric_difference(before, after)) =~= key_list(only_in(before, after))
        + key_list(only_in(after, before)));
    assert(key_list(symmetric_difference(other_before, other_after)) =~= key_list(
        only_in(other_before, other_after),
    ) + key_list(only_in(other_after, other_before)));
}

/// Lists that hold the same keys at the same places have the same keys.
proof fn lemma_has_key_by_key<T: Keyed>(list: Seq<T>, other: Seq<T>, key: T::Key)
    requires
        key_list(list) == key_list(other),
    ensures
        has_key(list, key) == has_key(other, key),
{
    assert(list.len() == key_list(list).len());
    assert(other.len() == key_list(other).len());
    if has_key(list, key) {
        let i = choose|i: int| 0 <= i < list.len() && #[trigger] list[i].key() == key;
        assert(key_list(list)[i] == list[i].key());
        assert(key_list(other)[i] == other[i].key());
    }
    if has_key(other, key) {
        let i = choose|i: int| 0 <= i < other.len() && #[trigger] other[i].key() == key;
        assert(key_list(list)[i] == list[i].key());
        assert(key_list(other)[i] == other[i].key());
    }
}

/// What only one list has looks at keys only.
proof fn lemma_only_in_by_key<T: Keyed>(
    list: Seq<T>,
    others: Seq<T>,
    other_list: Seq<T>,
    other_others: Seq<T>,
)
    requires
        key_list(list) == key_list(other_list),
        key_list(others) == key_list(other_others),
    ensures
        key_list(only_in(list, others)) == key_list(only_in(other_list, other_others)),
    decreases list.len(),
{
    assert(list.len() == key_list(list).len());
    assert(other_list.len() == key_list(other_list).len());
    if list.len() > 0 {
        let earlier = list.drop_last();
        let other_earlier = other_list.drop_last();
        let at = list.len() - 1;
        assert(key_list(earlier) =~= key_list(list).drop_last());
        assert(key_list(other_earlier) =~= key_list(other_list).drop_last());
        lemma_only_in_by_key(earlier, others, other_earlier, other_others);
        let key = list.last().key();
        assert(key_list(list)[at] == key);
        assert(key_list(other_list)[at] == other_list.last().key());
        assert(list.take(at) =~= earlier);
        assert(other_list.take(at) =~= other_earlier);
        lemma_has_key_by_key(earlier, other_earlier, key);
        lemma_has_key_by_key(others, other_others, key);
        if is_only_in(list, others, at) {
            assert(key_list(only_in(list, others)) =~= key_list(only_in(earlier, others)).push(
                key,
            ));
            assert(key_list(only_in(other_list, other_others)) =~= key_list(
                only_in(other_earlier, other_others),
            ).push(key));
        }
    } else {
        assert(key_list(only_in(list, others)) =~= key_list(only_in(other_list, other_others)));
    }
}

/// The targets of a generation that are called `name`, in order.
pub open spec fn targets_named(list: Seq<FilterResultView>, name: Seq<char>) -> Seq<
    FilterResultView,
>
    decreases list.len(),
{
    if list.len() == 0 {
        Seq::empty()
    } else if list[0].repo_name == name {
        seq![list[0]] + targets_named(list.drop_first(), name)
    } else {
        targets_named(list.drop_first(), name)
    }
}

/// The diffs that are reported for the target `name`, in order.
pub open spec fn diffs_named(diffs: Seq<DiffResultView>, name: Seq<char>) -> Seq<DiffResultView>
    decreases diffs.len(),
{
    if diffs.len() == 0 {
        Seq::empty()
    } else if diffs.last().repo_name == name {
        diffs_named(diffs.drop_last(), name).push(diffs.last())
    } else {
        diffs_named(diffs.drop_last(), name)
    }
}

/// The targets of a name in a generation with one more target.
proof fn lemma_targets_named_push(
    list: Seq<FilterResultView>,
    target: FilterResultView,
    name: Seq<char>,
)
    ensures
        targets_named(list.push(target), name) == if target.repo_name == name {
            targets_named(list, name).push(target)
        } else {
            targets_named(list, name)
        },
    decreases list.len(),
{
    let longer = list.push(target);
    if list.len() == 0 {
        assert(longer.drop_first() =~= Seq::<FilterResultView>::empty());
        assert(targets_named(longer.drop_first(), name) =~= Seq::<FilterResultView>::empty());
        if target.repo_name == name {
            assert(targets_named(longer, name) =~= targets_named(list, name).push(target));
        }
    } else {
        let rest = list.drop_first();
        lemma_targets_named_push(rest, target, name);
        assert(longer.drop_first() =~= rest.push(target));
        if list[0].repo_name == name {
            if target.repo_name == name {
                assert(seq![list[0]] + targets_named(rest, name).push(target) =~= (seq![list[0]]
                    + targets_named(rest, name)).push(target));
            }
        }
    }
}

/// Every target among those of a name has that name.
proof fn lemma_targets_named_are_named(list: Seq<FilterResultView>, name: Seq<char>)
    ensures
        forall|i: int|
            0 <= i < targets_named(list, name).len() ==> (#[trigger] targets_named(
                list,
                name,
            )[i]).repo_name == name,
    decreases list.len(),
{
    if list.len() > 0 {
        let rest = targets_named(list.drop_first(), name);
        let named = targets_named(list, name);
        lemma_targets_named_are_named(list.drop_first(), name);
        assert forall|i: int| 0 <= i < named.len() implies (#[trigger] named[i]).repo_name
            == name by {
            if list[0].repo_name == name && i > 0 {
                assert(named[i] == rest[i - 1]);
            }
        }
    }
}

/// Taking out a target of another name changes nothing for this name.
proof fn lemma_targets_named_remove_other(list: Seq<FilterResultView>, at: int, name: Seq<char>)
    requires
        0 <= at < list.len(),
        list[at].repo_name != name,
    ensures
        targets_named(list.remove(at), name) == targets_named(list, name),
    decreases list.len(),
{
    let rest = list.drop_first();
    if at == 0 {
        assert(list.remove(0) =~= rest);
    } else {
        lemma_targets_named_remove_other(rest, at - 1, name);
        assert(list.remove(at).drop_first() =~= rest.remove(at - 1));
        assert(list.remove(at)[0] == list[0]);
    }
}

/// The first target of a name is the first among the targets of that name,
/// and taking it out takes the first of them out.
proof fn lemma_position_named(list: Seq<FilterResultView>, name: Seq<char>)
    ensures
        match position_of(list, name) {
            Some(at) => {
                &&& 0 <= at < list.len()
                &&& targets_named(list, name).len() > 0
                &&& targets_named(list, name)[0] == list[at]
                &&& list[at].repo_name == name
                &&& targets_named(list.remove(at), name) == targets_named(
                    list,
                    name,
                ).drop_first()
            },
            None => targets_named(list, name).len() == 0,
        },
    decreases list.len(),
{
    if list.len() > 0 {
        let rest = list.drop_first();
        if list[0].repo_name == name {
            assert(list.remove(0) =~= rest);
            assert((seq![list[0]] + targets_named(rest, name)).drop_first() =~= targets_named(
                rest,
                name,
            ));
        } else {
            lemma_position_named(rest, name);
            match position_of(rest, name) {
                Some(at) => {
                    assert(list.remove(at + 1).drop_first() =~= rest.remove(at));
                    assert(list.remove(at + 1)[0] == list[0]);
                },
                None => {},
            }
        }
    }
}

/// Among targets that all have one name, the first is the first of that
/// name.
proof fn lemma_position_among_named(list: Seq<FilterResultView>, name: Seq<char>)
    ensures
        position_of(targets_named(list, name), name) == if targets_named(list, name).len()
            > 0 {
            Some(0int)
        } else {
            None
        },
{
    lemma_targets_named_are_named(list, name);
    let named = targets_named(list, name);
    if named.len() > 0 {
        assert(named[0].repo_name == name);
    }
}

/// The diffs of a name in a list of diffs with one more diff.
proof fn lemma_diffs_named_push(diffs: Seq<DiffResultView>, diff: DiffResultView, name: Seq<char>)
    ensures
        diffs_named(diffs.push(diff), name) == if diff.repo_name == name {
            diffs_named(diffs, name).push(diff)
        } else {
            diffs_named(diffs, name)
        },
{
    assert(diffs.push(diff).drop_last() =~= diffs);
}

/// The diffs of a name in two lists of diffs joined.
proof fn lemma_diffs_named_add(
    left: Seq<DiffResultView>,
    right: Seq<DiffResultView>,
    name: Seq<char>,
)
    ensures
        diffs_named(left + right, name) == diffs_named(left, name) + diffs_named(right, name),
    decreases right.len(),
{
    if right.len() == 0 {
        assert(left + right =~= left);
        assert(diffs_named(left, name) + diffs_named(right, name) =~= diffs_named(left, name));
    } else {
        let earlier = right.drop_last();
        lemma_diffs_named_add(left, earlier, name);
        assert((left + right).drop_last() =~= left + earlier);
        assert((left + right).last() == right.last());
        if right.last().repo_name == name {
            assert((diffs_named(left, name) + diffs_named(earlier, name)).push(right.last())
                =~= diffs_named(left, name) + diffs_named(earlier, name).push(right.last()));
        }
    }
}

/// Among the targets that are gone, those of a name are the targets of that
/// name that are gone.
proof fn lemma_removed_named(unmet: Seq<FilterResultView>, name: Seq<char>)
    ensures
        diffs_named(removed(unmet), name) == removed(targets_named(unmet, name)),
    decreases unmet.len(),
{
    if unmet.len() == 0 {
        assert(targets_named(unmet, name) =~= Seq::<FilterResultView>::empty());
    } else {
        let earlier = unmet.drop_last();
        let last = unmet.last();
        lemma_removed_named(earlier, name);
        lemma_targets_named_push(earlier, last, name);
        assert(earlier.push(last) =~= unmet);
        if !is_blank(last) {
            lemma_diffs_named_push(removed(earlier), everything(last), name);
        }
        if last.repo_name == name {
            assert(targets_named(earlier, name).push(last).drop_last() =~= targets_named(
                earlier,
                name,
            ));
        }
    }
}

/// The reconciliation of one name is the reconciliation of the targets of
/// that name alone.
proof fn lemma_reconcile_named(
    befores: Seq<FilterResultView>,
    afters: Seq<FilterResultView>,
    name: Seq<char>,
)
    ensures
        targets_named(reconcile(befores, afters).unmet, name) == reconcile(
            targets_named(befores, name),
            targets_named(afters, name),
        ).unmet,
        diffs_named(reconcile(befores, afters).diffs, name) == reconcile(
            targets_named(befores, name),
            targets_named(afters, name),
        ).diffs,
    decreases afters.len(),
{
    if afters.len() == 0 {
        assert(targets_named(afters, name) =~= Seq::<FilterResultView>::empty());
    } else {
        let earlier = afters.drop_last();
        let after = afters.last();
        let so_far = reconcile(befores, earlier);
        let named_so_far = reconcile(targets_named(befores, name), targets_named(earlier, name));
        lemma_reconcile_named(befores, earlier, name);
        lemma_targets_named_push(earlier, after, name);
        assert(earlier.push(after) =~= afters);
        lemma_position_of(so_far.unmet, after.repo_name);
        if after.repo_name == name {
            assert(targets_named(afters, name).drop_last() =~= targets_named(earlier, name));
            assert(targets_named(afters, name).last() == after);
            lemma_position_named(so_far.unmet, name);
            lemma_position_among_named(so_far.unmet, name);
            match position_of(so_far.unmet, name) {
                Some(at) => {
                    let before = so_far.unmet[at];
                    assert(named_so_far.unmet.remove(0) =~= named_so_far.unmet.drop_first());
                    if !is_unchanged(difference(before, after)) {
                        lemma_diffs_named_push(so_far.diffs, difference(before, after), name);
                    }
                },
                None => {
                    if !is_blank(after) {
                        lemma_diffs_named_push(so_far.diffs, everything(after), name);
                    }
                },
            }
        } else {
            match position_of(so_far.unmet, after.repo_name) {
                Some(at) => {
                    let before = so_far.unmet[at];
                    lemma_targets_named_remove_other(so_far.unmet, at, name);
                    if !is_unchanged(difference(before, after)) {
                        lemma_diffs_named_push(so_far.diffs, difference(before, after), name);
                    }
                },
                None => {
                    if !is_blank(after) {
                        lemma_diffs_named_push(so_far.diffs, everything(after), name);
                    }
                },
            }
        }
    }
}

/// What the diff reports for a target depends on the entries of that target
/// alone: it is the diff of the two generations with every other target
/// left out.
pub proof fn lemma_diff_of_target(
    befores: Seq<FilterResultView>,
    afters: Seq<FilterResultView>,
    name: Seq<char>,
)
    ensures
        diffs_named(diff_of(befores, afters), name) == diff_of(
            targets_named(befores, name),
            targets_named(afters, name),
        ),
{
    let met = reconcile(befores, afters);
    lemma_reconcile_named(befores, afters, name);
    lemma_diffs_named_add(removed(met.unmet), met.diffs, name);
    lemma_removed_named(met.unmet, name);
}

/// The target at `at` is the only one of its name in the generation.
pub open spec fn is_only_target(list: Seq<FilterResultView>, at: int) -> bool {
    &&& 0 <= at < list.len()
    &&& forall|j: int|
        0 <= j < list.len() && j != at ==> (#[trigger] list[j]).repo_name != list[at].repo_name
}

/// The generation has no target of the name.
pub open spec fn has_no_target(list: Seq<FilterResultView>, name: Seq<char>) -> bool {
    forall|j: int| 0 <= j < list.len() ==> (#[trigger] list[j]).repo_name != name
}

/// A target that both generations hold with the same keys, among its
/// allowed and among its confirmed findings, is not reported.
pub proof fn lemma_unchanged_target(
    befores: Seq<FilterResultView>,
    afters: Seq<FilterResultView>,
    before: int,
    after: int,
)
    requires
        is_only_target(befores, before),
        is_only_target(afters, after),
        befores[before].repo_name == afters[after].repo_name,
        keys(befores[before].allowed) == keys(afters[after].allowed),
        keys(befores[before].confirmed) == keys(afters[after].confirmed),
    ensures
        diffs_named(diff_of(befores, afters), afters[after].repo_name).len() == 0,
{
    let name = afters[after].repo_name;
    lemma_diff_of_target(befores, afters, name);
    lemma_only_target(befores, before);
    lemma_only_target(afters, after);
    lemma_no_difference(befores[before].allowed, afters[after].allowed);
    lemma_no_difference(befores[before].confirmed, afters[after].confirmed);
    lemma_diff_of_pair(befores[before], afters[after]);
}

/// A target that both generations hold with different keys is reported
/// once, with the symmetric differences of its findings.
pub proof fn lemma_changed_target(
    befores: Seq<FilterResultView>,
    afters: Seq<FilterResultView>,
    before: int,
    after: int,
)
    requires
        is_only_target(befores, before),
        is_only_target(afters, after),
        befores[before].repo_name == afters[after].repo_name,
        keys(befores[before].allowed) != keys(afters[after].allowed) || keys(
            befores[before].confirmed,
        ) != keys(afters[after].confirmed),
    ensures
        diffs_named(diff_of(befores, afters), afters[after].repo_name) == seq![
            difference(befores[before], afters[after]),
        ],
{
    let name = afters[after].repo_name;
    lemma_diff_of_target(befores, afters, name);
    lemma_only_target(befores, before);
    lemma_only_target(afters, after);
    lemma_no_difference(befores[before].allowed, afters[after].allowed);
    lemma_no_difference(befores[before].confirmed, afters[after].confirmed);
    lemma_diff_of_pair(befores[before], afters[after]);
}

/// A target with findings that only the later generation holds is reported
/// once, with all of its findings.
pub proof fn lemma_new_target(
    befores: Seq<FilterResultView>,
    afters: Seq<FilterResultView>,
    after: int,
)
    requires
        is_only_target(afters, after),
        has_no_target(befores, afters[after].repo_name),
        !is_blank(afters[after]),
    ensures
        diffs_named(diff_of(befores, afters), afters[after].repo_name) == seq![
            everything(afters[after]),
        ],
{
    let name = afters[after].repo_name;
    let target = afters[after];
    lemma_diff_of_target(befores, afters, name);
    lemma_no_target(befores, name);
    lemma_only_target(afters, after);
    let none = Seq::<FilterResultView>::empty();
    assert(seq![target].drop_last() =~= none);
    assert(reconcile(none, none).unmet == none);
    assert(reconcile(none, seq![target]).diffs =~= seq![everything(target)]);
    assert(removed(none) =~= Seq::<DiffResultView>::empty());
    assert(diff_of(none, seq![target]) =~= seq![everything(target)]);
}

/// A target with findings that only the earlier generation holds is
/// reported once, with all of its findings.
pub proof fn lemma_gone_target(
    befores: Seq<FilterResultView>,
    afters: Seq<FilterResultView>,
    before: int,
)
    requires
        is_only_target(befores, before),
        has_no_target(afters, befores[before].repo_name),
        !is_blank(befores[before]),
    ensures
        diffs_named(diff_of(befores, afters), befores[before].repo_name) == seq![
            everything(befores[before]),
        ],
{
    let name = befores[before].repo_name;
    let target = befores[before];
    lemma_diff_of_target(befores, afters, name);
    lemma_only_target(befores, before);
    lemma_no_target(afters, name);
    let none = Seq::<FilterResultView>::empty();
    assert(seq![target].drop_last() =~= none);
    assert(removed(none) =~= Seq::<DiffResultView>::empty());
    assert(removed(seq![target]) =~= seq![everything(target)]);
    assert(diff_of(seq![target], none) =~= seq![everything(target)]);
}

/// The diff of two generations that hold one target each, of one name: the
/// difference of the two, unless there is none.
proof fn lemma_diff_of_pair(before: FilterResultView, after: FilterResultView)
    requires
        before.repo_name == after.repo_name,
    ensures
        diff_of(seq![before], seq![after]) == if is_unchanged(difference(before, after)) {
            Seq::<DiffResultView>::empty()
        } else {
            seq![difference(before, after)]
        },
{
    let none = Seq::<FilterResultView>::empty();
    assert(seq![after].drop_last() =~= none);
    let so_far = reconcile(seq![before], none);
    assert(so_far.unmet == seq![before]);
    assert(so_far.diffs =~= Seq::<DiffResultView>::empty());
    assert(position_of(seq![before], after.repo_name) == Some(0int));
    let met = reconcile(seq![before], seq![after]);
    assert(met.unmet =~= none);
    assert(removed(none) =~= Seq::<DiffResultView>::empty());
    if is_unchanged(difference(before, after)) {
        assert(met.diffs =~= Seq::<DiffResultView>::empty());
        assert(diff_of(seq![before], seq![after]) =~= Seq::<DiffResultView>::empty());
    } else {
        assert(met.diffs =~= seq![difference(before, after)]);
        assert(diff_of(seq![before], seq![after]) =~= seq![difference(before, after)]);
    }
}

/// The only target of its name is all there is of that name.
proof fn lemma_only_target(list: Seq<FilterResultView>, at: int)
    requires
        is_only_target(list, at),
    ensures
        targets_named(list, list[at].repo_name) == seq![list[at]],
    decreases list.len(),
{
    let name = list[at].repo_name;
    let rest = list.drop_first();
    if at == 0 {
        assert forall|j: int| 0 <= j < rest.len() implies (#[trigger] rest[j]).repo_name
            != name by {
            assert(rest[j] == list[j + 1]);
        }
        lemma_no_target(rest, name);
        assert(seq![list[0]] + Seq::<FilterResultView>::empty() =~= seq![list[0]]);
    } else {
        assert(list[0].repo_name != name);
        assert(rest[at - 1] == list[at]);
        assert forall|j: int| 0 <= j < rest.len() && j != at - 1 implies (
        #[trigger] rest[j]).repo_name != rest[at - 1].repo_name by {
            assert(rest[j] == list[j + 1]);
        }
        lemma_only_target(rest, at - 1);
    }
}

/// A generation without a target of the name has nothing of that name.
proof fn lemma_no_target(list: Seq<FilterResultView>, name: Seq<char>)
    requires
        has_no_target(list, name),
    ensures
        targets_named(list, name) =~= Seq::<FilterResultView>::empty(),
    decreases list.len(),
{
    if list.len() > 0 {
        let rest = list.drop_first();
        assert(list[0].repo_name != name);
        assert forall|j: int| 0 <= j < rest.len() implies (#[trigger] rest[j]).repo_name
            != name by {
            assert(rest[j] == list[j + 1]);
        }
        lemma_no_target(rest, name);
    }
}

} // verus!
