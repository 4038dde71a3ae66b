//! The counts that a review sums up: findings by detection rule and by
//! allowlist, the most frequent first.

use vstd::prelude::*;

use crate::filter::FilterResult;
use crate::report::{AllowedFinding, Finding};
use crate::text::{
    comes_before, count_text, holds_text, lemma_occurrences, lemma_order_total,
    lemma_order_transitive, occurrences, precedes, texts,
};

verus! {

/// The rule ids of a list of findings, in order.
pub open spec fn rules_of(findings: Seq<Finding>) -> Seq<Seq<char>> {
    findings.map_values(|finding: Finding| finding.rule_id@)
}

/// The rule ids of a list of allowed findings, in order.
pub open spec fn rules_of_allowed(allowed: Seq<AllowedFinding>) -> Seq<Seq<char>> {
    allowed.map_values(|allowed: AllowedFinding| allowed.finding.rule_id@)
}

/// The ids of the allowlists that allowed a list of findings, in order.
pub open spec fn lists_of_allowed(allowed: Seq<AllowedFinding>) -> Seq<Seq<char>> {
    allowed.map_values(|allowed: AllowedFinding| allowed.allow_rule_id@)
}

/// The rule ids of the confirmed findings of a review, one for each finding.
pub open spec fn confirmed_rules(results: Seq<FilterResult>) -> Seq<Seq<char>>
    decreases results.len(),
{
    if results.len() == 0 {
        Seq::empty()
    } else {
        confirmed_rules(results.drop_last()) + rules_of(results.last().confirmed@)
    }
}

/// The rule ids of the allowed findings of a review, one for each finding.
pub open spec fn allowed_rules(results: Seq<FilterResult>) -> Seq<Seq<char>>
    decreases results.len(),
{
    if results.len() == 0 {
        Seq::empty()
    } else {
        allowed_rules(results.drop_last()) + rules_of_allowed(results.last().allowed@)
    }
}

/// The ids of the allowlists that allowed the findings of a review, one for
/// each allowed finding.
pub open spec fn allowing_lists(results: Seq<FilterResult>) -> Seq<Seq<char>>
    decreases results.len(),
{
    if results.len() == 0 {
        Seq::empty()
    } else {
        allowing_lists(results.drop_last()) + lists_of_allowed(results.last().allowed@)
    }
}

/// Which label of the findings of a review is asked for.
#[derive(Clone, Copy, PartialEq, Eq, Structural)]
enum Label {
    ConfirmedRule,
    AllowedRule,
    AllowingList,
}

/// The labels of a kind that a filter result holds.
spec fn labels_in(result: FilterResult, label: Label) -> Seq<Seq<char>> {
    match label {
        Label::ConfirmedRule => rules_of(result.confirmed@),
        Label::AllowedRule => rules_of_allowed(result.allowed@),
        Label::AllowingList => lists_of_allowed(result.allowed@),
    }
}

/// The labels of a kind that a review holds.
spec fn labels_of(results: Seq<FilterResult>, label: Label) -> Seq<Seq<char>> {
    match label {
        Label::ConfirmedRule => confirmed_rules(results),
        Label::AllowedRule => allowed_rules(results),
        Label::AllowingList => allowing_lists(results),
    }
}

/// Appends the rule ids of a list of findings.
fn push_rules(labels: &mut Vec<String>, findings: &Vec<Finding>)
    ensures
        texts(final(labels)@) == texts(old(labels)@) + rules_of(findings@),
{
    let ghost before = texts(labels@);
    let mut at: usize = 0;
    assert(texts(labels@) =~= before + rules_of(findings@).take(0));
    while at < findings.len()
        invariant
            at <= findings.len(),
            texts(labels@) == before + rules_of(findings@).take(at as int),
        decreases findings.len() - at,
    {
        let ghost so_far = texts(labels@);
        labels.push(findings[at].rule_id.clone());
        assert(texts(labels@) =~= so_far.push(rules_of(findings@)[at as int]));
        assert(rules_of(findings@).take(at + 1) =~= rules_of(findings@).take(at as int).push(
            rules_of(findings@)[at as int],
        ));
        at += 1;
    }
    assert(rules_of(findings@).take(at as int) =~= rules_of(findings@));
}

/// Appends, of a list of allowed findings, the ids of the allowlists or
/// those of the rules.
fn push_allowed(labels: &mut Vec<String>, allowed: &Vec<AllowedFinding>, by_list: bool)
    ensures
        texts(final(labels)@) == texts(old(labels)@) + if by_list {
            lists_of_allowed(allowed@)
        } else {
            rules_of_allowed(allowed@)
        },
{
    let ghost before = texts(labels@);
    let ghost wanted = if by_list {
        lists_of_allowed(allowed@)
    } else {
        rules_of_allowed(allowed@)
    };
    let mut at: usize = 0;
    assert(texts(labels@) =~= before + wanted.take(0));
    while at < allowed.len()
        invariant
            at <= allowed.len(),
            wanted == if by_list {
                lists_of_allowed(allowed@)
            } else {
                rules_of_allowed(allowed@)
            },
            texts(labels@) == before + wanted.take(at as int),
        decreases allowed.len() - at,
    {
        let ghost so_far = texts(labels@);
        if by_list {
            labels.push(allowed[at].allow_rule_id.clone());
        } else {
            labels.push(allowed[at].finding.rule_id.clone());
        }
        assert(texts(labels@) =~= so_far.push(wanted[at as int]));
        assert(wanted.take(at + 1) =~= wanted.take(at as int).push(wanted[at as int]));
        at += 1;
    }
    assert(wanted.take(at as int) =~= wanted);
}

/// Collects the labels of a kind from the findings of a review.
fn collect(results: &Vec<FilterResult>, label: Label) -> (labels: Vec<String>)
    ensures
        texts(labels@) == labels_of(results@, label),
{
    let mut labels: Vec<String> = Vec::new();
    let mut at: usize = 0;
    assert(texts(labels@) =~= labels_of(results@.take(0), label));
    while at < results.len()
        invariant
            at <= results.len(),
            texts(labels@) == labels_of(results@.take(at as int), label),
        decreases results.len() - at,
    {
        let ghost upto = results@.take(at + 1);
        assert(upto.drop_last() =~= results@.take(at as int));
        assert(upto.last() == results@[at as int]);
        assert(labels_of(upto, label) == labels_of(results@.take(at as int), label) + labels_in(
            results@[at as int],
            label,
        ));
        match label {
            Label::ConfirmedRule => push_rules(&mut labels, &results[at].confirmed),
            Label::AllowedRule => push_allowed(&mut labels, &results[at].allowed, false),
            Label::AllowingList => push_allowed(&mut labels, &results[at].allowed, true),
        }
        at += 1;
    }
    assert(results@.take(results@.len() as int) =~= results@);
    labels
}

/// How often a label stands in each of two lists.
struct Tally {
    label: String,
    first: usize,
    second: usize,
}

/// The order of a summary: the greater count comes first, and of equal
/// counts the one whose label comes before the other.
pub open spec fn outranks(count: usize, label: Seq<char>, other_count: usize, other_label: Seq<char>) -> bool {
    count > other_count || (count == other_count && comes_before(label, other_label))
}

/// The order of a summary, by the counts in the first list.
spec fn ranks_before(one: Tally, other: Tally) -> bool {
    outranks(one.first, one.label@, other.first, other.label@)
}

/// `tally` counts its label in the two lists, and the label stands in one of
/// them.
spec fn counts(tally: Tally, first: Seq<Seq<char>>, second: Seq<Seq<char>>) -> bool {
    &&& tally.first == occurrences(first, tally.label@)
    &&& tally.second == occurrences(second, tally.label@)
    &&& first.contains(tally.label@) || second.contains(tally.label@)
}

/// Some tally of the list is about `label`.
spec fn tallies(rows: Seq<Tally>, label: Seq<char>) -> bool {
    exists|i: int| 0 <= i < rows.len() && (#[trigger] rows[i]).label@ == label
}

/// The tallies are in the order of a summary, which leaves no room for
/// two of them with one label.
spec fn is_ranked(rows: Seq<Tally>) -> bool {
    forall|i: int, j: int| 0 <= i < j < rows.len() ==> ranks_before(rows[i], rows[j])
}

/// The labels of two lists, each once, in the order in which they first
/// occur.
fn distinct(first: &Vec<String>, second: &Vec<String>) -> (labels: Vec<String>)
    ensures
        forall|i: int, j: int| 0 <= i < j < labels@.len() ==> labels@[i]@ != labels@[j]@,
        forall|i: int|
            0 <= i < labels@.len() ==> texts(first@).contains(#[trigger] labels@[i]@) || texts(
                second@,
            ).contains(labels@[i]@),
        forall|label: Seq<char>|
            texts(first@).contains(label) || texts(second@).contains(label) ==> texts(
                labels@,
            ).contains(label),
{
    let mut labels: Vec<String> = Vec::new();
    let mut at: usize = 0;
    while at < first.len()
        invariant
            at <= first.len(),
            forall|i: int, j: int| 0 <= i < j < labels@.len() ==> labels@[i]@ != labels@[j]@,
            forall|i: int|
                0 <= i < labels@.len() ==> texts(first@).contains(#[trigger] labels@[i]@),
            forall|k: int| 0 <= k < at ==> texts(labels@).contains(#[trigger] texts(first@)[k]),
        decreases first.len() - at,
    {
        let ghost before = labels@;
        let label = &first[at];
        assert(texts(first@)[at as int] == label@);
        if !holds_text(&labels, label) {
            labels.push(label.clone());
            assert forall|k: int| 0 <= k < at implies texts(labels@).contains(
                #[trigger] texts(first@)[k],
            ) by {
                let i = choose|i: int|
                    0 <= i < before.len() && texts(before)[i] == texts(first@)[k];
                assert(texts(labels@)[i] == texts(first@)[k]);
            }
            assert(texts(labels@)[before.len() as int] == label@);
            assert forall|i: int, j: int| 0 <= i < j < labels@.len() implies labels@[i]@
                != labels@[j]@ by {
                if j == before.len() {
                    assert(texts(before)[i] == labels@[i]@);
                }
            }
        }
        at += 1;
    }
    let mut at: usize = 0;
    while at < second.len()
        invariant
            at <= second.len(),
            forall|i: int, j: int| 0 <= i < j < labels@.len() ==> labels@[i]@ != labels@[j]@,
            forall|i: int|
                0 <= i < labels@.len() ==> texts(first@).contains(#[trigger] labels@[i]@)
                    || texts(second@).contains(labels@[i]@),
            forall|k: int|
                0 <= k < first@.len() ==> texts(labels@).contains(#[trigger] texts(first@)[k]),
            forall|k: int| 0 <= k < at ==> texts(labels@).contains(#[trigger] texts(second@)[k]),
        decreases second.len() - at,
    {
        let ghost before = labels@;
        let label = &second[at];
        assert(texts(second@)[at as int] == label@);
        if !holds_text(&labels, label) {
            labels.push(label.clone());
            assert forall|k: int| 0 <= k < first@.len() implies texts(labels@).contains(
                #[trigger] texts(first@)[k],
            ) by {
                let i = choose|i: int|
                    0 <= i < before.len() && texts(before)[i] == texts(first@)[k];
                assert(texts(labels@)[i] == texts(first@)[k]);
            }
            assert forall|k: int| 0 <= k < at implies texts(labels@).contains(
                #[trigger] texts(second@)[k],
            ) by {
                let i = choose|i: int|
                    0 <= i < before.len() && texts(before)[i] == texts(second@)[k];
                assert(texts(labels@)[i] == texts(second@)[k]);
            }
            assert(texts(labels@)[before.len() as int] == label@);
            assert forall|i: int, j: int| 0 <= i < j < labels@.len() implies labels@[i]@
                != labels@[j]@ by {
                if j == before.len() {
                    assert(texts(before)[i] == labels@[i]@);
                }
            }
        }
        at += 1;
    }
    assert forall|label: Seq<char>|
        texts(first@).contains(label) || texts(second@).contains(label) implies texts(
        labels@,
    ).contains(label) by {
        if texts(first@).contains(label) {
            let k = choose|k: int| 0 <= k < first@.len() && texts(first@)[k] == label;
            assert(texts(labels@).contains(texts(first@)[k]));
        } else {
            let k = choose|k: int| 0 <= k < second@.len() && texts(second@)[k] == label;
            assert(texts(labels@).contains(texts(second@)[k]));
        }
    }
    labels
}

/// Whether `one` comes before `other` in the order of a summary.
fn is_before(one: &Tally, other: &Tally) -> (before: bool)
    ensures
        before == ranks_before(*one, *other),
{
    one.first > other.first || (one.first == other.first && precedes(
        one.label.as_str(),
        other.label.as_str(),
    ))
}

/// Of two tallies with different labels, one ranks before the other.
proof fn lemma_rank_total(one: Tally, other: Tally)
    requires
        one.label@ != other.label@,
    ensures
        ranks_before(one, other) || ranks_before(other, one),
{
    lemma_order_total(one.label@, other.label@);
}

/// What ranks before a tally that ranks before a third ranks before the
/// third.
proof fn lemma_rank_transitive(one: Tally, other: Tally, third: Tally)
    requires
        ranks_before(one, other),
        ranks_before(other, third),
    ensures
        ranks_before(one, third),
{
    if one.first == other.first && other.first == third.first {
        lemma_order_transitive(one.label@, other.label@, third.label@);
    }
}

/// Puts a tally at its place among ranked tallies of other labels.
fn place(rows: &mut Vec<Tally>, tally: Tally)
    requires
        is_ranked(old(rows)@),
        !tallies(old(rows)@, tally.label@),
    ensures
        is_ranked(final(rows)@),
        final(rows)@.len() == old(rows)@.len() + 1,
        exists|at: int| 0 <= at <= old(rows)@.len() && final(rows)@ == old(rows)@.insert(at, tally),
{
    let ghost before = rows@;
    let mut at: usize = 0;
    while at < rows.len() && !is_before(&tally, &rows[at])
        invariant
            rows@ == before,
            at <= rows.len(),
            is_ranked(before),
            !tallies(before, tally.label@),
            forall|j: int| 0 <= j < at ==> ranks_before(#[trigger] before[j], tally),
        decreases rows.len() - at,
    {
        proof {
            assert(before[at as int].label@ != tally.label@);
            lemma_rank_total(before[at as int], tally);
        }
        at += 1;
    }
    rows.insert(at, tally);
    proof {
        let after = rows@;
        assert(after == before.insert(at as int, tally));
        assert forall|i: int, j: int| 0 <= i < j < after.len() implies ranks_before(
            after[i],
            after[j],
        ) by {
            if j < at {
                assert(after[i] == before[i] && after[j] == before[j]);
            } else if j == at {
                assert(after[i] == before[i]);
            } else if i == at {
                assert(after[j] == before[j - 1]);
                if j - 1 > at {
                    lemma_rank_transitive(tally, before[at as int], before[j - 1]);
                }
            } else if i < at {
                assert(after[i] == before[i] && after[j] == before[j - 1]);
            } else {
                assert(after[i] == before[i - 1] && after[j] == before[j - 1]);
            }
        }
    }
}

/// Whether `rows` is the summary of two lists of labels: one tally for each
/// label that stands in one of the lists, with its counts, in the order of
/// a summary.
spec fn is_tally_of(rows: Seq<Tally>, first: Seq<Seq<char>>, second: Seq<Seq<char>>) -> bool {
    &&& forall|i: int| 0 <= i < rows.len() ==> counts(#[trigger] rows[i], first, second)
    &&& forall|label: Seq<char>|
        first.contains(label) || second.contains(label) ==> tallies(rows, label)
    &&& is_ranked(rows)
}

/// Sums up two lists of labels.
fn tally(first: &Vec<String>, second: &Vec<String>) -> (rows: Vec<Tally>)
    ensures
        is_tally_of(rows@, texts(first@), texts(second@)),
{
    let labels = distinct(first, second);
    let mut rows: Vec<Tally> = Vec::new();
    let mut at: usize = 0;
    while at < labels.len()
        invariant
            at <= labels.len(),
            forall|i: int, j: int| 0 <= i < j < labels@.len() ==> labels@[i]@ != labels@[j]@,
            forall|i: int|
                0 <= i < labels@.len() ==> texts(first@).contains(#[trigger] labels@[i]@)
                    || texts(second@).contains(labels@[i]@),
            is_ranked(rows@),
            forall|i: int|
                0 <= i < rows@.len() ==> counts(#[trigger] rows@[i], texts(first@), texts(second@)),
            forall|i: int|
                0 <= i < rows@.len() ==> exists|k: int|
                    0 <= k < at && labels@[k]@ == (#[trigger] rows@[i]).label@,
            forall|k: int| 0 <= k < at ==> tallies(rows@, #[trigger] labels@[k]@),
        decreases labels.len() - at,
    {
        let ghost before = rows@;
        let label = labels[at].clone();
        let entry = Tally {
            first: count_text(first, &label),
            second: count_text(second, &label),
            label,
        };
        proof {
            if tallies(before, entry.label@) {
                let i = choose|i: int|
                    0 <= i < before.len() && (#[trigger] before[i]).label@ == entry.label@;
                let k = choose|k: int| 0 <= k < at && labels@[k]@ == before[i].label@;
                assert(labels@[k]@ != labels@[at as int]@);
            }
        }
        place(&mut rows, entry);
        proof {
            let after = rows@;
            let put = choose|put: int| 0 <= put <= before.len() && after == before.insert(put, entry);
            assert forall|i: int| 0 <= i < after.len() implies counts(
                #[trigger] after[i],
                texts(first@),
                texts(second@),
            ) && exists|k: int| 0 <= k < at + 1 && labels@[k]@ == after[i].label@ by {
                if i < put {
                    assert(after[i] == before[i]);
                    let k = choose|k: int| 0 <= k < at && labels@[k]@ == before[i].label@;
                    assert(labels@[k]@ == after[i].label@);
                } else if i == put {
                    assert(after[i] == entry);
                    assert(labels@[at as int]@ == after[i].label@);
                } else {
                    assert(after[i] == before[i - 1]);
                    let k = choose|k: int| 0 <= k < at && labels@[k]@ == before[i - 1].label@;
                    assert(labels@[k]@ == after[i].label@);
                }
            }
            assert forall|k: int| 0 <= k < at + 1 implies tallies(after, #[trigger] labels@[k]@) by {
                if k < at {
                    let i = choose|i: int|
                        0 <= i < before.len() && (#[trigger] before[i]).label@ == labels@[k]@;
                    if i < put {
                        assert(after[i] == before[i]);
                    } else {
                        assert(after[i + 1] == before[i]);
                    }
                } else {
                    assert(after[put] == entry);
                }
            }
        }
        at += 1;
    }
    proof {
        assert forall|label: Seq<char>|
            texts(first@).contains(label) || texts(second@).contains(label) implies tallies(
            rows@,
            label,
        ) by {
            assert(texts(labels@).contains(label));
            let k = choose|k: int| 0 <= k < labels@.len() && texts(labels@)[k] == label;
            assert(tallies(rows@, labels@[k]@));
        }
    }
    rows
}

/// How many findings of a detection rule a review confirmed and allowed.
#[derive(Debug)]
pub struct RuleCount {
    pub rule_id: String,
    pub confirmed: usize,
    pub allowed: usize,
}

/// Whether `rows` sums up a review by detection rule: one row for each rule
/// that has a finding, with the numbers of its confirmed and of its allowed
/// findings; the rules with the most confirmed findings first, and rules
/// with equally many in the order of their ids.
pub open spec fn is_rule_summary(rows: Seq<RuleCount>, results: Seq<FilterResult>) -> bool {
    &&& forall|i: int|
        0 <= i < rows.len() ==> {
            &&& (#[trigger] rows[i]).confirmed == occurrences(
                confirmed_rules(results),
                rows[i].rule_id@,
            )
            &&& rows[i].allowed == occurrences(allowed_rules(results), rows[i].rule_id@)
            &&& rows[i].confirmed + rows[i].allowed > 0
        }
    &&& forall|rule: Seq<char>|
        confirmed_rules(results).contains(rule) || allowed_rules(results).contains(rule)
            ==> exists|i: int| 0 <= i < rows.len() && (#[trigger] rows[i]).rule_id@ == rule
    &&& forall|i: int, j: int|
        #![trigger rows[i], rows[j]]
        0 <= i < j < rows.len() ==> outranks(
            rows[i].confirmed,
            rows[i].rule_id@,
            rows[j].confirmed,
            rows[j].rule_id@,
        )
}

/// Sums up a review by detection rule.
pub fn rule_summary(results: &Vec<FilterResult>) -> (rows: Vec<RuleCount>)
    ensures
        is_rule_summary(rows@, results@),
{
    let confirmed = collect(results, Label::ConfirmedRule);
    let allowed = collect(results, Label::AllowedRule);
    let summed = tally(&confirmed, &allowed);
    let ghost ranked = summed@;
    let mut rows: Vec<RuleCount> = Vec::new();
    for entry in it: summed
        invariant
            it.seq() == ranked,
            rows@.len() == it.index(),
            forall|i: int|
                0 <= i < it.index() ==> {
                    &&& (#[trigger] rows@[i]).rule_id == ranked[i].label
                    &&& rows@[i].confirmed == ranked[i].first
                    &&& rows@[i].allowed == ranked[i].second
                },
    {
        rows.push(RuleCount { rule_id: entry.label, confirmed: entry.first, allowed: entry.second });
    }
    proof {
        let first = confirmed_rules(results@);
        let second = allowed_rules(results@);
        assert forall|i: int| 0 <= i < rows@.len() implies (#[trigger] rows@[i]).confirmed
            + rows@[i].allowed > 0 by {
            assert(counts(ranked[i], first, second));
            lemma_occurrences(first, ranked[i].label@);
            lemma_occurrences(second, ranked[i].label@);
        }
        assert forall|rule: Seq<char>|
            first.contains(rule) || second.contains(rule) implies exists|i: int|
            0 <= i < rows@.len() && (#[trigger] rows@[i]).rule_id@ == rule by {
            assert(tallies(ranked, rule));
            let i = choose|i: int| 0 <= i < ranked.len() && (#[trigger] ranked[i]).label@ == rule;
            assert(rows@[i].rule_id@ == rule);
        }
        assert forall|i: int, j: int|
            #![trigger rows@[i], rows@[j]]
            0 <= i < j < rows@.len() implies outranks(
            rows@[i].confirmed,
            rows@[i].rule_id@,
            rows@[j].confirmed,
            rows@[j].rule_id@,
        ) by {
            assert(ranks_before(ranked[i], ranked[j]));
        }
        assert forall|i: int| 0 <= i < rows@.len() implies (#[trigger] rows@[i]).confirmed
            == occurrences(first, rows@[i].rule_id@) && rows@[i].allowed == occurrences(
            second,
            rows@[i].rule_id@,
        ) by {
            assert(counts(ranked[i], first, second));
        }
    }
    rows
}

/// How many findings an allowlist allowed.
#[derive(Debug)]
pub struct AllowlistCount {
    pub allowlist_id: String,
    pub allowed: usize,
}

/// Whether `rows` sums up a review by allowlist: one row for each allowlist
/// that allowed a finding, with the number of the findings that it allowed;
/// the allowlists that allowed the most first, and allowlists that allowed
/// equally many in the order of their ids.
pub open spec fn is_allowlist_summary(rows: Seq<AllowlistCount>, results: Seq<FilterResult>) -> bool {
    &&& forall|i: int|
        0 <= i < rows.len() ==> {
            &&& (#[trigger] rows[i]).allowed == occurrences(
                allowing_lists(results),
                rows[i].allowlist_id@,
            )
            &&& rows[i].allowed > 0
        }
    &&& forall|id: Seq<char>|
        allowing_lists(results).contains(id) ==> exists|i: int|
            0 <= i < rows.len() && (#[trigger] rows[i]).allowlist_id@ == id
    &&& forall|i: int, j: int|
        #![trigger rows[i], rows[j]]
        0 <= i < j < rows.len() ==> outranks(
            rows[i].allowed,
            rows[i].allowlist_id@,
            rows[j].allowed,
            rows[j].allowlist_id@,
        )
}

/// Sums up a review by allowlist.
pub fn allowlist_summary(results: &Vec<FilterResult>) -> (rows: Vec<AllowlistCount>)
    ensures
        is_allowlist_summary(rows@, results@),
{
    let allowing = collect(results, Label::AllowingList);
    let none: Vec<String> = Vec::new();
    let summed = tally(&allowing, &none);
    let ghost ranked = summed@;
    let mut rows: Vec<AllowlistCount> = Vec::new();
    for entry in it: summed
        invariant
            it.seq() == ranked,
            rows@.len() == it.index(),
            forall|i: int|
                0 <= i < it.index() ==> {
                    &&& (#[trigger] rows@[i]).allowlist_id == ranked[i].label
                    &&& rows@[i].allowed == ranked[i].first
                },
    {
        rows.push(AllowlistCount { allowlist_id: entry.label, allowed: entry.first });
    }
    proof {
        let first = allowing_lists(results@);
        let second = texts(none@);
        assert forall|i: int| 0 <= i < rows@.len() implies (#[trigger] rows@[i]).allowed
            == occurrences(first, rows@[i].allowlist_id@) && rows@[i].allowed > 0 by {
            assert(counts(ranked[i], first, second));
            lemma_occurrences(first, ranked[i].label@);
            assert(!second.contains(ranked[i].label@));
        }
        assert forall|id: Seq<char>| first.contains(id) implies exists|i: int|
            0 <= i < rows@.len() && (#[trigger] rows@[i]).allowlist_id@ == id by {
            assert(tallies(ranked, id));
            let i = choose|i: int| 0 <= i < ranked.len() && (#[trigger] ranked[i]).label@ == id;
            assert(rows@[i].allowlist_id@ == id);
        }
        assert forall|i: int, j: int|
            #![trigger rows@[i], rows@[j]]
            0 <= i < j < rows@.len() implies outranks(
            rows@[i].allowed,
            rows@[i].allowlist_id@,
            rows@[j].allowed,
            rows@[j].allowlist_id@,
        ) by {
            assert(ranks_before(ranked[i], ranked[j]));
        }
    }
    rows
}

/// The totals of a review.
#[derive(Debug)]
pub struct Overview {
    /// The number of scan targets.
    pub targets: usize,
    /// The number of allowlists that the filter asked.
    pub allowlists: usize,
    /// The number of allowed findings.
    pub allowed: usize,
    /// The number of confirmed findings.
    pub confirmed: usize,
}

/// The number of confirmed findings of a review.
pub open spec fn confirmed_total(results: Seq<FilterResult>) -> nat
    decreases results.len(),
{
    if results.len() == 0 {
        0
    } else {
        confirmed_total(results.drop_last()) + results.last().confirmed@.len()
    }
}

/// The number of allowed findings of a review.
pub open spec fn allowed_total(results: Seq<FilterResult>) -> nat
    decreases results.len(),
{
    if results.len() == 0 {
        0
    } else {
        allowed_total(results.drop_last()) + results.last().allowed@.len()
    }
}

/// A review holds one rule id for each of its findings.
proof fn lemma_one_rule_each(results: Seq<FilterResult>)
    ensures
        confirmed_rules(results).len() == confirmed_total(results),
        allowed_rules(results).len() == allowed_total(results),
    decreases results.len(),
{
    if results.len() > 0 {
        lemma_one_rule_each(results.drop_last());
    }
}

/// Sums up a review as a whole.
pub fn overview(results: &Vec<FilterResult>, allowlists: usize) -> (totals: Overview)
    ensures
        totals.targets == results@.len(),
        totals.allowlists == allowlists,
        totals.allowed == allowed_total(results@),
        totals.confirmed == confirmed_total(results@),
{
    let confirmed = collect(results, Label::ConfirmedRule);
    let allowed = collect(results, Label::AllowedRule);
    proof {
        lemma_one_rule_each(results@);
    }
    Overview {
        targets: results.len(),
        allowlists,
        allowed: allowed.len(),
        confirmed: confirmed.len(),
    }
}

} // verus!
