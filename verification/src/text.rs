//! Plain texts: equality, substrings, the order of texts, counting, and
//! numbers written in decimal.

use vstd::prelude::*;
use vstd::string::StringExecFns;

verus! {

/// `needle` occurs in `haystack` as a contiguous run of characters.
/// The empty text occurs in every text.
pub open spec fn is_substring(needle: Seq<char>, haystack: Seq<char>) -> bool {
    exists|at: int| occurs_at(needle, haystack, at)
}

/// `needle` occurs in `haystack` starting at position `at`.
pub open spec fn occurs_at(needle: Seq<char>, haystack: Seq<char>, at: int) -> bool {
    &&& 0 <= at
    &&& at + needle.len() <= haystack.len()
    &&& haystack.subrange(at, at + needle.len()) == needle
}

/// The texts of a list of strings.
pub open spec fn texts(list: Seq<String>) -> Seq<Seq<char>> {
    list.map_values(|s: String| s@)
}

/// The texts of a list of strings that may be absent.
pub open spec fn optional_texts(list: Option<Vec<String>>) -> Option<Seq<Seq<char>>> {
    match list {
        Some(list) => Some(texts(list@)),
        None => None,
    }
}

/// Whether `text` is one of the texts of `list`.
pub fn holds_text(list: &Vec<String>, text: &String) -> (found: bool)
    ensures
        found == texts(list@).contains(text@),
{
    let mut i: usize = 0;
    while i < list.len()
        invariant
            i <= list.len(),
            forall|j: int| 0 <= j < i ==> texts(list@)[j] != text@,
        decreases list.len() - i,
    {
        if list[i] == *text {
            assert(texts(list@)[i as int] == text@);
            return true;
        }
        i += 1;
    }
    false
}

/// Whether two texts are the same text.
pub fn equal(left: &str, right: &str) -> (same: bool)
    ensures
        same == (left@ == right@),
{
    let left: String = left.to_owned();
    let right: String = right.to_owned();
    left == right
}

/// The characters of a text, in order.
pub fn chars_of(text: &str) -> (chars: Vec<char>)
    ensures
        chars@ == text@,
{
    let mut chars: Vec<char> = Vec::new();
    for c in it: text.chars()
        invariant
            it.seq() == text@,
            chars@ == it.seq().take(it.index()),
    {
        chars.push(c);
    }
    chars
}

/// Whether `needle` stands in `haystack` at position `at`.
fn matches_at(haystack: &Vec<char>, needle: &Vec<char>, at: usize) -> (found: bool)
    requires
        at + needle.len() <= haystack.len(),
    ensures
        found == occurs_at(needle@, haystack@, at as int),
{
    let mut k: usize = 0;
    while k < needle.len()
        invariant
            k <= needle.len(),
            at + needle.len() <= haystack.len(),
            forall|j: int| 0 <= j < k ==> haystack@[at + j] == needle@[j],
        decreases needle.len() - k,
    {
        if haystack[at + k] != needle[k] {
            proof {
                let window = haystack@.subrange(at as int, at + needle.len());
                assert(window[k as int] == haystack@[at + k]);
            }
            return false;
        }
        k += 1;
    }
    assert(haystack@.subrange(at as int, at + needle.len()) =~= needle@);
    true
}

/// Whether `needle` occurs somewhere in `haystack`.
pub fn contains(haystack: &str, needle: &str) -> (found: bool)
    ensures
        found == is_substring(needle@, haystack@),
{
    let hay = chars_of(haystack);
    let pin = chars_of(needle);
    if pin.len() > hay.len() {
        return false;
    }
    let last: usize = hay.len() - pin.len();
    let mut at: usize = 0;
    loop
        invariant
            hay@ == haystack@,
            pin@ == needle@,
            last == hay.len() - pin.len(),
            at <= last,
            forall|j: int| 0 <= j < at ==> !occurs_at(pin@, hay@, j),
        decreases last - at,
    {
        if matches_at(&hay, &pin, at) {
            return true;
        }
        if at == last {
            return false;
        }
        at += 1;
    }
}

/// The order of texts: `left` comes before `right` when, at the first place
/// where the two differ, `left` has the character with the smaller code
/// point, or has ended.
pub open spec fn comes_before(left: Seq<char>, right: Seq<char>) -> bool
    decreases left.len(),
{
    if right.len() == 0 {
        false
    } else if left.len() == 0 {
        true
    } else if left[0] != right[0] {
        (left[0] as int) < (right[0] as int)
    } else {
        comes_before(left.drop_first(), right.drop_first())
    }
}

/// Of two different texts, one comes before the other.
pub proof fn lemma_order_total(left: Seq<char>, right: Seq<char>)
    requires
        left != right,
    ensures
        comes_before(left, right) || comes_before(right, left),
    decreases left.len(),
{
    if left.len() > 0 && right.len() > 0 && left[0] == right[0] {
        if left.drop_first() == right.drop_first() {
            assert(left =~= seq![left[0]] + left.drop_first());
            assert(right =~= seq![right[0]] + right.drop_first());
        }
        lemma_order_total(left.drop_first(), right.drop_first());
    } else if left.len() == 0 && right.len() == 0 {
        assert(left =~= right);
    }
}

/// What comes before a text that comes before a third comes before the
/// third.
pub proof fn lemma_order_transitive(first: Seq<char>, second: Seq<char>, third: Seq<char>)
    requires
        comes_before(first, second),
        comes_before(second, third),
    ensures
        comes_before(first, third),
    decreases first.len(),
{
    if first.len() > 0 && first[0] == second[0] && second[0] == third[0] {
        lemma_order_transitive(first.drop_first(), second.drop_first(), third.drop_first());
    }
}

/// The code point of a character fits in 32 bits.
proof fn lemma_code_point(c: char)
    ensures
        0 <= c as int <= 0x10FFFF,
{
}

/// Whether `left` comes before `right` in the order of texts.
pub fn precedes(left: &str, right: &str) -> (before: bool)
    ensures
        before == comes_before(left@, right@),
{
    let left_chars = chars_of(left);
    let right_chars = chars_of(right);
    let mut at: usize = 0;
    assert(left@.skip(0) =~= left@);
    assert(right@.skip(0) =~= right@);
    loop
        invariant
            left_chars@ == left@,
            right_chars@ == right@,
            at <= left_chars.len(),
            at <= right_chars.len(),
            comes_before(left@, right@) == comes_before(left@.skip(at as int), right@.skip(at as int)),
        decreases left_chars.len() - at,
    {
        let ghost left_rest = left@.skip(at as int);
        let ghost right_rest = right@.skip(at as int);
        if at == right_chars.len() {
            assert(right_rest.len() == 0);
            return false;
        }
        if at == left_chars.len() {
            assert(left_rest.len() == 0 && right_rest.len() > 0);
            return true;
        }
        assert(left_rest[0] == left@[at as int]);
        assert(right_rest[0] == right@[at as int]);
        let l = left_chars[at];
        let r = right_chars[at];
        if l != r {
            proof {
                lemma_code_point(l);
                lemma_code_point(r);
            }
            let before = (l as u32) < (r as u32);
            assert(comes_before(left_rest, right_rest) == before);
            return before;
        }
        assert(left_rest.drop_first() =~= left@.skip(at + 1));
        assert(right_rest.drop_first() =~= right@.skip(at + 1));
        at += 1;
    }
}

/// How often `label` stands in `labels`.
pub open spec fn occurrences(labels: Seq<Seq<char>>, label: Seq<char>) -> nat
    decreases labels.len(),
{
    if labels.len() == 0 {
        0
    } else {
        occurrences(labels.drop_last(), label) + if labels.last() == label {
            1nat
        } else {
            0nat
        }
    }
}

/// Counts how often `label` stands in `labels`.
pub fn count_text(labels: &Vec<String>, label: &String) -> (count: usize)
    ensures
        count == occurrences(texts(labels@), label@),
{
    let mut count: usize = 0;
    let mut at: usize = 0;
    while at < labels.len()
        invariant
            at <= labels.len(),
            count <= at,
            count == occurrences(texts(labels@).take(at as int), label@),
        decreases labels.len() - at,
    {
        let ghost upto = texts(labels@).take(at + 1);
        assert(upto.drop_last() =~= texts(labels@).take(at as int));
        assert(upto.last() == labels@[at as int]@);
        if labels[at] == *label {
            count += 1;
        }
        at += 1;
    }
    assert(texts(labels@).take(labels@.len() as int) =~= texts(labels@));
    count
}

/// A text stands in a list exactly when it stands there at least once.
pub proof fn lemma_occurrences(labels: Seq<Seq<char>>, label: Seq<char>)
    ensures
        occurrences(labels, label) > 0 <==> labels.contains(label),
    decreases labels.len(),
{
    if labels.len() > 0 {
        let earlier = labels.drop_last();
        lemma_occurrences(earlier, label);
        if labels.contains(label) {
            let i = choose|i: int| 0 <= i < labels.len() && labels[i] == label;
            if i < earlier.len() {
                assert(earlier[i] == label);
            }
        }
        if earlier.contains(label) {
            let i = choose|i: int| 0 <= i < earlier.len() && earlier[i] == label;
            assert(labels[i] == label);
        }
        if labels.last() == label {
            assert(labels[labels.len() - 1] == label);
        }
    }
}

/// The character that stands for a digit.
pub open spec fn digit(d: nat) -> char {
    if d == 0 {
        '0'
    } else if d == 1 {
        '1'
    } else if d == 2 {
        '2'
    } else if d == 3 {
        '3'
    } else if d == 4 {
        '4'
    } else if d == 5 {
        '5'
    } else if d == 6 {
        '6'
    } else if d == 7 {
        '7'
    } else if d == 8 {
        '8'
    } else {
        '9'
    }
}

/// A number in decimal, without sign and without leading zeros.
pub open spec fn decimal_text(n: nat) -> Seq<char>
    decreases n,
{
    if n < 10 {
        seq![digit(n)]
    } else {
        decimal_text(n / 10).push(digit(n % 10))
    }
}

/// The text of one digit.
fn digit_text(d: usize) -> (text: &'static str)
    requires
        d < 10,
    ensures
        text@ == seq![digit(d as nat)],
{
    proof {
        reveal_strlit("0");
        reveal_strlit("1");
        reveal_strlit("2");
        reveal_strlit("3");
        reveal_strlit("4");
        reveal_strlit("5");
        reveal_strlit("6");
        reveal_strlit("7");
        reveal_strlit("8");
        reveal_strlit("9");
    }
    let text = if d == 0 {
        "0"
    } else if d == 1 {
        "1"
    } else if d == 2 {
        "2"
    } else if d == 3 {
        "3"
    } else if d == 4 {
        "4"
    } else if d == 5 {
        "5"
    } else if d == 6 {
        "6"
    } else if d == 7 {
        "7"
    } else if d == 8 {
        "8"
    } else {
        "9"
    };
    assert(text@ =~= seq![digit(d as nat)]);
    text
}

/// Writes a number in decimal.
pub fn decimal(n: usize) -> (text: String)
    ensures
        text@ == decimal_text(n as nat),
    decreases n,
{
    if n < 10 {
        String::from_str(digit_text(n))
    } else {
        let text = decimal(n / 10).concat(digit_text(n % 10));
        assert(text@ =~= decimal_text((n / 10) as nat).push(digit((n % 10) as nat)));
        text
    }
}

} // verus!
