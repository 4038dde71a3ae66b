//! Allowlists: the suppression rules that a configuration holds.

use vstd::prelude::*;

use crate::error::ConfigError;
use crate::gitleaks_config::GitleaksAllowlist;
use crate::pattern::{check, find, regex_accepts, regex_finds};
use crate::text::{equal, optional_texts, texts};

verus! {

/// Which text of a finding the regexes of an allowlist are run on.
#[derive(Debug, Clone, Copy, PartialEq, Eq, Structural)]
pub enum RegexTarget {
    Secret,
    Match,
    Line,
}

impl Default for RegexTarget {
    /// Regexes look at the secret unless told otherwise.
    fn default() -> (target: Self)
        ensures
            target == RegexTarget::Secret,
    {
        RegexTarget::Secret
    }
}

impl RegexTarget {
    /// The target that a word of the configuration names, if it names one.
    pub open spec fn named(word: Seq<char>) -> Option<RegexTarget> {
        if word == "secret"@ {
            Some(RegexTarget::Secret)
        } else if word == "match"@ {
            Some(RegexTarget::Match)
        } else if word == "line"@ {
            Some(RegexTarget::Line)
        } else {
            None
        }
    }

    /// Reads a regex target from its name in a configuration file.
    pub fn from_str(s: &str) -> (parsed: Result<RegexTarget, ConfigError>)
        ensures
            match RegexTarget::named(s@) {
                Some(target) => parsed == Ok::<RegexTarget, ConfigError>(target),
                None => parsed matches Err(ConfigError::InvalidRegexTarget { value })
                    && value@ == s@,
            },
    {
        if equal(s, "secret") {
            Ok(RegexTarget::Secret)
        } else if equal(s, "match") {
            Ok(RegexTarget::Match)
        } else if equal(s, "line") {
            Ok(RegexTarget::Line)
        } else {
            Err(ConfigError::InvalidRegexTarget { value: s.to_owned() })
        }
    }
}

impl core::str::FromStr for RegexTarget {
    type Err = ConfigError;

    /// Reads a regex target from its name, as `RegexTarget::from_str` does:
    /// `secret`, `match` and `line` name a target, and every other word is
    /// handed back in the error.
    fn from_str(s: &str) -> (parsed: Result<Self, ConfigError>)
        ensures
            match RegexTarget::named(s@) {
                Some(target) => parsed == Ok::<RegexTarget, ConfigError>(target),
                None => parsed matches Err(ConfigError::InvalidRegexTarget { value })
                    && value@ == s@,
            },
    {
        RegexTarget::from_str(s)
    }
}

/// `error` says that the regex engine refuses `pattern`.
pub open spec fn is_refusal_of(error: ConfigError, pattern: Seq<char>) -> bool {
    error matches ConfigError::InvalidRegex { pattern: refused, .. } && refused@ == pattern
}

/// A regular expression of a configuration, held as its pattern.
///
/// A value of this type always holds a pattern that the regex engine
/// accepts: `new` is the only way to make one.
#[derive(Debug)]
pub struct RegexString {
    pattern: String,
}

impl View for RegexString {
    type V = Seq<char>;

    /// The pattern.
    closed spec fn view(&self) -> Seq<char> {
        self.pattern@
    }
}

impl Clone for RegexString {
    fn clone(&self) -> (copy: Self)
        ensures
            copy@ == self@,
    {
        proof {
            use_type_invariant(self);
        }
        RegexString { pattern: self.pattern.clone() }
    }
}

impl RegexString {
    #[verifier::type_invariant]
    spec fn accepted(self) -> bool {
        regex_accepts(self.pattern@)
    }

    /// Takes `pattern` as a regular expression, if the regex engine accepts it.
    pub fn new(pattern: &str) -> (made: Result<RegexString, ConfigError>)
        ensures
            match made {
                Ok(regex) => regex_accepts(pattern@) && regex@ == pattern@,
                Err(error) => !regex_accepts(pattern@) && is_refusal_of(error, pattern@),
            },
    {
        match check(pattern) {
            Ok(()) => Ok(RegexString { pattern: pattern.to_owned() }),
            Err(reason) => Err(ConfigError::InvalidRegex { pattern: pattern.to_owned(), reason }),
        }
    }

    /// The pattern as it was given.
    pub fn as_str(&self) -> (pattern: &str)
        ensures
            pattern@ == self@,
    {
        self.pattern.as_str()
    }

    /// Whether the expression matches somewhere in `haystack`.
    pub fn is_match(&self, haystack: &str) -> (found: bool)
        ensures
            found == regex_finds(self@, haystack@),
    {
        proof {
            use_type_invariant(self);
        }
        find(self.pattern.as_str(), haystack)
    }
}

/// The patterns of a list of regular expressions.
pub open spec fn patterns(list: Seq<RegexString>) -> Seq<Seq<char>> {
    list.map_values(|r: RegexString| r@)
}

/// The patterns of a list of regular expressions that may be absent.
pub open spec fn optional_patterns(list: Option<Vec<RegexString>>) -> Option<Seq<Seq<char>>> {
    match list {
        Some(list) => Some(patterns(list@)),
        None => None,
    }
}

/// The regex engine accepts every pattern of the list.
pub open spec fn all_accepted(given: Seq<Seq<char>>) -> bool {
    forall|i: int| 0 <= i < given.len() ==> regex_accepts(#[trigger] given[i])
}

/// `at` is the first position of the list that holds a pattern which the
/// regex engine refuses.
pub open spec fn first_refused(given: Seq<Seq<char>>, at: int) -> bool {
    &&& 0 <= at < given.len()
    &&& !regex_accepts(given[at])
    &&& all_accepted(given.take(at))
}

/// `error` is the refusal of the first pattern of the list that the regex
/// engine does not accept.
pub open spec fn is_refusal(error: ConfigError, given: Seq<Seq<char>>) -> bool {
    exists|at: int| first_refused(given, at) && is_refusal_of(error, given[at])
}

/// Compiles one more pattern and appends it to those compiled so far.
pub fn collect_regex_string(acc: Vec<RegexString>, s: String) -> (collected: Result<
    Vec<RegexString>,
    ConfigError,
>)
    ensures
        match collected {
            Ok(longer) => regex_accepts(s@) && patterns(longer@) == patterns(acc@).push(s@),
            Err(error) => !regex_accepts(s@) && is_refusal_of(error, s@),
        },
{
    let mut acc = acc;
    let ghost before = acc@;
    match RegexString::new(s.as_str()) {
        Ok(regex) => {
            acc.push(regex);
            assert(patterns(acc@) =~= patterns(before).push(s@));
            Ok(acc)
        },
        Err(error) => Err(error),
    }
}

/// Compiles the patterns of a list that may be absent. All of them have to
/// compile; the error is that of the first one that does not.
pub fn from_regex_strings(regex_strings: Option<Vec<String>>) -> (compiled: Result<
    Option<Vec<RegexString>>,
    ConfigError,
>)
    ensures
        match optional_texts(regex_strings) {
            None => compiled matches Ok(None),
            Some(given) => match compiled {
                Ok(made) => all_accepted(given) && optional_patterns(made) == Some(given),
                Err(error) => is_refusal(error, given),
            },
        },
{
    match regex_strings {
        None => Ok(None),
        Some(inner) => {
            let ghost given = texts(inner@);
            let mut made: Vec<RegexString> = Vec::new();
            for s in it: inner
                invariant
                    it.seq() == inner@,
                    given == texts(inner@),
                    optional_texts(regex_strings) == Some(given),
                    patterns(made@) == given.take(it.index()),
                    all_accepted(given.take(it.index())),
            {
                let ghost at = it.index();
                assert(given[at] == s@);
                match collect_regex_string(made, s) {
                    Ok(longer) => {
                        made = longer;
                        assert(given.take(at + 1) =~= given.take(at).push(given[at]));
                    },
                    Err(error) => {
                        assert(first_refused(given, at));
                        return Err(error);
                    },
                }
            }
            assert(given.take(given.len() as int) =~= given);
            Ok(Some(made))
        },
    }
}

/// A named suppression rule: findings that it matches are allowed rather
/// than confirmed.
#[derive(Debug)]
pub struct Allowlist {
    /// Name of the allowlist, unique within a configuration.
    pub id: String,
    /// The detection rules that the allowlist applies to. Empty means all of
    /// them.
    pub target_rule_ids: Vec<String>,
    pub description: Option<String>,
    pub regexes: Option<Vec<RegexString>>,
    pub regex_target: Option<RegexTarget>,
    pub paths: Option<Vec<RegexString>>,
    pub commits: Option<Vec<String>>,
    pub stopwords: Option<Vec<String>>,
}

/// An allowlist as plain mathematics: every text a sequence of characters,
/// every regular expression its pattern.
pub struct AllowlistView {
    pub id: Seq<char>,
    pub target_rule_ids: Seq<Seq<char>>,
    pub description: Option<Seq<char>>,
    pub regexes: Option<Seq<Seq<char>>>,
    pub regex_target: Option<RegexTarget>,
    pub paths: Option<Seq<Seq<char>>>,
    pub commits: Option<Seq<Seq<char>>>,
    pub stopwords: Option<Seq<Seq<char>>>,
}

impl View for Allowlist {
    type V = AllowlistView;

    open spec fn view(&self) -> AllowlistView {
        AllowlistView {
            id: self.id@,
            target_rule_ids: texts(self.target_rule_ids@),
            description: match self.description {
                Some(text) => Some(text@),
                None => None,
            },
            regexes: optional_patterns(self.regexes),
            regex_target: self.regex_target,
            paths: optional_patterns(self.paths),
            commits: optional_texts(self.commits),
            stopwords: optional_texts(self.stopwords),
        }
    }
}

/// The regex engine accepts every pattern of a list that may be absent.
pub open spec fn all_accepted_if_present(list: Option<Vec<String>>) -> bool {
    match optional_texts(list) {
        Some(given) => all_accepted(given),
        None => true,
    }
}

/// The regex target that an allowlist of the scanner asks for, where it asks
/// for one that exists.
pub open spec fn target_named(word: Option<String>) -> Option<RegexTarget> {
    match word {
        Some(word) => RegexTarget::named(word@),
        None => None,
    }
}

/// An allowlist of the scanner asks for a regex target that does not exist.
pub open spec fn target_refused(word: Option<String>) -> bool {
    word is Some && target_named(word) is None
}

/// An allowlist of the scanner can be taken over: its regex target exists
/// and all of its patterns compile.
pub open spec fn convertible(other: GitleaksAllowlist) -> bool {
    &&& !target_refused(other.regex_target)
    &&& all_accepted_if_present(other.regexes)
    &&& all_accepted_if_present(other.paths)
}

/// `error` says what keeps an allowlist of the scanner from being taken
/// over: first of all its regex target, then the first bad pattern among
/// `regexes`, then the first bad pattern among `paths`.
pub open spec fn is_fault_of(error: ConfigError, other: GitleaksAllowlist) -> bool {
    if target_refused(other.regex_target) {
        error matches ConfigError::InvalidRegexTarget { value } && value@
            == other.regex_target->0@
    } else if !all_accepted_if_present(other.regexes) {
        other.regexes matches Some(given) && is_refusal(error, texts(given@))
    } else {
        other.paths matches Some(given) && is_refusal(error, texts(given@))
    }
}

/// `made` holds what `other` holds: the same description, commits and
/// stopwords, the regex target that `other` names, and the regular
/// expressions of its patterns.
pub open spec fn carries(made: Allowlist, other: GitleaksAllowlist) -> bool {
    &&& made.description == other.description
    &&& made.regex_target == target_named(other.regex_target)
    &&& optional_patterns(made.regexes) == optional_texts(other.regexes)
    &&& optional_patterns(made.paths) == optional_texts(other.paths)
    &&& made.commits == other.commits
    &&& made.stopwords == other.stopwords
}

impl Allowlist {
    /// Takes an allowlist written in the scanner's own format under the given
    /// id, for the given detection rules.
    ///
    /// The regex target has to be a known one and every pattern has to
    /// compile. What is wrong is reported in this order: the regex target,
    /// the first bad pattern among `regexes`, the first bad pattern among
    /// `paths`.
    pub fn from_gitleaks(
        other: GitleaksAllowlist,
        id: String,
        target_rule_ids: Vec<String>,
    ) -> (converted: Result<Self, ConfigError>)
        ensures
            match converted {
                Ok(made) => {
                    &&& convertible(other)
                    &&& made.id == id
                    &&& made.target_rule_ids == target_rule_ids
                    &&& carries(made, other)
                },
                Err(error) => !convertible(other) && is_fault_of(error, other),
            },
    {
        let regex_target = match other.regex_target {
            Some(word) => {
                match RegexTarget::from_str(word.as_str()) {
                    Ok(target) => Some(target),
                    Err(error) => {
                        return Err(error);
                    },
                }
            },
            None => None,
        };
        let regexes = match from_regex_strings(other.regexes) {
            Ok(regexes) => regexes,
            Err(error) => {
                return Err(error);
            },
        };
        let paths = match from_regex_strings(other.paths) {
            Ok(paths) => paths,
            Err(error) => {
                return Err(error);
            },
        };
        Ok(
            Allowlist {
                id,
                target_rule_ids,
                description: other.description,
                regexes,
                regex_target,
                paths,
                commits: other.commits,
                stopwords: other.stopwords,
            },
        )
    }
}

/// The root of an allowlist configuration file.
#[derive(Debug)]
pub struct ConfigRoot {
    pub extensions: Extensions,
}

impl ConfigRoot {
    /// A configuration that holds exactly `allowlists`.
    pub fn new(allowlists: Vec<Allowlist>) -> (root: Self)
        ensures
            root.extensions.allowlists == allowlists,
    {
        ConfigRoot { extensions: Extensions { allowlists } }
    }
}

/// The part of a configuration file that this crate owns.
#[derive(Debug)]
pub struct Extensions {
    pub allowlists: Vec<Allowlist>,
}

/// No two allowlists carry the same id.
pub open spec fn ids_distinct(allowlists: Seq<Allowlist>) -> bool {
    forall|i: int, j: int|
        0 <= i < j < allowlists.len() ==> allowlists[i].id@ != allowlists[j].id@
}

/// The allowlist at `at` carries an id that an earlier one carries too.
pub open spec fn repeats_id(allowlists: Seq<Allowlist>, at: int) -> bool {
    &&& 0 <= at < allowlists.len()
    &&& exists|i: int| 0 <= i < at && allowlists[i].id@ == allowlists[at].id@
}

/// `at` is the first position whose id was already taken.
pub open spec fn first_repeated_id(allowlists: Seq<Allowlist>, at: int) -> bool {
    &&& repeats_id(allowlists, at)
    &&& forall|j: int| 0 <= j < at ==> !repeats_id(allowlists, j)
}

/// Checks that allowlist ids are unique. Where they are not, the error names
/// the id at the first position that repeats an earlier one.
pub fn validate_duplication(allowlists: &[Allowlist]) -> (checked: Result<(), ConfigError>)
    ensures
        checked is Ok <==> ids_distinct(allowlists@),
        checked matches Err(error) ==> exists|at: int|
            first_repeated_id(allowlists@, at) && error == (ConfigError::DuplicatedAllowlistId {
                id: allowlists@[at].id,
            }),
{
    let mut at: usize = 0;
    while at < allowlists.len()
        invariant
            at <= allowlists.len(),
            forall|j: int| 0 <= j < at ==> !repeats_id(allowlists@, j),
        decreases allowlists.len() - at,
    {
        let mut earlier: usize = 0;
        while earlier < at
            invariant
                earlier <= at < allowlists.len(),
                forall|j: int| 0 <= j < at ==> !repeats_id(allowlists@, j),
                forall|i: int| 0 <= i < earlier ==> allowlists@[i].id@ != allowlists@[at as int].id@,
            decreases at - earlier,
        {
            if allowlists[earlier].id == allowlists[at].id {
                assert(repeats_id(allowlists@, at as int));
                assert(first_repeated_id(allowlists@, at as int));
                return Err(ConfigError::DuplicatedAllowlistId { id: allowlists[at].id.clone() });
            }
            earlier += 1;
        }
        at += 1;
    }
    assert(ids_distinct(allowlists@)) by {
        assert forall|i: int, j: int| 0 <= i < j < allowlists@.len() implies allowlists@[i].id@
            != allowlists@[j].id@ by {
            assert(!repeats_id(allowlists@, j));
        }
    }
    Ok(())
}

} // verus!
