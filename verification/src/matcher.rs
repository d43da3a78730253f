//! Matching a prompt record against the query: case-insensitive substring,
//! fuzzy (Skim) score, or regular expression.
use fuzzy_matcher::FuzzyMatcher;
use vstd::prelude::*;
use crate::text::{chars_of, contains, find_in, lemma_find_contains};
use crate::types::{Config, MatchMode, MatchResult, PromptRecord};
use crate::unicode::{lowercase_text, to_lowercase};

verus! {

/// The Skim score of `pattern` against `choice`, or nothing where the
/// pattern's characters do not occur in order.
pub uninterp spec fn skim_score(choice: Seq<char>, pattern: Seq<char>) -> Option<i64>;

/// The pattern is a valid regular expression for the `regex` crate.
pub uninterp spec fn regex_compiles(pattern: Seq<char>) -> bool;

/// The regular expression `pattern` matches somewhere in `text`.
pub uninterp spec fn regex_finds(pattern: Seq<char>, text: Seq<char>) -> bool;

/// `c` with an ASCII capital letter lowered (what `to_ascii_lowercase`
/// does to a character).
pub open spec fn ascii_lower(c: char) -> char {
    if 65 <= c as u32 <= 90 {
        (c as u32 + 32) as char
    } else {
        c
    }
}

/// The text has an ASCII capital letter.
pub open spec fn has_ascii_upper(s: Seq<char>) -> bool {
    exists|i: int| 0 <= i < s.len() && 65 <= #[trigger] s[i] as u32 <= 90
}

/// Two characters are equal, or equal but for ASCII case where
/// `case_sensitive` is off.
pub open spec fn skim_char_eq(a: char, b: char, case_sensitive: bool) -> bool {
    if case_sensitive {
        a == b
    } else {
        ascii_lower(a) == ascii_lower(b)
    }
}

/// The characters of `pattern` occur in `choice` in order, compared by
/// `skim_char_eq`.
pub open spec fn in_order(choice: Seq<char>, pattern: Seq<char>, case_sensitive: bool) -> bool
    decreases choice.len(),
{
    if pattern.len() == 0 {
        true
    } else if choice.len() == 0 {
        false
    } else if skim_char_eq(choice[0], pattern[0], case_sensitive) {
        in_order(choice.drop_first(), pattern.drop_first(), case_sensitive)
    } else {
        in_order(choice.drop_first(), pattern, case_sensitive)
    }
}

/// Skim's condition for any score: the pattern's characters occur in the
/// choice in order, ignoring ASCII case unless the pattern has a capital.
pub open spec fn skim_matches(choice: Seq<char>, pattern: Seq<char>) -> bool {
    in_order(choice, pattern, has_ascii_upper(pattern))
}

/// `SkimMatcherV2::default().fuzzy_indices(choice, pattern)`, its score
/// kept. The source returns the score 0 for an empty pattern, and otherwise
/// nothing exactly where its first pass (`cheap_matches`, with smart case)
/// finds the pattern's characters out of order; the score itself is left
/// to the name `skim_score`.
#[verifier::external_body]
fn skim_fuzzy_score(choice: &str, pattern: &str) -> (r: Option<i64>)
    ensures
        r == skim_score(choice@, pattern@),
        pattern@.len() == 0 ==> r == Some(0i64),
        r is Some <==> skim_matches(choice@, pattern@),
{
    fuzzy_matcher::skim::SkimMatcherV2::default().fuzzy_indices(choice, pattern).map(|(s, _)| s)
}

/// A compiled regular expression.
#[verifier::external_type_specification]
#[verifier::external_body]
pub struct ExRegex(regex::Regex);

/// `Regex::new`: compiles the pattern, or fails where it is not a valid
/// regular expression; which patterns are valid is left to the name
/// `regex_compiles`.
#[verifier::external_body]
fn compile_regex(pattern: &str) -> (r: Option<regex::Regex>)
    ensures
        r is Some <==> regex_compiles(pattern@),
{
    regex::Regex::new(pattern).ok()
}

/// A regular expression with the pattern it was compiled from. Only
/// `RegexQuery::new` makes one, so the two always belong together.
pub struct RegexQuery {
    regex: regex::Regex,
    source: String,
}

impl RegexQuery {
    /// The pattern the query was compiled from.
    pub closed spec fn pattern(&self) -> Seq<char> {
        self.source@
    }

    /// The query for `pattern`, where it is a valid regular expression.
    pub fn new(pattern: &str) -> (r: Option<RegexQuery>)
        ensures
            r is Some <==> regex_compiles(pattern@),
            r matches Some(q) ==> q.pattern() == pattern@,
    {
        match compile_regex(pattern) {
            Some(regex) => {
                let cs = chars_of(pattern);
                assert(cs@.subrange(0, cs@.len() as int) == cs@);
                let source = crate::text::string_of(&cs, 0, cs.len());
                Some(RegexQuery { regex, source })
            },
            None => None,
        }
    }
}

/// `Regex::find`: whether the query's regular expression matches somewhere
/// in `text`, which is left to the name `regex_finds` of the pattern the
/// query was compiled from.
#[verifier::external_body]
fn regex_find(query: &RegexQuery, text: &str) -> (found: bool)
    ensures
        found == regex_finds(query.pattern(), text@),
{
    query.regex.find(text).is_some()
}

/// `record` matches the query `query` ignoring case: the lowercased query
/// occurs in the lowercased prompt.
pub open spec fn exact_matches(prompt: Seq<char>, query: Seq<char>) -> bool {
    contains(lowercase_text(prompt), lowercase_text(query))
}

/// The fuzzy score of the query against the prompt, where it reaches
/// `min_score`.
pub open spec fn fuzzy_score(prompt: Seq<char>, query: Seq<char>, min_score: i64) -> Option<i64> {
    match skim_score(prompt, query) {
        Some(s) => if s < min_score {
            None
        } else {
            Some(s)
        },
        None => None,
    }
}

/// The query is a valid regular expression that matches in the prompt.
pub open spec fn regex_matches(prompt: Seq<char>, query: Seq<char>) -> bool {
    regex_compiles(query) && regex_finds(query, prompt)
}

/// Whether a record with prompt `prompt` matches under `config`, and with
/// which score: `None` where it does not match, `Some(score)` where it does.
pub open spec fn match_outcome(prompt: Seq<char>, config: Config) -> Option<Option<i64>> {
    match config.match_mode {
        MatchMode::Exact => if exact_matches(prompt, config.query@) {
            Some(None)
        } else {
            None
        },
        MatchMode::Fuzzy => match fuzzy_score(prompt, config.query@, config.min_score) {
            Some(s) => Some(Some(s)),
            None => None,
        },
        MatchMode::Regex => if regex_matches(prompt, config.query@) {
            Some(None)
        } else {
            None
        },
    }
}

/// `m` is the record `record` with the score `score`.
pub open spec fn is_result_for(m: MatchResult, record: PromptRecord, score: Option<i64>) -> bool {
    &&& m.record.path == record.path
    &&& m.record@ == record@
    &&& m.score == score
}

/// The record as a match, where `outcome` says it matched.
pub fn match_from_outcome(record: &PromptRecord, outcome: Option<Option<i64>>) -> (r: Option<
    MatchResult,
>)
    ensures
        match outcome {
            Some(score) => r matches Some(m) && is_result_for(m, *record, score),
            None => r is None,
        },
{
    match outcome {
        Some(score) => Some(MatchResult { record: record.duplicate(), score }),
        None => None,
    }
}

/// The record as a match where it matches the query under `config`: a
/// copy of the record, with the fuzzy score in fuzzy mode. A fuzzy match
/// needs the query's characters in the prompt in order.
pub fn match_record(record: &PromptRecord, config: &Config) -> (r: Option<MatchResult>)
    ensures
        match match_outcome(record.prompt@, *config) {
            Some(score) => r matches Some(m) && is_result_for(m, *record, score),
            None => r is None,
        },
        config.match_mode == MatchMode::Fuzzy && r is Some ==> skim_matches(
            record.prompt@,
            config.query@,
        ),
{
    match config.match_mode {
        MatchMode::Exact => match_exact(record, config),
        MatchMode::Fuzzy => match_fuzzy(record, config),
        MatchMode::Regex => match_regex(record, config),
    }
}

/// Whether `query_lower` occurs in `prompt_lower`; the texts are the
/// lowercased prompt and query.
pub fn exact_outcome(prompt_lower: &str, query_lower: &str) -> (r: Option<Option<i64>>)
    ensures
        r == (if contains(prompt_lower@, query_lower@) {
            Some(None::<i64>)
        } else {
            None
        }),
{
    let p = chars_of(prompt_lower);
    let q = chars_of(query_lower);
    assert(p@.subrange(0, p@.len() as int) == p@);
    proof {
        lemma_find_contains(p@, q@);
    }
    if find_in(&p, 0, p.len(), &q).is_some() {
        Some(None)
    } else {
        None
    }
}

/// The record as a match where the query occurs in its prompt, ignoring
/// case.
pub fn match_exact(record: &PromptRecord, config: &Config) -> (r: Option<MatchResult>)
    ensures
        if exact_matches(record.prompt@, config.query@) {
            r matches Some(m) && is_result_for(m, *record, None)
        } else {
            r is None
        },
{
    let query_lower = to_lowercase(config.query.as_str());
    let prompt_lower = to_lowercase(record.prompt.as_str());
    match_from_outcome(record, exact_outcome(prompt_lower.as_str(), query_lower.as_str()))
}

/// The match outcome of a Skim score against the threshold `min_score`.
pub fn fuzzy_outcome(score: Option<i64>, min_score: i64) -> (r: Option<Option<i64>>)
    ensures
        r == match score {
            Some(s) => if s < min_score {
                None
            } else {
                Some(Some(s))
            },
            None => None,
        },
{
    match score {
        Some(s) => if s < min_score {
            None
        } else {
            Some(Some(s))
        },
        None => None,
    }
}

/// The record as a match, with its score, where the query's fuzzy score
/// against the prompt reaches `config.min_score`; never where the query's
/// characters do not occur in the prompt in order.
pub fn match_fuzzy(record: &PromptRecord, config: &Config) -> (r: Option<MatchResult>)
    ensures
        match fuzzy_score(record.prompt@, config.query@, config.min_score) {
            Some(s) => r matches Some(m) && is_result_for(m, *record, Some(s)),
            None => r is None,
        },
        r is Some ==> skim_matches(record.prompt@, config.query@),
{
    let score = skim_fuzzy_score(record.prompt.as_str(), config.query.as_str());
    match_from_outcome(record, fuzzy_outcome(score, config.min_score))
}

/// The match outcome of a regular-expression search: `found` is `None`
/// where the pattern did not compile.
pub fn regex_outcome(found: Option<bool>) -> (r: Option<Option<i64>>)
    ensures
        r == (if found == Some(true) {
            Some(None::<i64>)
        } else {
            None
        }),
{
    match found {
        Some(true) => Some(None),
        _ => None,
    }
}

/// The record as a match where the query is a valid regular expression
/// that matches in the prompt.
pub fn match_regex(record: &PromptRecord, config: &Config) -> (r: Option<MatchResult>)
    ensures
        if regex_matches(record.prompt@, config.query@) {
            r matches Some(m) && is_result_for(m, *record, None)
        } else {
            r is None
        },
{
    let found = match RegexQuery::new(config.query.as_str()) {
        Some(q) => Some(regex_find(&q, record.prompt.as_str())),
        None => None,
    };
    match_from_outcome(record, regex_outcome(found))
}

} // verus!
