//! Regular expressions, one at a time and many together.

use crate::text;
use regex::{Regex, RegexSet};
use vstd::prelude::*;

verus! {

/// A compiled regular expression.
#[verifier::external_type_specification]
#[verifier::external_body]
pub struct ExRegex(regex::Regex);

/// Several regular expressions compiled together.
#[verifier::external_type_specification]
#[verifier::external_body]
pub struct ExRegexSet(regex::RegexSet);

/// What the regex engine says against a pattern, or nothing where it compiles.
pub uninterp spec fn refusal(pattern: Seq<char>) -> Option<Seq<char>>;

/// Whether patterns compile together. A set has a size limit of its own, so
/// patterns that compile one by one may not.
pub uninterp spec fn set_compiles(patterns: Seq<Seq<char>>) -> bool;

/// Whether a pattern matches somewhere in a line.
pub uninterp spec fn pattern_matches(pattern: Seq<char>, line: Seq<char>) -> bool;

/// The pattern that a compiled expression holds.
pub uninterp spec fn pattern_of(regex: Regex) -> Seq<char>;

/// Whether an expression was compiled from its pattern alone, with no option
/// of the engine changed.
pub uninterp spec fn ordinary(regex: Regex) -> bool;

/// The patterns that a compiled set holds, in order.
pub uninterp spec fn patterns_of(set: RegexSet) -> Seq<Seq<char>>;

/// Whether a set was compiled from its patterns alone.
pub uninterp spec fn ordinary_set(set: RegexSet) -> bool;

// ---------------------------------------------------------------------------
// The engine

/// `Regex::new`: a pattern either compiles to an expression that holds it, or
/// the engine's message says why not. The message is the error's `Display`.
#[verifier::external_body]
fn compile(pattern: &str) -> (compiled: Result<Regex, String>)
    ensures
        match compiled {
            Ok(regex) => {
                &&& refusal(pattern@) is None
                &&& pattern_of(regex) == pattern@
                &&& ordinary(regex)
            },
            Err(message) => refusal(pattern@) == Some(message@),
        },
{
    Regex::new(pattern).map_err(|err| err.to_string())
}

/// `Regex::as_str`: the pattern an expression was compiled from.
#[verifier::external_body]
fn pattern_text(regex: &Regex) -> (pattern: &str)
    ensures
        pattern@ == pattern_of(*regex),
{
    regex.as_str()
}

/// `Regex::is_match`: whether the expression's pattern matches somewhere in
/// the line.
#[verifier::external_body]
fn matches_line(regex: &Regex, line: &str) -> (hit: bool)
    requires
        ordinary(*regex),
    ensures
        hit == pattern_matches(pattern_of(*regex), line@),
{
    regex.is_match(line)
}

/// `Regex::clone`: an expression of the same pattern, compiled the same way.
#[verifier::external_body]
fn clone_regex(regex: &Regex) -> (copy: Regex)
    ensures
        pattern_of(copy) == pattern_of(*regex),
        ordinary(copy) == ordinary(*regex),
{
    regex.clone()
}

/// `RegexSet::new`: patterns that compile together give a set that holds them
/// in order.
#[verifier::external_body]
fn compile_set(patterns: &Vec<String>) -> (compiled: Option<RegexSet>)
    ensures
        match compiled {
            Some(set) => {
                &&& set_compiles(text::texts(patterns@))
                &&& patterns_of(set) == text::texts(patterns@)
                &&& ordinary_set(set)
            },
            None => !set_compiles(text::texts(patterns@)),
        },
{
    RegexSet::new(patterns).ok()
}

/// `RegexSet::clone`: a set of the same patterns, compiled the same way.
#[verifier::external_body]
fn clone_set(set: &RegexSet) -> (copy: RegexSet)
    ensures
        patterns_of(copy) == patterns_of(*set),
        ordinary_set(copy) == ordinary_set(*set),
{
    set.clone()
}

/// Numbers of which each is greater than those before it.
pub open spec fn ascending(places: Seq<usize>) -> bool {
    forall|i: int, j: int| 0 <= i < j < places.len() ==> places[i] < places[j]
}

/// The places, in ascending order, of the patterns that match a line.
pub open spec fn places_of_matches(
    places: Seq<usize>,
    patterns: Seq<Seq<char>>,
    line: Seq<char>,
) -> bool {
    &&& ascending(places)
    &&& forall|place: usize| #[trigger]
        places.contains(place) <==> place < patterns.len() && pattern_matches(
            patterns[place as int],
            line,
        )
}

/// `RegexSet::matches`: the places of the patterns that match somewhere in the
/// line, in ascending order. A pattern of a set matches the lines that it
/// matches when it is compiled alone.
#[verifier::external_body]
fn set_matches(set: &RegexSet, line: &str) -> (places: Vec<usize>)
    requires
        ordinary_set(*set),
    ensures
        places_of_matches(places@, patterns_of(*set), line@),
{
    set.matches(line).iter().collect()
}

// ---------------------------------------------------------------------------
// Patterns

/// Why a pattern did not compile, in the regex engine's words.
#[derive(Debug, Clone, PartialEq, Eq)]
pub struct PatternError {
    pub message: String,
}

/// A pattern that compiles.
#[derive(Debug)]
pub struct Pattern {
    regex: Regex,
}

impl View for Pattern {
    type V = Seq<char>;

    closed spec fn view(&self) -> Seq<char> {
        pattern_of(self.regex)
    }
}

impl Pattern {
    /// Patterns are compiled with the engine's own settings.
    #[verifier::type_invariant]
    spec fn is_ordinary(&self) -> bool {
        ordinary(self.regex)
    }

    /// Compiles a pattern.
    pub fn new(pattern: &str) -> (compiled: Result<Pattern, PatternError>)
        ensures
            match compiled {
                Ok(compiled) => refusal(pattern@) is None && compiled@ == pattern@,
                Err(error) => refusal(pattern@) == Some(error.message@),
            },
    {
        match compile(pattern) {
            Ok(regex) => Ok(Pattern { regex }),
            Err(message) => Err(PatternError { message }),
        }
    }

    /// The pattern as it was written.
    pub fn as_str(&self) -> (pattern: &str)
        ensures
            pattern@ == self@,
    {
        pattern_text(&self.regex)
    }

    /// Whether the pattern matches somewhere in `line`.
    pub fn is_match(&self, line: &str) -> (hit: bool)
        ensures
            hit == pattern_matches(self@, line@),
    {
        proof {
            use_type_invariant(self);
        }
        matches_line(&self.regex, line)
    }
}

impl Clone for Pattern {
    /// The same pattern again.
    fn clone(&self) -> (copy: Self)
        ensures
            copy@ == self@,
    {
        proof {
            use_type_invariant(self);
        }
        Pattern { regex: clone_regex(&self.regex) }
    }
}

/// Patterns that compile together.
#[derive(Debug)]
pub struct PatternSet {
    set: RegexSet,
}

impl View for PatternSet {
    type V = Seq<Seq<char>>;

    closed spec fn view(&self) -> Seq<Seq<char>> {
        patterns_of(self.set)
    }
}

impl PatternSet {
    /// Patterns are compiled with the engine's own settings.
    #[verifier::type_invariant]
    spec fn is_ordinary(&self) -> bool {
        ordinary_set(self.set)
    }

    /// Compiles patterns together.
    pub fn new(patterns: &Vec<String>) -> (compiled: Option<PatternSet>)
        ensures
            match compiled {
                Some(set) => {
                    &&& set_compiles(text::texts(patterns@))
                    &&& set@ == text::texts(patterns@)
                },
                None => !set_compiles(text::texts(patterns@)),
            },
    {
        match compile_set(patterns) {
            Some(set) => Some(PatternSet { set }),
            None => None,
        }
    }

    /// The places of the patterns that match somewhere in `line`.
    pub fn matches(&self, line: &str) -> (places: Vec<usize>)
        ensures
            places_of_matches(places@, self@, line@),
    {
        proof {
            use_type_invariant(self);
        }
        set_matches(&self.set, line)
    }
}

impl Clone for PatternSet {
    /// The same patterns again.
    fn clone(&self) -> (copy: Self)
        ensures
            copy@ == self@,
    {
        proof {
            use_type_invariant(self);
        }
        PatternSet { set: clone_set(&self.set) }
    }
}

} // verus!
