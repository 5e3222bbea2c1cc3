use vstd::prelude::*;
use crate::rules::ResolvedRule;

verus! {

/// Longest accepted pattern source, in characters.
pub const MAX_PATTERN_CHARS: usize = 64;

/// Budget, in bytes, for a compiled pattern.
pub const COMPILED_SIZE_LIMIT: usize = 4096;

#[verifier::external_type_specification]
#[verifier::external_body]
pub struct ExRegex(regex::Regex);

#[verifier::external_type_specification]
#[verifier::external_body]
pub struct ExRegexError(regex::Error);

/// Whether the pattern source compiles within `COMPILED_SIZE_LIMIT`.
pub uninterp spec fn compiles_within_budget(pattern: Seq<char>) -> bool;

/// Whether the compiled pattern matches somewhere in the text.
pub uninterp spec fn finds_match(pattern: Seq<char>, text: Seq<char>) -> bool;

/// Relies on regex::RegexBuilder::build with `size_limit(COMPILED_SIZE_LIMIT)`:
/// it succeeds exactly when the pattern is valid and fits the budget, which
/// depends on the pattern alone.
#[verifier::external_body]
fn build_bounded(pattern: &str) -> (r: Result<regex::Regex, regex::Error>)
    ensures
        r is Ok <==> compiles_within_budget(pattern@),
{
    regex::RegexBuilder::new(pattern).size_limit(COMPILED_SIZE_LIMIT).build()
}

/// Relies on regex::Regex::find, on the regex built as `build_bounded`
/// builds it: `None` where the pattern does not compile within the budget,
/// else whether a match starts anywhere in the text.
#[verifier::external_body]
fn search_bounded(pattern: &str, text: &str) -> (r: Option<bool>)
    ensures
        r == if compiles_within_budget(pattern@) {
            Some(finds_match(pattern@, text@))
        } else {
            None::<bool>
        },
{
    let built = regex::RegexBuilder::new(pattern).size_limit(COMPILED_SIZE_LIMIT).build();
    match built {
        Ok(re) => Some(re.find(text).is_some()),
        Err(_) => None,
    }
}

/// Why a pattern is refused when a rule is written.
#[derive(PartialEq, Eq, Structural, Debug, Clone, Copy)]
pub enum PatternError {
    TooLong,
    TooLarge,
}

/// The verdict on a pattern of `len` characters that does or does not
/// compile within the budget; length is judged first.
pub open spec fn pattern_verdict(len: nat, compiles: bool) -> Result<(), PatternError> {
    if len > MAX_PATTERN_CHARS {
        Err(PatternError::TooLong)
    } else if !compiles {
        Err(PatternError::TooLarge)
    } else {
        Ok(())
    }
}

/// Whether a pattern source may be stored in a rule.
pub open spec fn pattern_check(pattern: Seq<char>) -> Result<(), PatternError> {
    pattern_verdict(pattern.len(), compiles_within_budget(pattern))
}

/// Judges a pattern from its length and the outcome of compiling it.
pub fn judge_pattern(len: usize, compiles: bool) -> (r: Result<(), PatternError>)
    ensures
        r == pattern_verdict(len as nat, compiles),
{
    if len > MAX_PATTERN_CHARS {
        Err(PatternError::TooLong)
    } else if !compiles {
        Err(PatternError::TooLarge)
    } else {
        Ok(())
    }
}

/// Checks a pattern before it is stored: at most `MAX_PATTERN_CHARS`
/// characters, and compiling within `COMPILED_SIZE_LIMIT`.
pub fn validate_pattern(pattern: &str) -> (r: Result<(), PatternError>)
    ensures
        r == pattern_check(pattern@),
{
    let len = pattern.unicode_len();
    if len > MAX_PATTERN_CHARS {
        return Err(PatternError::TooLong);
    }
    let compiled = build_bounded(pattern);
    judge_pattern(len, compiled.is_ok())
}

/// Whether a message with `text` passes the filter of an optional pattern.
pub open spec fn filter_passes(pattern: Option<String>, text: Seq<char>) -> bool {
    match pattern {
        None => true,
        Some(p) => compiles_within_budget(p@) && finds_match(p@, text),
    }
}

/// The filter's verdict from the outcome of a bounded search: a pattern that
/// fails to compile lets nothing pass.
pub fn search_verdict(search: Option<bool>) -> (r: bool)
    ensures
        r == (search == Some(true)),
{
    match search {
        Some(found) => found,
        None => false,
    }
}

/// The content filter: no pattern passes everything; a pattern passes a text
/// in which it matches somewhere, unanchored.
pub fn passes(rule: &ResolvedRule, text: &str) -> (r: bool)
    ensures
        r == filter_passes(rule.content_pattern, text@),
{
    match &rule.content_pattern {
        None => true,
        Some(p) => search_verdict(search_bounded(p.as_str(), text)),
    }
}

} // verus!
