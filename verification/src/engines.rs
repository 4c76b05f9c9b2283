//! The two pattern engines that the strategies `Glob` and `Regex` hand their
//! work to. Nothing here is proved: each function below states what the
//! engine's own documentation and source say of it.

use vstd::prelude::*;

verus! {

#[verifier::external_type_specification]
#[verifier::external_body]
pub struct ExPatternError(glob::PatternError);

#[verifier::external_type_specification]
#[verifier::external_body]
pub struct ExRegexError(regex::Error);

/// Whether `glob::Pattern::new` takes `pattern` as a well-formed shell
/// pattern.
pub uninterp spec fn glob_compiles(pattern: Seq<char>) -> bool;

/// What `glob::Pattern::matches` answers for `item`, asked of the pattern
/// that `glob::Pattern::new` compiled from `pattern`.
pub uninterp spec fn glob_accepts(pattern: Seq<char>, item: Seq<char>) -> bool;

/// Whether `regex::Regex::new` takes `pattern` as a regular expression that
/// it can compile within its default size limit.
pub uninterp spec fn regex_compiles(pattern: Seq<char>) -> bool;

/// What `regex::Regex::is_match` answers for `item`, asked of the expression
/// that `regex::Regex::new` compiled from `pattern`.
pub uninterp spec fn regex_finds(pattern: Seq<char>, item: Seq<char>) -> bool;

/// Compiles `pattern` with `glob::Pattern::new` and asks the compiled pattern
/// `glob::Pattern::matches` of `item`, with the engine's default options.
///
/// Believed, not proved: the call fails exactly on the patterns that the
/// engine refuses, and both steps depend on the two texts alone. Which
/// characters the engine takes for path separators is fixed when the engine
/// is built, so the two names stand for one build of it.
#[verifier::external_body]
pub(crate) fn glob_try(pattern: &str, item: &str) -> (r: Result<bool, glob::PatternError>)
    ensures
        r is Ok <==> glob_compiles(pattern@),
        r matches Ok(found) ==> found == glob_accepts(pattern@, item@),
{
    let compiled = glob::Pattern::new(pattern)?;
    Ok(compiled.matches(item))
}

/// Compiles `pattern` with `regex::Regex::new` and asks the compiled
/// expression `regex::Regex::is_match` of `item`: a search anywhere in the
/// text, not anchored at either end.
///
/// Believed, not proved: the call fails exactly on the expressions that the
/// engine refuses, and both steps depend on the two texts alone.
#[verifier::external_body]
pub(crate) fn regex_try(pattern: &str, item: &str) -> (r: Result<bool, regex::Error>)
    ensures
        r is Ok <==> regex_compiles(pattern@),
        r matches Ok(found) ==> found == regex_finds(pattern@, item@),
{
    let compiled = regex::Regex::new(pattern)?;
    Ok(compiled.is_match(item))
}

} // verus!
