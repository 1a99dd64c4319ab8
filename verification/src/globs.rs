//! Shell patterns for file names.
use vstd::prelude::*;

verus! {

/// A compiled shell pattern.
#[verifier::external_type_specification]
#[verifier::external_body]
pub struct ExPattern(glob::Pattern);

/// The text that a pattern was compiled from.
pub uninterp spec fn pattern_text(p: glob::Pattern) -> Seq<char>;

/// `glob::Pattern::new` accepts the text.
pub uninterp spec fn is_pattern(text: Seq<char>) -> bool;

/// `glob::Pattern::matches` says that the pattern with this text matches, where
/// `/` alone separates the parts of a path.
pub uninterp spec fn glob_match(pattern: Seq<char>, text: Seq<char>) -> bool;

/// `glob::Pattern::new`: a pattern keeps the text it was compiled from; whether
/// a text is a pattern depends on the text alone.
#[verifier::external_body]
pub(crate) fn glob_compile(text: &str) -> (r: Option<glob::Pattern>)
    ensures
        r is Some == is_pattern(text@),
        r matches Some(p) ==> pattern_text(p) == text@,
{
    glob::Pattern::new(text).ok()
}

/// `glob::Pattern::matches`, with the crate's own options: the verdict depends
/// on the pattern's text and the text that is matched.
#[verifier::external_body]
pub(crate) fn glob_matches(p: &glob::Pattern, text: &str) -> (r: bool)
    ensures
        r == glob_match(pattern_text(*p), text@),
{
    p.matches(text)
}

} // verus!
