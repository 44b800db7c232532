//! Shell-style wildcard matching of ignore patterns against relative paths.

use vstd::prelude::*;

verus! {

/// A shell-style wildcard match of the pattern `p` against the whole of the
/// text `t`: `*` matches any sequence of characters (possibly empty), `?`
/// matches exactly one character, and every other character matches only
/// itself. Matching is case-sensitive.
pub open spec fn wild_matches(p: Seq<char>, t: Seq<char>) -> bool
    decreases p.len(), t.len(),
{
    if p.len() == 0 {
        t.len() == 0
    } else if p[0] == '*' {
        wild_matches(p.skip(1), t) || (t.len() > 0 && wild_matches(p, t.skip(1)))
    } else {
        t.len() > 0 && (p[0] == '?' || p[0] == t[0]) && wild_matches(p.skip(1), t.skip(1))
    }
}

/// Relies on wildmatch::WildMatch::new and WildMatch::matches: `?` matches
/// exactly one occurrence of any character, `*` matches arbitrarily many
/// (including zero) occurrences of any character, matching is case-sensitive
/// and must cover the entirety of the text. `new` only prepares the pattern
/// (collapsing runs of `*`, which changes nothing about what matches).
#[verifier::external_body]
pub(crate) fn wild_match(pattern: &str, text: &str) -> (r: bool)
    ensures
        r == wild_matches(pattern@, text@),
{
    wildmatch::WildMatch::new(pattern).matches(text)
}

/// Every string, read as a pattern, matches itself as a text: a literal
/// character matches itself, `?` matches the one character it stands on,
/// and `*` can match exactly the one character it stands on.
pub proof fn lemma_wild_self_match(s: Seq<char>)
    ensures
        wild_matches(s, s),
    decreases s.len(),
{
    if s.len() == 0 {
    } else {
        lemma_wild_self_match(s.skip(1));
        if s[0] == '*' {
            // `*` consumes s[0]; the remaining pattern `s.skip(1)` then
            // matches the remaining text `s.skip(1)` after the star
            // consumes nothing more.
            assert(wild_matches(s, s.skip(1)));
        }
    }
}

} // verus!
