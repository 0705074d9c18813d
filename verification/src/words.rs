//! The lexical resources: a fixed set of common English stop words and a
//! small set of extra tokens to ignore in URL paths, with executable
//! membership tests proved against the spec-level sets.

use vstd::prelude::*;

use crate::text::str_eq;

verus! {

/// Membership in the stop-word set: common English words that carry too
/// little meaning to serve as keywords. All entries are lowercase.
pub open spec fn is_stop_word(w: Seq<char>) -> bool {
    ||| w == "a"@
    ||| w == "about"@
    ||| w == "above"@
    ||| w == "after"@
    ||| w == "again"@
    ||| w == "against"@
    ||| w == "all"@
    ||| w == "am"@
    ||| w == "an"@
    ||| w == "and"@
    ||| w == "any"@
    ||| w == "are"@
    ||| w == "as"@
    ||| w == "at"@
    ||| w == "be"@
    ||| w == "because"@
    ||| w == "been"@
    ||| w == "before"@
    ||| w == "being"@
    ||| w == "below"@
    ||| w == "between"@
    ||| w == "both"@
    ||| w == "but"@
    ||| w == "by"@
    ||| w == "could"@
    ||| w == "did"@
    ||| w == "do"@
    ||| w == "does"@
    ||| w == "doing"@
    ||| w == "down"@
    ||| w == "during"@
    ||| w == "each"@
    ||| w == "few"@
    ||| w == "for"@
    ||| w == "from"@
    ||| w == "further"@
    ||| w == "had"@
    ||| w == "has"@
    ||| w == "have"@
    ||| w == "having"@
    ||| w == "he"@
    ||| w == "her"@
    ||| w == "here"@
    ||| w == "hers"@
    ||| w == "herself"@
    ||| w == "him"@
    ||| w == "himself"@
    ||| w == "his"@
    ||| w == "how"@
    ||| w == "i"@
    ||| w == "if"@
    ||| w == "in"@
    ||| w == "into"@
    ||| w == "is"@
    ||| w == "it"@
    ||| w == "its"@
    ||| w == "itself"@
    ||| w == "me"@
    ||| w == "more"@
    ||| w == "most"@
    ||| w == "my"@
    ||| w == "myself"@
    ||| w == "no"@
    ||| w == "nor"@
    ||| w == "not"@
    ||| w == "of"@
    ||| w == "off"@
    ||| w == "on"@
    ||| w == "once"@
    ||| w == "only"@
    ||| w == "or"@
    ||| w == "other"@
    ||| w == "our"@
    ||| w == "ours"@
    ||| w == "ourselves"@
    ||| w == "out"@
    ||| w == "over"@
    ||| w == "own"@
    ||| w == "same"@
    ||| w == "she"@
    ||| w == "should"@
    ||| w == "so"@
    ||| w == "some"@
    ||| w == "such"@
    ||| w == "than"@
    ||| w == "that"@
    ||| w == "the"@
    ||| w == "their"@
    ||| w == "theirs"@
    ||| w == "them"@
    ||| w == "themselves"@
    ||| w == "then"@
    ||| w == "there"@
    ||| w == "these"@
    ||| w == "they"@
    ||| w == "this"@
    ||| w == "those"@
    ||| w == "through"@
    ||| w == "to"@
    ||| w == "too"@
    ||| w == "under"@
    ||| w == "until"@
    ||| w == "up"@
    ||| w == "very"@
    ||| w == "was"@
    ||| w == "we"@
    ||| w == "were"@
    ||| w == "what"@
    ||| w == "when"@
    ||| w == "where"@
    ||| w == "which"@
    ||| w == "while"@
    ||| w == "who"@
    ||| w == "whom"@
    ||| w == "why"@
    ||| w == "will"@
    ||| w == "with"@
    ||| w == "you"@
    ||| w == "your"@
    ||| w == "yours"@
    ||| w == "yourself"@
    ||| w == "yourselves"@
}

/// Membership in the ignore-word set: tokens excluded from URL path
/// keywords regardless of stop-word status.
pub open spec fn is_ignore_word(w: Seq<char>) -> bool {
    w == "www"@
}

/// Decide stop-word membership.
pub fn is_stop_word_exec(w: &str) -> (r: bool)
    ensures
        r == is_stop_word(w@),
{
    if str_eq(w, "a") {
        true
    } else if str_eq(w, "about") {
        true
    } else if str_eq(w, "above") {
        true
    } else if str_eq(w, "after") {
        true
    } else if str_eq(w, "again") {
        true
    } else if str_eq(w, "against") {
        true
    } else if str_eq(w, "all") {
        true
    } else if str_eq(w, "am") {
        true
    } else if str_eq(w, "an") {
        true
    } else if str_eq(w, "and") {
        true
    } else if str_eq(w, "any") {
        true
    } else if str_eq(w, "are") {
        true
    } else if str_eq(w, "as") {
        true
    } else if str_eq(w, "at") {
        true
    } else if str_eq(w, "be") {
        true
    } else if str_eq(w, "because") {
        true
    } else if str_eq(w, "been") {
        true
    } else if str_eq(w, "before") {
        true
    } else if str_eq(w, "being") {
        true
    } else if str_eq(w, "below") {
        true
    } else if str_eq(w, "between") {
        true
    } else if str_eq(w, "both") {
        true
    } else if str_eq(w, "but") {
        true
    } else if str_eq(w, "by") {
        true
    } else if str_eq(w, "could") {
        true
    } else if str_eq(w, "did") {
        true
    } else if str_eq(w, "do") {
        true
    } else if str_eq(w, "does") {
        true
    } else if str_eq(w, "doing") {
        true
    } else if str_eq(w, "down") {
        true
    } else if str_eq(w, "during") {
        true
    } else if str_eq(w, "each") {
        true
    } else if str_eq(w, "few") {
        true
    } else if str_eq(w, "for") {
        true
    } else if str_eq(w, "from") {
        true
    } else if str_eq(w, "further") {
        true
    } else if str_eq(w, "had") {
        true
    } else if str_eq(w, "has") {
        true
    } else if str_eq(w, "have") {
        true
    } else if str_eq(w, "having") {
        true
    } else if str_eq(w, "he") {
        true
    } else if str_eq(w, "her") {
        true
    } else if str_eq(w, "here") {
        true
    } else if str_eq(w, "hers") {
        true
    } else if str_eq(w, "herself") {
        true
    } else if str_eq(w, "him") {
        true
    } else if str_eq(w, "himself") {
        true
    } else if str_eq(w, "his") {
        true
    } else if str_eq(w, "how") {
        true
    } else if str_eq(w, "i") {
        true
    } else if str_eq(w, "if") {
        true
    } else if str_eq(w, "in") {
        true
    } else if str_eq(w, "into") {
        true
    } else if str_eq(w, "is") {
        true
    } else if str_eq(w, "it") {
        true
    } else if str_eq(w, "its") {
        true
    } else if str_eq(w, "itself") {
        true
    } else if str_eq(w, "me") {
        true
    } else if str_eq(w, "more") {
        true
    } else if str_eq(w, "most") {
        true
    } else if str_eq(w, "my") {
        true
    } else if str_eq(w, "myself") {
        true
    } else if str_eq(w, "no") {
        true
    } else if str_eq(w, "nor") {
        true
    } else if str_eq(w, "not") {
        true
    } else if str_eq(w, "of") {
        true
    } else if str_eq(w, "off") {
        true
    } else if str_eq(w, "on") {
        true
    } else if str_eq(w, "once") {
        true
    } else if str_eq(w, "only") {
        true
    } else if str_eq(w, "or") {
        true
    } else if str_eq(w, "other") {
        true
    } else if str_eq(w, "our") {
        true
    } else if str_eq(w, "ours") {
        true
    } else if str_eq(w, "ourselves") {
        true
    } else if str_eq(w, "out") {
        true
    } else if str_eq(w, "over") {
        true
    } else if str_eq(w, "own") {
        true
    } else if str_eq(w, "same") {
        true
    } else if str_eq(w, "she") {
        true
    } else if str_eq(w, "should") {
        true
    } else if str_eq(w, "so") {
        true
    } else if str_eq(w, "some") {
        true
    } else if str_eq(w, "such") {
        true
    } else if str_eq(w, "than") {
        true
    } else if str_eq(w, "that") {
        true
    } else if str_eq(w, "the") {
        true
    } else if str_eq(w, "their") {
        true
    } else if str_eq(w, "theirs") {
        true
    } else if str_eq(w, "them") {
        true
    } else if str_eq(w, "themselves") {
        true
    } else if str_eq(w, "then") {
        true
    } else if str_eq(w, "there") {
        true
    } else if str_eq(w, "these") {
        true
    } else if str_eq(w, "they") {
        true
    } else if str_eq(w, "this") {
        true
    } else if str_eq(w, "those") {
        true
    } else if str_eq(w, "through") {
        true
    } else if str_eq(w, "to") {
        true
    } else if str_eq(w, "too") {
        true
    } else if str_eq(w, "under") {
        true
    } else if str_eq(w, "until") {
        true
    } else if str_eq(w, "up") {
        true
    } else if str_eq(w, "very") {
        true
    } else if str_eq(w, "was") {
        true
    } else if str_eq(w, "we") {
        true
    } else if str_eq(w, "were") {
        true
    } else if str_eq(w, "what") {
        true
    } else if str_eq(w, "when") {
        true
    } else if str_eq(w, "where") {
        true
    } else if str_eq(w, "which") {
        true
    } else if str_eq(w, "while") {
        true
    } else if str_eq(w, "who") {
        true
    } else if str_eq(w, "whom") {
        true
    } else if str_eq(w, "why") {
        true
    } else if str_eq(w, "will") {
        true
    } else if str_eq(w, "with") {
        true
    } else if str_eq(w, "you") {
        true
    } else if str_eq(w, "your") {
        true
    } else if str_eq(w, "yours") {
        true
    } else if str_eq(w, "yourself") {
        true
    } else if str_eq(w, "yourselves") {
        true
    } else {
        false
    }
}

/// Decide ignore-word membership.
pub fn is_ignore_word_exec(w: &str) -> (r: bool)
    ensures
        r == is_ignore_word(w@),
{
    str_eq(w, "www")
}

} // verus!
