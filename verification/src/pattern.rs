//! Searching text with the `regex` crate. The patterns are this library's; the
//! matching is the crate's, and what it returns is taken on trust here.
//!
//! A pattern is compiled once, when the stage that searches with it is made,
//! and kept with the text it was compiled from.

use vstd::prelude::*;
use crate::text::{bytes_of, cuttable};

verus! {

#[verifier::external_type_specification]
#[verifier::external_body]
pub struct ExRegex(regex::Regex);

/// The byte spans of one match in a haystack: the whole match and its first
/// four capture groups. A group that took no part in the match is `None`.
#[derive(Clone, Copy, Debug)]
pub struct GroupSpans {
    pub whole: Option<(usize, usize)>,
    pub first: Option<(usize, usize)>,
    pub second: Option<(usize, usize)>,
    pub third: Option<(usize, usize)>,
    pub fourth: Option<(usize, usize)>,
}

/// A pattern compiled for searching, together with the text it was compiled
/// from. It is made by `compile` and by nothing else.
pub struct Pattern {
    source: String,
    compiled: regex::Regex,
}

impl Pattern {
    /// The text that the pattern was compiled from.
    pub closed spec fn source(&self) -> Seq<char> {
        self.source@
    }
}

/// Whether `regex::Regex::new` accepts `pattern`.
pub uninterp spec fn pattern_compiles(pattern: Seq<char>) -> bool;

/// What `regex::Regex::captures_iter` yields for `haystack` under `pattern`,
/// one entry per successive non-overlapping match. It is of use only where
/// `pattern` compiles.
pub uninterp spec fn pattern_captures(pattern: Seq<char>, haystack: Seq<char>) -> Seq<GroupSpans>;

/// The text that the group named `group` holds in the first match that
/// `regex::Regex::captures` finds in `haystack` under `pattern`; `None` where
/// nothing matches or no group of that name took part in the match.
pub uninterp spec fn pattern_group_text(
    pattern: Seq<char>,
    haystack: Seq<char>,
    group: Seq<char>,
) -> Option<Seq<char>>;

/// The pieces that `regex::Regex::split` cuts `haystack` into at the matches
/// of `pattern`.
pub uninterp spec fn pattern_split(pattern: Seq<char>, haystack: Seq<char>) -> Seq<Seq<char>>;

/// Whether `regex::Regex::is_match` finds `pattern` anywhere in `haystack`.
pub uninterp spec fn pattern_is_match(pattern: Seq<char>, haystack: Seq<char>) -> bool;

/// Whether `slot` holds what compiling `source` gives: the compiled pattern
/// where `source` compiles, and nothing where it does not.
pub open spec fn holds(slot: Option<Pattern>, source: Seq<char>) -> bool {
    &&& slot is Some <==> pattern_compiles(source)
    &&& slot matches Some(pattern) ==> pattern.source() == source
}

/// The matches of `pattern` in `haystack`; `None` where `pattern` does not
/// compile.
pub open spec fn captures_under(pattern: Seq<char>, haystack: Seq<char>) -> Option<
    Seq<GroupSpans>,
> {
    if pattern_compiles(pattern) {
        Some(pattern_captures(pattern, haystack))
    } else {
        None
    }
}

/// The text of the group `group` in the first match of `pattern` in
/// `haystack`; `None` where there is none or `pattern` does not compile.
pub open spec fn group_text_under(
    pattern: Seq<char>,
    haystack: Seq<char>,
    group: Seq<char>,
) -> Option<Seq<char>> {
    if pattern_compiles(pattern) {
        pattern_group_text(pattern, haystack, group)
    } else {
        None
    }
}

/// The pieces of `haystack` between the matches of `pattern`; `None` where
/// `pattern` does not compile.
pub open spec fn split_under(pattern: Seq<char>, haystack: Seq<char>) -> Option<Seq<Seq<char>>> {
    if pattern_compiles(pattern) {
        Some(pattern_split(pattern, haystack))
    } else {
        None
    }
}

/// Whether `pattern` matches anywhere in `haystack`; `None` where `pattern`
/// does not compile.
pub open spec fn is_match_under(pattern: Seq<char>, haystack: Seq<char>) -> Option<bool> {
    if pattern_compiles(pattern) {
        Some(pattern_is_match(pattern, haystack))
    } else {
        None
    }
}

/// Whether a span, where there is one, can be cut out of a text of `bytes`.
pub open spec fn span_placed(bytes: Seq<u8>, span: Option<(usize, usize)>) -> bool {
    span matches Some((start, end)) ==> cuttable(bytes, start, end)
}

/// Whether every span of the match `found` can be cut out of `haystack`: it
/// lies within the haystack, its start is not behind its end, and both stand
/// between characters.
pub open spec fn placed(haystack: Seq<char>, found: GroupSpans) -> bool {
    &&& span_placed(bytes_of(haystack), found.whole)
    &&& span_placed(bytes_of(haystack), found.first)
    &&& span_placed(bytes_of(haystack), found.second)
    &&& span_placed(bytes_of(haystack), found.third)
    &&& span_placed(bytes_of(haystack), found.fourth)
}

/// Calls `regex::Regex::new`. Trusted: a pattern comes back exactly where
/// the crate accepts `source`, and it is the one compiled from `source`.
#[verifier::external_body]
pub(crate) fn compile(source: &str) -> (slot: Option<Pattern>)
    ensures
        slot is Some <==> pattern_compiles(source@),
        slot matches Some(pattern) ==> pattern.source() == source@,
{
    regex::Regex::new(source).ok().map(
        |compiled| Pattern { source: source.to_string(), compiled },
    )
}

/// Calls `regex::Regex::captures_iter`. Trusted: the result is what the
/// crate reports, each match reduced to the byte offsets (`Match::start`,
/// `Match::end`) of groups 0 to 4; and, as the crate documents of every
/// `Match`, each span has its start before or at its end, lies within the
/// haystack and falls on character boundaries. Nothing is claimed about
/// which matches exist.
#[verifier::external_body]
pub(crate) fn find_captures(pattern: &Pattern, haystack: &str) -> (found: Vec<GroupSpans>)
    ensures
        found@ == pattern_captures(pattern.source(), haystack@),
        forall|i: int| 0 <= i < found@.len() ==> placed(haystack@, #[trigger] found@[i]),
{
    let span = |c: &regex::Captures, i: usize| c.get(i).map(|m| (m.start(), m.end()));
    pattern.compiled.captures_iter(haystack).map(
        |c|
            GroupSpans {
                whole: span(&c, 0),
                first: span(&c, 1),
                second: span(&c, 2),
                third: span(&c, 3),
                fourth: span(&c, 4),
            },
    ).collect()
}

/// Calls `regex::Regex::captures` and `Captures::name`. Trusted: the result
/// is the text of the named group in the first match, as the crate reports
/// it.
#[verifier::external_body]
pub(crate) fn find_group_text(pattern: &Pattern, haystack: &str, group: &str) -> (found: Option<
    String,
>)
    ensures
        found.deep_view() == pattern_group_text(pattern.source(), haystack@, group@),
{
    pattern.compiled.captures(haystack)?.name(group).map(|m| m.as_str().to_string())
}

/// Calls `regex::Regex::split`. Trusted: the result is the list of pieces
/// between matches, in order, as the crate yields them.
#[verifier::external_body]
pub(crate) fn split_text(pattern: &Pattern, haystack: &str) -> (pieces: Vec<String>)
    ensures
        pieces.deep_view() == pattern_split(pattern.source(), haystack@),
{
    pattern.compiled.split(haystack).map(|piece| piece.to_string()).collect()
}

/// Calls `regex::Regex::is_match`. Trusted: the result is the crate's
/// answer.
#[verifier::external_body]
pub(crate) fn matches_pattern(pattern: &Pattern, haystack: &str) -> (found: bool)
    ensures
        found == pattern_is_match(pattern.source(), haystack@),
{
    pattern.compiled.is_match(haystack)
}

} // verus!
