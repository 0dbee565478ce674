//! The transform that finds clock times in a paragraph.
//!
//! Two forms are recognised, in upper or lower case: a number before
//! `o'clock`, and hours and minutes before `a` or `p`. The first form does
//! not say which half of the day is meant, so it yields both readings. The
//! pattern is compiled once, when the filter is made.

use vstd::prelude::*;
use crate::paragraph_info::ParagraphInfo;
use crate::pattern::{
    captures_under,
    compile,
    find_captures,
    holds,
    pattern_compiles,
    placed,
    GroupSpans,
    Pattern,
};
use crate::pipeline::{PipelineIntermediateStage, PipelineStep};
use crate::text::{bytes_of, lemma_parsed_number_nonnegative, parse_number, parsed_number};

verus! {

/// The two forms of a clock time. Group 1 is the hour of the `o'clock`
/// form; groups 2, 3 and 4 are the hour, the minute and the half-day letter
/// of the digital form.
pub const TIME_PATTERN: &'static str =
    r"(?i)(?:(\d{1,2}) ?o'clock)|(?:(\d{1,2}):(\d{2}) ?([ap])(?:m|\.m\.)?)";

/// One clock time read from a paragraph.
#[derive(Clone, Copy, Debug)]
pub struct Mention {
    /// Where the expression stands in the text, in bytes.
    pub span: (usize, usize),
    pub hour: i32,
    pub minute: i32,
    /// Whether the expression leaves the half of the day open.
    pub ambiguous: bool,
}

/// Whether `span` is a range of positions in `bytes`.
pub open spec fn within(bytes: Seq<u8>, span: (usize, usize)) -> bool {
    span.0 <= span.1 <= bytes.len()
}

/// The number written at `span` of `bytes`, where the span lies within
/// them and holds a number.
pub open spec fn number_at(bytes: Seq<u8>, span: (usize, usize)) -> Option<i32> {
    if within(bytes, span) {
        parsed_number(bytes.subrange(span.0 as int, span.1 as int))
    } else {
        None
    }
}

/// Whether `span` of `bytes` holds exactly the letter `p`, in lower or in
/// upper case.
pub open spec fn marks_afternoon(bytes: Seq<u8>, span: Option<(usize, usize)>) -> bool {
    span matches Some((start, end)) && start + 1 == end && end <= bytes.len() && (bytes[start as int]
        == 112 || bytes[start as int] == 80)
}

/// The other reading of an hour that leaves the half of the day open.
pub open spec fn other_half(hour: i32) -> i32 {
    ((hour + 12) % 24) as i32
}

/// Whether `span` lies inside `whole`.
pub open spec fn inside(whole: (usize, usize), span: (usize, usize)) -> bool {
    whole.0 <= span.0 && span.0 <= span.1 && span.1 <= whole.1
}

/// Whether `span`, where there is one, lies inside `whole`.
pub open spec fn holds_span(whole: (usize, usize), span: Option<(usize, usize)>) -> bool {
    span matches Some(span) ==> inside(whole, span)
}

/// Whether the match `found` with the hour at `hour_span` has the shape of
/// a match: its whole span is not empty and lies within `bytes`, and the
/// spans of its hour, minute and half-day letter lie inside the whole.
pub open spec fn well_shaped(bytes: Seq<u8>, found: GroupSpans, hour_span: (usize, usize)) -> bool {
    &&& found.whole matches Some(whole)
    &&& whole.0 < whole.1 <= bytes.len()
    &&& inside(whole, hour_span)
    &&& holds_span(whole, found.third)
    &&& holds_span(whole, found.fourth)
}

/// The clock time that the match `found` in a text of `bytes` stands for,
/// if it stands for one.
///
/// The hour is that of the `o'clock` form where present, else that of the
/// digital form; the minute is that of the digital form, else zero. A match
/// without a readable hour or minute, with an hour above 24 or a minute
/// above 59, with an empty span or a span outside the text, or with an
/// hour, a minute or a half-day letter outside its span stands for none.
/// Twelve is added to the hour where the half-day letter is a `p`, in
/// either case.
pub open spec fn mention_of(bytes: Seq<u8>, found: GroupSpans) -> Option<Mention> {
    let hour_span = if found.first is Some {
        found.first
    } else {
        found.second
    };
    if found.whole is None || hour_span is None {
        None
    } else if !well_shaped(bytes, found, hour_span->0) {
        None
    } else {
        let hour = number_at(bytes, hour_span->0);
        let minute = match found.third {
            Some(span) => number_at(bytes, span),
            None => Some(0i32),
        };
        if hour is None || minute is None {
            None
        } else if hour->0 > 24 || minute->0 >= 60 {
            None
        } else {
            Some(
                Mention {
                    span: found.whole->0,
                    hour: if marks_afternoon(bytes, found.fourth) {
                        (hour->0 + 12) as i32
                    } else {
                        hour->0
                    },
                    minute: minute->0,
                    ambiguous: found.first is Some,
                },
            )
        }
    }
}

/// The records that one match yields: a copy of `input` marked with the
/// span and the time, and for an ambiguous time a second copy with the
/// other half of the day, on the same span.
pub open spec fn emitted(input: ParagraphInfo, found: GroupSpans) -> Seq<ParagraphInfo> {
    match mention_of(bytes_of(input.text@), found) {
        None => Seq::empty(),
        Some(m) => if m.ambiguous {
            seq![
                input.marked_with(m.span, (m.hour, m.minute)),
                input.marked_with(m.span, (other_half(m.hour), m.minute)),
            ]
        } else {
            seq![input.marked_with(m.span, (m.hour, m.minute))]
        },
    }
}

/// The records that the matches `found` yield, match by match.
pub open spec fn emitted_all(input: ParagraphInfo, found: Seq<GroupSpans>) -> Seq<ParagraphInfo>
    decreases found.len(),
{
    if found.len() == 0 {
        Seq::empty()
    } else {
        emitted_all(input, found.drop_last()) + emitted(input, found.last())
    }
}

/// The records that a paragraph yields, given the matches found in its
/// text; none where nothing could be searched.
pub open spec fn mentions_among(input: ParagraphInfo, found: Option<Seq<GroupSpans>>) -> Seq<
    ParagraphInfo,
> {
    match found {
        Some(found) => emitted_all(input, found),
        None => Seq::empty(),
    }
}

/// The records that the paragraph `input` yields: those of all the
/// non-overlapping matches of the pattern in its text.
pub open spec fn mentions(input: ParagraphInfo) -> Seq<ParagraphInfo> {
    mentions_among(input, captures_under(TIME_PATTERN@, input.text@))
}

/// The matches in `found`, as a sequence.
pub open spec fn matches_of(found: Option<Vec<GroupSpans>>) -> Option<Seq<GroupSpans>> {
    match found {
        Some(found) => Some(found@),
        None => None,
    }
}

/// Emits, for each clock time found in a paragraph, a copy of the record
/// with the span and the time set.
pub struct ParagraphTimeFilter {
    pattern: Option<Pattern>,
}

impl ParagraphTimeFilter {
    #[verifier::type_invariant]
    spec fn compiled(self) -> bool {
        holds(self.pattern, TIME_PATTERN@)
    }

    /// Whether the filter holds the compiled pattern of clock times, or
    /// nothing where that pattern does not compile.
    pub closed spec fn ready(&self) -> bool {
        holds(self.pattern, TIME_PATTERN@)
    }

    /// A filter with the pattern of clock times compiled.
    pub fn new() -> (filter: Self)
        ensures
            filter.ready(),
    {
        ParagraphTimeFilter { pattern: compile(TIME_PATTERN) }
    }

    /// Whether the pattern of clock times compiled. A filter without it
    /// finds nothing.
    pub fn is_compiled(&self) -> (compiled: bool)
        ensures
            compiled == pattern_compiles(TIME_PATTERN@),
    {
        proof {
            use_type_invariant(self);
        }
        self.pattern.is_some()
    }

    /// Whether `span`, where there is one, lies inside `whole`.
    fn lies_inside(whole: (usize, usize), span: Option<(usize, usize)>) -> (inside: bool)
        ensures
            inside == holds_span(whole, span),
    {
        match span {
            Some(span) => whole.0 <= span.0 && span.0 <= span.1 && span.1 <= whole.1,
            None => true,
        }
    }

    /// Reads the number at `span` of `bytes`.
    fn read_number(bytes: &[u8], span: (usize, usize)) -> (value: Option<i32>)
        ensures
            value == number_at(bytes@, span),
    {
        if span.0 <= span.1 && span.1 <= bytes.len() {
            parse_number(bytes, span.0, span.1)
        } else {
            None
        }
    }

    /// Reads the clock time that one match stands for.
    pub fn read_mention(bytes: &[u8], found: &GroupSpans) -> (mention: Option<Mention>)
        ensures
            mention == mention_of(bytes@, *found),
    {
        proof {
            lemma_mention_bounds(bytes@, *found);
        }
        let hour_span = if found.first.is_some() {
            found.first
        } else {
            found.second
        };
        let (whole, hour_span) = match (found.whole, hour_span) {
            (Some(whole), Some(hour_span)) => (whole, hour_span),
            _ => { return None; },
        };
        if !(whole.0 < whole.1 && whole.1 <= bytes.len()) {
            return None;
        }
        if !Self::lies_inside(whole, Some(hour_span)) || !Self::lies_inside(whole, found.third)
            || !Self::lies_inside(whole, found.fourth) {
            return None;
        }
        let hour = Self::read_number(bytes, hour_span);
        let minute = match found.third {
            Some(span) => Self::read_number(bytes, span),
            None => Some(0),
        };
        let (hour, minute) = match (hour, minute) {
            (Some(hour), Some(minute)) => (hour, minute),
            _ => { return None; },
        };
        if hour > 24 || minute >= 60 {
            return None;
        }
        let afternoon = match found.fourth {
            Some((start, end)) => start < end && end - start == 1 && end <= bytes.len() && (
            bytes[start] == 112 || bytes[start] == 80),
            None => false,
        };
        let hour: i32 = if afternoon {
            hour + 12
        } else {
            hour
        };
        Some(Mention { span: whole, hour, minute, ambiguous: found.first.is_some() })
    }

    /// The records that the matches `found` in the text of `input` yield.
    pub fn mentions_in(input: &ParagraphInfo, found: &Option<Vec<GroupSpans>>) -> (out: Vec<
        ParagraphInfo,
    >)
        ensures
            out@ == mentions_among(*input, matches_of(*found)),
    {
        let bytes = input.text.as_str().as_bytes();
        let mut out: Vec<ParagraphInfo> = Vec::new();
        let found = match found {
            Some(found) => found,
            None => { return out; },
        };
        let mut i: usize = 0;
        while i < found.len()
            invariant
                i <= found.len(),
                bytes@ == bytes_of(input.text@),
                out@ == emitted_all(*input, found@.take(i as int)),
            decreases found.len() - i,
        {
            proof {
                let before = found@.take(i as int);
                let after = found@.take(i + 1);
                assert(after.drop_last() =~= before);
                assert(after.last() == found@[i as int]);
            }
            let ghost earlier = out@;
            proof {
                lemma_mention_bounds(bytes@, found@[i as int]);
            }
            match Self::read_mention(bytes, &found[i]) {
                Some(m) => {
                    out.push(input.with_mark(m.span, (m.hour, m.minute)));
                    if m.ambiguous {
                        out.push(input.with_mark(m.span, ((m.hour + 12) % 24, m.minute)));
                    }
                },
                None => {},
            }
            assert(out@ =~= earlier + emitted(*input, found@[i as int]));
            i = i + 1;
        }
        proof {
            assert(found@.take(found.len() as int) =~= found@);
        }
        out
    }
}

impl PipelineIntermediateStage<ParagraphInfo> for ParagraphTimeFilter {
    open spec fn outputs(&self, input: ParagraphInfo) -> Seq<ParagraphInfo> {
        mentions(input)
    }

    open spec fn yields(&self, output: ParagraphInfo) -> bool {
        output@.showable() && output@.spans_text()
    }

    open spec fn stepped(&self, before: &Self, input: ParagraphInfo) -> bool {
        true
    }

    open spec fn input_buffer_size(&self) -> usize {
        32
    }

    fn execute(&mut self, input: ParagraphInfo) -> (out: Vec<ParagraphInfo>) {
        proof {
            use_type_invariant(&*self);
        }
        let found = match &self.pattern {
            Some(pattern) => Some(find_captures(pattern, input.text.as_str())),
            None => None,
        };
        let out = Self::mentions_in(&input, &found);
        proof {
            assert forall|i: int| 0 <= i < out@.len() implies (#[trigger] out@[i])@.showable()
                && out@[i]@.spans_text() by {
                lemma_placed_mentions_can_be_cut(input, found->0@, i);
            }
        }
        out
    }

    fn get_input_buffer_size(&self) -> (size: usize) {
        32
    }
}

impl PipelineStep<ParagraphInfo> for ParagraphTimeFilter {

}

/// Where every span of every match can be cut out of the text, every record
/// that the matches yield can be shown, and its span is not empty.
pub proof fn lemma_placed_mentions_can_be_cut(
    input: ParagraphInfo,
    found: Seq<GroupSpans>,
    i: int,
)
    requires
        forall|k: int| 0 <= k < found.len() ==> placed(input.text@, #[trigger] found[k]),
        0 <= i < emitted_all(input, found).len(),
    ensures
        emitted_all(input, found)[i]@.showable(),
        emitted_all(input, found)[i]@.spans_text(),
    decreases found.len(),
{
    let earlier = emitted_all(input, found.drop_last());
    if i < earlier.len() {
        assert forall|k: int| 0 <= k < found.drop_last().len() implies placed(
            input.text@,
            #[trigger] found.drop_last()[k],
        ) by {
            assert(found.drop_last()[k] == found[k]);
        }
        lemma_placed_mentions_can_be_cut(input, found.drop_last(), i);
    } else {
        assert(placed(input.text@, found[found.len() - 1]));
    }
}

/// A clock time read from a match has its span within the text, an hour
/// from 0 to 36 and a minute from 0 to 59; an hour that leaves the half of
/// the day open is at most 24.
pub proof fn lemma_mention_bounds(bytes: Seq<u8>, found: GroupSpans)
    ensures
        mention_of(bytes, found) matches Some(m) ==> {
            &&& within(bytes, m.span)
            &&& m.span.0 < m.span.1
            &&& 0 <= m.hour <= 36
            &&& 0 <= m.minute <= 59
            &&& !marks_afternoon(bytes, found.fourth) ==> m.hour <= 24
            &&& 0 <= other_half(m.hour) <= 23
        },
{
    let hour_span = if found.first is Some {
        found.first
    } else {
        found.second
    };
    match hour_span {
        Some(span) => lemma_parsed_number_nonnegative(bytes.subrange(span.0 as int, span.1 as int)),
        None => {},
    }
    match found.third {
        Some(span) => lemma_parsed_number_nonnegative(bytes.subrange(span.0 as int, span.1 as int)),
        None => {},
    }
}

/// Every record that a match yields carries a time and a span that is not
/// empty, both within their bounds, and is otherwise the record that came
/// in.
pub proof fn lemma_emitted_is_marked(input: ParagraphInfo, found: GroupSpans, i: int)
    requires
        0 <= i < emitted(input, found).len(),
    ensures
        emitted(input, found)[i]@.marked(),
        emitted(input, found)[i]@.spans_text(),
        emitted(input, found)[i].wf(),
        emitted(input, found)[i].text == input.text,
        emitted(input, found)[i].book == input.book,
        emitted(input, found)[i].author == input.author,
{
    lemma_mention_bounds(bytes_of(input.text@), found);
}

/// Every record that the time filter hands on carries both a span and a
/// time, never just one, and keeps the text, book and author it came with.
pub proof fn lemma_mentions_are_marked(input: ParagraphInfo, found: Seq<GroupSpans>, i: int)
    requires
        0 <= i < emitted_all(input, found).len(),
    ensures
        emitted_all(input, found)[i]@.marked(),
        emitted_all(input, found)[i]@.spans_text(),
        emitted_all(input, found)[i].wf(),
        emitted_all(input, found)[i].text == input.text,
        emitted_all(input, found)[i].book == input.book,
        emitted_all(input, found)[i].author == input.author,
    decreases found.len(),
{
    let earlier = emitted_all(input, found.drop_last());
    if i < earlier.len() {
        lemma_mentions_are_marked(input, found.drop_last(), i);
    } else {
        lemma_emitted_is_marked(input, found.last(), i - earlier.len());
    }
}

/// A time that leaves the half of the day open yields exactly two records
/// on the same span, twelve hours apart on the clock; any other time yields
/// exactly one; a match that stands for no time yields none.
pub proof fn lemma_emitted_count(input: ParagraphInfo, found: GroupSpans)
    ensures
        mention_of(bytes_of(input.text@), found) is None ==> emitted(input, found).len() == 0,
        mention_of(bytes_of(input.text@), found) matches Some(m) ==> {
            &&& m.ambiguous ==> emitted(input, found).len() == 2 && emitted(input, found)[0].section
                == emitted(input, found)[1].section
            &&& !m.ambiguous ==> emitted(input, found).len() == 1
            &&& emitted(input, found)[0].section == Some(m.span)
            &&& emitted(input, found)[0].time == Some((m.hour, m.minute))
        },
{
}

/// A match whose hour is above 24 or whose minute is above 59 yields no
/// record, and neither does one whose hour or minute cannot be read.
pub proof fn lemma_unreadable_or_out_of_range_is_skipped(input: ParagraphInfo, found: GroupSpans)
    requires
        ({
            let bytes = bytes_of(input.text@);
            let hour_span = if found.first is Some {
                found.first
            } else {
                found.second
            };
            ||| hour_span is None
            ||| number_at(bytes, hour_span->0) is None
            ||| number_at(bytes, hour_span->0) matches Some(hour) && hour > 24
            ||| found.third matches Some(span) && number_at(bytes, span) is None
            ||| found.third matches Some(span) && number_at(bytes, span) matches Some(minute)
                && minute >= 60
        }),
    ensures
        emitted(input, found).len() == 0,
{
}

} // verus!
