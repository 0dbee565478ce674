//! The reporter: it counts the records it sees by their hour and prepares
//! what is shown of each.
//!
//! It is given only records that can be shown: those with a time and a
//! span that can be cut out of the text. It writes nothing itself. Its caller shows the headline and the
//! highlighted text of each record as it arrives, and the summary once the
//! stream has ended.

use std::collections::HashMap;
use vstd::prelude::*;
use vstd::string::StringExecFns;
use vstd::utf8::{
    encode_utf8_valid_utf8,
    is_char_boundary,
    is_char_boundary_iff_not_is_continuation_byte,
    is_char_boundary_start_end_of_seq,
    valid_utf8,
    valid_utf8_split,
};
use crate::paragraph_info::ParagraphInfo;
use crate::pipeline::{
    PipelineConsumer,
    PipelineIntermediateStage,
    PipelineStageConsumer,
    PipelineStep,
};
use crate::text::{
    append_decimal,
    append_signed,
    append_two_wide,
    bytes_of,
    cuttable,
    decimal,
    signed_decimal,
    two_wide,
};

verus! {

/// The last hour that the summary lists; it lists every hour from 0 to it.
pub const LAST_HOUR: i32 = 24;

/// A count that has gone up by one, unless it is at the largest value it
/// can hold.
pub open spec fn bumped(count: nat) -> nat {
    if count < u64::MAX {
        count + 1
    } else {
        count
    }
}

/// A count that has gone up by `times`, or as far as it can.
pub open spec fn bumped_by(count: nat, times: nat) -> nat {
    if count + times <= u64::MAX {
        count + times
    } else {
        u64::MAX as nat
    }
}

/// How many of `records` carry a time with the hour `hour`.
pub open spec fn seen_in_hour(records: Seq<ParagraphInfo>, hour: i32) -> nat
    decreases records.len(),
{
    if records.len() == 0 {
        0
    } else {
        seen_in_hour(records.drop_last(), hour) + if records.last().time matches Some((h, _)) && h
            == hour {
            1nat
        } else {
            0nat
        }
    }
}

/// The line that introduces a record: author, book and time, the minute
/// two digits wide.
pub open spec fn headline_of(
    author: Seq<char>,
    book: Seq<char>,
    hour: i32,
    minute: i32,
) -> Seq<char> {
    author + " in "@ + book + " with time "@ + signed_decimal(hour as int) + ":"@ + two_wide(
        minute as int,
    ) + ":"@
}

/// One line of the summary: an hour and the number of records seen for it.
pub open spec fn summary_line(hour: i32, count: nat) -> Seq<char> {
    signed_decimal(hour as int) + ": "@ + decimal(count)
}

/// A position in the part of a text before a character boundary stands
/// between characters of that part exactly if it does so in the whole text.
pub proof fn lemma_boundary_of_prefix(bytes: Seq<u8>, start: int, end: int)
    requires
        valid_utf8(bytes),
        0 <= start <= end <= bytes.len(),
        is_char_boundary(bytes, end),
    ensures
        valid_utf8(bytes.subrange(0, end)),
        is_char_boundary(bytes.subrange(0, end), start) <==> is_char_boundary(bytes, start),
{
    let prefix = bytes.subrange(0, end);
    valid_utf8_split(bytes, end);
    if start == end {
        is_char_boundary_start_end_of_seq(prefix);
    } else {
        is_char_boundary_iff_not_is_continuation_byte(bytes, start);
        is_char_boundary_iff_not_is_continuation_byte(prefix, start);
        assert(prefix[start] == bytes[start]);
    }
}

/// Counts records by hour and forwards them unchanged.
pub struct ParagraphPrinter {
    times: HashMap<i32, u64>,
}

impl ParagraphPrinter {
    /// The number of records seen so far whose time has the hour `hour`.
    pub closed spec fn count(&self, hour: i32) -> nat {
        if self.times@.contains_key(hour) {
            self.times@[hour] as nat
        } else {
            0
        }
    }

    /// The counts after `record` has been seen: the count of its hour has
    /// gone up by one, and a record without a time changes nothing.
    pub open spec fn counted(&self, before: Self, record: ParagraphInfo) -> bool {
        forall|hour: i32|
            #[trigger] self.count(hour) == if record.time matches Some((h, _)) && h == hour {
                bumped(before.count(hour))
            } else {
                before.count(hour)
            }
    }

    /// A count never exceeds what the reporter can hold.
    pub proof fn lemma_count_fits(&self, hour: i32)
        ensures
            self.count(hour) <= u64::MAX,
    {
    }

    /// A reporter that has seen nothing.
    pub fn new() -> (printer: Self)
        ensures
            forall|hour: i32| #[trigger] printer.count(hour) == 0,
    {
        ParagraphPrinter { times: HashMap::new() }
    }

    /// The number of records seen so far for the hour `hour`.
    pub fn tally(&self, hour: i32) -> (count: u64)
        ensures
            count == self.count(hour),
    {
        match self.times.get(&hour) {
            Some(count) => *count,
            None => 0,
        }
    }

    /// Whether `record` can be shown: it carries a time, and a span that
    /// can be cut out of its text.
    pub fn is_showable(record: &ParagraphInfo) -> (showable: bool)
        ensures
            showable == record@.showable(),
    {
        let text = record.text.as_str();
        match (record.time, record.section) {
            (Some(_), Some((start, end))) => start <= end && end <= text.as_bytes().len()
                && text.is_char_boundary(start) && text.is_char_boundary(end),
            _ => false,
        }
    }

    /// Takes note of one record that can be shown.
    pub fn observe(&mut self, record: &ParagraphInfo)
        requires
            record@.showable(),
        ensures
            final(self).counted(*old(self), *record),
    {
        match record.time {
            Some((hour, _)) => {
                let seen = self.tally(hour);
                let next: u64 = if seen < u64::MAX {
                    seen + 1
                } else {
                    seen
                };
                self.times.insert(hour, next);
            },
            None => {},
        }
    }

    /// The line that introduces a record that can be shown.
    pub fn headline(record: &ParagraphInfo) -> (line: String)
        requires
            record@.showable(),
        ensures
            record.time matches Some((hour, minute)) && line@ == headline_of(
                record.author@,
                record.book@,
                hour,
                minute,
            ),
    {
        let (hour, minute) = match record.time {
            Some(time) => time,
            None => unreached(),
        };
        let mut line = String::from_str(record.author.as_str());
        line.append(" in ");
        line.append(record.book.as_str());
        line.append(" with time ");
        append_signed(&mut line, hour);
        line.append(":");
        append_two_wide(&mut line, minute);
        line.append(":");
        line
    }

    /// The text of a record that can be shown, in three parts: what stands
    /// before its span, the span, and what stands after it.
    pub fn highlight<'a>(record: &'a ParagraphInfo) -> (parts: (&'a str, &'a str, &'a str))
        requires
            record@.showable(),
        ensures
            record.section matches Some((start, end)) && ({
                let bytes = bytes_of(record.text@);
                &&& bytes_of(parts.0@) == bytes.subrange(0, start as int)
                &&& bytes_of(parts.1@) == bytes.subrange(start as int, end as int)
                &&& bytes_of(parts.2@) == bytes.subrange(end as int, bytes.len() as int)
            }),
    {
        let text = record.text.as_str();
        let (start, end) = match record.section {
            Some(section) => section,
            None => unreached(),
        };
        proof {
            encode_utf8_valid_utf8(record.text@);
            lemma_boundary_of_prefix(bytes_of(record.text@), start as int, end as int);
        }
        let (upto, after) = text.split_at(end);
        let (before, span) = upto.split_at(start);
        proof {
            let bytes = bytes_of(record.text@);
            assert(bytes.subrange(0, end as int).subrange(0, start as int) =~= bytes.subrange(
                0,
                start as int,
            ));
            assert(bytes.subrange(0, end as int).subrange(start as int, end as int)
                =~= bytes.subrange(start as int, end as int));
        }
        (before, span, after)
    }

    /// The summary: one line for each hour from 0 to `LAST_HOUR`, in order,
    /// with the number of records seen for it; an hour never seen shows 0.
    pub fn summary(&self) -> (lines: Vec<String>)
        ensures
            lines@.len() == LAST_HOUR + 1,
            forall|hour: i32|
                0 <= hour <= LAST_HOUR ==> (#[trigger] lines@[hour as int])@ == summary_line(
                    hour,
                    self.count(hour),
                ),
    {
        let mut lines: Vec<String> = Vec::new();
        let mut hour: i32 = 0;
        while hour <= LAST_HOUR
            invariant
                0 <= hour <= LAST_HOUR + 1,
                lines@.len() == hour,
                forall|h: i32|
                    0 <= h < hour ==> (#[trigger] lines@[h as int])@ == summary_line(
                        h,
                        self.count(h),
                    ),
            decreases LAST_HOUR + 1 - hour,
        {
            let mut line = String::new();
            append_signed(&mut line, hour);
            line.append(": ");
            append_decimal(&mut line, self.tally(hour));
            assert(line@ =~= summary_line(hour, self.count(hour)));
            lines.push(line);
            hour = hour + 1;
        }
        lines
    }
}

impl PipelineIntermediateStage<ParagraphInfo> for ParagraphPrinter {
    open spec fn outputs(&self, input: ParagraphInfo) -> Seq<ParagraphInfo> {
        seq![input]
    }

    open spec fn accepts(&self, input: ParagraphInfo) -> bool {
        input@.showable()
    }

    open spec fn yields(&self, output: ParagraphInfo) -> bool {
        output@.showable()
    }

    open spec fn stepped(&self, before: &Self, input: ParagraphInfo) -> bool {
        self.counted(*before, input)
    }

    open spec fn input_buffer_size(&self) -> usize {
        8
    }

    fn execute(&mut self, input: ParagraphInfo) -> (out: Vec<ParagraphInfo>) {
        self.observe(&input);
        let mut out: Vec<ParagraphInfo> = Vec::new();
        out.push(input);
        assert(out@ =~= seq![input]);
        out
    }

    fn get_input_buffer_size(&self) -> (size: usize) {
        8
    }
}

impl PipelineStep<ParagraphInfo> for ParagraphPrinter {

}

impl PipelineStageConsumer<ParagraphInfo> for ParagraphPrinter {
    open spec fn takes(&self, input: ParagraphInfo) -> bool {
        input@.showable()
    }

    open spec fn consumed(&self, before: &Self, input: ParagraphInfo) -> bool {
        self.counted(*before, input)
    }

    open spec fn input_buffer_size(&self) -> usize {
        8
    }

    fn execute(&mut self, input: ParagraphInfo) {
        self.observe(&input);
    }

    fn get_input_buffer_size(&self) -> (size: usize) {
        8
    }
}

impl PipelineConsumer<ParagraphInfo> for ParagraphPrinter {

}

} // verus!
