//! The stages that turn a corpus of documents into stored paragraphs, each
//! marked with the clock time it mentions, and the pipeline made of them.

use std::ops::Range;
use vstd::prelude::*;
use crate::paragraph_info::ParagraphInfo;
use crate::pipeline::{
    admitted,
    all_walked,
    flow,
    through,
    walked,
    Pipeline,
    PipelineConsumer,
    PipelineIntermediateStage,
    PipelineProducer,
    PipelineStep,
};
use crate::text::bytes_of;

pub mod length_filter;
pub mod printer;
pub mod producer;
pub mod saver;
pub mod time_filter;

pub use length_filter::ParagraphLengthFilter;
pub use printer::ParagraphPrinter;
pub use producer::ParagraphProducer;
pub use saver::ParagraphSaver;
pub use time_filter::ParagraphTimeFilter;

verus! {

/// The length, in bytes, of the shortest paragraph that is searched.
pub const SHORTEST_PARAGRAPH: usize = 32;

/// The length, in bytes, that a paragraph must stay under to be searched.
pub const PARAGRAPH_LIMIT: usize = 400;

/// The transforms of the collection, behind one type.
pub enum ParagraphStage {
    Length(ParagraphLengthFilter),
    Time(ParagraphTimeFilter),
    Print(ParagraphPrinter),
}

impl PipelineIntermediateStage<ParagraphInfo> for ParagraphStage {
    open spec fn outputs(&self, input: ParagraphInfo) -> Seq<ParagraphInfo> {
        match self {
            ParagraphStage::Length(filter) => filter.outputs(input),
            ParagraphStage::Time(filter) => filter.outputs(input),
            ParagraphStage::Print(printer) => PipelineIntermediateStage::outputs(printer, input),
        }
    }

    open spec fn accepts(&self, input: ParagraphInfo) -> bool {
        match self {
            ParagraphStage::Length(filter) => filter.accepts(input),
            ParagraphStage::Time(filter) => filter.accepts(input),
            ParagraphStage::Print(printer) => PipelineIntermediateStage::accepts(printer, input),
        }
    }

    open spec fn yields(&self, output: ParagraphInfo) -> bool {
        match self {
            ParagraphStage::Length(filter) => filter.yields(output),
            ParagraphStage::Time(filter) => filter.yields(output),
            ParagraphStage::Print(printer) => PipelineIntermediateStage::yields(printer, output),
        }
    }

    open spec fn stepped(&self, before: &Self, input: ParagraphInfo) -> bool {
        match (self, before) {
            (ParagraphStage::Length(now), ParagraphStage::Length(then)) => now.stepped(then, input),
            (ParagraphStage::Time(now), ParagraphStage::Time(then)) => now.stepped(then, input),
            (ParagraphStage::Print(now), ParagraphStage::Print(then)) => now.stepped(then, input),
            _ => false,
        }
    }

    open spec fn input_buffer_size(&self) -> usize {
        match self {
            ParagraphStage::Length(filter) => filter.input_buffer_size(),
            ParagraphStage::Time(filter) => filter.input_buffer_size(),
            ParagraphStage::Print(printer) => PipelineIntermediateStage::input_buffer_size(
                printer,
            ),
        }
    }

    fn execute(&mut self, input: ParagraphInfo) -> (out: Vec<ParagraphInfo>) {
        match self {
            ParagraphStage::Length(filter) => filter.execute(input),
            ParagraphStage::Time(filter) => filter.execute(input),
            ParagraphStage::Print(printer) => PipelineIntermediateStage::execute(printer, input),
        }
    }

    fn get_input_buffer_size(&self) -> (size: usize) {
        match self {
            ParagraphStage::Length(filter) => filter.get_input_buffer_size(),
            ParagraphStage::Time(filter) => filter.get_input_buffer_size(),
            ParagraphStage::Print(printer) => PipelineIntermediateStage::get_input_buffer_size(
                printer,
            ),
        }
    }
}

impl PipelineStep<ParagraphInfo> for ParagraphStage {

}

/// What the collection makes of one paragraph: nothing where its length is
/// out of bounds, and otherwise one record for each reading of each clock
/// time that its text mentions.
pub open spec fn collected(record: ParagraphInfo) -> Seq<ParagraphInfo> {
    if SHORTEST_PARAGRAPH <= bytes_of(record.text@).len() < PARAGRAPH_LIMIT {
        time_filter::mentions(record)
    } else {
        Seq::empty()
    }
}

/// Whether `stages` are those of the collection: the length filter with its
/// bounds, the time filter, and a reporter.
pub open spec fn collection_stages(stages: Seq<ParagraphStage>) -> bool {
    &&& stages.len() == 3
    &&& stages[0] matches ParagraphStage::Length(filter)
    &&& filter.range() == (Range { start: SHORTEST_PARAGRAPH, end: PARAGRAPH_LIMIT })
    &&& stages[1] is Time
    &&& stages[2] is Print
}

/// The pipeline of the collection: paragraphs from `source` are filtered by
/// length, searched for clock times, reported, and handed to `sink`.
pub fn collect<P: PipelineProducer<ParagraphInfo>, C: PipelineConsumer<ParagraphInfo>>(
    source: P,
    sink: C,
) -> (pipeline: Pipeline<ParagraphInfo, P, ParagraphStage, C>)
    ensures
        pipeline.source() == Some(source),
        pipeline.sink() == Some(sink),
        collection_stages(pipeline.stages()),
        pipeline.stages()[2] matches ParagraphStage::Print(printer) && forall|hour: i32| #[trigger]
            printer.count(hour) == 0,
        forall|record: ParagraphInfo| #[trigger]
            pipeline.delivers(seq![record]) == collected(record),
        forall|record: ParagraphInfo| #[trigger] admitted(pipeline.stages(), record),
{
    let mut pipeline = Pipeline::new();
    pipeline.set_source(source);
    pipeline.push_stage(
        ParagraphStage::Length(
            ParagraphLengthFilter::new(SHORTEST_PARAGRAPH..PARAGRAPH_LIMIT),
        ),
    );
    pipeline.push_stage(ParagraphStage::Time(ParagraphTimeFilter::new()));
    pipeline.push_stage(ParagraphStage::Print(ParagraphPrinter::new()));
    pipeline.set_sink(sink);
    proof {
        assert forall|record: ParagraphInfo| #[trigger]
            pipeline.delivers(seq![record]) == collected(record) by {
            lemma_collection_delivers(pipeline.stages(), record);
        }
        assert forall|record: ParagraphInfo| #[trigger]
            admitted(pipeline.stages(), record) by {
            lemma_collection_is_chained(pipeline.stages(), record);
        }
    }
    pipeline
}

/// The stages of the collection fit one behind the other, and take every
/// paragraph: the length filter takes any record, and the reporter is
/// given only what the time filter hands on, which can be shown.
pub proof fn lemma_collection_is_chained(stages: Seq<ParagraphStage>, record: ParagraphInfo)
    requires
        collection_stages(stages),
    ensures
        admitted(stages, record),
{
    assert forall|k: int, x: ParagraphInfo|
        0 <= k < stages.len() - 1 && #[trigger] stages[k].yields(x) implies stages[k
            + 1].accepts(x) by {
        if k == 1 {
            assert(stages[1] is Time);
            assert(stages[2] is Print);
        } else {
            assert(stages[1] is Time);
        }
    }
}

/// What reaches the sink of the collection for one paragraph is what
/// `collected` says, whatever the reporter has counted so far.
pub proof fn lemma_collection_delivers(stages: Seq<ParagraphStage>, record: ParagraphInfo)
    requires
        collection_stages(stages),
    ensures
        flow(stages, seq![record]) == collected(record),
        flow(stages.take(2), seq![record]) == collected(record),
{
    assert(stages.take(2) =~= stages.drop_last());
    let none = stages.drop_last().drop_last().drop_last();
    let one = stages.drop_last().drop_last();
    let two = stages.drop_last();
    assert(flow(none, seq![record]) == seq![record]);
    let after_length = flow(one, seq![record]);
    assert(one.last() == stages[0]);
    assert(seq![record].drop_last() =~= Seq::<ParagraphInfo>::empty());
    assert(after_length =~= stages[0].outputs(record)) by {
        assert(through(stages[0], seq![record]) == through(stages[0], Seq::empty())
            + stages[0].outputs(record));
    }
    assert(two.last() == stages[1]);
    let after_time = flow(two, seq![record]);
    assert(after_time == through(stages[1], after_length));
    assert(after_time =~= collected(record)) by {
        if after_length.len() == 0 {
        } else {
            assert(after_length =~= seq![record]);
            assert(through(stages[1], seq![record]) == through(stages[1], Seq::empty())
                + stages[1].outputs(record));
        }
    }
    assert(stages.last() == stages[2]);
    lemma_reporter_forwards(stages[2], after_time);
}

/// Every record that the collection delivers carries both a span and a
/// time, never just one; the span lies within its text, and but for the two
/// it is the paragraph that came in.
pub proof fn lemma_collected_is_marked(record: ParagraphInfo, i: int)
    requires
        0 <= i < collected(record).len(),
    ensures
        collected(record)[i]@.marked(),
        collected(record)[i].wf(),
        collected(record)[i].text == record.text,
        collected(record)[i].book == record.book,
        collected(record)[i].author == record.author,
{
    match crate::pattern::captures_under(time_filter::TIME_PATTERN@, record.text@) {
        Some(found) => time_filter::lemma_mentions_are_marked(record, found, i),
        None => {},
    }
}

/// The count that the reporter among the stages keeps for `hour`.
pub open spec fn reported(stage: ParagraphStage, hour: i32) -> nat {
    match stage {
        ParagraphStage::Print(printer) => printer.count(hour),
        _ => 0,
    }
}

/// A reporter that has been given records has counted each of them under
/// its hour: its count for an hour has gone up by the number of records
/// with that hour, as far as a count can go.
pub proof fn lemma_reporter_counts(
    before: ParagraphStage,
    inputs: Seq<ParagraphInfo>,
    after: ParagraphStage,
    hour: i32,
)
    requires
        before is Print,
        walked(before, inputs, after),
    ensures
        after is Print,
        reported(after, hour) == printer::bumped_by(
            reported(before, hour),
            printer::seen_in_hour(inputs, hour),
        ),
    decreases inputs.len(),
{
    match before {
        ParagraphStage::Print(p) => p.lemma_count_fits(hour),
        _ => {},
    }
    if inputs.len() > 0 {
        let mid = choose|mid: ParagraphStage|
            walked(before, inputs.drop_last(), mid) && #[trigger] after.stepped(
                &mid,
                inputs.last(),
            );
        lemma_reporter_counts(before, inputs.drop_last(), mid, hour);
        match (after, mid) {
            (ParagraphStage::Print(now), ParagraphStage::Print(then)) => {
                assert(now.counted(then, inputs.last()));
                assert(now.count(hour) == if inputs.last().time matches Some((h, _)) && h == hour {
                    printer::bumped(then.count(hour))
                } else {
                    then.count(hour)
                });
            },
            _ => {},
        }
    }
}

/// A filter that has been given records is the filter it was.
pub proof fn lemma_filter_stays(
    before: ParagraphStage,
    inputs: Seq<ParagraphInfo>,
    after: ParagraphStage,
)
    requires
        !(before is Print),
        walked(before, inputs, after),
    ensures
        before is Time ==> after is Time,
        before matches ParagraphStage::Length(then) ==> after matches ParagraphStage::Length(now)
            && now.range() == then.range(),
    decreases inputs.len(),
{
    if inputs.len() > 0 {
        let mid = choose|mid: ParagraphStage|
            walked(before, inputs.drop_last(), mid) && #[trigger] after.stepped(
                &mid,
                inputs.last(),
            );
        lemma_filter_stays(before, inputs.drop_last(), mid);
    }
}

/// When a paragraph has passed through the collection, the stages are
/// those of the collection still, and the reporter has counted what was
/// delivered: its count for an hour has gone up by the number of delivered
/// records with that hour, as far as a count can go.
pub proof fn lemma_collection_counts(
    before: Seq<ParagraphStage>,
    record: ParagraphInfo,
    after: Seq<ParagraphStage>,
    hour: i32,
)
    requires
        collection_stages(before),
        all_walked(before, seq![record], after),
    ensures
        collection_stages(after),
        reported(after[2], hour) == printer::bumped_by(
            reported(before[2], hour),
            printer::seen_in_hour(collected(record), hour),
        ),
{
    assert(walked(before[0], flow(before.take(0), seq![record]), after[0]));
    assert(walked(before[1], flow(before.take(1), seq![record]), after[1]));
    assert(walked(before[2], flow(before.take(2), seq![record]), after[2]));
    lemma_filter_stays(before[0], flow(before.take(0), seq![record]), after[0]);
    lemma_filter_stays(before[1], flow(before.take(1), seq![record]), after[1]);
    lemma_collection_delivers(before, record);
    lemma_reporter_counts(before[2], collected(record), after[2], hour);
}

/// A reporter hands on every record it is given, in order.
pub proof fn lemma_reporter_forwards(stage: ParagraphStage, inputs: Seq<ParagraphInfo>)
    requires
        stage is Print,
    ensures
        through(stage, inputs) == inputs,
    decreases inputs.len(),
{
    if inputs.len() > 0 {
        lemma_reporter_forwards(stage, inputs.drop_last());
        assert(inputs.drop_last() + seq![inputs.last()] =~= inputs);
    }
}

} // verus!
