use literary_clock::collect_time_paragraphs::{
    collect, ParagraphPrinter, ParagraphStage, PARAGRAPH_LIMIT, SHORTEST_PARAGRAPH,
};
use literary_clock::paragraph_info::ParagraphInfo;
use literary_clock::pipeline::{
    PipelineConsumer, PipelineIntermediateStage, PipelineProducer, PipelineStageConsumer,
    PipelineStageProducer,
};

struct Nothing;

impl PipelineStageProducer<ParagraphInfo> for Nothing {
    fn execute(&mut self) -> Option<Vec<ParagraphInfo>> {
        None
    }
}

impl PipelineProducer<ParagraphInfo> for Nothing {}

struct Discard;

impl PipelineStageConsumer<ParagraphInfo> for Discard {
    fn execute(&mut self, _input: ParagraphInfo) {}

    fn get_input_buffer_size(&self) -> usize {
        8
    }
}

impl PipelineConsumer<ParagraphInfo> for Discard {}

#[test]
fn the_bounds_of_the_collection() {
    assert_eq!(SHORTEST_PARAGRAPH, 32);
    assert_eq!(PARAGRAPH_LIMIT, 400);
}

#[test]
fn the_collection_has_its_three_stages_in_order() {
    let pipeline = collect(Nothing, Discard);
    assert!(pipeline.has_source());
    assert!(pipeline.has_sink());
    assert_eq!(pipeline.stage_count(), 3);
    assert_eq!(pipeline.queue_capacities(), vec![64, 32, 8, 8]);
    let (_, stages, _) = pipeline.into_parts();
    assert!(matches!(stages[0], ParagraphStage::Length(_)));
    assert!(matches!(stages[1], ParagraphStage::Time(_)));
    assert!(matches!(stages[2], ParagraphStage::Print(_)));
}

#[test]
fn the_collection_searches_paragraphs_of_the_right_length_only() {
    let mut pipeline = collect(Nothing, Discard);
    let short = "At 9 o'clock.";
    assert!(pipeline.process(ParagraphInfo::new(short, "B", "A")).is_empty());

    let right = format!("{} at 9 o'clock.", "x".repeat(18));
    assert_eq!(right.len(), 32);
    let out = pipeline.process(ParagraphInfo::new(&right, "B", "A"));
    let got: Vec<_> = out.iter().map(|r| (r.section, r.time)).collect();
    assert_eq!(
        got,
        vec![(Some((22, 31)), Some((9, 0))), (Some((22, 31)), Some((21, 0)))]
    );

    let long = format!("{} at 9 o'clock.", "x".repeat(386));
    assert_eq!(long.len(), 400);
    assert!(pipeline.process(ParagraphInfo::new(&long, "B", "A")).is_empty());

    let silent = "x".repeat(100);
    assert!(pipeline.process(ParagraphInfo::new(&silent, "B", "A")).is_empty());
}

#[test]
fn every_record_that_is_delivered_carries_both_span_and_time() {
    let mut pipeline = collect(Nothing, Discard);
    let text = "We met at 9 o'clock, at 10:15 a.m., at 25:00pm and at 4:30pm.";
    let out = pipeline.process(ParagraphInfo::new(text, "B", "A"));
    assert_eq!(out.len(), 4);
    for record in &out {
        let (start, end) = record.section.unwrap();
        let (hour, minute) = record.time.unwrap();
        assert!(start <= end && end <= record.text.len());
        assert!((0..=36).contains(&hour));
        assert!((0..60).contains(&minute));
    }
}

#[test]
fn the_reporter_of_the_collection_counts_what_passes() {
    let mut pipeline = collect(Nothing, Discard);
    for _ in 0..3 {
        pipeline.process(ParagraphInfo::new(
            "A paragraph long enough that mentions 9 o'clock.",
            "B",
            "A",
        ));
    }
    pipeline.process(ParagraphInfo::new("Too short for 9 o'clock.", "B", "A"));
    let (_, stages, _) = pipeline.into_parts();
    let printer: &ParagraphPrinter = match &stages[2] {
        ParagraphStage::Print(printer) => printer,
        _ => panic!("the third stage is the reporter"),
    };
    assert_eq!(printer.tally(9), 3);
    assert_eq!(printer.tally(21), 3);
    assert_eq!(printer.tally(10), 0);
    let mut stage = stages;
    assert_eq!(stage[0].get_input_buffer_size(), 64);
    assert!(stage[1].execute(ParagraphInfo::new("no time", "B", "A")).is_empty());
}
