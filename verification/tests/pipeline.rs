use literary_clock::collect_time_paragraphs::{
    ParagraphLengthFilter, ParagraphPrinter, ParagraphTimeFilter,
};
use literary_clock::paragraph_info::ParagraphInfo;
use literary_clock::pipeline::{
    Pipeline, PipelineConsumer, PipelineIntermediateStage, PipelineProducer,
    PipelineStageConsumer, PipelineStageProducer, PipelineStep,
};

/// A transform that repeats each number as often as the number says.
struct Repeat;

impl PipelineIntermediateStage<u32> for Repeat {
    fn execute(&mut self, input: u32) -> Vec<u32> {
        (0..input).map(|_| input).collect()
    }

    fn get_input_buffer_size(&self) -> usize {
        3
    }
}

impl PipelineStep<u32> for Repeat {}

/// A transform that adds a fixed number.
struct Add(u32);

enum Number {
    Repeat(Repeat),
    Add(Add),
}

impl PipelineIntermediateStage<u32> for Number {
    fn execute(&mut self, input: u32) -> Vec<u32> {
        match self {
            Number::Repeat(r) => r.execute(input),
            Number::Add(a) => vec![input + a.0],
        }
    }

    fn get_input_buffer_size(&self) -> usize {
        match self {
            Number::Repeat(r) => r.get_input_buffer_size(),
            Number::Add(_) => 5,
        }
    }
}

impl PipelineStep<u32> for Number {}

struct Count {
    left: u32,
}

impl PipelineStageProducer<u32> for Count {
    fn execute(&mut self) -> Option<Vec<u32>> {
        if self.left == 0 {
            None
        } else {
            self.left -= 1;
            Some(vec![self.left])
        }
    }
}

impl PipelineProducer<u32> for Count {}

struct Collect {
    seen: Vec<u32>,
}

impl PipelineStageConsumer<u32> for Collect {
    fn execute(&mut self, input: u32) {
        self.seen.push(input);
    }

    fn get_input_buffer_size(&self) -> usize {
        7
    }
}

impl PipelineConsumer<u32> for Collect {}

#[test]
fn new_pipeline_is_empty() {
    let pipeline: Pipeline<u32, Count, Number, Collect> = Pipeline::new();
    assert!(!pipeline.has_source());
    assert!(!pipeline.has_sink());
    assert_eq!(pipeline.stage_count(), 0);
}

#[test]
fn stages_run_in_the_order_of_registration() {
    let mut pipeline: Pipeline<u32, Count, Number, Collect> = Pipeline::new();
    pipeline.push_stage(Number::Add(Add(1)));
    pipeline.push_stage(Number::Repeat(Repeat));
    assert_eq!(pipeline.process(2), vec![3, 3, 3]);

    let mut other: Pipeline<u32, Count, Number, Collect> = Pipeline::new();
    other.push_stage(Number::Repeat(Repeat));
    other.push_stage(Number::Add(Add(1)));
    assert_eq!(other.process(2), vec![3, 3]);
}

#[test]
fn a_pipeline_without_stages_passes_records_through() {
    let mut pipeline: Pipeline<u32, Count, Number, Collect> = Pipeline::new();
    assert_eq!(pipeline.process(9), vec![9]);
}

#[test]
fn a_dropped_record_reaches_no_later_stage() {
    let mut pipeline: Pipeline<u32, Count, Number, Collect> = Pipeline::new();
    pipeline.push_stage(Number::Repeat(Repeat));
    pipeline.push_stage(Number::Add(Add(4)));
    assert_eq!(pipeline.process(0), Vec::<u32>::new());
}

#[test]
fn queues_are_sized_by_the_stage_that_reads_them() {
    let mut pipeline: Pipeline<u32, Count, Number, Collect> = Pipeline::new();
    pipeline.set_source(Count { left: 2 });
    pipeline.set_sink(Collect { seen: vec![] });
    assert_eq!(pipeline.queue_capacities(), vec![7]);
    pipeline.push_stage(Number::Repeat(Repeat));
    pipeline.push_stage(Number::Add(Add(1)));
    assert!(pipeline.has_source());
    assert!(pipeline.has_sink());
    assert_eq!(pipeline.stage_count(), 2);
    assert_eq!(pipeline.queue_capacities(), vec![3, 5, 7]);
}

#[test]
fn parts_come_back_in_order() {
    let mut pipeline: Pipeline<u32, Count, Number, Collect> = Pipeline::new();
    pipeline.set_source(Count { left: 2 });
    pipeline.set_sink(Collect { seen: vec![] });
    pipeline.push_stage(Number::Add(Add(10)));
    pipeline.push_stage(Number::Add(Add(20)));
    let (source, mut stages, sink) = pipeline.into_parts();
    let mut source = source.unwrap();
    let mut sink = sink.unwrap();
    assert_eq!(stages.len(), 2);
    assert_eq!(stages[0].execute(1), vec![11]);
    assert_eq!(stages[1].execute(1), vec![21]);
    while let Some(batch) = source.execute() {
        for record in batch {
            PipelineStageConsumer::execute(&mut sink, record);
        }
    }
    assert_eq!(sink.seen, vec![1, 0]);
}

#[test]
fn what_reaches_the_sink_is_inputs_plus_fan_out_minus_drops() {
    let mut pipeline: Pipeline<u32, Count, Number, Collect> = Pipeline::new();
    pipeline.push_stage(Number::Repeat(Repeat));
    let inputs = [0u32, 1, 2, 3, 0];
    let mut reached = 0;
    for input in inputs {
        reached += pipeline.process(input).len();
    }
    // two inputs are dropped; 2 adds one record and 3 adds two
    assert_eq!(reached, inputs.len() + (1 + 2) - 2);
}

enum Stage {
    Length(ParagraphLengthFilter),
    Time(ParagraphTimeFilter),
    Print(ParagraphPrinter),
}

impl PipelineIntermediateStage<ParagraphInfo> for Stage {
    fn execute(&mut self, input: ParagraphInfo) -> Vec<ParagraphInfo> {
        match self {
            Stage::Length(s) => s.execute(input),
            Stage::Time(s) => s.execute(input),
            Stage::Print(s) => PipelineIntermediateStage::execute(s, input),
        }
    }

    fn get_input_buffer_size(&self) -> usize {
        match self {
            Stage::Length(s) => s.get_input_buffer_size(),
            Stage::Time(s) => s.get_input_buffer_size(),
            Stage::Print(s) => PipelineIntermediateStage::get_input_buffer_size(s),
        }
    }
}

impl PipelineStep<ParagraphInfo> for Stage {}

struct NoSource;

impl PipelineStageProducer<ParagraphInfo> for NoSource {
    fn execute(&mut self) -> Option<Vec<ParagraphInfo>> {
        None
    }
}

impl PipelineProducer<ParagraphInfo> for NoSource {}

#[test]
fn paragraphs_flow_through_length_and_time_filters() {
    let mut pipeline: Pipeline<ParagraphInfo, NoSource, Stage, ParagraphPrinter> = Pipeline::new();
    pipeline.set_source(NoSource);
    pipeline.push_stage(Stage::Length(ParagraphLengthFilter::new(32..400)));
    pipeline.push_stage(Stage::Time(ParagraphTimeFilter::new()));
    pipeline.push_stage(Stage::Print(ParagraphPrinter::new()));
    pipeline.set_sink(ParagraphPrinter::new());
    assert_eq!(pipeline.queue_capacities(), vec![64, 32, 8, 8]);

    let short = ParagraphInfo::new("At 9 o'clock.", "B", "A");
    assert!(pipeline.process(short).is_empty());

    let long = ParagraphInfo::new("We shall meet at 9 o'clock, or at 10:15 a.m. perhaps.", "B", "A");
    let out = pipeline.process(long);
    let times: Vec<(i32, i32)> = out.iter().map(|r| r.time.unwrap()).collect();
    assert_eq!(times, vec![(9, 0), (21, 0), (10, 15)]);
    for record in &out {
        assert_eq!(record.text, "We shall meet at 9 o'clock, or at 10:15 a.m. perhaps.");
        assert_eq!(record.book, "B");
        assert_eq!(record.author, "A");
    }

    let (_, stages, _) = pipeline.into_parts();
    match &stages[2] {
        Stage::Print(printer) => {
            assert_eq!(printer.tally(9), 1);
            assert_eq!(printer.tally(21), 1);
            assert_eq!(printer.tally(10), 1);
            assert_eq!(printer.tally(11), 0);
        }
        _ => panic!("the third stage is the printer"),
    }
}
