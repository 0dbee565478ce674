use literary_clock::collect_time_paragraphs::ParagraphPrinter;
use literary_clock::paragraph_info::ParagraphInfo;
use literary_clock::pipeline::{PipelineIntermediateStage, PipelineStageConsumer};

fn marked(text: &str, section: (usize, usize), time: (i32, i32)) -> ParagraphInfo {
    ParagraphInfo::new(text, "My Book", "Jane").with_mark(section, time)
}

#[test]
fn a_new_reporter_has_seen_nothing() {
    let printer = ParagraphPrinter::new();
    for hour in -1..=40 {
        assert_eq!(printer.tally(hour), 0);
    }
}

#[test]
fn records_are_counted_by_hour() {
    let mut printer = ParagraphPrinter::new();
    printer.observe(&marked("t", (0, 1), (9, 0)));
    printer.observe(&marked("t", (0, 1), (9, 30)));
    printer.observe(&marked("t", (0, 1), (21, 0)));
    printer.observe(&marked("t", (0, 1), (36, 0)));
    assert_eq!(printer.tally(9), 2);
    assert_eq!(printer.tally(21), 1);
    assert_eq!(printer.tally(36), 1);
    assert_eq!(printer.tally(0), 0);
    assert_eq!(printer.tally(30), 0);
}

#[test]
fn as_a_transform_the_reporter_forwards_what_it_counts() {
    let mut printer = ParagraphPrinter::new();
    let out = PipelineIntermediateStage::execute(&mut printer, marked("text", (0, 4), (16, 30)));
    assert_eq!(out.len(), 1);
    assert_eq!(out[0].text, "text");
    assert_eq!(out[0].book, "My Book");
    assert_eq!(out[0].author, "Jane");
    assert_eq!(out[0].section, Some((0, 4)));
    assert_eq!(out[0].time, Some((16, 30)));
    assert_eq!(printer.tally(16), 1);
    assert_eq!(PipelineIntermediateStage::get_input_buffer_size(&printer), 8);
}

#[test]
fn as_a_sink_the_reporter_counts() {
    let mut printer = ParagraphPrinter::new();
    PipelineStageConsumer::execute(&mut printer, marked("text", (0, 4), (24, 0)));
    PipelineStageConsumer::execute(&mut printer, marked("text", (0, 4), (24, 59)));
    assert_eq!(printer.tally(24), 2);
    assert_eq!(PipelineStageConsumer::get_input_buffer_size(&printer), 8);
}

#[test]
fn headline_names_author_book_and_time() {
    let line = ParagraphPrinter::headline(&marked("t", (0, 1), (9, 5)));
    assert_eq!(line, "Jane in My Book with time 9:05:");
    let line = ParagraphPrinter::headline(&marked("t", (0, 1), (21, 30)));
    assert_eq!(line, "Jane in My Book with time 21:30:");
    let line = ParagraphPrinter::headline(&marked("t", (0, 1), (0, 0)));
    assert_eq!(line, "Jane in My Book with time 0:00:");
}

#[test]
fn highlight_cuts_the_text_at_the_span() {
    let record = marked("See you at 9 o'clock tomorrow.", (11, 20), (9, 0));
    assert_eq!(
        ParagraphPrinter::highlight(&record),
        ("See you at ", "9 o'clock", " tomorrow.")
    );
    let record = marked("9 o'clock", (0, 9), (9, 0));
    assert_eq!(ParagraphPrinter::highlight(&record), ("", "9 o'clock", ""));
    let record = marked("abc", (1, 1), (9, 0));
    assert_eq!(ParagraphPrinter::highlight(&record), ("a", "", "bc"));
    let record = marked("Caf\u{e9} 7 o'clock", (6, 15), (7, 0));
    assert_eq!(ParagraphPrinter::highlight(&record), ("Caf\u{e9} ", "7 o'clock", ""));
    let record = marked("Caf\u{e9}", (3, 5), (9, 0));
    assert_eq!(ParagraphPrinter::highlight(&record), ("Caf", "\u{e9}", ""));
}

#[test]
fn a_record_with_time_and_a_span_that_can_be_cut_can_be_shown() {
    assert!(ParagraphPrinter::is_showable(&marked("text", (0, 4), (9, 0))));
    assert!(ParagraphPrinter::is_showable(&marked("text", (2, 2), (9, 0))));
    assert!(ParagraphPrinter::is_showable(&marked("Caf\u{e9}", (3, 5), (9, 0))));
    assert!(ParagraphPrinter::is_showable(&marked("", (0, 0), (9, 0))));
}

#[test]
fn other_records_cannot_be_shown() {
    assert!(!ParagraphPrinter::is_showable(&ParagraphInfo::new("text", "b", "a")));
    let mut only_time = ParagraphInfo::new("text", "b", "a");
    only_time.time = Some((9, 0));
    assert!(!ParagraphPrinter::is_showable(&only_time));
    let mut only_span = ParagraphInfo::new("text", "b", "a");
    only_span.section = Some((0, 4));
    assert!(!ParagraphPrinter::is_showable(&only_span));
    // past the end, and reversed
    assert!(!ParagraphPrinter::is_showable(&marked("text", (2, 5), (9, 0))));
    assert!(!ParagraphPrinter::is_showable(&marked("text", (3, 2), (9, 0))));
    // inside the two bytes of the accented letter
    assert!(!ParagraphPrinter::is_showable(&marked("Caf\u{e9}", (0, 4), (9, 0))));
    assert!(!ParagraphPrinter::is_showable(&marked("Caf\u{e9}", (4, 5), (9, 0))));
}

#[test]
fn the_summary_lists_every_hour_from_0_to_24() {
    let mut printer = ParagraphPrinter::new();
    for _ in 0..12 {
        printer.observe(&marked("t", (0, 1), (7, 0)));
    }
    printer.observe(&marked("t", (0, 1), (24, 0)));
    printer.observe(&marked("t", (0, 1), (30, 0)));
    let lines = printer.summary();
    assert_eq!(lines.len(), 25);
    for (hour, line) in lines.iter().enumerate() {
        let count = match hour {
            7 => 12,
            24 => 1,
            _ => 0,
        };
        assert_eq!(line, &format!("{}: {}", hour, count));
    }
}
