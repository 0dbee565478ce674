use literary_clock::collect_time_paragraphs::ParagraphLengthFilter;
use literary_clock::paragraph_info::ParagraphInfo;
use literary_clock::pipeline::PipelineIntermediateStage;

fn passes(filter: &mut ParagraphLengthFilter, text: &str) -> bool {
    let out = filter.execute(ParagraphInfo::new(text, "B", "A"));
    match out.len() {
        0 => false,
        1 => {
            assert_eq!(out[0].text, text);
            assert_eq!(out[0].book, "B");
            assert_eq!(out[0].author, "A");
            assert_eq!(out[0].section, None);
            assert_eq!(out[0].time, None);
            true
        }
        n => panic!("a filter hands on at most one record, not {}", n),
    }
}

#[test]
fn lengths_at_the_bounds() {
    let mut filter = ParagraphLengthFilter::new(32..400);
    assert!(!passes(&mut filter, &"x".repeat(31)));
    assert!(passes(&mut filter, &"x".repeat(32)));
    assert!(passes(&mut filter, &"x".repeat(399)));
    assert!(!passes(&mut filter, &"x".repeat(400)));
    assert!(!passes(&mut filter, ""));
}

#[test]
fn length_is_counted_in_bytes() {
    let mut filter = ParagraphLengthFilter::new(32..400);
    // sixteen characters of two bytes each
    assert!(passes(&mut filter, &"é".repeat(16)));
    assert!(!passes(&mut filter, &"é".repeat(15)));
    assert!(!passes(&mut filter, &"é".repeat(200)));
}

#[test]
fn other_bounds_and_an_empty_range() {
    let mut filter = ParagraphLengthFilter::new(0..1);
    assert!(passes(&mut filter, ""));
    assert!(!passes(&mut filter, "a"));
    let mut none = ParagraphLengthFilter::new(5..5);
    assert!(!passes(&mut none, "abcde"));
    let mut reversed = ParagraphLengthFilter::new(9..3);
    assert!(!passes(&mut reversed, "abcde"));
}

#[test]
fn length_filter_asks_for_sixty_four_slots() {
    let filter = ParagraphLengthFilter::new(32..400);
    assert_eq!(filter.get_input_buffer_size(), 64);
}
