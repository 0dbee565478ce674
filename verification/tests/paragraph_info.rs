use literary_clock::paragraph_info::ParagraphInfo;

#[test]
fn new_record_has_neither_span_nor_time() {
    let record = ParagraphInfo::new("Some text.", "A Book", "An Author");
    assert_eq!(record.text, "Some text.");
    assert_eq!(record.book, "A Book");
    assert_eq!(record.author, "An Author");
    assert_eq!(record.section, None);
    assert_eq!(record.time, None);
}

#[test]
fn with_mark_sets_span_and_time_together_on_a_copy() {
    let record = ParagraphInfo::new("at 9 o'clock", "B", "A");
    let marked = record.with_mark((3, 12), (9, 0));
    assert_eq!(marked.section, Some((3, 12)));
    assert_eq!(marked.time, Some((9, 0)));
    assert_eq!(marked.text, record.text);
    assert_eq!(marked.book, record.book);
    assert_eq!(marked.author, record.author);
    assert_eq!(record.section, None);
    assert_eq!(record.time, None);
    let again = marked.with_mark((0, 2), (21, 0));
    assert_eq!(again.section, Some((0, 2)));
    assert_eq!(again.time, Some((21, 0)));
    assert_eq!(marked.time, Some((9, 0)));
}

#[test]
fn clone_keeps_every_field() {
    let record = ParagraphInfo::new("t", "b", "a").with_mark((0, 1), (16, 30));
    let copy = record.clone();
    assert_eq!(copy.text, "t");
    assert_eq!(copy.book, "b");
    assert_eq!(copy.author, "a");
    assert_eq!(copy.section, Some((0, 1)));
    assert_eq!(copy.time, Some((16, 30)));
}
