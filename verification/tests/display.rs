use literary_clock::display_paragraph::{credit, hour_folder, minute_folder, pick};
use literary_clock::paragraph_info::ParagraphInfo;

#[test]
fn folders_are_named_by_number() {
    assert_eq!(hour_folder(0), "0/");
    assert_eq!(hour_folder(7), "7/");
    assert_eq!(hour_folder(23), "23/");
    assert_eq!(minute_folder(5, true), "5/");
    assert_eq!(minute_folder(59, true), "59/");
}

#[test]
fn a_minute_without_a_folder_falls_back_to_zero() {
    assert_eq!(minute_folder(5, false), "0/");
    assert_eq!(minute_folder(0, false), "0/");
    assert_eq!(minute_folder(0, true), "0/");
}

#[test]
fn a_file_is_picked_by_remainder() {
    assert_eq!(pick(10, 3), 1);
    assert_eq!(pick(2, 3), 2);
    assert_eq!(pick(3, 3), 0);
    assert_eq!(pick(0, 5), 0);
    assert_eq!(pick(usize::MAX, 1), 0);
    assert_eq!(pick(usize::MAX, 10), usize::MAX % 10);
}

#[test]
fn the_credit_names_author_and_book() {
    let record = ParagraphInfo::new("text", "My Book", "Jane");
    assert_eq!(credit(&record), "Jane in My Book");
}
