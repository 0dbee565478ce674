use literary_clock::download_gutenberg::{
    collect_links, ends_in_slash, kind_of, page_fits, page_links, FetchScheduler, LinkAction,
    LinkKind, LinkSorter, LONGEST_PAGE, MAX_CHILD_TASKS,
};

#[test]
fn a_page_of_ordinary_length_can_be_searched() {
    assert_eq!(LONGEST_PAGE, 1 << 29);
    assert!(3 * (LONGEST_PAGE as u64) < (1 << 31));
    assert!(page_fits(""));
    assert!(page_fits("<a href=\"1/\">1/</a>"));
    assert!(page_fits(&"x".repeat(1 << 20)));
}

#[test]
fn the_patterns_of_the_crawl_compile() {
    assert!(LinkSorter::new().is_compiled());
    assert!(FetchScheduler::new(8).is_compiled());
}

fn classify_link(href: &str) -> LinkKind {
    LinkSorter::new().classify(href)
}

#[test]
fn one_sorter_sorts_many_links() {
    let sorter = LinkSorter::new();
    assert_eq!(sorter.classify("1/"), LinkKind::Directory);
    assert_eq!(sorter.classify("1.txt"), LinkKind::File);
    assert_eq!(sorter.classify("../"), LinkKind::Other);
    assert_eq!(sorter.classify("2/"), LinkKind::Directory);
}

const BASE: &str = "https://example.org/gutenberg/";

fn fetch(action: LinkAction) -> String {
    match action {
        LinkAction::Fetch(url) => url,
        other => panic!("expected a fetch, got {:?}", other),
    }
}

#[test]
fn the_crawl_keeps_eight_fetches_outstanding() {
    assert_eq!(MAX_CHILD_TASKS, 8);
}

#[test]
fn links_are_sorted_by_their_shape() {
    assert_eq!(classify_link("1/"), LinkKind::Directory);
    assert_eq!(classify_link("12345/"), LinkKind::Directory);
    assert_eq!(classify_link("a/12/"), LinkKind::Directory);
    assert_eq!(classify_link("12345.txt"), LinkKind::File);
    assert_eq!(classify_link("7.txt"), LinkKind::File);
}

#[test]
fn other_links_are_passed_over() {
    assert_eq!(classify_link(""), LinkKind::Other);
    assert_eq!(classify_link("/"), LinkKind::Other);
    assert_eq!(classify_link("../"), LinkKind::Other);
    assert_eq!(classify_link("old/"), LinkKind::Other);
    assert_eq!(classify_link("12"), LinkKind::Other);
    assert_eq!(classify_link("12/34"), LinkKind::Other);
    assert_eq!(classify_link("12345-8.txt"), LinkKind::Other);
    assert_eq!(classify_link("a12345.txt"), LinkKind::Other);
    assert_eq!(classify_link("12345.txt.utf8"), LinkKind::Other);
    assert_eq!(classify_link("?C=N;O=D"), LinkKind::Other);
    assert_eq!(classify_link("12345.zip"), LinkKind::Other);
}

#[test]
fn the_dot_of_the_document_pattern_stands_for_any_character() {
    assert_eq!(classify_link("12345-txt"), LinkKind::File);
    assert_eq!(classify_link("123txt"), LinkKind::File);
}

#[test]
fn a_trailing_slash_decides_before_the_document_pattern() {
    // digits, any character, "txt": but it ends in a slash and holds no digit before one
    assert_eq!(classify_link("txt/"), LinkKind::Other);
    assert_eq!(classify_link("1.txt/"), LinkKind::Other);
    assert_eq!(classify_link("1/txt/"), LinkKind::Directory);
}

#[test]
fn page_links_lists_the_targets_of_anchors_in_order() {
    let html = r#"<html><body>
        <a href="../">Parent</a>
        <a name="top">no target</a>
        <a href="1/">1/</a>
        <p><a href="12345.txt">text</a></p>
        <link href="style.css">
        <A HREF="2/">2/</A>
    </body></html>"#;
    assert_eq!(page_links(html), vec!["../", "1/", "12345.txt", "2/"]);
    assert_eq!(page_links(""), Vec::<String>::new());
    assert_eq!(page_links("no markup at all"), Vec::<String>::new());
}

#[test]
fn collect_links_skips_what_is_absent() {
    let found =
        Some(vec![Some("a".to_string()), None, Some("".to_string()), None, Some("b".to_string())]);
    assert_eq!(collect_links(&found), vec!["a", "", "b"]);
    assert_eq!(collect_links(&Some(vec![None, None])), Vec::<String>::new());
    assert_eq!(collect_links(&Some(vec![])), Vec::<String>::new());
    assert_eq!(collect_links(&None), Vec::<String>::new());
}

#[test]
fn a_link_ends_in_a_slash_or_not() {
    assert!(ends_in_slash("1/"));
    assert!(ends_in_slash("/"));
    assert!(!ends_in_slash(""));
    assert!(!ends_in_slash("1/2"));
    assert!(!ends_in_slash("é"));
}

#[test]
fn the_kind_follows_from_what_the_patterns_say() {
    assert_eq!(kind_of("1/", Some(true), None), LinkKind::Directory);
    assert_eq!(kind_of("1/", Some(true), Some(true)), LinkKind::Directory);
    assert_eq!(kind_of("x/", Some(false), Some(true)), LinkKind::Other);
    assert_eq!(kind_of("x/", None, Some(true)), LinkKind::Other);
    assert_eq!(kind_of("1.txt", Some(true), Some(true)), LinkKind::File);
    assert_eq!(kind_of("1.txt", None, Some(true)), LinkKind::File);
    assert_eq!(kind_of("1.txt", Some(true), Some(false)), LinkKind::Other);
    assert_eq!(kind_of("1.txt", Some(true), None), LinkKind::Other);
    assert_eq!(kind_of("", Some(true), None), LinkKind::Other);
}

#[test]
fn decide_acts_on_the_kind_the_address_and_the_presence() {
    let url = || Some("https://example.org/1/".to_string());
    let mut scheduler = FetchScheduler::new(2);
    assert!(matches!(scheduler.decide(LinkKind::Other, url(), false), LinkAction::Ignore));
    assert!(matches!(scheduler.decide(LinkKind::Directory, None, false), LinkAction::Ignore));
    assert!(matches!(scheduler.decide(LinkKind::File, None, false), LinkAction::Ignore));
    assert!(matches!(scheduler.decide(LinkKind::File, url(), true), LinkAction::Skip));
    assert!(matches!(scheduler.decide(LinkKind::File, None, true), LinkAction::Skip));
    match scheduler.decide(LinkKind::File, url(), false) {
        LinkAction::Download(target) => assert_eq!(target, "https://example.org/1/"),
        other => panic!("expected a download, got {:?}", other),
    }
    assert_eq!((scheduler.in_flight(), scheduler.backlog_len()), (1, 0));
    assert_eq!(fetch(scheduler.decide(LinkKind::Directory, url(), true)), "https://example.org/1/");
    assert_eq!((scheduler.in_flight(), scheduler.backlog_len()), (2, 0));
    assert!(matches!(scheduler.decide(LinkKind::Directory, url(), false), LinkAction::Queued));
    assert_eq!((scheduler.in_flight(), scheduler.backlog_len()), (2, 1));
}

#[test]
fn offer_directory_admits_or_queues() {
    let mut scheduler = FetchScheduler::new(2);
    assert_eq!(scheduler.offer_directory("a".to_string()), Some("a".to_string()));
    assert_eq!(scheduler.offer_directory("b".to_string()), None);
    assert_eq!(scheduler.offer_directory("c".to_string()), None);
    assert_eq!((scheduler.in_flight(), scheduler.backlog_len()), (2, 2));
    scheduler.fetch_completed();
    assert_eq!(scheduler.promote(), Some("c".to_string()));
    scheduler.fetch_completed();
    assert_eq!(scheduler.promote(), Some("b".to_string()));
    assert_eq!((scheduler.in_flight(), scheduler.backlog_len()), (2, 0));
}

#[test]
fn a_crawl_begins_with_the_root_outstanding() {
    let scheduler = FetchScheduler::new(8);
    assert_eq!(scheduler.limit(), 8);
    assert_eq!(scheduler.in_flight(), 1);
    assert_eq!(scheduler.backlog_len(), 0);
    assert!(!scheduler.is_finished());
}

#[test]
fn a_directory_is_fetched_at_once_while_a_slot_is_free() {
    let mut scheduler = FetchScheduler::new(3);
    assert_eq!(fetch(scheduler.on_link(BASE, "1/", false)), "https://example.org/gutenberg/1/");
    assert_eq!(scheduler.in_flight(), 2);
    assert_eq!(fetch(scheduler.on_link(BASE, "2/", true)), "https://example.org/gutenberg/2/");
    assert_eq!(scheduler.in_flight(), 3);
    assert_eq!(scheduler.backlog_len(), 0);
}

#[test]
fn a_directory_waits_when_the_cap_is_reached() {
    let mut scheduler = FetchScheduler::new(2);
    fetch(scheduler.on_link(BASE, "1/", false));
    assert!(matches!(scheduler.on_link(BASE, "2/", false), LinkAction::Queued));
    assert!(matches!(scheduler.on_link(BASE, "3/", false), LinkAction::Queued));
    assert_eq!(scheduler.in_flight(), 2);
    assert_eq!(scheduler.backlog_len(), 2);
    // no slot is free: nothing is promoted
    assert_eq!(scheduler.promote(), None);
    assert_eq!(scheduler.backlog_len(), 2);
}

#[test]
fn the_link_found_last_is_promoted_first_and_one_at_a_time() {
    let mut scheduler = FetchScheduler::new(1);
    assert!(matches!(scheduler.on_link(BASE, "1/", false), LinkAction::Queued));
    assert!(matches!(scheduler.on_link(BASE, "2/", false), LinkAction::Queued));
    scheduler.fetch_completed();
    assert_eq!(scheduler.in_flight(), 0);
    assert!(!scheduler.is_finished());
    assert_eq!(scheduler.promote(), Some("https://example.org/gutenberg/2/".to_string()));
    assert_eq!(scheduler.in_flight(), 1);
    assert_eq!(scheduler.promote(), None);
    scheduler.fetch_completed();
    assert_eq!(scheduler.promote(), Some("https://example.org/gutenberg/1/".to_string()));
    scheduler.fetch_completed();
    assert_eq!(scheduler.promote(), None);
    assert!(scheduler.is_finished());
}

#[test]
fn only_one_page_is_promoted_for_each_completed_fetch() {
    let mut scheduler = FetchScheduler::new(3);
    fetch(scheduler.on_link(BASE, "1/", false));
    fetch(scheduler.on_link(BASE, "2/", false));
    assert!(matches!(scheduler.on_link(BASE, "3/", false), LinkAction::Queued));
    assert!(matches!(scheduler.on_link(BASE, "4/", false), LinkAction::Queued));
    scheduler.fetch_completed();
    scheduler.fetch_completed();
    assert_eq!(scheduler.in_flight(), 1);
    assert_eq!(scheduler.promote(), Some("https://example.org/gutenberg/4/".to_string()));
    assert_eq!(scheduler.in_flight(), 2);
    assert_eq!(scheduler.backlog_len(), 1);
}

#[test]
fn a_document_is_downloaded_unless_it_is_present() {
    let mut scheduler = FetchScheduler::new(8);
    match scheduler.on_link("https://example.org/gutenberg/1/2/", "12.txt", false) {
        LinkAction::Download(url) => assert_eq!(url, "https://example.org/gutenberg/1/2/12.txt"),
        other => panic!("expected a download, got {:?}", other),
    }
    assert!(matches!(
        scheduler.on_link("https://example.org/gutenberg/1/2/", "12.txt", true),
        LinkAction::Skip
    ));
    // a document does not count against the cap
    assert_eq!(scheduler.in_flight(), 1);
    assert_eq!(scheduler.backlog_len(), 0);
}

#[test]
fn other_links_change_nothing() {
    let mut scheduler = FetchScheduler::new(8);
    assert!(matches!(scheduler.on_link(BASE, "../", false), LinkAction::Ignore));
    assert!(matches!(scheduler.on_link(BASE, "readme.html", false), LinkAction::Ignore));
    assert!(matches!(scheduler.on_link(BASE, "readme.html", true), LinkAction::Ignore));
    assert_eq!(scheduler.in_flight(), 1);
    assert_eq!(scheduler.backlog_len(), 0);
}

#[test]
fn a_link_that_does_not_resolve_is_passed_over() {
    let mut scheduler = FetchScheduler::new(8);
    assert!(matches!(scheduler.on_link("not an address", "1/", false), LinkAction::Ignore));
    assert!(matches!(scheduler.on_link("not an address", "1.txt", false), LinkAction::Ignore));
    assert_eq!(scheduler.in_flight(), 1);
    assert_eq!(scheduler.backlog_len(), 0);
}

#[test]
fn links_are_resolved_against_the_page_they_stand_on() {
    let mut scheduler = FetchScheduler::new(8);
    assert_eq!(
        fetch(scheduler.on_link("https://example.org/a/b/", "3/", false)),
        "https://example.org/a/b/3/"
    );
    assert_eq!(
        fetch(scheduler.on_link("https://example.org/a/b", "3/", false)),
        "https://example.org/a/3/"
    );
    assert_eq!(
        fetch(scheduler.on_link("https://example.org/a/b/", "/9/", false)),
        "https://example.org/9/"
    );
}

#[test]
fn a_cap_of_zero_lets_only_the_root_through() {
    let mut scheduler = FetchScheduler::new(0);
    assert_eq!(scheduler.in_flight(), 1);
    assert!(matches!(scheduler.on_link(BASE, "1/", false), LinkAction::Queued));
    scheduler.fetch_completed();
    assert_eq!(scheduler.promote(), None);
    assert_eq!(scheduler.in_flight(), 0);
    assert_eq!(scheduler.backlog_len(), 1);
    assert!(!scheduler.is_finished());
}

/// Crawls a tree in which the page of depth `d` links to `fanout` pages of
/// depth `d + 1`, and returns the number of completed fetches and the
/// largest number outstanding at any time.
fn crawl(limit: usize, depth: usize, fanout: usize) -> (usize, usize) {
    let mut scheduler = FetchScheduler::new(limit);
    let mut outstanding: Vec<(String, usize)> = vec![(BASE.to_string(), 0)];
    let mut waiting: Vec<usize> = Vec::new();
    let mut completed = 0;
    let mut most = scheduler.in_flight();
    while !scheduler.is_finished() {
        let (page, level) = outstanding.remove(0);
        scheduler.fetch_completed();
        completed += 1;
        if level < depth {
            for n in 0..fanout {
                match scheduler.on_link(&page, &format!("{}/", n), false) {
                    LinkAction::Fetch(url) => outstanding.push((url, level + 1)),
                    LinkAction::Queued => waiting.push(level + 1),
                    other => panic!("a directory is fetched or queued, not {:?}", other),
                }
                most = most.max(scheduler.in_flight());
            }
        }
        if let Some(url) = scheduler.promote() {
            outstanding.push((url, waiting.pop().unwrap()));
        }
        most = most.max(scheduler.in_flight());
        assert_eq!(scheduler.in_flight(), outstanding.len());
        assert_eq!(scheduler.backlog_len(), waiting.len());
    }
    (completed, most)
}

#[test]
fn a_crawl_fetches_the_root_and_every_directory_once_within_the_cap() {
    // 1 + 3 + 9 + 27 pages
    assert_eq!(crawl(8, 3, 3), (40, 8));
    assert_eq!(crawl(1, 3, 3), (40, 1));
    assert_eq!(crawl(2, 2, 5), (31, 2));
    // each of the five pages below the root adds five and frees one slot
    assert_eq!(crawl(100, 2, 5), (31, 25));
    assert_eq!(crawl(4, 0, 7), (1, 1));
}
