use pcbmotorgen::tally::{tally_item_results, ItemCreationResult, ItemStatus, MAX_FAILURES_TO_REPORT};

fn item(code: i32, error_message: &str) -> ItemCreationResult {
    ItemCreationResult { status: Some(ItemStatus { code, error_message: error_message.to_string() }), item: None }
}

#[test]
fn test_tally_counts_successes_and_failures() {
    let results = vec![item(1, ""), item(7, "no overlap"), item(2, "bad type"), item(1, "")];
    let (created, failures, summary) = tally_item_results(&results);
    assert_eq!(created, 2, "2 ISC_OK items");
    assert_eq!(failures.len(), 2, "2 rejections surfaced");
    assert!(failures[0].contains("code=7"));
    assert!(failures[0].contains("no overlap"));
    assert!(failures[1].contains("code=2"));
    assert_eq!(summary, vec![(2, 1), (7, 1)], "sorted by count desc, code asc");
}

#[test]
fn test_tally_groups_by_code_and_sorts_count_descending() {
    let results: Vec<ItemCreationResult> =
        vec![item(2, "a"), item(7, "b"), item(7, "c"), item(7, "d"), item(7, "e"), item(1, "")];
    let (created, failures, summary) = tally_item_results(&results);
    assert_eq!(created, 1);
    assert_eq!(failures.len(), 5);
    assert_eq!(summary, vec![(7, 4), (2, 1)], "most frequent failure first");
}

#[test]
fn test_tally_caps_surfaced_failures_but_summary_stays_complete() {
    let mut results: Vec<ItemCreationResult> = (0..1500).map(|_| item(7, "rejected")).collect();
    results.push(item(1, ""));
    let (created, failures, summary) = tally_item_results(&results);
    assert_eq!(created, 1);
    assert_eq!(failures.len(), MAX_FAILURES_TO_REPORT);
    assert_eq!(summary, vec![(7, 1500)]);
}

#[test]
fn test_tally_missing_status_is_a_failure() {
    let results = vec![ItemCreationResult { status: None, item: None }];
    let (created, failures, summary) = tally_item_results(&results);
    assert_eq!(created, 0);
    assert_eq!(failures, vec!["item 0: code=0: <no error message>".to_string()]);
    assert_eq!(summary, vec![(0, 1)]);
}

#[test]
fn tally_failure_message_format() {
    let results = vec![item(1, ""), item(7, "no overlap")];
    let (_, failures, _) = tally_item_results(&results);
    assert_eq!(failures, vec!["item 1: code=7: no overlap".to_string()]);
}

#[test]
fn tally_counts_add_up_to_the_items() {
    let results = vec![item(1, ""), item(3, "x"), item(3, "y"), item(1, ""), item(5, "z")];
    let (created, failures, summary) = tally_item_results(&results);
    let rejected: u32 = summary.iter().map(|(_, n)| *n).sum();
    assert_eq!(created + rejected, results.len() as u32);
    assert_eq!(failures.len() as u32, rejected);
}

#[test]
fn tally_empty_response() {
    let (created, failures, summary) = tally_item_results(&[]);
    assert_eq!(created, 0);
    assert!(failures.is_empty());
    assert!(summary.is_empty());
}

#[test]
fn summary_and_successes_account_for_every_result() {
    let mut results: Vec<ItemCreationResult> = Vec::new();
    for i in 0..1500 {
        let code = match i % 5 {
            0 => 1,
            1 | 2 => 7,
            3 => 2,
            _ => -4,
        };
        results.push(item(code, ""));
    }
    results.push(ItemCreationResult { status: None, item: None });
    let (created, failures, summary) = tally_item_results(&results);
    let total: u32 = summary.iter().map(|(_, n)| n).sum();
    assert_eq!(created as usize + total as usize, results.len());
    assert_eq!(failures.len(), MAX_FAILURES_TO_REPORT);
    assert_eq!(summary, vec![(7, 600), (-4, 300), (2, 300), (0, 1)]);
}
