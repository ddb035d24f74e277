use md_image_cleaner::cleanup::{delete_report, DeleteReport};

fn strings(items: &[&str]) -> Vec<String> {
    items.iter().map(|s| s.to_string()).collect()
}

#[test]
fn report_counts_what_was_removed() {
    let report = delete_report(&strings(&["a.png", "b.png", "c.png"]), &vec![true, false, true]);
    assert_eq!(
        report,
        DeleteReport {
            count: 2,
            deleted: strings(&["a.png", "c.png"]),
            failures: strings(&["b.png"]),
        }
    );
}

#[test]
fn report_of_nothing_is_empty() {
    let report = delete_report(&vec![], &vec![]);
    assert_eq!(report, DeleteReport { count: 0, deleted: vec![], failures: vec![] });
    let report = delete_report(&vec![], &vec![true, true]);
    assert_eq!(report, DeleteReport { count: 0, deleted: vec![], failures: vec![] });
}

#[test]
fn report_takes_a_missing_outcome_for_a_failure() {
    let report = delete_report(&strings(&["a.png", "b.png"]), &vec![true]);
    assert_eq!(
        report,
        DeleteReport { count: 1, deleted: strings(&["a.png"]), failures: strings(&["b.png"]) }
    );
}
