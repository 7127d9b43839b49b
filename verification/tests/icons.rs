use dev_monitor::icons::{browse, is_known_icon, MAX_RESULTS};

const NAMES: &str = "check-circle\ncloud\ndatabase\nquestion\nwarning-circle\nx-circle\n";

#[test]
fn a_listed_name_is_a_known_icon() {
    assert!(is_known_icon(NAMES, "question"));
    assert!(is_known_icon(NAMES, "database"));
}

#[test]
fn an_unlisted_or_empty_name_is_not_an_icon() {
    assert!(!is_known_icon(NAMES, "definitely-not-an-icon"));
    assert!(!is_known_icon(NAMES, ""));
    assert!(!is_known_icon(NAMES, "circle"));
}

#[test]
fn browsing_lists_the_names_containing_the_folded_query_in_order() {
    assert_eq!(browse(NAMES, "CIRCLE"), vec!["check-circle", "warning-circle", "x-circle"]);
    assert_eq!(browse(NAMES, "zzz"), Vec::<String>::new());
}

#[test]
fn an_empty_query_lists_every_name_up_to_the_limit() {
    assert_eq!(browse(NAMES, "").len(), 6);
    let many: String = (0..100).map(|i| format!("icon-{i}\n")).collect();
    let shown = browse(&many, "");
    assert_eq!(shown.len(), MAX_RESULTS);
    assert_eq!(shown[0], "icon-0");
    assert_eq!(shown[59], "icon-59");
}
