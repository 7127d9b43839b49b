use dev_monitor::trace_view::{remember_recent, RecentDoc, Status, RECENT_LIMIT};

fn doc(id: &str) -> RecentDoc {
    RecentDoc { document_id: id.to_string(), key: format!("key-{id}"), tone: Status::Done }
}

fn ids(list: &[RecentDoc]) -> Vec<&str> {
    list.iter().map(|d| d.document_id.as_str()).collect()
}

#[test]
fn a_traced_document_goes_to_the_top() {
    let mut list = vec![doc("A"), doc("B")];
    remember_recent(&mut list, doc("C"));
    assert_eq!(ids(&list), vec!["C", "A", "B"]);
}

#[test]
fn tracing_a_document_again_moves_it_rather_than_repeating_it() {
    let mut list = vec![doc("A"), doc("B"), doc("C")];
    let mut again = doc("B");
    again.tone = Status::Failed;
    remember_recent(&mut list, again);
    assert_eq!(ids(&list), vec!["B", "A", "C"]);
    assert_eq!(list[0].tone, Status::Failed);
}

#[test]
fn the_list_keeps_only_the_newest_eight() {
    let mut list = Vec::new();
    for i in 0..10 {
        remember_recent(&mut list, doc(&i.to_string()));
    }
    assert_eq!(list.len(), RECENT_LIMIT);
    assert_eq!(ids(&list), vec!["9", "8", "7", "6", "5", "4", "3", "2"]);
}
