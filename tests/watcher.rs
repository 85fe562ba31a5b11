use index_server::{ChangeKind, Document, FileStamp, InvertedIndex, WatchState};

fn stamp(path: &str, modified: u64) -> FileStamp {
    FileStamp { path: path.to_string(), modified }
}

fn events(changes: &[index_server::FileChange]) -> Vec<(String, ChangeKind)> {
    changes.iter().map(|c| (c.path.clone(), c.kind)).collect()
}

#[test]
fn first_poll_reports_every_file_as_created() {
    let mut state = WatchState::new();
    let changes = state.poll(&vec![stamp("a.txt", 1), stamp("b.txt", 2)]);
    assert_eq!(
        events(&changes),
        vec![("a.txt".to_string(), ChangeKind::Created), ("b.txt".to_string(), ChangeKind::Created)]
    );
}

#[test]
fn only_strictly_newer_times_are_modifications() {
    let mut state = WatchState::from_listing(&vec![stamp("a.txt", 5), stamp("b.txt", 5), stamp("c.txt", 5)]);
    let changes = state.poll(&vec![stamp("a.txt", 6), stamp("b.txt", 5), stamp("c.txt", 4), stamp("d.txt", 1)]);
    assert_eq!(
        events(&changes),
        vec![("a.txt".to_string(), ChangeKind::Modified), ("d.txt".to_string(), ChangeKind::Created)]
    );
    assert!(state.poll(&vec![stamp("a.txt", 6), stamp("b.txt", 5), stamp("c.txt", 4), stamp("d.txt", 1)]).is_empty());
}

#[test]
fn deleted_files_raise_no_event_and_are_forgotten() {
    let mut state = WatchState::from_listing(&vec![stamp("a.txt", 5)]);
    assert!(state.poll(&vec![]).is_empty());
    let changes = state.poll(&vec![stamp("a.txt", 5)]);
    assert_eq!(events(&changes), vec![("a.txt".to_string(), ChangeKind::Created)]);
}

#[test]
fn modified_file_round_trip() {
    let mut index = InvertedIndex::new();
    let old = index.add_document(Document { name: "a.txt".to_string(), content: "first draft".to_string() });
    let mut state = WatchState::from_listing(&vec![stamp("a.txt", 10)]);
    let changes = state.poll(&vec![stamp("a.txt", 11)]);
    assert_eq!(events(&changes), vec![("a.txt".to_string(), ChangeKind::Modified)]);
    let new = index.add_document(Document { name: "a.txt".to_string(), content: "second draft".to_string() });
    assert_eq!(index.search("second")[0].doc_id, new);
    assert_eq!(index.search("first")[0].doc_id, old);
    assert_eq!(index.search("draft").len(), 2);
}
