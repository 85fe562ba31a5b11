use index_server::{DocReference, Document, InvertedIndex};

fn doc(name: &str, content: &str) -> Document {
    Document { name: name.to_string(), content: content.to_string() }
}

fn ids(results: &[DocReference]) -> Vec<usize> {
    results.iter().map(|r| r.doc_id).collect()
}

#[test]
fn tokenize_lowercases_splits_and_trims() {
    let index = InvertedIndex::new();
    assert_eq!(
        index.tokenize("Hello, World! ...foo-bar... (Rust)"),
        vec!["hello", "world", "foo-bar", "rust"]
    );
}

#[test]
fn tokenize_drops_tokens_without_alphanumerics() {
    let index = InvertedIndex::new();
    assert_eq!(index.tokenize("  !!! -- ?  "), Vec::<String>::new());
    assert_eq!(index.tokenize(""), Vec::<String>::new());
}

#[test]
fn tokenize_splits_on_unicode_whitespace() {
    let index = InvertedIndex::new();
    assert_eq!(index.tokenize("a\tb\nc\u{3000}d\u{a0}e"), vec!["a", "b", "c", "d", "e"]);
}

#[test]
fn tokenize_handles_non_ascii_letters() {
    let index = InvertedIndex::new();
    assert_eq!(index.tokenize("ÉCOLE «Straße»"), vec!["école", "straße"]);
}

#[test]
fn ids_are_dense_from_zero() {
    let mut index = InvertedIndex::new();
    assert_eq!(index.add_document(doc("a", "one")), 0);
    assert_eq!(index.add_document(doc("b", "two")), 1);
    assert_eq!(index.add_document(doc("c", "three")), 2);
    assert_eq!(index.document_count(), 3);
}

#[test]
fn term_count_counts_distinct_terms() {
    let mut index = InvertedIndex::new();
    assert_eq!(index.term_count(), 0);
    index.add_document(doc("a", "Rust is fast, rust is safe"));
    assert_eq!(index.term_count(), 4);
    index.add_document(doc("b", "Go is simple"));
    assert_eq!(index.term_count(), 6);
}

#[test]
fn get_document_on_unissued_id_is_none() {
    let mut index = InvertedIndex::new();
    assert!(index.get_document(0).is_none());
    index.add_document(doc("a.txt", "Rust is fast"));
    assert!(index.get_document(1).is_none());
    assert!(index.get_document(usize::MAX).is_none());
    let d = index.get_document(0).unwrap();
    assert_eq!(d.name, "a.txt");
    assert_eq!(d.content, "Rust is fast");
}

#[test]
fn corpus_scenario() {
    let mut index = InvertedIndex::new();
    let a = index.add_document(doc("a.txt", "Rust is fast"));
    let b = index.add_document(doc("b.txt", "Go is simple"));
    assert_eq!(ids(&index.search("is")), vec![a, b]);
    assert_eq!(ids(&index.search("fast")), vec![a]);
    assert!(index.search("slow").is_empty());
}

#[test]
fn single_term_from_content_finds_document() {
    let mut index = InvertedIndex::new();
    index.add_document(doc("x", "alpha beta"));
    let content = "The quick, brown FOX!";
    let id = index.add_document(doc("y", content));
    for term in index.tokenize(content) {
        assert!(ids(&index.search(&term)).contains(&id), "term {}", term);
    }
}

#[test]
fn multi_term_query_is_a_conjunction() {
    let mut index = InvertedIndex::new();
    let d0 = index.add_document(doc("0", "a b c"));
    index.add_document(doc("1", "a c"));
    let d2 = index.add_document(doc("2", "b a"));
    index.add_document(doc("3", "b"));
    assert_eq!(ids(&index.search("a b")), vec![d0, d2]);
    assert_eq!(ids(&index.search("B A")), vec![d0, d2]);
    assert_eq!(ids(&index.search("a b c")), vec![d0]);
}

#[test]
fn absent_term_empties_the_result() {
    let mut index = InvertedIndex::new();
    index.add_document(doc("0", "a b c"));
    index.add_document(doc("1", "a b"));
    assert!(index.search("a zzz").is_empty());
    assert!(index.search("zzz a").is_empty());
    assert!(index.search("a b zzz").is_empty());
}

#[test]
fn query_without_terms_matches_nothing() {
    let mut index = InvertedIndex::new();
    index.add_document(doc("0", "a b c"));
    assert!(index.search("").is_empty());
    assert!(index.search(" ... !! ").is_empty());
}

#[test]
fn narrowing_to_nothing_stays_empty() {
    let mut index = InvertedIndex::new();
    index.add_document(doc("0", "a"));
    index.add_document(doc("1", "b"));
    index.add_document(doc("2", "c"));
    assert!(index.search("a b c").is_empty());
}

#[test]
fn matches_counts_occurrences_of_first_term() {
    let mut index = InvertedIndex::new();
    let d = index.add_document(doc("0", "rust Rust RUST! is fast, fast"));
    assert_eq!(index.search("rust"), vec![DocReference { doc_id: d, matches: 3 }]);
    assert_eq!(index.search("fast rust"), vec![DocReference { doc_id: d, matches: 2 }]);
    assert_eq!(index.search("is"), vec![DocReference { doc_id: d, matches: 1 }]);
}

#[test]
fn reindexed_content_keeps_old_document() {
    let mut index = InvertedIndex::new();
    let old = index.add_document(doc("a.txt", "old words"));
    let new = index.add_document(doc("a.txt", "new words"));
    assert_eq!(ids(&index.search("new")), vec![new]);
    assert_eq!(ids(&index.search("old")), vec![old]);
    assert_eq!(ids(&index.search("words")), vec![old, new]);
}
