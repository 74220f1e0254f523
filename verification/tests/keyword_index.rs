use ferres_db_core::bm25::{tokenize, term_freqs, BM25Index};

#[test]
fn empty_index_returns_empty_search() {
    let index = BM25Index::new();
    assert!(index.matching_documents("hello").is_empty());
}

#[test]
fn index_and_search() {
    let mut index = BM25Index::new();
    index.index_document("d1", "hello world hello");
    index.index_document("d2", "world foo");
    index.index_document("d3", "hello foo bar");
    let results = index.matching_documents("hello world");
    assert!(results.len() <= 5);
    let ids: Vec<&str> = results.iter().map(|id| id.as_str()).collect();
    assert!(ids.contains(&"d1"));
    assert!(ids.contains(&"d2"));
    assert!(ids.contains(&"d3"));
}

#[test]
fn remove_document() {
    let mut index = BM25Index::new();
    index.index_document("d1", "hello world");
    index.index_document("d2", "foo bar");
    assert_eq!(index.len(), 2);
    index.remove_document("d1");
    assert_eq!(index.len(), 1);
    let results = index.matching_documents("hello");
    assert!(results.is_empty() || !results.iter().any(|id| id == "d1"));
}

#[test]
fn empty_text_not_indexed() {
    let mut index = BM25Index::new();
    index.index_document("d1", "  ");
    index.index_document("d2", "");
    assert_eq!(index.len(), 0);
}

#[test]
fn update_document() {
    let mut index = BM25Index::new();
    index.index_document("d1", "hello world");
    index.index_document("d1", "foo bar baz");
    assert_eq!(index.len(), 1);
    let results = index.matching_documents("hello");
    assert!(results.is_empty());
    let results = index.matching_documents("foo");
    assert_eq!(results.len(), 1);
    assert_eq!(results[0], "d1");
}

#[test]
fn tokenize_lowercases_and_splits_on_whitespace() {
    let toks = tokenize("  Hello\tWORLD  hello\n");
    assert_eq!(toks, vec!["hello".to_string(), "world".to_string(), "hello".to_string()]);
    assert!(tokenize(" \t\n ").is_empty());
}

#[test]
fn term_freqs_counts_each_term_once() {
    let toks = tokenize("a b a c a b");
    let freqs = term_freqs(&toks);
    assert_eq!(freqs.len(), 3);
    let count = |t: &str| freqs.iter().find(|tc| tc.term == t).map(|tc| tc.count);
    assert_eq!(count("a"), Some(3));
    assert_eq!(count("b"), Some(2));
    assert_eq!(count("c"), Some(1));
    assert_eq!(count("d"), None);
}

#[test]
fn index_statistics_follow_documents() {
    let mut index = BM25Index::new();
    assert!(index.is_empty());
    index.index_document("d1", "hello world hello");
    index.index_document("d2", "world foo");
    assert_eq!(index.num_docs(), 2);
    assert_eq!(index.total_len(), 5);
    assert_eq!(index.document_frequency("world"), 2);
    assert_eq!(index.document_frequency("hello"), 1);
    assert_eq!(index.document_frequency("absent"), 0);
    assert_eq!(index.doc_length("d1"), Some(3));
    assert_eq!(index.doc_length("d3"), None);
    assert_eq!(index.term_frequency("d1", "hello"), 2);
    assert_eq!(index.term_frequency("d2", "hello"), 0);
    // re-indexing replaces the old statistics
    index.index_document("d1", "foo");
    assert_eq!(index.total_len(), 3);
    assert_eq!(index.document_frequency("hello"), 0);
    assert_eq!(index.document_frequency("foo"), 2);
    let mut ids = index.doc_ids();
    ids.sort();
    assert_eq!(ids, vec!["d1".to_string(), "d2".to_string()]);
}

#[test]
fn index_then_remove_restores_empty_index() {
    let mut index = BM25Index::new();
    index.index_document("d1", "Some Words Here");
    index.remove_document("d1");
    assert_eq!(index.len(), 0);
    assert_eq!(index.total_len(), 0);
    assert_eq!(index.document_frequency("words"), 0);
    assert!(index.matching_documents("some words").is_empty());
}

#[test]
fn index_length_counts_ids_whose_last_call_indexed_text() {
    let mut index = BM25Index::new();
    index.index_document("a", "rust vector");
    index.index_document("b", "   ");
    index.index_document("c", "search engine");
    index.remove_document("c");
    index.index_document("d", "graph");
    index.index_document("a", "");
    index.index_document("e", "x");
    index.remove_document("missing");
    // a: last call indexed an empty text; b: whitespace only; c: removed.
    assert_eq!(index.len(), 2);
    assert_eq!(index.doc_length("d"), Some(1));
    assert_eq!(index.doc_length("e"), Some(1));
    assert_eq!(index.doc_length("a"), None);
    assert_eq!(index.doc_length("c"), None);
}

#[test]
fn tokenizer_splits_on_unicode_white_space() {
    assert_eq!(tokenize("a\u{3000}b\u{85}c\u{a0}\u{2003}d"), vec!["a", "b", "c", "d"]);
    assert_eq!(tokenize("  \t\n "), Vec::<String>::new());
    assert_eq!(tokenize("x\u{200b}y"), vec!["x\u{200b}y"]);
}

#[test]
fn index_tokens_takes_the_tokens_as_given() {
    let mut index = BM25Index::new();
    index.index_tokens("d", &vec!["Hello".to_string(), "hello".to_string(), "Hello".to_string()]);
    assert_eq!(index.doc_length("d"), Some(3));
    assert_eq!(index.term_frequency("d", "Hello"), 2);
    assert_eq!(index.term_frequency("d", "hello"), 1);
    index.index_tokens("d", &vec![]);
    assert_eq!(index.len(), 0);
}
