use blog_listing::error::Error;
use blog_listing::tags::{aggregate_tags, SearchResult, TableTagData};

fn record(pairs: &[(&str, &str)]) -> TableTagData {
    TableTagData {
        tags: pairs.iter().map(|p| p.0.to_string()).collect(),
        search_tags: pairs.iter().map(|p| p.1.to_string()).collect(),
    }
}

fn entry(tag: &str, search_tag: &str) -> SearchResult {
    SearchResult { tag: tag.to_string(), search_tag: search_tag.to_string() }
}

#[test]
fn exists_tag_looks_at_the_tag_only() {
    let entries = vec![entry("rust", "rust"), entry("C++", "c%2B%2B")];
    assert!(SearchResult::exists_tag(&entries, "rust"));
    assert!(SearchResult::exists_tag(&entries, "C++"));
    assert!(!SearchResult::exists_tag(&entries, "c%2B%2B"));
    assert!(!SearchResult::exists_tag(&entries, "Rust"));
    assert!(!SearchResult::exists_tag(&[], "rust"));
}

#[test]
fn catalog_is_sorted_by_tag() {
    let records = vec![
        record(&[("verus", "verus"), ("aws", "aws")]),
        record(&[("rust", "rust")]),
    ];
    assert_eq!(
        aggregate_tags(&records),
        Ok(vec![entry("aws", "aws"), entry("rust", "rust"), entry("verus", "verus")])
    );
}

#[test]
fn catalog_holds_each_tag_once() {
    let records = vec![
        record(&[("rust", "rust"), ("aws", "aws")]),
        record(&[("aws", "aws"), ("rust", "rust"), ("aws", "aws")]),
    ];
    assert_eq!(aggregate_tags(&records), Ok(vec![entry("aws", "aws"), entry("rust", "rust")]));
}

#[test]
fn a_tag_keeps_the_search_tag_it_was_first_seen_with() {
    let records = vec![
        record(&[("Rust", "first")]),
        record(&[("Rust", "second"), ("Go", "go")]),
        record(&[("Go", "later")]),
    ];
    assert_eq!(aggregate_tags(&records), Ok(vec![entry("Go", "go"), entry("Rust", "first")]));
}

#[test]
fn first_occurrence_inside_one_record_wins() {
    let records = vec![record(&[("a", "1"), ("a", "2")])];
    assert_eq!(aggregate_tags(&records), Ok(vec![entry("a", "1")]));
}

#[test]
fn order_is_by_bytes_not_by_letter_case() {
    let records = vec![record(&[("b", "b"), ("B", "B"), ("a", "a"), ("日本", "%E6%97%A5"), ("", "")])];
    assert_eq!(
        aggregate_tags(&records),
        Ok(vec![entry("", ""), entry("B", "B"), entry("a", "a"), entry("b", "b"), entry("日本", "%E6%97%A5")])
    );
}

#[test]
fn no_records_give_an_empty_catalog() {
    assert_eq!(aggregate_tags(&Vec::new()), Ok(Vec::new()));
    assert_eq!(aggregate_tags(&vec![record(&[])]), Ok(Vec::new()));
}

#[test]
fn differing_list_lengths_are_refused() {
    let short = TableTagData {
        tags: vec!["a".to_string(), "b".to_string()],
        search_tags: vec!["a".to_string()],
    };
    assert_eq!(aggregate_tags(&vec![record(&[("x", "x")]), short]), Err(Error::TagListsDiffer));
    let long = TableTagData { tags: vec![], search_tags: vec!["a".to_string()] };
    assert_eq!(aggregate_tags(&vec![long]), Err(Error::TagListsDiffer));
}
