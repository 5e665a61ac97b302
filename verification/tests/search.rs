use blog_listing::post::PostSummary;
use blog_listing::search::{combine_matches, join_terms, separates, split_terms};

fn found(slag: &str) -> PostSummary {
    PostSummary {
        slag: slag.to_string(),
        title: slag.to_uppercase(),
        created_at: "2024-01-01".to_string(),
        updated_at: "2024-01-02".to_string(),
    }
}

fn keys(posts: &[PostSummary]) -> Vec<String> {
    posts.iter().map(|p| p.slag.clone()).collect()
}

#[test]
fn a_post_found_again_is_left_out() {
    let matches = vec![vec![found("A"), found("B"), found("C")], vec![found("B")]];
    let result = combine_matches(matches);
    assert_eq!(keys(&result), vec!["A", "C"]);
    assert_eq!(result[0], found("A"));
}

#[test]
fn one_term_returns_what_it_found() {
    let result = combine_matches(vec![vec![found("A"), found("B")]]);
    assert_eq!(keys(&result), vec!["A", "B"]);
}

#[test]
fn no_terms_find_nothing() {
    assert_eq!(combine_matches(Vec::new()), Vec::new());
}

#[test]
fn later_terms_only_take_away() {
    let matches = vec![
        vec![found("A"), found("B"), found("C"), found("D")],
        vec![found("D"), found("X")],
        vec![],
        vec![found("A"), found("A")],
    ];
    assert_eq!(keys(&combine_matches(matches)), vec!["B", "C"]);
}

#[test]
fn the_same_key_twice_in_the_first_list_goes_or_stays_together() {
    let kept = combine_matches(vec![vec![found("A"), found("B"), found("A")], vec![found("B")]]);
    assert_eq!(keys(&kept), vec!["A", "A"]);
    let gone = combine_matches(vec![vec![found("A"), found("B"), found("A")], vec![found("A")]]);
    assert_eq!(keys(&gone), vec!["B"]);
}

#[test]
fn comparison_is_by_key_only() {
    let mut other = found("B");
    other.title = "another title".to_string();
    let result = combine_matches(vec![vec![found("A"), found("B")], vec![other]]);
    assert_eq!(keys(&result), vec!["A"]);
}

#[test]
fn terms_are_the_runs_between_whitespace() {
    assert_eq!(split_terms("rust aws"), vec!["rust", "aws"]);
    assert_eq!(split_terms("  rust \t\n aws  "), vec!["rust", "aws"]);
    assert_eq!(split_terms("rust"), vec!["rust"]);
    assert_eq!(split_terms("a a b"), vec!["a", "a", "b"]);
    assert_eq!(split_terms(""), Vec::<String>::new());
    assert_eq!(split_terms("   "), Vec::<String>::new());
    assert_eq!(split_terms("日本\u{3000}語"), vec!["日本", "語"]);
}

#[test]
fn splitting_agrees_with_std() {
    let texts = ["", " ", "a", " a", "a ", "a b", "a\u{00a0}b", "a\u{2003}b\u{2028}c", "x\u{0085}y", "a\u{200b}b", "\u{1680}q\u{205f}"];
    for text in texts {
        let expected: Vec<String> = text.split_whitespace().map(|t| t.to_string()).collect();
        assert_eq!(split_terms(text), expected);
    }
}

#[test]
fn whitespace_agrees_with_std() {
    for code in 0u32..0x3100 {
        if let Some(c) = char::from_u32(code) {
            assert_eq!(separates(c), c.is_whitespace());
        }
    }
    assert!(!separates('\u{feff}'));
}

#[test]
fn terms_are_joined_with_the_separator_between_them() {
    let terms = vec!["verified".to_string(), "rust".to_string(), "code".to_string()];
    assert_eq!(join_terms(&terms, "-"), "verified-rust-code");
    assert_eq!(join_terms(&terms[..1].to_vec(), "-"), "verified");
    assert_eq!(join_terms(&Vec::new(), "-"), "");
    assert_eq!(join_terms(&terms, ""), "verifiedrustcode");
    assert_eq!(join_terms(&terms, ", "), "verified, rust, code");
}
