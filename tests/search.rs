use rtfm::highlight::{syntax_highlight, WordStyle};
use rtfm::search::{center_scroll, compute_matches, highlight_spans, next_match, prev_match};
use rtfm::text::{contains_chars, matches_folded, split_words};

fn lines(v: &[&str]) -> Vec<String> {
    v.iter().map(|s| s.to_string()).collect()
}

#[test]
fn matches_ignore_case_and_skip_empty_query() {
    let content = lines(&["NAME", "ls - list", "LS lists", "nothing"]);
    assert_eq!(compute_matches(&content, "ls"), vec![1, 2]);
    assert_eq!(compute_matches(&content, "Name"), vec![0]);
    assert!(compute_matches(&content, "").is_empty());
    assert!(compute_matches(&content, "absent").is_empty());
}

#[test]
fn folded_match_lowercases_both_sides() {
    assert!(matches_folded("GREP", "grep"));
    assert!(matches_folded("grep", "GREP"));
    assert!(!contains_chars("GREP", "grep"));
    assert!(contains_chars("egrep", "gre"));
    assert!(contains_chars("x", ""));
}

#[test]
fn cyclic_navigation_over_three_matches() {
    let matches = [3usize, 7, 12];
    let mut current = 0usize;
    let mut seen = Vec::new();
    for _ in 0..3 {
        current = next_match(matches.len(), current);
        seen.push(matches[current]);
    }
    assert_eq!(seen, vec![7, 12, 3]);
    assert_eq!(matches[prev_match(matches.len(), 0)], 12);
    assert_eq!(next_match(0, 0), 0);
    assert_eq!(prev_match(0, 0), 0);
}

#[test]
fn centring_a_line() {
    assert_eq!(center_scroll(40, 30), 25);
    assert_eq!(center_scroll(10, 30), 0);
    assert_eq!(center_scroll(15, 30), 0);
}

#[test]
fn spans_ignore_case_as_matching_does() {
    assert_eq!(highlight_spans("Foo", "foo"), vec![(0, 3)]);
    assert_eq!(highlight_spans("NAME and name", "Name"), vec![(0, 4), (9, 13)]);
    assert_eq!(highlight_spans("x \u{c9}T\u{c9}", "\u{e9}t\u{e9}"), vec![(2, 5)]);
    assert_eq!(highlight_spans("GREP grep", "grep"), vec![(0, 4), (5, 9)]);
}

#[test]
fn spans_mark_every_occurrence() {
    assert_eq!(highlight_spans("abcabc", "bc"), vec![(1, 3), (4, 6)]);
    assert_eq!(highlight_spans("aaaa", "aa"), vec![(0, 2), (2, 4)]);
    assert!(highlight_spans("abc", "").is_empty());
    assert!(highlight_spans("abc", "x").is_empty());
}

#[test]
fn words_split_at_white_space() {
    assert_eq!(split_words("  ls (1)\t- list \u{a0}x"), vec!["ls", "(1)", "-", "list", "x"]);
    assert!(split_words(" \n ").is_empty());
}

#[test]
fn syntax_highlight_styles_words() {
    let spans = syntax_highlight("OPTIONS: -a [FILE] <dir> plain");
    let got: Vec<(String, WordStyle)> = spans.into_iter().map(|s| (s.text, s.style)).collect();
    assert_eq!(
        got,
        vec![
            ("OPTIONS:".to_string(), WordStyle::Heading),
            (" ".to_string(), WordStyle::Plain),
            ("-a".to_string(), WordStyle::Option),
            (" ".to_string(), WordStyle::Plain),
            ("[FILE]".to_string(), WordStyle::Optional),
            (" ".to_string(), WordStyle::Plain),
            ("<dir>".to_string(), WordStyle::Argument),
            (" ".to_string(), WordStyle::Plain),
            ("plain".to_string(), WordStyle::Plain),
        ]
    );
    let spans = syntax_highlight("-v  verbose");
    assert_eq!(spans[0].style, WordStyle::LeadingOption);
    assert_eq!(spans.len(), 3);
    let spans = syntax_highlight("   ");
    assert_eq!(spans.len(), 1);
    assert_eq!(spans[0].text, "   ");
    assert_eq!(spans[0].style, WordStyle::Plain);
}
