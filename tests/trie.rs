use rtfm::trie::Trie;

#[test]
fn test_trie_insert_and_search() {
    let mut trie = Trie::new();
    trie.insert("rust");
    trie.insert("ruby");
    trie.insert("python");
    trie.insert("pythonic");

    let results = trie.words_starting_with("ru");
    assert_eq!(results, vec!["ruby", "rust"]);

    let results = trie.words_starting_with("rust");
    assert_eq!(results, vec!["rust"]);

    let results = trie.words_starting_with("java");
    assert!(results.is_empty());
}

#[test]
fn test_trie_case_sensitivity() {
    let mut trie = Trie::new();
    trie.insert("Rust");
    trie.insert("rust");
    trie.insert("RUST");

    let results = trie.words_starting_with("rus");
    assert_eq!(results, vec!["rust"]);

    let results = trie.words_starting_with("Rus");
    assert_eq!(results, vec!["Rust"]);
}

#[test]
fn test_trie_special_characters() {
    let mut trie = Trie::new();
    trie.insert("docker-compose");
    trie.insert("git@github.com");
    trie.insert("100daysofcode");

    let results = trie.words_starting_with("docker");
    assert_eq!(results, vec!["docker-compose"]);

    let results = trie.words_starting_with("git@");
    assert_eq!(results, vec!["git@github.com"]);

    let results = trie.words_starting_with("100");
    assert_eq!(results, vec!["100daysofcode"]);
}

#[test]
fn trie_results_do_not_depend_on_insertion_order() {
    let words = ["gzip", "git", "grep", "gitk", "ls", "git", "g"];
    let mut forward = Trie::new();
    for w in words.iter() {
        forward.insert(w);
    }
    let mut backward = Trie::new();
    for w in words.iter().rev() {
        backward.insert(w);
    }
    let expected = vec!["g", "git", "gitk", "grep", "gzip"];
    assert_eq!(forward.words_starting_with("g"), expected);
    assert_eq!(backward.words_starting_with("g"), expected);
    assert_eq!(forward.words_starting_with(""), vec!["g", "git", "gitk", "grep", "gzip", "ls"]);
}

#[test]
fn trie_empty_prefix_on_empty_trie() {
    let trie = Trie::new();
    assert!(trie.words_starting_with("").is_empty());
    assert!(trie.words_starting_with("a").is_empty());
}

#[test]
fn trie_orders_by_code_point() {
    let mut trie = Trie::new();
    for w in ["b", "B", "a", "\u{e9}", "ab", "aB", "a-b"].iter() {
        trie.insert(w);
    }
    assert_eq!(
        trie.words_starting_with(""),
        vec!["B", "a", "a-b", "aB", "ab", "b", "\u{e9}"]
    );
}

#[test]
fn trie_from_words_holds_each_word_once() {
    let words: Vec<String> = vec!["ls".to_string(), "lsblk".to_string(), "ls".to_string()];
    let trie = Trie::from_words(&words);
    assert_eq!(trie.words_starting_with("ls"), vec!["ls", "lsblk"]);
}
