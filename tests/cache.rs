use rtfm::cache::{placeholder, CacheLookup, ContentCache, FetchError, PageSource};
use rtfm::man_db::{parse_line, ManDb};

const MOCK_MAN_OUTPUT: &str = "
    ls (1)               - list directory contents
    git (1)              - the stupid content tracker
    printf (3)           - formatted output conversion
    printf (1)           - format and print data
    docker-compose (1)   - define and run multi-container applications
    ";

#[test]
fn test_cache_behavior() {
    let mut man_db = ManDb::from_listing(MOCK_MAN_OUTPUT, 1);
    assert!(matches!(man_db.request_page("ls", PageSource::Man), CacheLookup::Fetch));
    let fetched = vec!["LS(1)".to_string(), "NAME".to_string(), "ls - list".to_string()];
    let content = man_db.complete_page("ls", PageSource::Man, Ok(fetched));
    assert!(!content.is_empty());

    let cached_content = match man_db.request_page("ls", PageSource::Man) {
        CacheLookup::Hit(h) => h,
        _ => panic!("the page was stored"),
    };
    assert_eq!(content.len(), cached_content.len());

    assert!(man_db.cached_page("ls", PageSource::Man).is_some());
}

#[test]
fn a_second_request_waits_for_the_first_fetch() {
    let mut cache = ContentCache::new();
    assert!(matches!(cache.request("git", PageSource::Tldr), CacheLookup::Fetch));
    assert!(matches!(cache.request("git", PageSource::Tldr), CacheLookup::Wait));
    assert!(matches!(cache.request("git", PageSource::Man), CacheLookup::Fetch));
    let page = cache.complete("git", PageSource::Tldr, Ok(vec!["git".to_string()]));
    assert_eq!(*page, vec!["git".to_string()]);
    match cache.request("git", PageSource::Tldr) {
        CacheLookup::Hit(h) => assert_eq!(*h, vec!["git".to_string()]),
        _ => panic!("the page was stored"),
    }
}

#[test]
fn a_stored_page_is_kept() {
    let mut cache = ContentCache::new();
    cache.request("ls", PageSource::Man);
    cache.complete("ls", PageSource::Man, Ok(vec!["first".to_string()]));
    let again = cache.complete("ls", PageSource::Man, Ok(vec!["second".to_string()]));
    assert_eq!(*again, vec!["first".to_string()]);
    assert_eq!(*cache.get("ls", PageSource::Man).unwrap(), vec!["first".to_string()]);
    assert!(cache.get("ls", PageSource::Tldr).is_none());
}

#[test]
fn failed_fetches_store_a_placeholder() {
    let mut cache = ContentCache::new();
    cache.request("nosuch", PageSource::Man);
    let page = cache.complete("nosuch", PageSource::Man, Err(FetchError::Failed));
    assert_eq!(*page, vec!["Failed to load man page: nosuch".to_string()]);
    let page = cache.complete("nosuch", PageSource::Tldr, Err(FetchError::Unavailable));
    assert_eq!(*page, vec!["Failed to load tldr page: nosuch".to_string()]);
    assert_eq!(placeholder("x", PageSource::Tldr), vec!["Failed to load tldr page: x".to_string()]);
    assert!(matches!(cache.request("nosuch", PageSource::Man), CacheLookup::Hit(_)));
}

#[test]
fn listing_keeps_the_section_sorted_and_deduplicated() {
    let db = ManDb::from_listing(MOCK_MAN_OUTPUT, 1);
    assert_eq!(*db.get_commands(), vec!["docker-compose", "git", "ls", "printf"]);
    assert_eq!(db.commands_starting_with("p"), vec!["printf"]);
    assert_eq!(db.get_description("printf").as_deref(), Some("format and print data"));
    assert_eq!(db.get_description("ls").as_deref(), Some("list directory contents"));
    assert_eq!(db.get_description("cat"), None);
    let db3 = ManDb::from_listing(MOCK_MAN_OUTPUT, 3);
    assert_eq!(*db3.get_commands(), vec!["printf"]);
    assert_eq!(db3.get_description("printf").as_deref(), Some("formatted output conversion"));
}

#[test]
fn listing_lines_are_read_field_by_field() {
    let e = parse_line("  ls (1)   -  list directory contents \r", 1).unwrap();
    assert_eq!(e, ("ls".to_string(), "list directory contents".to_string()));
    let e = parse_line("git-log (1), git-whatchanged (1) - show logs", 1).unwrap();
    assert_eq!(e.0, "git-log");
    assert!(parse_line("ls (1) list directory contents", 1).is_none());
    assert!(parse_line("printf (3) - formatted output", 1).is_none());
    assert!(parse_line("noparen - text", 1).is_none());
    assert!(parse_line("odd (x) - text", 0).is_none());
}

#[test]
fn duplicate_names_keep_the_last_description() {
    let db = ManDb::from_listing("a (1) - first\na (1) - second\nb (1) - other\n", 1);
    assert_eq!(*db.get_commands(), vec!["a", "b"]);
    assert_eq!(db.get_description("a").as_deref(), Some("second"));
}
