use rtfm::cache::PageSource;
use rtfm::session::{Action, AppState, Focus, KeyCode, KeyPress};
use std::sync::Arc;

fn key(code: KeyCode) -> KeyPress {
    KeyPress { code, ctrl: false }
}

fn ch(c: char) -> KeyPress {
    key(KeyCode::Char(c))
}

fn names(v: &[&str]) -> Vec<String> {
    v.iter().map(|s| s.to_string()).collect()
}

fn page(n: usize, hits: &[usize]) -> Arc<Vec<String>> {
    Arc::new(
        (0..n)
            .map(|i| if hits.contains(&i) { format!("line {i} Needle") } else { format!("line {i}") })
            .collect(),
    )
}

/// A session showing `content` as the page of its first command, with the
/// page focused.
fn session_with_page(content: Arc<Vec<String>>) -> AppState {
    let mut app = AppState::new(names(&["ls"]), 0);
    let req = app.tick(200).expect("the first page is due");
    assert_eq!(req.command, "ls");
    app.finish_load(&req, content);
    app.handle_key(key(KeyCode::Tab), 300);
    assert_eq!(app.focus(), Focus::ManPage);
    app
}

#[test]
fn search_navigation_wraps_both_ways() {
    let mut app = session_with_page(page(20, &[3, 7, 12]));
    app.handle_key(ch('/'), 400);
    assert_eq!(app.focus(), Focus::Search);
    for c in "needle".chars() {
        app.handle_key(ch(c), 400);
    }
    app.handle_key(key(KeyCode::Enter), 400);
    assert_eq!(app.focus(), Focus::ManPage);
    assert_eq!(*app.matches(), vec![3, 7, 12]);
    assert_eq!(app.current_match(), 0);
    let mut seen = Vec::new();
    for _ in 0..3 {
        app.handle_key(ch('n'), 500);
        seen.push(app.matches()[app.current_match()]);
    }
    assert_eq!(seen, vec![7, 12, 3]);
    assert_eq!(app.current_match(), 0);
    app.handle_key(ch('N'), 500);
    assert_eq!(app.matches()[app.current_match()], 12);
    assert_eq!(app.match_position(12), Some(2));
    assert_eq!(app.match_position(4), None);
}

#[test]
fn search_centres_the_first_match_and_cancels() {
    let mut app = session_with_page(page(100, &[40, 90]));
    app.handle_key(ch('f'), 400);
    for c in "NEEDLE".chars() {
        app.handle_key(ch(c), 400);
    }
    assert_eq!(app.scroll_offset(), 25);
    app.handle_key(key(KeyCode::Esc), 400);
    assert_eq!(app.focus(), Focus::ManPage);
    assert!(app.query().is_empty());
    assert!(app.matches().is_empty());
    app.handle_key(key(KeyCode::Esc), 400);
    assert_eq!(app.focus(), Focus::CommandList);
}

#[test]
fn centring_a_match_stays_within_the_page() {
    let mut app = session_with_page(page(40, &[39]));
    app.handle_key(ch('/'), 400);
    for c in "needle".chars() {
        app.handle_key(ch(c), 400);
    }
    app.handle_key(key(KeyCode::Enter), 400);
    assert_eq!(*app.matches(), vec![39]);
    assert_eq!(app.scroll_offset(), 10);
    app.handle_key(ch('n'), 500);
    assert_eq!(app.scroll_offset(), 10);
}

#[test]
fn highlighted_lines_match_ignoring_case() {
    let mut app = session_with_page(Arc::new(vec!["NAME".to_string(), "other".to_string()]));
    app.handle_key(ch('/'), 400);
    for c in "name".chars() {
        app.handle_key(ch(c), 400);
    }
    assert_eq!(*app.matches(), vec![0]);
    assert_eq!(rtfm::search::highlight_spans("NAME", app.query()), vec![(0, 4)]);
}

#[test]
fn debounce_with_a_step_every_frame() {
    let mut app = AppState::new(names(&["egrep", "grep", "grepdiff", "ls"]), 0);
    let first = app.tick(200).expect("the first page is due");
    app.finish_load(&first, Arc::new(vec!["EGREP".to_string()]));
    let mut loads = Vec::new();
    let mut t = 1000u64;
    for c in "grepd".chars() {
        app.handle_key(ch(c), t);
        for step in 0..2 {
            if let Some(r) = app.tick(t + step * 10) {
                loads.push(r.command);
            }
        }
        t += 20;
    }
    let last = t - 20;
    while t <= last + 400 {
        if let Some(r) = app.tick(t) {
            loads.push(r.command);
        }
        t += 16;
    }
    assert_eq!(loads, vec!["grepdiff".to_string()]);
}

#[test]
fn debounce_coalesces_a_burst_of_typing() {
    let mut app = AppState::new(names(&["egrep", "grep", "grepdiff", "ls"]), 0);
    let first = app.tick(200).expect("the first page is due");
    app.finish_load(&first, Arc::new(vec!["EGREP".to_string()]));
    let mut loads = 0;
    let times = [1000u64, 1020, 1040, 1060, 1080];
    for (i, c) in "grepd".chars().enumerate() {
        app.handle_key(ch(c), times[i]);
        let next = if i + 1 < times.len() { times[i + 1] } else { times[i] };
        if app.tick(next).is_some() {
            loads += 1;
        }
    }
    assert_eq!(loads, 0);
    assert!(app.pending_load());
    assert!(app.tick(1230).is_none());
    let req = app.tick(1231).expect("one load after the quiet time");
    assert_eq!(req.command, "grepdiff");
    assert_eq!(req.source, PageSource::Man);
    assert!(app.tick(5000).is_none());
}

#[test]
fn scroll_is_clamped_to_the_page() {
    let mut app = session_with_page(page(40, &[]));
    app.scroll_to_bottom();
    assert_eq!(app.scroll_offset(), 10);
    app.scroll_to_top();
    assert_eq!(app.scroll_offset(), 0);
    app.handle_key(key(KeyCode::End), 400);
    assert_eq!(app.scroll_offset(), 10);
    app.handle_key(key(KeyCode::Down), 400);
    assert_eq!(app.scroll_offset(), 10);
    app.handle_key(key(KeyCode::PageUp), 400);
    assert_eq!(app.scroll_offset(), 0);
    app.handle_key(key(KeyCode::Up), 400);
    assert_eq!(app.scroll_offset(), 0);
    app.handle_key(key(KeyCode::PageDown), 400);
    assert_eq!(app.scroll_offset(), 10);
    app.handle_key(KeyPress { code: KeyCode::Home, ctrl: true }, 400);
    assert_eq!(app.scroll_offset(), 0);
    app.handle_key(KeyPress { code: KeyCode::End, ctrl: true }, 400);
    assert_eq!(app.scroll_offset(), 10);
    let mut short = session_with_page(page(5, &[]));
    short.handle_key(key(KeyCode::PageDown), 400);
    assert_eq!(short.scroll_offset(), 0);
    assert_eq!(short.visible_lines(30), (0, 5));
}

#[test]
fn an_empty_list_is_a_defined_state() {
    let mut app = AppState::new(names(&["ls", "grep"]), 0);
    app.handle_key(ch('z'), 10);
    assert!(app.filtered_commands().is_empty());
    assert_eq!(app.selected_index(), 0);
    assert!(app.selected_command().is_none());
    app.handle_key(key(KeyCode::Up), 20);
    app.handle_key(key(KeyCode::Down), 30);
    assert!(matches!(app.handle_key(key(KeyCode::Enter), 40), Action::Continue));
    assert_eq!(app.selected_index(), 0);
    assert!(app.tick(1000).is_none());
    assert_eq!(*app.content(), vec!["No commands found".to_string()]);
    assert!(!app.pending_load());
}

#[test]
fn filter_is_case_insensitive_and_resets_selection() {
    let mut app = AppState::new(names(&["Grep", "ls", "pgrep", "zgrep"]), 0);
    app.handle_key(key(KeyCode::Down), 1);
    assert_eq!(app.selected_index(), 1);
    app.handle_key(ch('G'), 2);
    app.handle_key(ch('R'), 3);
    assert_eq!(*app.filtered_commands(), vec!["Grep", "pgrep", "zgrep"]);
    assert_eq!(app.selected_index(), 0);
    assert_eq!(app.filter_text(), "GR");
    app.handle_key(key(KeyCode::Backspace), 4);
    app.handle_key(key(KeyCode::Backspace), 5);
    app.handle_key(key(KeyCode::Backspace), 6);
    assert_eq!(app.filtered_commands().len(), 4);
}

#[test]
fn list_navigation_follows_the_window() {
    let many: Vec<String> = (0..120).map(|i| format!("cmd{i:03}")).collect();
    let mut app = AppState::new(many, 0);
    app.set_list_height(10);
    app.handle_key(key(KeyCode::PageDown), 1);
    assert_eq!(app.selected_index(), 50);
    assert_eq!(app.list_scroll(), 41);
    app.handle_key(key(KeyCode::PageDown), 2);
    app.handle_key(key(KeyCode::PageDown), 3);
    assert_eq!(app.selected_index(), 119);
    assert_eq!(app.list_scroll(), 110);
    app.handle_key(key(KeyCode::Up), 4);
    assert_eq!(app.list_scroll(), 110);
    app.handle_key(key(KeyCode::PageUp), 5);
    assert_eq!(app.selected_index(), 68);
    assert_eq!(app.list_scroll(), 68);
    app.handle_key(key(KeyCode::Home), 6);
    assert_eq!((app.selected_index(), app.list_scroll()), (0, 0));
    assert_eq!(app.visible_commands(10), (0, 10));
    app.handle_key(key(KeyCode::End), 7);
    assert_eq!(app.selected_command().map(|s| s.as_str()), Some("cmd119"));
}

#[test]
fn enter_loads_at_once_and_stale_pages_are_dropped() {
    let mut app = AppState::new(names(&["cat", "ls"]), 0);
    let req = match app.handle_key(key(KeyCode::Enter), 5) {
        Action::Load(r) => r,
        _ => panic!("Enter loads the selection"),
    };
    assert_eq!(req.command, "cat");
    assert!(app.is_loading());
    assert!(!app.pending_load());
    app.handle_key(key(KeyCode::Down), 6);
    app.finish_load(&req, Arc::new(vec!["CAT".to_string()]));
    assert!(app.content().is_empty());
    let req = app.tick(200).expect("the new selection is due");
    assert_eq!(req.command, "ls");
    app.finish_load(&req, Arc::new(vec!["LS".to_string()]));
    assert_eq!(*app.content(), vec!["LS".to_string()]);
    assert!(!app.is_loading());
}

#[test]
fn source_toggle_reloads_the_same_command() {
    let mut app = session_with_page(page(3, &[]));
    assert_eq!(app.status_text(), "RTFM // MAN PAGE [Tab:Switch /:Search t:Toggle Home/End]");
    app.handle_key(ch('t'), 1000);
    assert_eq!(app.page_source(), PageSource::Tldr);
    assert!(app.pending_load());
    let req = app.tick(1151).expect("the toggled page is due");
    assert_eq!(req.command, "ls");
    assert_eq!(req.source, PageSource::Tldr);
    assert_eq!(app.status_text(), "Loading TLDR...");
}

#[test]
fn quit_keys_and_focus_toggle() {
    let mut app = AppState::new(names(&["ls"]), 0);
    assert!(matches!(app.handle_key(ch('q'), 1), Action::Quit));
    assert!(matches!(
        app.handle_key(KeyPress { code: KeyCode::Char('c'), ctrl: true }, 1),
        Action::Quit
    ));
    assert_eq!(app.status_text(), "RTFM // COMMAND LIST [Tab:Switch Home/End]");
    assert_eq!(app.input_line(), "> ");
    app.handle_key(key(KeyCode::Tab), 2);
    assert_eq!(app.focus(), Focus::ManPage);
    app.handle_key(ch('/'), 3);
    assert_eq!(app.status_text(), "RTFM // SEARCH MODE [Enter:Apply Esc:Cancel]");
    app.handle_key(ch('x'), 4);
    assert_eq!(app.input_line(), "/x");
    app.handle_key(key(KeyCode::Tab), 5);
    assert_eq!(app.focus(), Focus::ManPage);
}
