//! The interactive session: focus, input buffers, scroll offsets and the
//! debounced page load, changed only by the transitions below.
use vstd::prelude::*;

use crate::cache::PageSource;
use crate::search::{
    center_scroll, compute_matches, match_lines, next_index, next_match, prev_index, prev_match,
};
use crate::text::{contains_seq, fold, fold_chars, is_substring, pop_char, push_char};
use crate::trie::views;
use vstd::math::min;

verus! {

/// Lines of a page shown at once.
pub const PAGE_SIZE: usize = 30;

/// Items that PageUp and PageDown move the selection by.
pub const LIST_SIZE: usize = 50;

/// Quiet time, in milliseconds, after the last input before a load.
pub const DEBOUNCE_DELAY_MS: u64 = 150;

/// Which panel reads the keyboard.
#[derive(Clone, Copy, Debug, PartialEq, Eq, Structural)]
pub enum Focus {
    CommandList,
    ManPage,
    Search,
}

/// A key, as far as the session tells keys apart.
#[derive(Clone, Copy, Debug, PartialEq, Eq, Structural)]
pub enum KeyCode {
    Char(char),
    Backspace,
    Enter,
    Esc,
    Tab,
    Up,
    Down,
    Home,
    End,
    PageUp,
    PageDown,
    Other,
}

/// A key press; `ctrl` is set when Control, and no other modifier, is held.
#[derive(Clone, Copy, Debug, PartialEq, Eq, Structural)]
pub struct KeyPress {
    pub code: KeyCode,
    pub ctrl: bool,
}

/// A page to load: the command and the source to load it from.
pub struct PageRequest {
    pub command: String,
    pub source: PageSource,
}

impl PageRequest {
    pub open spec fn model(&self) -> (Seq<char>, PageSource) {
        (self.command@, self.source)
    }
}

/// What the caller does after a key press.
pub enum Action {
    /// Nothing more.
    Continue,
    /// End the session.
    Quit,
    /// Load this page now, without waiting for the quiet time.
    Load(PageRequest),
}

/// What a key press asks for, with the page as characters.
pub enum ActionModel {
    Continue,
    Quit,
    Load((Seq<char>, PageSource)),
}

impl Action {
    pub open spec fn model(&self) -> ActionModel {
        match self {
            Action::Continue => ActionModel::Continue,
            Action::Quit => ActionModel::Quit,
            Action::Load(r) => ActionModel::Load(r.model()),
        }
    }
}

/// The session's state, with strings as characters and times as
/// milliseconds.
pub struct SessionModel {
    pub catalogue: Seq<Seq<char>>,
    pub filter: Seq<char>,
    pub filtered: Seq<Seq<char>>,
    pub selected: int,
    pub list_scroll: int,
    pub list_height: int,
    pub content: Seq<Seq<char>>,
    pub scroll: int,
    pub query: Seq<char>,
    pub matches: Seq<usize>,
    pub current_match: int,
    pub focus: Focus,
    pub source: PageSource,
    pub loading: bool,
    pub pending_load: bool,
    pub last_input: int,
}

/// The largest page offset: the page's length less a page, or 0.
pub open spec fn max_scroll(len: int) -> int {
    if len > PAGE_SIZE {
        len - PAGE_SIZE
    } else {
        0
    }
}

/// Names among the first `n` of the catalogue that hold `f`, ignoring case.
pub open spec fn filter_upto(cat: Seq<Seq<char>>, f: Seq<char>, n: int) -> Seq<Seq<char>>
    decreases n,
{
    if n <= 0 {
        Seq::empty()
    } else {
        let prev = filter_upto(cat, f, n - 1);
        if is_substring(fold(f), fold(cat[n - 1])) {
            prev.push(cat[n - 1])
        } else {
            prev
        }
    }
}

/// The catalogue's names that hold the filter text, ignoring case, in
/// catalogue order; all of them for an empty filter.
pub open spec fn filter_catalogue(cat: Seq<Seq<char>>, f: Seq<char>) -> Seq<Seq<char>> {
    if f.len() == 0 {
        cat
    } else {
        filter_upto(cat, f, cat.len() as int)
    }
}

/// First visible row of the command list after the selection moved to
/// `selected`: the first item shows the top, the last item aligns the
/// list's end with the window's bottom, and otherwise the window moves just
/// enough to show the selection. A window of no rows counts as one row.
pub open spec fn follow_selection(selected: int, len: int, scroll: int, height: int) -> int {
    let h = if height > 0 {
        height
    } else {
        1
    };
    if selected == 0 {
        0
    } else if selected == len - 1 {
        if selected >= h - 1 {
            selected - (h - 1)
        } else {
            0
        }
    } else if selected < scroll {
        selected
    } else if selected >= scroll + h {
        selected - h + 1
    } else {
        scroll
    }
}

/// The offset that centres a line: `max(0, line - PAGE_SIZE / 2)`.
pub open spec fn centred(line: int) -> int {
    if line >= PAGE_SIZE / 2 {
        line - PAGE_SIZE / 2
    } else {
        0
    }
}

/// The offset that centres a line of a page of `len` lines as far as the
/// page allows: `centred(line)`, but no more than `max_scroll(len)`.
pub open spec fn centred_in(line: int, len: int) -> int {
    if centred(line) <= max_scroll(len) {
        centred(line)
    } else {
        max_scroll(len)
    }
}

impl SessionModel {
    /// The filter changed: the list is computed anew and the selection and
    /// the list's scroll return to the top.
    pub open spec fn refiltered(self, filter: Seq<char>) -> SessionModel {
        SessionModel {
            filter,
            filtered: filter_catalogue(self.catalogue, filter),
            selected: 0,
            list_scroll: 0,
            ..self
        }
    }

    /// The user acted: a load is due after the quiet time from `now`.
    pub open spec fn touched(self, now: int) -> SessionModel {
        SessionModel { pending_load: true, last_input: now, ..self }
    }

    /// The selection moved to `sel`, and the list's window follows it.
    pub open spec fn selected_at(self, sel: int) -> SessionModel {
        SessionModel {
            selected: sel,
            list_scroll: follow_selection(
                sel,
                self.filtered.len() as int,
                self.list_scroll,
                self.list_height,
            ),
            ..self
        }
    }

    /// The matches are computed anew for the query; when there are any,
    /// the first is centred, as far as the page allows.
    pub open spec fn researched(self) -> SessionModel {
        let ms = match_lines(self.content, self.query);
        SessionModel {
            matches: ms,
            current_match: 0,
            scroll: if ms.len() > 0 {
                centred_in(ms[0] as int, self.content.len() as int)
            } else {
                self.scroll
            },
            ..self
        }
    }

    /// The match at `k` becomes current, and centred as far as the page
    /// allows.
    pub open spec fn at_match(self, k: int) -> SessionModel {
        SessionModel {
            current_match: k,
            scroll: centred_in(self.matches[k] as int, self.content.len() as int),
            ..self
        }
    }
}

/// The filter text with its last character removed, if it has one.
pub open spec fn without_last(s: Seq<char>) -> Seq<char> {
    if s.len() > 0 {
        s.drop_last()
    } else {
        s
    }
}

/// The other page source.
pub open spec fn other_source(s: PageSource) -> PageSource {
    match s {
        PageSource::Man => PageSource::Tldr,
        PageSource::Tldr => PageSource::Man,
    }
}

/// Tab: the list and the page swap focus; the search returns to the page.
pub open spec fn toggled_focus(f: Focus) -> Focus {
    match f {
        Focus::CommandList => Focus::ManPage,
        Focus::ManPage => Focus::CommandList,
        Focus::Search => Focus::ManPage,
    }
}

/// The page shown when the list is empty.
pub open spec fn no_commands_page() -> Seq<Seq<char>> {
    seq!["No commands found"@]
}

/// Starting a load: with no command listed the page says so and nothing is
/// fetched; otherwise the selected command is to be fetched from the
/// current source.
pub open spec fn begin_load_spec(m: SessionModel) -> (SessionModel, Option<(Seq<char>, PageSource)>) {
    if m.filtered.len() == 0 {
        (SessionModel { content: no_commands_page(), ..m }, None)
    } else {
        (SessionModel { loading: true, ..m }, Some((m.filtered[m.selected], m.source)))
    }
}

/// A page arrives for `req`. It is shown, from its top and with the
/// search run over it, only if `req` is still the selected command and
/// source; a stale page changes nothing.
pub open spec fn finish_load_spec(
    m: SessionModel,
    req: (Seq<char>, PageSource),
    content: Seq<Seq<char>>,
) -> SessionModel {
    if m.filtered.len() > 0 && m.filtered[m.selected] == req.0 && m.source == req.1 {
        SessionModel { content, loading: false, scroll: 0, ..m }.researched()
    } else {
        m
    }
}

/// The debounce step: once a load is due and more than the quiet time has
/// passed since the last input, the load starts and is no longer due.
pub open spec fn tick_spec(m: SessionModel, now: int) -> (SessionModel, Option<(Seq<char>, PageSource)>) {
    if m.pending_load && now - m.last_input > DEBOUNCE_DELAY_MS {
        let (m1, r) = begin_load_spec(m);
        (SessionModel { pending_load: false, ..m1 }, r)
    } else {
        (m, None)
    }
}

/// A key while the command list has focus.
pub open spec fn list_key_spec(m: SessionModel, code: KeyCode, now: int) -> (SessionModel, ActionModel) {
    let len = m.filtered.len() as int;
    let sel = m.selected;
    match code {
        KeyCode::Char(c) => (m.refiltered(m.filter.push(c)).touched(now), ActionModel::Continue),
        KeyCode::Backspace => (
            m.refiltered(without_last(m.filter)).touched(now),
            ActionModel::Continue,
        ),
        KeyCode::Up => if len > 0 && sel > 0 {
            (m.selected_at(sel - 1).touched(now), ActionModel::Continue)
        } else {
            (m, ActionModel::Continue)
        },
        KeyCode::Down => if len > 0 && sel < len - 1 {
            (m.selected_at(sel + 1).touched(now), ActionModel::Continue)
        } else {
            (m, ActionModel::Continue)
        },
        KeyCode::Home => if len > 0 {
            (m.selected_at(0).touched(now), ActionModel::Continue)
        } else {
            (m, ActionModel::Continue)
        },
        KeyCode::End => if len > 0 {
            (m.selected_at(len - 1).touched(now), ActionModel::Continue)
        } else {
            (m, ActionModel::Continue)
        },
        KeyCode::PageUp => if len > 0 {
            (
                m.selected_at(
                    if sel >= LIST_SIZE {
                        sel - LIST_SIZE
                    } else {
                        0
                    },
                ).touched(now),
                ActionModel::Continue,
            )
        } else {
            (m, ActionModel::Continue)
        },
        KeyCode::PageDown => if len > 0 {
            (
                m.selected_at(
                    if sel + LIST_SIZE <= len - 1 {
                        sel + LIST_SIZE
                    } else {
                        len - 1
                    },
                ).touched(now),
                ActionModel::Continue,
            )
        } else {
            (m, ActionModel::Continue)
        },
        KeyCode::Enter => if len > 0 {
            let (m1, r) = begin_load_spec(SessionModel { pending_load: true, ..m });
            (
                SessionModel { pending_load: false, ..m1 },
                match r {
                    Some(req) => ActionModel::Load(req),
                    None => ActionModel::Continue,
                },
            )
        } else {
            (m, ActionModel::Continue)
        },
        _ => (m, ActionModel::Continue),
    }
}

/// A key while the page has focus: scrolling, clamped to the page, search
/// entry, and movement between matches.
pub open spec fn page_key_spec(m: SessionModel, code: KeyCode) -> SessionModel {
    let mx = max_scroll(m.content.len() as int);
    let n = m.matches.len() as int;
    if code == KeyCode::Char('f') {
        SessionModel { focus: Focus::Search, query: Seq::empty(), ..m }
    } else if code == KeyCode::Up {
        SessionModel {
            scroll: if m.scroll > 0 {
                m.scroll - 1
            } else {
                0
            },
            ..m
        }
    } else if code == KeyCode::Down {
        SessionModel {
            scroll: if m.scroll + 1 <= mx {
                m.scroll + 1
            } else {
                mx
            },
            ..m
        }
    } else if code == KeyCode::Home {
        SessionModel { scroll: 0, ..m }
    } else if code == KeyCode::End {
        SessionModel { scroll: mx, ..m }
    } else if code == KeyCode::PageUp {
        SessionModel {
            scroll: if m.scroll >= PAGE_SIZE {
                m.scroll - PAGE_SIZE
            } else {
                0
            },
            ..m
        }
    } else if code == KeyCode::PageDown {
        SessionModel {
            scroll: if m.scroll + PAGE_SIZE <= mx {
                m.scroll + PAGE_SIZE
            } else {
                mx
            },
            ..m
        }
    } else if code == KeyCode::Char('n') {
        if n > 0 {
            m.at_match(next_index(n, m.current_match))
        } else {
            m
        }
    } else if code == KeyCode::Char('N') {
        if n > 0 {
            m.at_match(prev_index(n, m.current_match))
        } else {
            m
        }
    } else {
        m
    }
}

/// A key while the search has focus: typing edits the query and searches
/// again at once; Enter searches once more and returns to the page.
pub open spec fn search_key_spec(m: SessionModel, code: KeyCode) -> SessionModel {
    match code {
        KeyCode::Enter => SessionModel { focus: Focus::ManPage, ..m.researched() },
        KeyCode::Char(c) => SessionModel { query: m.query.push(c), ..m }.researched(),
        KeyCode::Backspace => SessionModel { query: without_last(m.query), ..m }.researched(),
        _ => m,
    }
}

/// Any key: Control-C and `q` quit; Tab, Esc, and on the page `/` and `t`,
/// act whatever has focus; other keys go to the focused panel. Control-Home
/// and Control-End then move the page to its top or bottom.
pub open spec fn key_spec(m: SessionModel, key: KeyPress, now: int) -> (SessionModel, ActionModel) {
    if (key.ctrl && key.code == KeyCode::Char('c')) || key.code == KeyCode::Char('q') {
        (m, ActionModel::Quit)
    } else {
        let (m1, a) = if key.code == KeyCode::Tab {
            (SessionModel { focus: toggled_focus(m.focus), ..m }, ActionModel::Continue)
        } else if key.code == KeyCode::Esc {
            if m.focus == Focus::Search {
                (
                    SessionModel {
                        query: Seq::empty(),
                        matches: Seq::empty(),
                        current_match: 0,
                        focus: Focus::ManPage,
                        ..m
                    },
                    ActionModel::Continue,
                )
            } else {
                (SessionModel { focus: Focus::CommandList, ..m }, ActionModel::Continue)
            }
        } else if key.code == KeyCode::Char('/') && m.focus == Focus::ManPage {
            (
                SessionModel { focus: Focus::Search, query: Seq::empty(), ..m },
                ActionModel::Continue,
            )
        } else if key.code == KeyCode::Char('t') && m.focus == Focus::ManPage {
            (
                SessionModel { source: other_source(m.source), ..m }.touched(now),
                ActionModel::Continue,
            )
        } else {
            match m.focus {
                Focus::CommandList => list_key_spec(m, key.code, now),
                Focus::ManPage => (page_key_spec(m, key.code), ActionModel::Continue),
                Focus::Search => (search_key_spec(m, key.code), ActionModel::Continue),
            }
        };
        if key.ctrl && key.code == KeyCode::Home {
            (SessionModel { scroll: 0, ..m1 }, a)
        } else if key.ctrl && key.code == KeyCode::End {
            (SessionModel { scroll: max_scroll(m1.content.len() as int), ..m1 }, a)
        } else {
            (m1, a)
        }
    }
}

/// The part of `len` items shown from `start` in `height` rows.
fn window(start: usize, height: usize, len: usize) -> (r: (usize, usize))
    ensures
        r.0 == min(start as int, len as int),
        r.1 == min(start + height, len as int),
{
    let s = if start < len {
        start
    } else {
        len
    };
    let e = if start < len && len - start > height {
        start + height
    } else {
        len
    };
    (s, e)
}

/// The label of a page source in the status bar.
pub open spec fn source_label(s: PageSource) -> Seq<char> {
    match s {
        PageSource::Man => "MAN"@,
        PageSource::Tldr => "TLDR"@,
    }
}

/// The status bar's text for a session.
pub open spec fn status_spec(m: SessionModel) -> Seq<char> {
    if m.loading {
        "Loading "@ + source_label(m.source) + "..."@
    } else {
        match m.focus {
            Focus::CommandList => "RTFM // COMMAND LIST [Tab:Switch Home/End]"@,
            Focus::ManPage => "RTFM // "@ + source_label(m.source)
                + " PAGE [Tab:Switch /:Search t:Toggle Home/End]"@,
            Focus::Search => "RTFM // SEARCH MODE [Enter:Apply Esc:Cancel]"@,
        }
    }
}


/// A plain key press of character `c`.
pub open spec fn char_press(c: char) -> KeyPress {
    KeyPress { code: KeyCode::Char(c), ctrl: false }
}

/// Runs the debounce step at each of `ticks`, in order. Gives the session
/// and the loads started, in order.
pub open spec fn run_ticks(m: SessionModel, ticks: Seq<int>) -> (
    SessionModel,
    Seq<(Seq<char>, PageSource)>,
)
    decreases ticks.len(),
{
    if ticks.len() == 0 {
        (m, Seq::empty())
    } else {
        let (m1, r) = tick_spec(m, ticks[0]);
        let (m2, rs) = run_ticks(m1, ticks.drop_first());
        (
            m2,
            match r {
                Some(x) => seq![x] + rs,
                None => rs,
            },
        )
    }
}

/// Types `keys` into the session, the `i`-th at `times[i]`, running the
/// debounce step after it at each time of `ticks[i]`. Gives the resulting
/// session and the loads started, in order.
pub open spec fn typed_burst(
    m: SessionModel,
    keys: Seq<char>,
    times: Seq<int>,
    ticks: Seq<Seq<int>>,
) -> (SessionModel, Seq<(Seq<char>, PageSource)>)
    decreases keys.len(),
{
    if keys.len() == 0 || times.len() == 0 || ticks.len() == 0 {
        (m, Seq::empty())
    } else {
        let m1 = key_spec(m, char_press(keys[0]), times[0]).0;
        let (m2, rs) = run_ticks(m1, ticks[0]);
        let (m3, rs2) = typed_burst(m2, keys.drop_first(), times.drop_first(), ticks.drop_first());
        (m3, rs + rs2)
    }
}

/// Debounce steps within the quiet time of the last input start nothing
/// and change nothing.
proof fn lemma_quiet_ticks(m: SessionModel, ticks: Seq<int>)
    requires
        forall|j: int| 0 <= j < ticks.len() ==> #[trigger] ticks[j] <= m.last_input + DEBOUNCE_DELAY_MS,
    ensures
        run_ticks(m, ticks) == (m, Seq::<(Seq<char>, PageSource)>::empty()),
    decreases ticks.len(),
{
    if ticks.len() > 0 {
        let t = ticks.drop_first();
        assert forall|j: int| 0 <= j < t.len() implies #[trigger] t[j] <= m.last_input
            + DEBOUNCE_DELAY_MS by {
            assert(t[j] == ticks[j + 1]);
        }
        lemma_quiet_ticks(m, t);
    }
}

/// Debounce steps with no load due start nothing and change nothing.
proof fn lemma_idle_ticks(m: SessionModel, ticks: Seq<int>)
    requires
        !m.pending_load,
    ensures
        run_ticks(m, ticks) == (m, Seq::<(Seq<char>, PageSource)>::empty()),
    decreases ticks.len(),
{
    if ticks.len() > 0 {
        lemma_idle_ticks(m, ticks.drop_first());
    }
}

proof fn lemma_burst(m: SessionModel, keys: Seq<char>, times: Seq<int>, ticks: Seq<Seq<int>>)
    requires
        keys.len() >= 1,
        times.len() == keys.len(),
        ticks.len() == keys.len(),
        m.focus == Focus::CommandList,
        forall|i: int| 0 <= i < keys.len() ==> keys[i] != 'q',
        forall|i: int, j: int|
            0 <= i < ticks.len() && 0 <= j < ticks[i].len() ==> #[trigger] ticks[i][j] <= times[i]
                + DEBOUNCE_DELAY_MS,
    ensures
        ({
            let (end, loads) = typed_burst(m, keys, times, ticks);
            &&& loads.len() == 0
            &&& end.focus == Focus::CommandList
            &&& end.pending_load
            &&& end.last_input == times.last()
            &&& end.catalogue == m.catalogue
            &&& end.source == m.source
            &&& end.filter == m.filter + keys
            &&& end.filtered == filter_catalogue(m.catalogue, end.filter)
            &&& end.selected == 0
        }),
    decreases keys.len(),
{
    let m1 = key_spec(m, char_press(keys[0]), times[0]).0;
    assert(m1 == m.refiltered(m.filter.push(keys[0])).touched(times[0]));
    assert forall|j: int| 0 <= j < ticks[0].len() implies #[trigger] ticks[0][j] <= m1.last_input
        + DEBOUNCE_DELAY_MS by {
        assert(ticks[0][j] <= times[0] + DEBOUNCE_DELAY_MS);
    }
    lemma_quiet_ticks(m1, ticks[0]);
    let rest = typed_burst(m1, keys.drop_first(), times.drop_first(), ticks.drop_first());
    assert(typed_burst(m, keys, times, ticks) == (rest.0, Seq::<(Seq<char>, PageSource)>::empty()
        + rest.1));
    assert(Seq::<(Seq<char>, PageSource)>::empty() + rest.1 =~= rest.1);
    if keys.len() > 1 {
        let ks = keys.drop_first();
        let ts = times.drop_first();
        let tk = ticks.drop_first();
        assert forall|i: int| 0 <= i < ks.len() implies ks[i] != 'q' by {
            assert(ks[i] == keys[i + 1]);
        }
        assert forall|i: int, j: int|
            0 <= i < tk.len() && 0 <= j < tk[i].len() implies #[trigger] tk[i][j] <= ts[i]
            + DEBOUNCE_DELAY_MS by {
            assert(tk[i] == ticks[i + 1] && ts[i] == times[i + 1]);
        }
        lemma_burst(m1, ks, ts, tk);
        assert(ts.last() == times.last());
        assert(m1.filter + ks =~= m.filter + keys);
    } else {
        assert(m1.filter =~= m.filter + keys);
        assert(rest == (m1, Seq::<(Seq<char>, PageSource)>::empty()));
    }
}

/// Debouncing coalesces a burst. Keys typed into the command list, each
/// followed by debounce steps (one per frame, say) that all come within
/// the quiet time of that key, start no load; the burst leaves the filter
/// text with the keys appended, the list filtered by it and its first item
/// selected. Of the debounce steps that follow once the quiet time after
/// the last key has passed, exactly one starts a load: for the first
/// listed command and the current source, if any command is listed.
pub proof fn law_debounce_coalesces(
    m: SessionModel,
    keys: Seq<char>,
    times: Seq<int>,
    ticks: Seq<Seq<int>>,
    later: Seq<int>,
)
    requires
        keys.len() >= 1,
        times.len() == keys.len(),
        ticks.len() == keys.len(),
        m.focus == Focus::CommandList,
        forall|i: int| 0 <= i < keys.len() ==> keys[i] != 'q',
        forall|i: int, j: int|
            0 <= i < ticks.len() && 0 <= j < ticks[i].len() ==> #[trigger] ticks[i][j] <= times[i]
                + DEBOUNCE_DELAY_MS,
        later.len() >= 1,
        later[0] > times.last() + DEBOUNCE_DELAY_MS,
    ensures
        ({
            let (end, loads) = typed_burst(m, keys, times, ticks);
            let filter = m.filter + keys;
            let listed = filter_catalogue(m.catalogue, filter);
            &&& loads.len() == 0
            &&& end.filter == filter
            &&& end.filtered == listed
            &&& end.selected == 0
            &&& run_ticks(end, later).1 == if listed.len() > 0 {
                seq![(listed[0], m.source)]
            } else {
                Seq::empty()
            }
        }),
{
    lemma_burst(m, keys, times, ticks);
    let end = typed_burst(m, keys, times, ticks).0;
    let (m1, r) = tick_spec(end, later[0]);
    assert(!m1.pending_load);
    lemma_idle_ticks(m1, later.drop_first());
}

/// The page's offset stays within `[0, max(len - PAGE_SIZE, 0)]`: Down, End
/// and PageDown, and `n` and `N` when there are matches, never leave it
/// above that bound, Home and
/// Control-Home give 0, Control-End gives the bound, and from an offset
/// within it every page key keeps it within, as does searching again.
pub proof fn law_page_scroll_clamped(m: SessionModel, code: KeyCode)
    requires
        m.focus == Focus::ManPage,
        0 <= m.scroll,
    ensures
        ({
            let mx = max_scroll(m.content.len() as int);
            let s = page_key_spec(m, code).scroll;
            &&& 0 <= s
            &&& (code == KeyCode::Down || code == KeyCode::End || code == KeyCode::PageDown)
                ==> s <= mx
            &&& ((code == KeyCode::Char('n') || code == KeyCode::Char('N')) && m.matches.len()
                > 0) ==> s <= mx
            &&& code == KeyCode::Home ==> s == 0
            &&& m.scroll <= mx ==> s <= mx
            &&& m.scroll <= mx ==> 0 <= m.researched().scroll <= mx
            &&& key_spec(m, KeyPress { code: KeyCode::Home, ctrl: true }, 0).0.scroll == 0
            &&& key_spec(m, KeyPress { code: KeyCode::End, ctrl: true }, 0).0.scroll == mx
        }),
{
    let mx = max_scroll(m.content.len() as int);
    let n = m.matches.len() as int;
    if code == KeyCode::Char('n') && n > 0 {
        let k = next_index(n, m.current_match);
        assert(centred_in(m.matches[k] as int, m.content.len() as int) <= mx);
    }
    if code == KeyCode::Char('N') && n > 0 {
        let k = prev_index(n, m.current_match);
        assert(centred_in(m.matches[k] as int, m.content.len() as int) <= mx);
    }
}


/// An empty list is a defined state: the selection is 0, loading shows
/// that no command was found and fetches nothing, and Up, Down and Enter
/// change nothing.
pub proof fn law_empty_list(m: SessionModel, now: int)
    requires
        session_wf(m),
        m.filtered.len() == 0,
    ensures
        m.selected == 0,
        begin_load_spec(m) == (SessionModel { content: no_commands_page(), ..m }, None::<
            (Seq<char>, PageSource),
        >),
        list_key_spec(m, KeyCode::Up, now) == (m, ActionModel::Continue),
        list_key_spec(m, KeyCode::Down, now) == (m, ActionModel::Continue),
        list_key_spec(m, KeyCode::Enter, now) == (m, ActionModel::Continue),
{
}

struct CommandListState {
    input: String,
    filtered_commands: Vec<String>,
    selected_idx: usize,
    list_scroll: usize,
    list_height: usize,
}

struct ManPageState {
    content: std::sync::Arc<Vec<String>>,
    scroll: usize,
}

struct SearchState {
    query: String,
    matches: Vec<usize>,
    current_match: usize,
}

/// Application state: the catalogue, the command list, the page shown,
/// the search, and what is due to load.
pub struct AppState {
    commands: Vec<String>,
    command_list: CommandListState,
    man_page: ManPageState,
    search: SearchState,
    focus: Focus,
    loading: bool,
    last_input_time: u64,
    pending_man_load: bool,
    page_source: PageSource,
}

impl View for AppState {
    type V = SessionModel;

    closed spec fn view(&self) -> SessionModel {
        SessionModel {
            catalogue: views(self.commands@),
            filter: self.command_list.input@,
            filtered: views(self.command_list.filtered_commands@),
            selected: self.command_list.selected_idx as int,
            list_scroll: self.command_list.list_scroll as int,
            list_height: self.command_list.list_height as int,
            content: views(self.man_page.content@),
            scroll: self.man_page.scroll as int,
            query: self.search.query@,
            matches: self.search.matches@,
            current_match: self.search.current_match as int,
            focus: self.focus,
            source: self.page_source,
            loading: self.loading,
            pending_load: self.pending_man_load,
            last_input: self.last_input_time as int,
        }
    }
}

/// The selection lies in the list, or is 0 for an empty list; the current
/// match lies among the matches, or is 0 when there are none.
pub open spec fn session_wf(m: SessionModel) -> bool {
    &&& (if m.filtered.len() == 0 {
        m.selected == 0
    } else {
        0 <= m.selected < m.filtered.len()
    })
    &&& (if m.matches.len() == 0 {
        m.current_match == 0
    } else {
        0 <= m.current_match < m.matches.len()
    })
}

impl AppState {
    pub open spec fn wf(&self) -> bool {
        session_wf(self@)
    }

    /// A session over `commands`: empty filter, every command listed, the
    /// first selected, the list focused, and a load of the first page due.
    pub fn new(commands: Vec<String>, now: u64) -> (r: AppState)
        ensures
            r.wf(),
            r@ == (SessionModel {
                catalogue: views(commands@),
                filter: Seq::empty(),
                filtered: views(commands@),
                selected: 0,
                list_scroll: 0,
                list_height: 0,
                content: Seq::empty(),
                scroll: 0,
                query: Seq::empty(),
                matches: Seq::empty(),
                current_match: 0,
                focus: Focus::CommandList,
                source: PageSource::Man,
                loading: false,
                pending_load: true,
                last_input: now as int,
            }),
    {
        let filtered = commands.clone();
        let r = AppState {
            commands,
            command_list: CommandListState {
                input: String::new(),
                filtered_commands: filtered,
                selected_idx: 0,
                list_scroll: 0,
                list_height: 0,
            },
            man_page: ManPageState { content: std::sync::Arc::new(Vec::new()), scroll: 0 },
            search: SearchState { query: String::new(), matches: Vec::new(), current_match: 0 },
            focus: Focus::CommandList,
            loading: false,
            last_input_time: now,
            pending_man_load: true,
            page_source: PageSource::Man,
        };
        assert(views(r.command_list.filtered_commands@) =~= views(r.commands@));
        assert(views(r.man_page.content@) =~= Seq::<Seq<char>>::empty());
        r
    }

    /// Recomputes the listed commands from the filter text; the selection
    /// and the list's scroll return to the top.
    fn filter_commands(&mut self)
        ensures
            final(self)@ == old(self)@.refiltered(old(self)@.filter),
    {
        let mut filtered: Vec<String> = Vec::new();
        if self.command_list.input.as_str().is_empty() {
            filtered = self.commands.clone();
            assert(views(filtered@) =~= views(self.commands@));
        } else {
            let f = fold_chars(self.command_list.input.as_str());
            let mut i: usize = 0;
            while i < self.commands.len()
                invariant
                    i <= self.commands.len(),
                    f@ == fold(self.command_list.input@),
                    views(filtered@) == filter_upto(
                        views(self.commands@),
                        self.command_list.input@,
                        i as int,
                    ),
                decreases self.commands.len() - i,
            {
                let l = fold_chars(self.commands[i].as_str());
                if contains_seq(&l, &f) {
                    let ghost before = filtered@;
                    filtered.push(self.commands[i].clone());
                    assert(views(filtered@) =~= views(before).push(self.commands@[i as int]@));
                }
                i = i + 1;
            }
        }
        self.command_list.filtered_commands = filtered;
        self.command_list.selected_idx = 0;
        self.command_list.list_scroll = 0;
    }

    /// Moves the list's window so that it follows the selection.
    fn update_list_scroll(&mut self)
        requires
            0 <= old(self)@.selected < old(self)@.filtered.len(),
        ensures
            final(self)@ == old(self)@.selected_at(old(self)@.selected),
    {
        let h: usize = if self.command_list.list_height > 0 {
            self.command_list.list_height
        } else {
            1
        };
        let sel = self.command_list.selected_idx;
        if sel == 0 {
            self.command_list.list_scroll = 0;
        } else if sel == self.command_list.filtered_commands.len() - 1 {
            self.command_list.list_scroll = sel.saturating_sub(h - 1);
        } else if sel < self.command_list.list_scroll {
            self.command_list.list_scroll = sel;
        } else if sel - self.command_list.list_scroll >= h {
            self.command_list.list_scroll = sel - h + 1;
        }
    }

    /// Selects item `sel` of the list and schedules its load.
    fn select(&mut self, sel: usize, now: u64)
        requires
            sel < old(self)@.filtered.len(),
        ensures
            final(self)@ == old(self)@.selected_at(sel as int).touched(now as int),
    {
        self.command_list.selected_idx = sel;
        self.update_list_scroll();
        self.pending_man_load = true;
        self.last_input_time = now;
    }

    /// The offset that centres page line `line`, as far as the page allows.
    fn centre_on(&self, line: usize) -> (r: usize)
        ensures
            r == centred_in(line as int, self@.content.len() as int),
    {
        let c = center_scroll(line, PAGE_SIZE);
        let mx = self.man_page.content.len().saturating_sub(PAGE_SIZE);
        if c <= mx {
            c
        } else {
            mx
        }
    }

    /// Computes the matches of the query in the page; the first, if any, is
    /// centred.
    fn update_search_matches(&mut self)
        ensures
            final(self)@ == old(self)@.researched(),
    {
        let ms = compute_matches(&*self.man_page.content, self.search.query.as_str());
        self.search.matches = ms;
        self.search.current_match = 0;
        if self.search.matches.len() > 0 {
            self.man_page.scroll = self.centre_on(self.search.matches[0]);
        }
    }

    /// Moves to the next match, circularly, and centres it.
    fn next_search_match(&mut self)
        requires
            old(self).wf(),
        ensures
            final(self)@ == if old(self)@.matches.len() > 0 {
                old(self)@.at_match(
                    next_index(old(self)@.matches.len() as int, old(self)@.current_match),
                )
            } else {
                old(self)@
            },
    {
        if self.search.matches.len() == 0 {
            return ;
        }
        self.search.current_match = next_match(
            self.search.matches.len(),
            self.search.current_match,
        );
        let target = self.search.matches[self.search.current_match];
        self.man_page.scroll = self.centre_on(target);
    }

    /// Moves to the previous match, circularly, and centres it.
    fn prev_search_match(&mut self)
        requires
            old(self).wf(),
        ensures
            final(self)@ == if old(self)@.matches.len() > 0 {
                old(self)@.at_match(
                    prev_index(old(self)@.matches.len() as int, old(self)@.current_match),
                )
            } else {
                old(self)@
            },
    {
        if self.search.matches.len() == 0 {
            return ;
        }
        self.search.current_match = prev_match(
            self.search.matches.len(),
            self.search.current_match,
        );
        let target = self.search.matches[self.search.current_match];
        self.man_page.scroll = self.centre_on(target);
    }

    /// Starts loading the selected command's page: hands back what to fetch,
    /// or, with no command listed, shows that none was found.
    pub fn begin_load(&mut self) -> (r: Option<PageRequest>)
        requires
            old(self).wf(),
        ensures
            final(self).wf(),
            (final(self)@, match r {
                Some(req) => Some(req.model()),
                None => None,
            }) == begin_load_spec(old(self)@),
    {
        if self.command_list.filtered_commands.len() == 0 {
            let lines = vec![String::from_str("No commands found")];
            assert(views(lines@) =~= no_commands_page());
            self.man_page.content = std::sync::Arc::new(lines);
            return None;
        }
        self.loading = true;
        let command = self.command_list.filtered_commands[self.command_list.selected_idx].clone();
        Some(PageRequest { command, source: self.page_source })
    }

    /// Shows a fetched page if `req` is still the selected command and
    /// source: from its top, with the search run over it. A stale page is
    /// dropped.
    pub fn finish_load(&mut self, req: &PageRequest, content: std::sync::Arc<Vec<String>>)
        requires
            old(self).wf(),
        ensures
            final(self).wf(),
            final(self)@ == finish_load_spec(old(self)@, req.model(), views(content@)),
    {
        let len = self.command_list.filtered_commands.len();
        if len > 0 && self.page_source == req.source
            && self.command_list.filtered_commands[self.command_list.selected_idx] == req.command {
            self.man_page.content = content;
            self.loading = false;
            self.man_page.scroll = 0;
            self.update_search_matches();
        }
    }

    /// The debounce step, run every frame: once a load is due and the quiet
    /// time has passed since the last input, starts it.
    pub fn tick(&mut self, now: u64) -> (r: Option<PageRequest>)
        requires
            old(self).wf(),
        ensures
            final(self).wf(),
            (final(self)@, match r {
                Some(req) => Some(req.model()),
                None => None,
            }) == tick_spec(old(self)@, now as int),
    {
        if self.pending_man_load && now > self.last_input_time && now - self.last_input_time
            > DEBOUNCE_DELAY_MS {
            let r = self.begin_load();
            self.pending_man_load = false;
            r
        } else {
            None
        }
    }


    /// Moves the page to its top.
    pub fn scroll_to_top(&mut self)
        ensures
            final(self)@ == (SessionModel { scroll: 0, ..old(self)@ }),
    {
        self.man_page.scroll = 0;
    }

    /// Moves the page to its bottom: its length less a page, or 0.
    pub fn scroll_to_bottom(&mut self)
        ensures
            final(self)@ == (SessionModel {
                scroll: max_scroll(old(self)@.content.len() as int),
                ..old(self)@
            }),
    {
        self.man_page.scroll = self.man_page.content.len().saturating_sub(PAGE_SIZE);
    }

    /// Swaps the list and the page; the search returns to the page.
    fn toggle_focus(&mut self)
        ensures
            final(self)@ == (SessionModel { focus: toggled_focus(old(self)@.focus), ..old(self)@ }),
    {
        self.focus = match self.focus {
            Focus::CommandList => Focus::ManPage,
            Focus::ManPage => Focus::CommandList,
            Focus::Search => Focus::ManPage,
        };
    }

    /// Swaps the manual and the cheat sheets as the source of pages.
    fn toggle_page_source(&mut self)
        ensures
            final(self)@ == (SessionModel { source: other_source(old(self)@.source), ..old(self)@ }),
    {
        self.page_source = match self.page_source {
            PageSource::Man => PageSource::Tldr,
            PageSource::Tldr => PageSource::Man,
        };
    }

    /// A key while the command list has focus.
    fn handle_command_list_keys(&mut self, code: KeyCode, now: u64) -> (r: Action)
        requires
            old(self).wf(),
        ensures
            final(self).wf(),
            (final(self)@, r.model()) == list_key_spec(old(self)@, code, now as int),
    {
        let len = self.command_list.filtered_commands.len();
        let sel = self.command_list.selected_idx;
        match code {
            KeyCode::Char(c) => {
                push_char(&mut self.command_list.input, c);
                self.filter_commands();
                self.pending_man_load = true;
                self.last_input_time = now;
                Action::Continue
            },
            KeyCode::Backspace => {
                pop_char(&mut self.command_list.input);
                self.filter_commands();
                self.pending_man_load = true;
                self.last_input_time = now;
                Action::Continue
            },
            KeyCode::Up => {
                if len > 0 && sel > 0 {
                    self.select(sel - 1, now);
                }
                Action::Continue
            },
            KeyCode::Down => {
                if len > 0 && sel < len - 1 {
                    self.select(sel + 1, now);
                }
                Action::Continue
            },
            KeyCode::Home => {
                if len > 0 {
                    self.select(0, now);
                }
                Action::Continue
            },
            KeyCode::End => {
                if len > 0 {
                    self.select(len - 1, now);
                }
                Action::Continue
            },
            KeyCode::PageUp => {
                if len > 0 {
                    self.select(sel.saturating_sub(LIST_SIZE), now);
                }
                Action::Continue
            },
            KeyCode::PageDown => {
                if len > 0 {
                    let target = if len - 1 - sel >= LIST_SIZE {
                        sel + LIST_SIZE
                    } else {
                        len - 1
                    };
                    self.select(target, now);
                }
                Action::Continue
            },
            KeyCode::Enter => {
                if len > 0 {
                    self.pending_man_load = true;
                    let r = self.begin_load();
                    self.pending_man_load = false;
                    match r {
                        Some(req) => Action::Load(req),
                        None => Action::Continue,
                    }
                } else {
                    Action::Continue
                }
            },
            _ => Action::Continue,
        }
    }

    /// A key while the page has focus.
    fn handle_man_page_keys(&mut self, code: KeyCode)
        requires
            old(self).wf(),
        ensures
            final(self).wf(),
            final(self)@ == page_key_spec(old(self)@, code),
    {
        let mx = self.man_page.content.len().saturating_sub(PAGE_SIZE);
        let scroll = self.man_page.scroll;
        if code == KeyCode::Char('f') {
            self.focus = Focus::Search;
            self.search.query = String::new();
        } else if code == KeyCode::Up {
            self.man_page.scroll = scroll.saturating_sub(1);
        } else if code == KeyCode::Down {
            self.man_page.scroll = if scroll < mx {
                scroll + 1
            } else {
                mx
            };
        } else if code == KeyCode::Home {
            self.man_page.scroll = 0;
        } else if code == KeyCode::End {
            self.man_page.scroll = mx;
        } else if code == KeyCode::PageUp {
            self.man_page.scroll = scroll.saturating_sub(PAGE_SIZE);
        } else if code == KeyCode::PageDown {
            self.man_page.scroll = if scroll < mx && mx - scroll >= PAGE_SIZE {
                scroll + PAGE_SIZE
            } else {
                mx
            };
        } else if code == KeyCode::Char('n') {
            self.next_search_match();
        } else if code == KeyCode::Char('N') {
            self.prev_search_match();
        }
    }

    /// A key while the search has focus.
    fn handle_search_keys(&mut self, code: KeyCode)
        requires
            old(self).wf(),
        ensures
            final(self).wf(),
            final(self)@ == search_key_spec(old(self)@, code),
    {
        match code {
            KeyCode::Enter => {
                self.update_search_matches();
                self.focus = Focus::ManPage;
            },
            KeyCode::Char(c) => {
                push_char(&mut self.search.query, c);
                self.update_search_matches();
            },
            KeyCode::Backspace => {
                pop_char(&mut self.search.query);
                self.update_search_matches();
            },
            _ => {},
        }
    }

    /// Handles one key press at time `now`, in milliseconds.
    pub fn handle_key(&mut self, key: KeyPress, now: u64) -> (r: Action)
        requires
            old(self).wf(),
        ensures
            final(self).wf(),
            (final(self)@, r.model()) == key_spec(old(self)@, key, now as int),
    {
        if (key.ctrl && key.code == KeyCode::Char('c')) || key.code == KeyCode::Char('q') {
            return Action::Quit;
        }
        let action = if key.code == KeyCode::Tab {
            self.toggle_focus();
            Action::Continue
        } else if key.code == KeyCode::Esc {
            if self.focus == Focus::Search {
                self.search.query = String::new();
                self.search.matches = Vec::new();
                self.search.current_match = 0;
                self.focus = Focus::ManPage;
            } else {
                self.focus = Focus::CommandList;
            }
            Action::Continue
        } else if key.code == KeyCode::Char('/') && self.focus == Focus::ManPage {
            self.focus = Focus::Search;
            self.search.query = String::new();
            Action::Continue
        } else if key.code == KeyCode::Char('t') && self.focus == Focus::ManPage {
            self.toggle_page_source();
            self.pending_man_load = true;
            self.last_input_time = now;
            Action::Continue
        } else {
            match self.focus {
                Focus::CommandList => self.handle_command_list_keys(key.code, now),
                Focus::ManPage => {
                    self.handle_man_page_keys(key.code);
                    Action::Continue
                },
                Focus::Search => {
                    self.handle_search_keys(key.code);
                    Action::Continue
                },
            }
        };
        if key.ctrl && key.code == KeyCode::Home {
            self.scroll_to_top();
        } else if key.ctrl && key.code == KeyCode::End {
            self.scroll_to_bottom();
        }
        action
    }


    /// The panel that reads the keyboard.
    pub fn focus(&self) -> (r: Focus)
        ensures
            r == self@.focus,
    {
        self.focus
    }

    /// The source pages are loaded from.
    pub fn page_source(&self) -> (r: PageSource)
        ensures
            r == self@.source,
    {
        self.page_source
    }

    /// Whether a load has started and its page has not arrived.
    pub fn is_loading(&self) -> (r: bool)
        ensures
            r == self@.loading,
    {
        self.loading
    }

    /// Whether a load is due once the quiet time has passed.
    pub fn pending_load(&self) -> (r: bool)
        ensures
            r == self@.pending_load,
    {
        self.pending_man_load
    }

    /// The filter text typed into the command list.
    pub fn filter_text(&self) -> (r: &String)
        ensures
            r@ == self@.filter,
    {
        &self.command_list.input
    }

    /// The search query.
    pub fn query(&self) -> (r: &String)
        ensures
            r@ == self@.query,
    {
        &self.search.query
    }

    /// The commands the filter lets through, in catalogue order.
    pub fn filtered_commands(&self) -> (r: &Vec<String>)
        ensures
            views(r@) == self@.filtered,
    {
        &self.command_list.filtered_commands
    }

    /// Position of the selection in the list.
    pub fn selected_index(&self) -> (r: usize)
        ensures
            r == self@.selected,
    {
        self.command_list.selected_idx
    }

    /// The selected command, if the list is not empty.
    pub fn selected_command(&self) -> (r: Option<&String>)
        requires
            self.wf(),
        ensures
            r is Some <==> self@.filtered.len() > 0,
            r matches Some(c) ==> c@ == self@.filtered[self@.selected],
    {
        if self.command_list.filtered_commands.len() == 0 {
            None
        } else {
            Some(&self.command_list.filtered_commands[self.command_list.selected_idx])
        }
    }

    /// First visible row of the command list.
    pub fn list_scroll(&self) -> (r: usize)
        ensures
            r == self@.list_scroll,
    {
        self.command_list.list_scroll
    }

    /// First visible line of the page.
    pub fn scroll_offset(&self) -> (r: usize)
        ensures
            r == self@.scroll,
    {
        self.man_page.scroll
    }

    /// A handle to the page shown.
    pub fn content(&self) -> (r: std::sync::Arc<Vec<String>>)
        ensures
            views(r@) == self@.content,
    {
        self.man_page.content.clone()
    }

    /// Indices of the page's lines that match the query, ascending.
    pub fn matches(&self) -> (r: &Vec<usize>)
        ensures
            r@ == self@.matches,
    {
        &self.search.matches
    }

    /// Position of the current match among the matches.
    pub fn current_match(&self) -> (r: usize)
        ensures
            r == self@.current_match,
    {
        self.search.current_match
    }

    /// Position among the matches of page line `line`, if it matches.
    pub fn match_position(&self, line: usize) -> (r: Option<usize>)
        ensures
            r matches Some(k) ==> k < self@.matches.len() && self@.matches[k as int] == line
                && forall|j: int| 0 <= j < k ==> self@.matches[j] != line,
            r is None ==> !self@.matches.contains(line),
    {
        let mut k: usize = 0;
        while k < self.search.matches.len()
            invariant
                k <= self.search.matches.len(),
                forall|j: int| 0 <= j < k ==> self.search.matches@[j] != line,
            decreases self.search.matches.len() - k,
        {
            if self.search.matches[k] == line {
                return Some(k);
            }
            k = k + 1;
        }
        None
    }

    /// Rows of the command list to draw in a window of `height` rows, as a
    /// half-open range of positions.
    pub fn visible_commands(&self, height: usize) -> (r: (usize, usize))
        ensures
            r.0 == min(self@.list_scroll, self@.filtered.len() as int),
            r.1 == min(self@.list_scroll + height, self@.filtered.len() as int),
    {
        let len = self.command_list.filtered_commands.len();
        window(self.command_list.list_scroll, height, len)
    }

    /// Lines of the page to draw in a window of `height` lines, as a
    /// half-open range of line indices.
    pub fn visible_lines(&self, height: usize) -> (r: (usize, usize))
        ensures
            r.0 == min(self@.scroll, self@.content.len() as int),
            r.1 == min(self@.scroll + height, self@.content.len() as int),
    {
        let len = self.man_page.content.len();
        window(self.man_page.scroll, height, len)
    }


    /// The status bar's text: the load under way, or the focused panel and
    /// its keys.
    pub fn status_text(&self) -> (r: String)
        ensures
            r@ == status_spec(self@),
    {
        let label = match self.page_source {
            PageSource::Man => "MAN",
            PageSource::Tldr => "TLDR",
        };
        if self.loading {
            let mut s = String::from_str("Loading ");
            s.append(label);
            s.append("...");
            return s;
        }
        match self.focus {
            Focus::CommandList => String::from_str("RTFM // COMMAND LIST [Tab:Switch Home/End]"),
            Focus::ManPage => {
                let mut s = String::from_str("RTFM // ");
                s.append(label);
                s.append(" PAGE [Tab:Switch /:Search t:Toggle Home/End]");
                s
            },
            Focus::Search => String::from_str("RTFM // SEARCH MODE [Enter:Apply Esc:Cancel]"),
        }
    }

    /// The input line: the filter text, or the query while searching.
    pub fn input_line(&self) -> (r: String)
        ensures
            r@ == if self@.focus == Focus::Search {
                "/"@ + self@.query
            } else {
                "> "@ + self@.filter
            },
    {
        if self.focus == Focus::Search {
            let mut s = String::from_str("/");
            s.append(self.search.query.as_str());
            s
        } else {
            let mut s = String::from_str("> ");
            s.append(self.command_list.input.as_str());
            s
        }
    }

    /// Records the height of the list's window, as last drawn.
    pub fn set_list_height(&mut self, height: usize)
        ensures
            final(self)@ == (SessionModel { list_height: height as int, ..old(self)@ }),
    {
        self.command_list.list_height = height;
    }
}

} // verus!
