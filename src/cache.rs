//! Content cache: pages already fetched, keyed by command and source, with
//! at most one fetch of each key under way at a time.
use vstd::prelude::*;

use crate::trie::views;

verus! {

/// Which provider backs a page: the manual, or the cheat-sheet collection.
#[derive(Clone, Copy, Debug, PartialEq, Eq, Structural)]
pub enum PageSource {
    Man,
    Tldr,
}

/// Why a page could not be fetched.
#[derive(Clone, Copy, Debug, PartialEq, Eq, Structural)]
pub enum FetchError {
    /// The provider program could not be started.
    Unavailable,
    /// The provider exited with a failure status.
    Failed,
    /// The provider's output was not valid text.
    InvalidOutput,
}

/// Key of a cached page.
pub type PageKey = (Seq<char>, PageSource);

/// What the cache knows: the pages stored, and the keys being fetched.
pub struct CacheModel {
    pub stored: Map<PageKey, Seq<Seq<char>>>,
    pub pending: Set<PageKey>,
}

/// Answer to a request for a page.
pub enum CacheLookup {
    /// The page is stored; here is a handle to it.
    Hit(std::sync::Arc<Vec<String>>),
    /// Nobody is fetching the page: the caller fetches it, then completes.
    Fetch,
    /// Another caller is fetching the page; its completion will store it.
    Wait,
}

/// What a request answers, with pages as lines of characters.
pub enum LookupModel {
    Hit(Seq<Seq<char>>),
    Fetch,
    Wait,
}

impl CacheLookup {
    pub open spec fn model(&self) -> LookupModel {
        match self {
            CacheLookup::Hit(h) => LookupModel::Hit(views(h@)),
            CacheLookup::Fetch => LookupModel::Fetch,
            CacheLookup::Wait => LookupModel::Wait,
        }
    }
}

/// The transition of a request for `key`: a stored page is handed out;
/// otherwise the first request for a key is told to fetch it, and the key
/// is marked pending, while later ones wait.
pub open spec fn request_spec(m: CacheModel, key: PageKey) -> (CacheModel, LookupModel) {
    if m.stored.contains_key(key) {
        (m, LookupModel::Hit(m.stored[key]))
    } else if m.pending.contains(key) {
        (m, LookupModel::Wait)
    } else {
        (CacheModel { stored: m.stored, pending: m.pending.insert(key) }, LookupModel::Fetch)
    }
}

/// The transition of a completed fetch: the key is no longer pending, and
/// its page is stored unless one already is, which then stays.
pub open spec fn complete_spec(m: CacheModel, key: PageKey, page: Seq<Seq<char>>) -> (
    CacheModel,
    Seq<Seq<char>>,
) {
    if m.stored.contains_key(key) {
        (CacheModel { stored: m.stored, pending: m.pending.remove(key) }, m.stored[key])
    } else {
        (CacheModel { stored: m.stored.insert(key, page), pending: m.pending.remove(key) }, page)
    }
}

/// The one-line page that stands for one that could not be fetched.
pub open spec fn placeholder_spec(command: Seq<char>, source: PageSource) -> Seq<Seq<char>> {
    let kind = match source {
        PageSource::Man => "man"@,
        PageSource::Tldr => "tldr"@,
    };
    seq!["Failed to load "@ + kind + " page: "@ + command]
}

/// The page that a fetch's outcome gives.
pub open spec fn fetched_page(
    command: Seq<char>,
    source: PageSource,
    result: Result<Seq<Seq<char>>, FetchError>,
) -> Seq<Seq<char>> {
    match result {
        Ok(lines) => lines,
        Err(_) => placeholder_spec(command, source),
    }
}

/// The lines of a fetch's outcome.
pub open spec fn result_lines(r: Result<Vec<String>, FetchError>) -> Result<
    Seq<Seq<char>>,
    FetchError,
> {
    match r {
        Ok(v) => Ok(views(v@)),
        Err(e) => Err(e),
    }
}

/// The one-line page `Failed to load <kind> page: <command>`.
pub fn placeholder(command: &str, source: PageSource) -> (r: Vec<String>)
    ensures
        views(r@) == placeholder_spec(command@, source),
{
    let mut s = String::from_str("Failed to load ");
    match source {
        PageSource::Man => s.append("man"),
        PageSource::Tldr => s.append("tldr"),
    }
    s.append(" page: ");
    s.append(command);
    let r = vec![s];
    assert(views(r@) =~= placeholder_spec(command@, source));
    r
}

/// A fetch happens at most once per key: once a request has told its
/// caller to fetch a key, further requests for it wait until the fetch
/// completes, and from then on they hand out the page that was stored.
pub proof fn law_fetch_once(m: CacheModel, key: PageKey, page: Seq<Seq<char>>)
    requires
        request_spec(m, key).1 is Fetch,
    ensures
        ({
            let m1 = request_spec(m, key).0;
            let (m2, stored) = complete_spec(m1, key, page);
            &&& request_spec(m1, key) == (m1, LookupModel::Wait)
            &&& stored == page
            &&& request_spec(m2, key) == (m2, LookupModel::Hit(page))
        }),
{
}

/// A stored page stays: requests hand it out and change nothing, and a
/// later completion for its key keeps it and returns it.
pub proof fn law_stored_page_stays(m: CacheModel, key: PageKey, page: Seq<Seq<char>>)
    requires
        m.stored.contains_key(key),
    ensures
        request_spec(m, key) == (m, LookupModel::Hit(m.stored[key])),
        complete_spec(m, key, page).0.stored == m.stored,
        complete_spec(m, key, page).1 == m.stored[key],
{
}

struct CacheEntry {
    command: String,
    source: PageSource,
    content: std::sync::Arc<Vec<String>>,
}

/// Pages fetched so far, never evicted nor changed, and the keys whose
/// fetch is under way.
pub struct ContentCache {
    entries: Vec<CacheEntry>,
    in_flight: Vec<(String, PageSource)>,
}

spec fn entry_key(e: CacheEntry) -> PageKey {
    (e.command@, e.source)
}

spec fn entries_map(es: Seq<CacheEntry>) -> Map<PageKey, Seq<Seq<char>>>
    decreases es.len(),
{
    if es.len() == 0 {
        Map::empty()
    } else {
        entries_map(es.drop_last()).insert(entry_key(es.last()), views(es.last().content@))
    }
}

spec fn flight_key(f: (String, PageSource)) -> PageKey {
    (f.0@, f.1)
}

proof fn lemma_entries_map(es: Seq<CacheEntry>)
    requires
        forall|i: int, j: int|
            0 <= i < j < es.len() ==> entry_key(#[trigger] es[i]) != entry_key(#[trigger] es[j]),
    ensures
        forall|k: PageKey|
            #[trigger] entries_map(es).contains_key(k) <==> exists|i: int|
                0 <= i < es.len() && entry_key(#[trigger] es[i]) == k,
        forall|i: int|
            0 <= i < es.len() ==> #[trigger] entries_map(es)[entry_key(es[i])] == views(
                es[i].content@,
            ),
    decreases es.len(),
{
    if es.len() > 0 {
        let init = es.drop_last();
        lemma_entries_map(init);
        assert forall|k: PageKey|
            #[trigger] entries_map(es).contains_key(k) <==> exists|i: int|
                0 <= i < es.len() && entry_key(#[trigger] es[i]) == k by {
            if entries_map(init).contains_key(k) {
                let i = choose|i: int| 0 <= i < init.len() && entry_key(#[trigger] init[i]) == k;
                assert(es[i] == init[i]);
            }
            if exists|i: int| 0 <= i < es.len() && entry_key(#[trigger] es[i]) == k {
                let i = choose|i: int| 0 <= i < es.len() && entry_key(#[trigger] es[i]) == k;
                if i < es.len() - 1 {
                    assert(init[i] == es[i]);
                }
            }
        }
        assert forall|i: int|
            0 <= i < es.len() implies #[trigger] entries_map(es)[entry_key(es[i])] == views(
            es[i].content@,
        ) by {
            if i < es.len() - 1 {
                assert(init[i] == es[i]);
                assert(entry_key(es[i]) != entry_key(es.last()));
                assert(entries_map(init)[entry_key(init[i])] == views(init[i].content@));
            }
        }
    }
}

impl View for ContentCache {
    type V = CacheModel;

    closed spec fn view(&self) -> CacheModel {
        CacheModel {
            stored: entries_map(self.entries@),
            pending: self.in_flight@.map_values(|f: (String, PageSource)| flight_key(f)).to_set(),
        }
    }
}

impl ContentCache {
    /// No key is stored twice, and no key is both stored and pending.
    pub closed spec fn wf(&self) -> bool {
        &&& forall|i: int, j: int|
            0 <= i < j < self.entries@.len() ==> entry_key(#[trigger] self.entries@[i])
                != entry_key(#[trigger] self.entries@[j])
        &&& forall|i: int|
            0 <= i < self.in_flight@.len() ==> !entries_map(self.entries@).contains_key(
                flight_key(#[trigger] self.in_flight@[i]),
            )
        &&& forall|i: int, j: int|
            0 <= i < j < self.in_flight@.len() ==> flight_key(#[trigger] self.in_flight@[i])
                != flight_key(#[trigger] self.in_flight@[j])
    }

    spec fn pending_keys(fs: Seq<(String, PageSource)>) -> Seq<PageKey> {
        fs.map_values(|f: (String, PageSource)| flight_key(f))
    }

    /// Position of the stored page for a key, if there is one.
    fn find_entry(&self, command: &String, source: PageSource) -> (r: Option<usize>)
        requires
            self.wf(),
        ensures
            r matches Some(i) ==> i < self.entries@.len() && entry_key(self.entries@[i as int])
                == (command@, source),
            r is None <==> !self@.stored.contains_key((command@, source)),
    {
        proof {
            lemma_entries_map(self.entries@);
        }
        let mut i: usize = 0;
        while i < self.entries.len()
            invariant
                self.wf(),
                i <= self.entries.len(),
                forall|m: int|
                    0 <= m < i ==> entry_key(#[trigger] self.entries@[m]) != (command@, source),
            decreases self.entries.len() - i,
        {
            if self.entries[i].source == source && self.entries[i].command == *command {
                proof {
                    lemma_entries_map(self.entries@);
                }
                assert(entry_key(self.entries@[i as int]) == (command@, source));
                return Some(i);
            }
            i = i + 1;
        }
        None
    }

    /// Position of a pending key, if it is pending.
    fn find_in_flight(&self, command: &String, source: PageSource) -> (r: Option<usize>)
        ensures
            r matches Some(i) ==> i < self.in_flight@.len() && flight_key(self.in_flight@[i as int])
                == (command@, source),
            r is None <==> !self@.pending.contains((command@, source)),
    {
        let mut i: usize = 0;
        while i < self.in_flight.len()
            invariant
                i <= self.in_flight.len(),
                forall|m: int|
                    0 <= m < i ==> flight_key(#[trigger] self.in_flight@[m]) != (command@, source),
            decreases self.in_flight.len() - i,
        {
            if self.in_flight[i].1 == source && self.in_flight[i].0 == *command {
                assert(Self::pending_keys(self.in_flight@)[i as int] == (command@, source));
                assert(Self::pending_keys(self.in_flight@).contains((command@, source)));
                return Some(i);
            }
            i = i + 1;
        }
        proof {
            let ks = Self::pending_keys(self.in_flight@);
            if ks.to_set().contains((command@, source)) {
                assert(ks.contains((command@, source)));
                let m = choose|m: int| 0 <= m < ks.len() && ks[m] == (command@, source);
                assert(flight_key(self.in_flight@[m]) == ks[m]);
            }
        }
        None
    }

    /// Asks for the page of a key: hands out the stored page, or tells the
    /// first caller to fetch it and later ones to wait for that fetch.
    pub fn request(&mut self, command: &str, source: PageSource) -> (r: CacheLookup)
        requires
            old(self).wf(),
        ensures
            final(self).wf(),
            (final(self)@, r.model()) == request_spec(old(self)@, (command@, source)),
    {
        let key = command.to_owned();
        match self.find_entry(&key, source) {
            Some(i) => {
                proof {
                    lemma_entries_map(self.entries@);
                }
                CacheLookup::Hit(self.entries[i].content.clone())
            },
            None => match self.find_in_flight(&key, source) {
                Some(_) => CacheLookup::Wait,
                None => {
                    let ghost fs = self.in_flight@;
                    self.in_flight.push((key, source));
                    proof {
                        let f = (key, source);
                        assert(Self::pending_keys(self.in_flight@) =~= Self::pending_keys(fs).push(
                            flight_key(f),
                        ));
                        Self::pending_keys(fs).lemma_push_to_set_commute(flight_key(f));
                        assert(self@.pending =~= old(self)@.pending.insert((command@, source)));
                        assert forall|a: int, b: int|
                            0 <= a < b < self.in_flight@.len() implies flight_key(
                            #[trigger] self.in_flight@[a],
                        ) != flight_key(#[trigger] self.in_flight@[b]) by {
                            if b == fs.len() {
                                assert(Self::pending_keys(fs)[a] == flight_key(fs[a]));
                                assert(Self::pending_keys(fs).contains(flight_key(fs[a])));
                            } else {
                                assert(self.in_flight@[a] == fs[a] && self.in_flight@[b] == fs[b]);
                            }
                        }
                        assert forall|a: int| 0 <= a < self.in_flight@.len() implies !entries_map(
                            self.entries@,
                        ).contains_key(flight_key(#[trigger] self.in_flight@[a])) by {
                            if a < fs.len() {
                                assert(self.in_flight@[a] == fs[a]);
                            }
                        }
                    }
                    CacheLookup::Fetch
                },
            },
        }
    }

    /// Records the outcome of a fetch: the key stops being pending and its
    /// page, or the placeholder for a failed fetch, is stored, unless a page
    /// is stored already, which is kept. Returns the page now stored.
    pub fn complete(
        &mut self,
        command: &str,
        source: PageSource,
        result: Result<Vec<String>, FetchError>,
    ) -> (r: std::sync::Arc<Vec<String>>)
        requires
            old(self).wf(),
        ensures
            final(self).wf(),
            (final(self)@, views(r@)) == complete_spec(
                old(self)@,
                (command@, source),
                fetched_page(command@, source, result_lines(result)),
            ),
    {
        let key = command.to_owned();
        let ghost k = (command@, source);
        let ghost fs = self.in_flight@;
        match self.find_in_flight(&key, source) {
            Some(j) => {
                self.in_flight.remove(j);
                proof {
                    let ks = Self::pending_keys(fs);
                    let ks2 = Self::pending_keys(self.in_flight@);
                    assert(ks2 =~= ks.remove(j as int));
                    assert forall|x: PageKey| ks2.to_set().contains(x) <==> ks.to_set().remove(
                        k,
                    ).contains(x) by {
                        if ks2.to_set().contains(x) {
                            assert(ks2.contains(x));
                            let m = choose|m: int| 0 <= m < ks2.len() && ks2[m] == x;
                            if m < j {
                                assert(ks[m] == x);
                                assert(flight_key(fs[m]) != flight_key(fs[j as int]));
                            } else {
                                assert(ks[m + 1] == x);
                                assert(flight_key(fs[m + 1]) != flight_key(fs[j as int]));
                            }
                            assert(ks.contains(x));
                        }
                        if ks.to_set().remove(k).contains(x) {
                            assert(ks.contains(x));
                            let m = choose|m: int| 0 <= m < ks.len() && ks[m] == x;
                            assert(m != j);
                            if m < j {
                                assert(ks2[m] == x);
                            } else {
                                assert(ks2[m - 1] == x);
                            }
                            assert(ks2.contains(x));
                        }
                    }
                    assert(self@.pending =~= old(self)@.pending.remove(k));
                    assert forall|a: int, b: int|
                        0 <= a < b < self.in_flight@.len() implies flight_key(
                        #[trigger] self.in_flight@[a],
                    ) != flight_key(#[trigger] self.in_flight@[b]) by {
                        let a0 = if a < j { a } else { a + 1 };
                        let b0 = if b < j { b } else { b + 1 };
                        assert(self.in_flight@[a] == fs[a0] && self.in_flight@[b] == fs[b0]);
                    }
                    assert forall|a: int| 0 <= a < self.in_flight@.len() implies !entries_map(
                        self.entries@,
                    ).contains_key(flight_key(#[trigger] self.in_flight@[a])) by {
                        let a0 = if a < j { a } else { a + 1 };
                        assert(self.in_flight@[a] == fs[a0]);
                    }
                }
            },
            None => {
                assert(self@.pending =~= old(self)@.pending.remove(k));
            },
        }
        let ghost mid = *self;
        match self.find_entry(&key, source) {
            Some(i) => {
                proof {
                    lemma_entries_map(self.entries@);
                }
                self.entries[i].content.clone()
            },
            None => {
                let lines = match result {
                    Ok(l) => l,
                    Err(_) => placeholder(command, source),
                };
                let h = std::sync::Arc::new(lines);
                let ghost es = self.entries@;
                self.entries.push(CacheEntry { command: key, source, content: h.clone() });
                proof {
                    assert(self.entries@.drop_last() =~= es);
                    lemma_entries_map(es);
                    assert forall|a: int, b: int|
                        0 <= a < b < self.entries@.len() implies entry_key(
                        #[trigger] self.entries@[a],
                    ) != entry_key(#[trigger] self.entries@[b]) by {
                        if b == es.len() {
                            assert(self.entries@[a] == es[a]);
                        } else {
                            assert(self.entries@[a] == es[a] && self.entries@[b] == es[b]);
                        }
                    }
                    assert forall|a: int| 0 <= a < self.in_flight@.len() implies !entries_map(
                        self.entries@,
                    ).contains_key(flight_key(#[trigger] self.in_flight@[a])) by {
                        assert(!mid@.pending.contains(k));
                        assert(Self::pending_keys(self.in_flight@)[a] == flight_key(
                            self.in_flight@[a],
                        ));
                        assert(Self::pending_keys(self.in_flight@).contains(
                            flight_key(self.in_flight@[a]),
                        ));
                    }
                }
                h
            },
        }
    }

    /// The stored page for a key, if there is one.
    pub fn get(&self, command: &str, source: PageSource) -> (r: Option<
        std::sync::Arc<Vec<String>>,
    >)
        requires
            self.wf(),
        ensures
            r is Some <==> self@.stored.contains_key((command@, source)),
            r matches Some(h) ==> views(h@) == self@.stored[(command@, source)],
    {
        let key = command.to_owned();
        match self.find_entry(&key, source) {
            Some(i) => {
                proof {
                    lemma_entries_map(self.entries@);
                }
                Some(self.entries[i].content.clone())
            },
            None => None,
        }
    }


    /// An empty cache.
    pub fn new() -> (r: ContentCache)
        ensures
            r.wf(),
            r@.stored == Map::<PageKey, Seq<Seq<char>>>::empty(),
            r@.pending == Set::<PageKey>::empty(),
    {
        let r = ContentCache { entries: Vec::new(), in_flight: Vec::new() };
        assert(r@.stored =~= Map::<PageKey, Seq<Seq<char>>>::empty());
        assert(r@.pending =~= Set::<PageKey>::empty());
        r
    }
}

} // verus!
