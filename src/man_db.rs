//! The command catalogue, read from the listing that `man -k .` prints,
//! with its prefix index, descriptions and page cache.
use vstd::prelude::*;

use crate::cache::{
    complete_spec, fetched_page, request_spec, result_lines, CacheLookup, CacheModel,
    ContentCache, FetchError, PageSource,
};
use crate::text::{
    chars_of, occurs_at, occurs_at_exec, slice_chars, split_words, string_of, trim, trim_chars,
    words_of,
};
use crate::trie::{prefix_query, views, Trie};

verus! {

/// A line without the carriage return that may end it.
pub open spec fn strip_cr(l: Seq<char>) -> Seq<char> {
    if l.len() > 0 && l.last() == '\r' {
        l.drop_last()
    } else {
        l
    }
}

/// The lines of `s[i..]`, when `cur` holds the line read so far.
pub open spec fn lines_acc(s: Seq<char>, i: int, cur: Seq<char>) -> Seq<Seq<char>>
    decreases s.len() - i,
{
    if i < 0 || i >= s.len() {
        if cur.len() > 0 {
            seq![strip_cr(cur)]
        } else {
            Seq::empty()
        }
    } else if s[i] == '\n' {
        seq![strip_cr(cur)] + lines_acc(s, i + 1, Seq::empty())
    } else {
        lines_acc(s, i + 1, cur.push(s[i]))
    }
}

/// The lines of a text: split at each line feed, each without a final
/// carriage return; a line feed at the very end starts no further line.
pub open spec fn lines_of(s: Seq<char>) -> Seq<Seq<char>> {
    lines_acc(s, 0, Seq::empty())
}

/// Splits a text into its lines.
pub fn split_lines(s: &str) -> (r: Vec<String>)
    ensures
        views(r@) == lines_of(s@),
{
    let cs = chars_of(s);
    let mut r: Vec<String> = Vec::new();
    let mut cur: Vec<char> = Vec::new();
    let mut i: usize = 0;
    while i < cs.len()
        invariant
            i <= cs.len(),
            cs@ == s@,
            views(r@) + lines_acc(s@, i as int, cur@) == lines_of(s@),
        decreases cs.len() - i,
    {
        if cs[i] == '\n' {
            let ghost before = views(r@);
            let line = without_cr(&cur);
            r.push(string_of(&line));
            assert(views(r@) =~= before + seq![strip_cr(cur@)]);
            cur = Vec::new();
        } else {
            cur.push(cs[i]);
        }
        i = i + 1;
    }
    if cur.len() > 0 {
        let line = without_cr(&cur);
        r.push(string_of(&line));
    }
    assert(views(r@) =~= views(r@) + Seq::<Seq<char>>::empty());
    r
}

fn without_cr(cur: &Vec<char>) -> (r: Vec<char>)
    ensures
        r@ == strip_cr(cur@),
{
    if cur.len() > 0 && cur[cur.len() - 1] == '\r' {
        slice_chars(cur, 0, cur.len() - 1)
    } else {
        slice_chars(cur, 0, cur.len())
    }
}

/// The first position, at or after `i`, where ` - ` starts, or -1.
pub open spec fn separator_from(s: Seq<char>, i: int) -> int
    decreases s.len() - i,
{
    if i < 0 || i + 3 > s.len() {
        -1
    } else if occurs_at(s, " - "@, i) {
        i
    } else {
        separator_from(s, i + 1)
    }
}

/// What the manual's index search gives for a name part: the text of the
/// first `(`digit`)` group in it, as the `regex` crate finds it.
pub uninterp spec fn section_group(s: Seq<char>) -> Option<Seq<char>>;

/// Relies on `regex::Regex::new` and `regex::Regex::captures`: the pattern
/// `\((\d)\)` is valid, and its one group holds one character.
#[verifier::external_body]
fn capture_section(name: &str) -> (r: Option<String>)
    ensures
        match r {
            Some(g) => section_group(name@) == Some(g@) && g@.len() == 1,
            None => section_group(name@) is None,
        },
{
    let re = regex::Regex::new(r"\((\d)\)").unwrap();
    let caps = re.captures(name)?;
    let group = caps.get(1)?;
    Some(group.as_str().to_string())
}

/// The section number that a captured group reads as, or 0 where it does
/// not read as one: a single ASCII digit gives its value.
pub open spec fn section_number(g: Seq<char>) -> int {
    if g.len() == 1 && '0' <= g[0] && g[0] <= '9' {
        g[0] as int - '0' as int
    } else {
        0
    }
}

/// Whether a captured section group names section `section`.
pub fn section_matches(group: &Option<String>, section: u8) -> (r: bool)
    ensures
        r == match group {
            Some(g) => section_number(g@) == section,
            None => false,
        },
{
    match group {
        Some(g) => {
            let cs = chars_of(g.as_str());
            let v: u32 = if cs.len() == 1 && '0' <= cs[0] && cs[0] <= '9' {
                (cs[0] as u32) - ('0' as u32)
            } else {
                0
            };
            v == section as u32
        },
        None => false,
    }
}

/// The entry that a listing line gives: the first word of its name part
/// and its description, both trimmed, when the line has ` - ` and its name
/// part names the section.
pub open spec fn entry_of_line(line: Seq<char>, section: u8) -> Option<(Seq<char>, Seq<char>)> {
    let i = separator_from(line, 0);
    if i < 0 {
        None
    } else {
        let name_part = trim(line.subrange(0, i));
        let desc = trim(line.subrange(i + 3, line.len() as int));
        let ws = words_of(name_part);
        match section_group(name_part) {
            Some(g) => if section_number(g) == section && ws.len() > 0 {
                Some((ws[0], desc))
            } else {
                None
            },
            None => None,
        }
    }
}

/// Where ` - ` first occurs in `cs`, if it does.
fn find_separator(cs: &Vec<char>) -> (r: Option<usize>)
    ensures
        match r {
            Some(i) => separator_from(cs@, 0) == i && i + 3 <= cs@.len(),
            None => separator_from(cs@, 0) == -1,
        },
{
    let sep_cs = chars_of(" - ");
    proof {
        reveal_strlit(" - ");
    }
    assert(sep_cs@.len() == 3);
    if cs.len() < 3 {
        return None;
    }
    let mut i: usize = 0;
    while i <= cs.len() - 3
        invariant
            sep_cs@ == " - "@,
            3 <= cs.len(),
            i <= cs.len() - 2,
            separator_from(cs@, i as int) == separator_from(cs@, 0),
        decreases cs.len() - i,
    {
        if occurs_at_exec(cs, &sep_cs, i) {
            return Some(i);
        }
        i = i + 1;
    }
    None
}

/// Reads one listing line.
pub fn parse_line(line: &str, section: u8) -> (r: Option<(String, String)>)
    ensures
        match r {
            Some(e) => entry_of_line(line@, section) == Some((e.0@, e.1@)),
            None => entry_of_line(line@, section) is None,
        },
{
    let cs = chars_of(line);
    let i = match find_separator(&cs) {
        Some(i) => i,
        None => return None,
    };
    let name_cs = trim_chars(&slice_chars(&cs, 0, i));
    let name_part = string_of(&name_cs);
    let desc = string_of(&trim_chars(&slice_chars(&cs, i + 3, cs.len())));
    let group = capture_section(name_part.as_str());
    if !section_matches(&group, section) {
        return None;
    }
    let words = split_words(name_part.as_str());
    if words.len() == 0 {
        return None;
    }
    let name = words[0].clone();
    Some((name, desc))
}

/// The entries that the first `n` lines give, in order.
pub open spec fn entries_upto(lines: Seq<Seq<char>>, section: u8, n: int) -> Seq<
    (Seq<char>, Seq<char>),
>
    decreases n,
{
    if n <= 0 {
        Seq::empty()
    } else {
        let prev = entries_upto(lines, section, n - 1);
        match entry_of_line(lines[n - 1], section) {
            Some(e) => prev.push(e),
            None => prev,
        }
    }
}

/// The entries, name and description, of a listing for a section.
pub open spec fn listing_entries(output: Seq<char>, section: u8) -> Seq<(Seq<char>, Seq<char>)> {
    let lines = lines_of(output);
    entries_upto(lines, section, lines.len() as int)
}

/// The characters of each name and description.
pub open spec fn entry_views(v: Seq<(String, String)>) -> Seq<(Seq<char>, Seq<char>)> {
    v.map_values(|e: (String, String)| (e.0@, e.1@))
}

/// The names of a list of entries.
pub open spec fn entry_names(es: Seq<(Seq<char>, Seq<char>)>) -> Set<Seq<char>> {
    es.map_values(|e: (Seq<char>, Seq<char>)| e.0).to_set()
}

/// The description of the last entry named `command`, if one is.
pub open spec fn last_description(es: Seq<(Seq<char>, Seq<char>)>, command: Seq<char>) -> Option<
    Seq<char>,
>
    decreases es.len(),
{
    if es.len() == 0 {
        None
    } else if es.last().0 == command {
        Some(es.last().1)
    } else {
        last_description(es.drop_last(), command)
    }
}

/// Reads the entries of a listing for a section, in order.
pub fn parse_listing(output: &str, section: u8) -> (r: Vec<(String, String)>)
    ensures
        entry_views(r@) == listing_entries(output@, section),
{
    let lines = split_lines(output);
    let ghost ls = lines_of(output@);
    let mut r: Vec<(String, String)> = Vec::new();
    let mut i: usize = 0;
    while i < lines.len()
        invariant
            i <= lines.len(),
            views(lines@) == ls,
            ls == lines_of(output@),
            entry_views(r@) == entries_upto(ls, section, i as int),
        decreases lines.len() - i,
    {
        assert(ls[i as int] == lines@[i as int]@);
        match parse_line(lines[i].as_str(), section) {
            Some(e) => {
                let ghost before = entry_views(r@);
                r.push(e);
                assert(entry_views(r@) =~= before.push((e.0@, e.1@)));
            },
            None => {},
        }
        i = i + 1;
    }
    r
}

/// What the catalogue holds: its entries, in listing order; its commands,
/// sorted and each once; and its page cache.
pub struct ManDbModel {
    pub entries: Seq<(Seq<char>, Seq<char>)>,
    pub commands: Seq<Seq<char>>,
    pub cache: CacheModel,
}

/// Man page database: the commands of one manual section, their
/// descriptions, a prefix index over their names, and the pages fetched.
pub struct ManDb {
    commands: Vec<String>,
    entries: Vec<(String, String)>,
    cache: ContentCache,
    trie: Trie,
}

impl View for ManDb {
    type V = ManDbModel;

    closed spec fn view(&self) -> ManDbModel {
        ManDbModel {
            entries: entry_views(self.entries@),
            commands: views(self.commands@),
            cache: self.cache@,
        }
    }
}

impl ManDb {
    /// The index holds the entries' names, the commands list them sorted,
    /// and the cache is well formed.
    pub closed spec fn wf(&self) -> bool {
        &&& self.trie.wf()
        &&& self.trie@ == entry_names(self@.entries)
        &&& prefix_query(entry_names(self@.entries), Seq::empty(), self@.commands)
        &&& self.cache.wf()
    }

    /// Builds the catalogue of section `section` from the listing that the
    /// manual's index search printed.
    pub fn from_listing(output: &str, section: u8) -> (r: ManDb)
        ensures
            r.wf(),
            r@.entries == listing_entries(output@, section),
            prefix_query(entry_names(r@.entries), Seq::empty(), r@.commands),
            r@.cache.stored == Map::<(Seq<char>, PageSource), Seq<Seq<char>>>::empty(),
            r@.cache.pending == Set::<(Seq<char>, PageSource)>::empty(),
    {
        let entries = parse_listing(output, section);
        let mut names: Vec<String> = Vec::new();
        let mut i: usize = 0;
        while i < entries.len()
            invariant
                i <= entries.len(),
                views(names@) == entry_views(entries@).take(i as int).map_values(
                    |e: (Seq<char>, Seq<char>)| e.0,
                ),
            decreases entries.len() - i,
        {
            let ghost before = views(names@);
            names.push(entries[i].0.clone());
            assert(views(names@) =~= before.push(entries@[i as int].0@));
            assert(entry_views(entries@).take(i + 1) =~= entry_views(entries@).take(
                i as int,
            ).push(entry_views(entries@)[i as int]));
            assert(views(names@) =~= entry_views(entries@).take(i + 1).map_values(
                |e: (Seq<char>, Seq<char>)| e.0,
            ));
            i = i + 1;
        }
        assert(entry_views(entries@).take(entries.len() as int) =~= entry_views(entries@));
        let trie = Trie::from_words(&names);
        let empty = String::new();
        let commands = trie.words_starting_with(empty.as_str());
        ManDb { commands, entries, cache: ContentCache::new(), trie }
    }

    /// All commands, sorted, each once.
    pub fn get_commands(&self) -> (r: &Vec<String>)
        ensures
            views(r@) == self@.commands,
    {
        &self.commands
    }

    /// The commands whose names start with `prefix`, sorted, each once.
    pub fn commands_starting_with(&self, prefix: &str) -> (r: Vec<String>)
        requires
            self.wf(),
        ensures
            prefix_query(entry_names(self@.entries), prefix@, views(r@)),
    {
        self.trie.words_starting_with(prefix)
    }

    /// The description of a command, as its last entry gives it.
    pub fn get_description(&self, command: &str) -> (r: Option<String>)
        ensures
            match r {
                Some(d) => last_description(self@.entries, command@) == Some(d@),
                None => last_description(self@.entries, command@) is None,
            },
    {
        let key = command.to_owned();
        let ghost es = self@.entries;
        let mut i: usize = self.entries.len();
        assert(es.take(i as int) =~= es);
        while i > 0
            invariant
                i <= self.entries.len(),
                es == self@.entries,
                key@ == command@,
                last_description(es, command@) == last_description(es.take(i as int), command@),
            decreases i,
        {
            assert(es.take(i as int).drop_last() =~= es.take(i - 1));
            assert(es.take(i as int).last() == (self.entries@[i - 1].0@, self.entries@[i - 1].1@));
            if self.entries[i - 1].0 == key {
                return Some(self.entries[i - 1].1.clone());
            }
            i = i - 1;
        }
        None
    }

    /// Asks the cache for a page: see `ContentCache::request`.
    pub fn request_page(&mut self, command: &str, source: PageSource) -> (r: CacheLookup)
        requires
            old(self).wf(),
        ensures
            final(self).wf(),
            final(self)@.entries == old(self)@.entries,
            final(self)@.commands == old(self)@.commands,
            (final(self)@.cache, r.model()) == request_spec(old(self)@.cache, (command@, source)),
    {
        self.cache.request(command, source)
    }

    /// Hands the outcome of a page's fetch to the cache: see
    /// `ContentCache::complete`.
    pub fn complete_page(
        &mut self,
        command: &str,
        source: PageSource,
        result: Result<Vec<String>, FetchError>,
    ) -> (r: std::sync::Arc<Vec<String>>)
        requires
            old(self).wf(),
        ensures
            final(self).wf(),
            final(self)@.entries == old(self)@.entries,
            final(self)@.commands == old(self)@.commands,
            (final(self)@.cache, views(r@)) == complete_spec(
                old(self)@.cache,
                (command@, source),
                fetched_page(command@, source, result_lines(result)),
            ),
    {
        self.cache.complete(command, source, result)
    }

    /// The cached page of a command, if it was fetched.
    pub fn cached_page(&self, command: &str, source: PageSource) -> (r: Option<
        std::sync::Arc<Vec<String>>,
    >)
        requires
            self.wf(),
        ensures
            r is Some <==> self@.cache.stored.contains_key((command@, source)),
            r matches Some(h) ==> views(h@) == self@.cache.stored[(command@, source)],
    {
        self.cache.get(command, source)
    }
}

} // verus!
