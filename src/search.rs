//! In-page search: which lines of a page hold the query, cyclic movement
//! between those lines, and where the query occurs inside a line.
use vstd::prelude::*;

use crate::text::{
    char_folds, char_lower_of, chars_of, contains_seq, fold, fold_chars, is_substring,
    lemma_fold_extend, occurs_at_exec,
};
use crate::trie::views;

verus! {

/// A line matches a query when the query is not empty and occurs in the
/// line with case ignored: both folded character by character.
pub open spec fn line_hit(line: Seq<char>, query: Seq<char>) -> bool {
    query.len() > 0 && is_substring(fold(query), fold(line))
}

/// Indices, ascending, of the lines among the first `n` that match.
pub open spec fn matches_upto(content: Seq<Seq<char>>, query: Seq<char>, n: int) -> Seq<usize>
    decreases n,
{
    if n <= 0 {
        Seq::empty()
    } else {
        let prev = matches_upto(content, query, n - 1);
        if line_hit(content[n - 1], query) {
            prev.push((n - 1) as usize)
        } else {
            prev
        }
    }
}

/// Indices, ascending, of the lines of `content` that match `query`.
pub open spec fn match_lines(content: Seq<Seq<char>>, query: Seq<char>) -> Seq<usize> {
    matches_upto(content, query, content.len() as int)
}

/// Computes the ascending indices of the lines of `content` that contain
/// `query`, ignoring case; an empty query matches nothing.
pub fn compute_matches(content: &Vec<String>, query: &str) -> (r: Vec<usize>)
    ensures
        r@ == match_lines(views(content@), query@),
{
    let mut r: Vec<usize> = Vec::new();
    let nonempty = !query.is_empty();
    let q = fold_chars(query);
    let mut i: usize = 0;
    while i < content.len()
        invariant
            i <= content.len(),
            nonempty == (query@.len() > 0),
            q@ == fold(query@),
            r@ == matches_upto(views(content@), query@, i as int),
        decreases content.len() - i,
    {
        if nonempty {
            let l = fold_chars(content[i].as_str());
            if contains_seq(&l, &q) {
                r.push(i);
            }
        }
        i = i + 1;
    }
    r
}

/// The match after `current`, going round to the first after the last.
pub open spec fn next_index(len: int, current: int) -> int {
    if len == 0 {
        current
    } else {
        (current + 1) % len
    }
}

/// The match before `current`, going round to the last before the first.
pub open spec fn prev_index(len: int, current: int) -> int {
    if len == 0 {
        current
    } else if current == 0 {
        len - 1
    } else {
        current - 1
    }
}

/// Moving among `len` matches wraps around at both ends, and a step back
/// undoes a step forward, and the other way round.
pub proof fn law_match_cycle(len: int, k: int)
    requires
        0 <= k < len,
    ensures
        next_index(len, k) == if k == len - 1 {
            0
        } else {
            k + 1
        },
        prev_index(len, 0) == len - 1,
        prev_index(len, next_index(len, k)) == k,
        next_index(len, prev_index(len, k)) == k,
{
    if k == len - 1 {
        assert((k + 1) % len == 0) by (nonlinear_arith)
            requires
                k + 1 == len,
                len > 0,
        ;
    } else {
        assert((k + 1) % len == k + 1) by (nonlinear_arith)
            requires
                0 <= k + 1 < len,
        ;
    }
    let p = prev_index(len, k);
    if k == 0 {
        assert((len - 1 + 1) % len == 0) by (nonlinear_arith)
            requires
                len > 0,
        ;
    } else {
        assert((p + 1) % len == p + 1) by (nonlinear_arith)
            requires
                0 <= p + 1 < len,
        ;
    }
}

/// Advances circularly among `len` matches; unchanged when there are none.
pub fn next_match(len: usize, current: usize) -> (r: usize)
    requires
        len == 0 || current < len,
    ensures
        r == next_index(len as int, current as int),
        len > 0 ==> r < len,
{
    if len == 0 {
        current
    } else {
        (current + 1) % len
    }
}

/// Retreats circularly among `len` matches; unchanged when there are none.
pub fn prev_match(len: usize, current: usize) -> (r: usize)
    requires
        len == 0 || current < len,
    ensures
        r == prev_index(len as int, current as int),
        len > 0 ==> r < len,
{
    if len == 0 {
        current
    } else if current == 0 {
        len - 1
    } else {
        current - 1
    }
}

/// The scroll offset that puts `line` in the middle of a page of
/// `page_size` lines: `max(0, line - page_size / 2)`.
pub fn center_scroll(line: usize, page_size: usize) -> (r: usize)
    ensures
        r == if line >= page_size / 2 {
            line - page_size / 2
        } else {
            0
        },
{
    line.saturating_sub(page_size / 2)
}

/// Where an occurrence, with case ignored, of the folded query `fq` that
/// starts at `a` in `line` ends: the first `b` from `from` on at which
/// `line[a..b]` folds to exactly `fq`, or -1 once the folded run is longer
/// than `fq` or the line ends.
pub open spec fn folded_end(line: Seq<char>, fq: Seq<char>, a: int, from: int) -> int
    decreases line.len() - from,
{
    if from < a + 1 || from > line.len() {
        -1
    } else {
        let f = fold(line.subrange(a, from));
        if f.len() > fq.len() {
            -1
        } else if f == fq {
            from
        } else if from >= line.len() {
            -1
        } else {
            folded_end(line, fq, a, from + 1)
        }
    }
}

/// Occurrences, with case ignored, of the folded query `fq` in `line` at
/// or after `start`, found left to right without overlap, as half-open
/// ranges of positions in `line`.
pub open spec fn folded_spans_from(line: Seq<char>, fq: Seq<char>, start: int) -> Seq<
    (usize, usize),
>
    decreases line.len() - start,
{
    if fq.len() == 0 || start < 0 || start >= line.len() {
        Seq::empty()
    } else {
        let e = folded_end(line, fq, start, start + 1);
        if start < e && e <= line.len() {
            seq![(start as usize, e as usize)] + folded_spans_from(line, fq, e)
        } else {
            folded_spans_from(line, fq, start + 1)
        }
    }
}

/// The end of the occurrence of `fq` that starts at `a`, if there is one.
fn find_folded_end(cs: &Vec<char>, folds: &Vec<Vec<char>>, fq: &Vec<char>, a: usize) -> (r:
    Option<usize>)
    requires
        a < cs@.len(),
        folds@.len() == cs@.len(),
        forall|i: int| 0 <= i < cs@.len() ==> (#[trigger] folds@[i])@ == char_lower_of(cs@[i]),
    ensures
        match r {
            Some(e) => folded_end(cs@, fq@, a as int, a + 1) == e && a < e <= cs@.len(),
            None => folded_end(cs@, fq@, a as int, a + 1) == -1,
        },
{
    let mut acc: Vec<char> = folds[a].clone();
    assert(a < cs.len());
    let mut b: usize = a + 1;
    proof {
        assert(cs@.subrange(a as int, a as int).len() == 0);
        lemma_fold_extend(cs@, a as int, a as int);
        assert(fold(cs@.subrange(a as int, a as int)) =~= Seq::<char>::empty());
        assert(acc@ =~= fold(cs@.subrange(a as int, b as int)));
    }
    loop
        invariant
            a < b <= cs@.len(),
            folds@.len() == cs@.len(),
            forall|i: int| 0 <= i < cs@.len() ==> (#[trigger] folds@[i])@ == char_lower_of(cs@[i]),
            acc@ == fold(cs@.subrange(a as int, b as int)),
            folded_end(cs@, fq@, a as int, b as int) == folded_end(cs@, fq@, a as int, a + 1),
        decreases cs@.len() - b,
    {
        if acc.len() > fq.len() {
            return None;
        }
        if acc.len() == fq.len() && occurs_at_exec(&acc, fq, 0) {
            assert(acc@ =~= acc@.subrange(0, fq@.len() as int));
            return Some(b);
        }
        assert(acc@ != fq@) by {
            if acc@ == fq@ {
                assert(acc@.subrange(0, fq@.len() as int) =~= fq@);
            }
        }
        if b == cs.len() {
            return None;
        }
        let mut next = folds[b].clone();
        proof {
            lemma_fold_extend(cs@, a as int, b as int);
        }
        acc.append(&mut next);
        b = b + 1;
    }
}

/// Every place where `query` occurs in `line` with case ignored, folded as
/// for matching, left to right and without overlap, as half-open ranges of
/// character positions in `line`; none for an empty query.
pub fn highlight_spans(line: &str, query: &str) -> (r: Vec<(usize, usize)>)
    ensures
        r@ == folded_spans_from(line@, fold(query@), 0),
{
    let cs = chars_of(line);
    let fq = fold_chars(query);
    let mut r: Vec<(usize, usize)> = Vec::new();
    if fq.len() == 0 {
        return r;
    }
    let folds = char_folds(&cs);
    let mut start: usize = 0;
    while start < cs.len()
        invariant
            cs@ == line@,
            fq@ == fold(query@),
            fq@.len() > 0,
            start <= cs@.len(),
            folds@.len() == cs@.len(),
            forall|i: int| 0 <= i < cs@.len() ==> (#[trigger] folds@[i])@ == char_lower_of(cs@[i]),
            r@ + folded_spans_from(line@, fq@, start as int) == folded_spans_from(line@, fq@, 0),
        decreases cs.len() - start,
    {
        match find_folded_end(&cs, &folds, &fq, start) {
            Some(e) => {
                let ghost before = r@;
                r.push((start, e));
                assert(before + folded_spans_from(line@, fq@, start as int) =~= r@
                    + folded_spans_from(line@, fq@, e as int));
                start = e;
            },
            None => {
                start = start + 1;
            },
        }
    }
    assert(r@ =~= r@ + folded_spans_from(line@, fq@, start as int));
    r
}

} // verus!
