//! Prefix index over words: a trie whose children are kept sorted by
//! character, so that every query lists its words in lexicographic order.
use vstd::prelude::*;

use crate::text::{chars_of, string_of};

verus! {

/// Lexicographic order on character sequences, by code point.
pub open spec fn lex_lt(a: Seq<char>, b: Seq<char>) -> bool
    decreases a.len(),
{
    if b.len() == 0 {
        false
    } else if a.len() == 0 {
        true
    } else if a[0] != b[0] {
        a[0] < b[0]
    } else {
        lex_lt(a.drop_first(), b.drop_first())
    }
}

/// Every element is lexicographically smaller than every later one.
pub open spec fn strictly_sorted(s: Seq<Seq<char>>) -> bool {
    forall|i: int, j: int| 0 <= i < j < s.len() ==> lex_lt(#[trigger] s[i], #[trigger] s[j])
}

/// The character views of a sequence of strings.
pub open spec fn views(v: Seq<String>) -> Seq<Seq<char>> {
    v.map_values(|s: String| s@)
}

/// Each word of `s`, with `p` put in front of it.
pub open spec fn prefixed(p: Seq<char>, s: Seq<Seq<char>>) -> Seq<Seq<char>> {
    s.map_values(|w: Seq<char>| p + w)
}

/// Putting the same prefix in front of two sequences keeps their order.
pub proof fn lemma_lex_prefix(p: Seq<char>, a: Seq<char>, b: Seq<char>)
    ensures
        lex_lt(p + a, p + b) == lex_lt(a, b),
    decreases p.len(),
{
    if p.len() == 0 {
        assert(p + a =~= a);
        assert(p + b =~= b);
    } else {
        assert((p + a).drop_first() =~= p.drop_first() + a);
        assert((p + b).drop_first() =~= p.drop_first() + b);
        lemma_lex_prefix(p.drop_first(), a, b);
    }
}

/// A prefix put in front of every word keeps a sorted sequence sorted.
pub proof fn lemma_prefixed_sorted(p: Seq<char>, s: Seq<Seq<char>>)
    requires
        strictly_sorted(s),
    ensures
        strictly_sorted(prefixed(p, s)),
{
    let r = prefixed(p, s);
    assert forall|i: int, j: int| 0 <= i < j < r.len() implies lex_lt(#[trigger] r[i], #[trigger] r[j]) by {
        lemma_lex_prefix(p, s[i], s[j]);
    }
}

/// A word is in `prefixed(p, s)` exactly when it is `p` followed by a word
/// of `s`.
pub proof fn lemma_prefixed_contains(p: Seq<char>, s: Seq<Seq<char>>, w: Seq<char>)
    ensures
        prefixed(p, s).contains(w) <==> (p.is_prefix_of(w) && s.contains(
            w.subrange(p.len() as int, w.len() as int),
        )),
{
    let r = prefixed(p, s);
    let u = w.subrange(p.len() as int, w.len() as int);
    if r.contains(w) {
        let i = choose|i: int| 0 <= i < r.len() && r[i] == w;
        assert(w =~= p + s[i]);
        assert(u =~= s[i]);
        assert(w.subrange(0, p.len() as int) =~= p);
    }
    if p.is_prefix_of(w) && s.contains(u) {
        let i = choose|i: int| 0 <= i < s.len() && s[i] == u;
        assert(w =~= p + u);
        assert(r[i] == w);
    }
}

/// `r` lists, in lexicographic order, exactly the words of `words` that
/// start with `prefix`.
pub open spec fn prefix_query(words: Set<Seq<char>>, prefix: Seq<char>, r: Seq<Seq<char>>) -> bool {
    &&& strictly_sorted(r)
    &&& forall|w: Seq<char>| r.contains(w) <==> (words.contains(w) && prefix.is_prefix_of(w))
}

/// No sequence comes before itself.
pub proof fn lemma_lex_irreflexive(a: Seq<char>)
    ensures
        !lex_lt(a, a),
    decreases a.len(),
{
    if a.len() > 0 {
        lemma_lex_irreflexive(a.drop_first());
    }
}

/// The lexicographic order is transitive.
pub proof fn lemma_lex_transitive(a: Seq<char>, b: Seq<char>, c: Seq<char>)
    requires
        lex_lt(a, b),
        lex_lt(b, c),
    ensures
        lex_lt(a, c),
    decreases a.len(),
{
    if a.len() > 0 && a[0] == b[0] && b[0] == c[0] {
        lemma_lex_transitive(a.drop_first(), b.drop_first(), c.drop_first());
    }
}

/// Two strictly sorted sequences with the same elements are equal.
pub proof fn lemma_sorted_unique(r1: Seq<Seq<char>>, r2: Seq<Seq<char>>)
    requires
        strictly_sorted(r1),
        strictly_sorted(r2),
        forall|w: Seq<char>| r1.contains(w) <==> r2.contains(w),
    ensures
        r1 == r2,
    decreases r1.len(),
{
    if r1.len() == 0 {
        if r2.len() > 0 {
            assert(r2.contains(r2[0]));
        }
        assert(r1 =~= r2);
    } else {
        assert(r1.contains(r1[0]));
        let j = choose|j: int| 0 <= j < r2.len() && r2[j] == r1[0];
        assert(r2.contains(r2[0]));
        let i = choose|i: int| 0 <= i < r1.len() && r1[i] == r2[0];
        if j > 0 {
            assert(lex_lt(r2[0], r2[j]));
            if i == 0 {
                lemma_lex_irreflexive(r1[0]);
            } else {
                assert(lex_lt(r1[0], r1[i]));
                lemma_lex_transitive(r1[0], r1[i], r1[0]);
                lemma_lex_irreflexive(r1[0]);
            }
        }
        assert(r1[0] == r2[0]);
        let t1 = r1.drop_first();
        let t2 = r2.drop_first();
        assert(strictly_sorted(t1)) by {
            assert forall|a: int, b: int| 0 <= a < b < t1.len() implies lex_lt(
                #[trigger] t1[a],
                #[trigger] t1[b],
            ) by {
                assert(t1[a] == r1[a + 1] && t1[b] == r1[b + 1]);
            }
        }
        assert(strictly_sorted(t2)) by {
            assert forall|a: int, b: int| 0 <= a < b < t2.len() implies lex_lt(
                #[trigger] t2[a],
                #[trigger] t2[b],
            ) by {
                assert(t2[a] == r2[a + 1] && t2[b] == r2[b + 1]);
            }
        }
        assert forall|w: Seq<char>| t1.contains(w) <==> t2.contains(w) by {
            if t1.contains(w) {
                let a = choose|a: int| 0 <= a < t1.len() && t1[a] == w;
                assert(r1.contains(w));
                assert(lex_lt(r1[0], r1[a + 1]));
                lemma_lex_irreflexive(w);
                let b = choose|b: int| 0 <= b < r2.len() && r2[b] == w;
                assert(b != 0);
                assert(t2[b - 1] == w);
            }
            if t2.contains(w) {
                let a = choose|a: int| 0 <= a < t2.len() && t2[a] == w;
                assert(r2.contains(w));
                assert(lex_lt(r2[0], r2[a + 1]));
                lemma_lex_irreflexive(w);
                let b = choose|b: int| 0 <= b < r1.len() && r1[b] == w;
                assert(b != 0);
                assert(t1[b - 1] == w);
            }
        }
        lemma_sorted_unique(t1, t2);
        assert(r1 =~= seq![r1[0]] + t1);
        assert(r2 =~= seq![r2[0]] + t2);
    }
}

/// A prefix query has exactly one answer for a set of words: whatever
/// order the words were inserted in, the same sequence comes back, and it
/// holds no word twice.
pub proof fn law_prefix_query_unique(
    words: Set<Seq<char>>,
    prefix: Seq<char>,
    r1: Seq<Seq<char>>,
    r2: Seq<Seq<char>>,
)
    requires
        prefix_query(words, prefix, r1),
        prefix_query(words, prefix, r2),
    ensures
        r1 == r2,
        r1.no_duplicates(),
{
    lemma_sorted_unique(r1, r2);
    assert forall|i: int, j: int| 0 <= i < r1.len() && 0 <= j < r1.len() && i != j implies r1[i]
        != r1[j] by {
        lemma_lex_irreflexive(r1[i]);
        if i < j {
            assert(lex_lt(r1[i], r1[j]));
        } else {
            assert(lex_lt(r1[j], r1[i]));
        }
    }
}

/// Node of the trie: its children, sorted by their character, and whether
/// the path from the root to it spells a stored word.
pub struct TrieNode {
    children: Vec<(char, TrieNode)>,
    is_word: bool,
}

/// Children keys strictly increase.
pub open spec fn keys_sorted(cs: Seq<(char, TrieNode)>) -> bool {
    forall|i: int, j: int| 0 <= i < j < cs.len() ==> cs[i].0 < cs[j].0
}

impl TrieNode {
    /// Keys sorted in this node, and in the subtrees of its first `k`
    /// children.
    pub closed spec fn wf_upto(self, k: int) -> bool
        decreases self, k,
    {
        &&& keys_sorted(self.children@)
        &&& (0 < k <= self.children@.len() ==> {
            let child = self.children@[k - 1].1;
            &&& self.wf_upto(k - 1)
            &&& child.wf_upto(child.children@.len() as int)
        })
    }

    pub closed spec fn wf(self) -> bool {
        self.wf_upto(self.children@.len() as int)
    }

    proof fn lemma_wf_children(self, k: int)
        requires
            0 <= k <= self.children@.len(),
            self.wf_upto(k),
        ensures
            keys_sorted(self.children@),
            forall|i: int| 0 <= i < k ==> #[trigger] self.children@[i].1.wf(),
        decreases k,
    {
        if k > 0 {
            self.lemma_wf_children(k - 1);
        }
    }

    proof fn lemma_wf_from_children(self, k: int)
        requires
            0 <= k <= self.children@.len(),
            keys_sorted(self.children@),
            forall|i: int| 0 <= i < k ==> #[trigger] self.children@[i].1.wf(),
        ensures
            self.wf_upto(k),
        decreases k,
    {
        if k > 0 {
            self.lemma_wf_from_children(k - 1);
            assert(self.children@[k - 1].1.wf());
        }
    }

    /// Well-formedness holds exactly when the keys are sorted and every
    /// child is well formed.
    proof fn lemma_wf(self)
        ensures
            self.wf() <==> (keys_sorted(self.children@) && forall|i: int|
                0 <= i < self.children@.len() ==> #[trigger] self.children@[i].1.wf()),
    {
        if self.wf() {
            self.lemma_wf_children(self.children@.len() as int);
        }
        if keys_sorted(self.children@) && forall|i: int|
            0 <= i < self.children@.len() ==> #[trigger] self.children@[i].1.wf() {
            self.lemma_wf_from_children(self.children@.len() as int);
        }
    }

    /// `w` is spelled by a path from this node to a word node.
    pub closed spec fn holds(self, w: Seq<char>) -> bool
        decreases w.len(),
    {
        if w.len() == 0 {
            self.is_word
        } else {
            exists|i: int|
                0 <= i < self.children@.len() && #[trigger] self.children@[i].0 == w[0]
                    && self.children@[i].1.holds(w.drop_first())
        }
    }

    /// The words below this node in depth-first order, visiting the first
    /// `k` children.
    pub closed spec fn collected_upto(self, k: int) -> Seq<Seq<char>>
        decreases self, k,
    {
        if k <= 0 || k > self.children@.len() {
            if self.is_word {
                seq![Seq::empty()]
            } else {
                Seq::empty()
            }
        } else {
            let c = self.children@[k - 1].0;
            let child = self.children@[k - 1].1;
            self.collected_upto(k - 1) + prefixed(
                seq![c],
                child.collected_upto(child.children@.len() as int),
            )
        }
    }

    pub closed spec fn collected(self) -> Seq<Seq<char>> {
        self.collected_upto(self.children@.len() as int)
    }

    /// The words that a node holds at or below its first `k` children.
    pub closed spec fn holds_upto(self, k: int, w: Seq<char>) -> bool {
        if w.len() == 0 {
            self.is_word
        } else {
            exists|i: int|
                0 <= i < k && #[trigger] self.children@[i].0 == w[0] && self.children@[i].1.holds(
                    w.drop_first(),
                )
        }
    }

    /// The depth-first order lists the words held, sorted.
    proof fn lemma_collected_upto(self, k: int)
        requires
            self.wf(),
            0 <= k <= self.children@.len(),
        ensures
            strictly_sorted(self.collected_upto(k)),
            forall|w: Seq<char>| #[trigger]
                self.collected_upto(k).contains(w) <==> self.holds_upto(k, w),
            forall|x: int|
                0 <= x < self.collected_upto(k).len() ==> (#[trigger] self.collected_upto(
                    k,
                )[x]).len() == 0 || (k > 0 && self.collected_upto(k)[x][0] <= self.children@[k
                    - 1].0),
        decreases self, k,
    {
        self.lemma_wf();
        if k == 0 {
            let s = self.collected_upto(k);
            assert forall|w: Seq<char>| #[trigger] s.contains(w) <==> self.holds_upto(k, w) by {
                if self.is_word && w.len() == 0 {
                    assert(s[0] =~= w);
                }
            }
        } else {
            self.lemma_collected_upto(k - 1);
            let c = self.children@[k - 1].0;
            let child = self.children@[k - 1].1;
            child.lemma_collected_upto(child.children@.len() as int);
            let left = self.collected_upto(k - 1);
            let cc = child.collected_upto(child.children@.len() as int);
            let right = prefixed(seq![c], cc);
            let s = self.collected_upto(k);
            assert(s == left + right);
            lemma_prefixed_sorted(seq![c], cc);
            assert forall|x: int| 0 <= x < right.len() implies (#[trigger] right[x]).len() > 0
                && right[x][0] == c by {
                assert(right[x] == seq![c] + cc[x]);
            }
            assert forall|x: int|
                0 <= x < s.len() implies (#[trigger] s[x]).len() == 0 || s[x][0] <= c by {
                if x < left.len() {
                    assert(s[x] == left[x]);
                    if k > 1 && left[x].len() > 0 {
                        assert(self.children@[k - 2].0 < c);
                    }
                } else {
                    assert(s[x] == right[x - left.len()]);
                }
            }
            assert forall|i: int, j: int| 0 <= i < j < s.len() implies lex_lt(
                #[trigger] s[i],
                #[trigger] s[j],
            ) by {
                if j < left.len() {
                    assert(s[i] == left[i] && s[j] == left[j]);
                } else if i >= left.len() {
                    assert(s[i] == right[i - left.len()] && s[j] == right[j - left.len()]);
                } else {
                    assert(s[i] == left[i] && s[j] == right[j - left.len()]);
                    if left[i].len() > 0 && k > 1 {
                        assert(self.children@[k - 2].0 < c);
                    }
                }
            }
            assert forall|w: Seq<char>| #[trigger] s.contains(w) <==> self.holds_upto(k, w) by {
                lemma_prefixed_contains(seq![c], cc, w);
                let u = w.subrange(1, w.len() as int);
                if w.len() > 0 {
                    assert(u =~= w.drop_first());
                    if w[0] == c {
                        assert(w.subrange(0, 1) =~= seq![c]);
                    }
                    if seq![c].is_prefix_of(w) {
                        assert(seq![c][0] == w.subrange(0, 1)[0]);
                    }
                    assert(seq![c].is_prefix_of(w) <==> w[0] == c);
                }
                if s.contains(w) {
                    let x = choose|x: int| 0 <= x < s.len() && s[x] == w;
                    if x < left.len() {
                        assert(left.contains(w));
                    } else {
                        assert(right[x - left.len()] == w);
                        assert(right.contains(w));
                        assert(self.children@[k - 1].0 == w[0]);
                    }
                }
                if self.holds_upto(k, w) {
                    if w.len() == 0 {
                        assert(left.contains(w));
                        let x = choose|x: int| 0 <= x < left.len() && left[x] == w;
                        assert(s[x] == w);
                    } else {
                        let i = choose|i: int|
                            0 <= i < k && #[trigger] self.children@[i].0 == w[0]
                                && self.children@[i].1.holds(w.drop_first());
                        if i < k - 1 {
                            assert(self.holds_upto(k - 1, w));
                            assert(left.contains(w));
                            let x = choose|x: int| 0 <= x < left.len() && left[x] == w;
                            assert(s[x] == w);
                        } else {
                            assert(right.contains(w));
                            let x = choose|x: int| 0 <= x < right.len() && right[x] == w;
                            assert(s[x + left.len()] == w);
                        }
                    }
                }
            }
        }
    }

    /// A well-formed node lists, in order, exactly the words it holds.
    proof fn lemma_collected(self)
        requires
            self.wf(),
        ensures
            strictly_sorted(self.collected()),
            forall|w: Seq<char>| #[trigger] self.collected().contains(w) <==> self.holds(w),
    {
        let k = self.children@.len() as int;
        self.lemma_collected_upto(k);
        assert forall|w: Seq<char>| #[trigger] self.holds(w) <==> self.holds_upto(k, w) by {}
    }

    /// Creates a node with no children that ends no word.
    fn new() -> (r: TrieNode)
        ensures
            r.wf(),
            forall|w: Seq<char>| !r.holds(w),
    {
        let r = TrieNode { children: Vec::new(), is_word: false };
        assert forall|w: Seq<char>| !r.holds(w) by {
            reveal_with_fuel(TrieNode::holds, 1);
        }
        r
    }
}

/// Adds `w[i..]` below `node`.
#[verifier::rlimit(50)]
fn insert_at(node: &mut TrieNode, w: &Vec<char>, i: usize)
    requires
        old(node).wf(),
        i <= w.len(),
    ensures
        final(node).wf(),
        forall|v: Seq<char>|
            #[trigger] final(node).holds(v) <==> (old(node).holds(v) || v == w@.subrange(
                i as int,
                w.len() as int,
            )),
    decreases w.len() - i,
{
    if i == w.len() {
        node.is_word = true;
        proof {
            old(node).lemma_wf();
            node.lemma_wf();
        }
        assert forall|v: Seq<char>|
            #[trigger] node.holds(v) <==> (old(node).holds(v) || v == w@.subrange(
                i as int,
                w.len() as int,
            )) by {
            if v.len() == 0 {
                assert(v =~= w@.subrange(i as int, w.len() as int));
            }
        }
        return ;
    }
    let c = w[i];
    let mut j: usize = 0;
    while j < node.children.len() && node.children[j].0 < c
        invariant
            j <= node.children.len(),
            forall|k: int| 0 <= k < j ==> node.children@[k].0 < c,
        decreases node.children.len() - j,
    {
        j = j + 1;
    }
    let ghost before = *node;
    proof {
        before.lemma_wf();
    }
    if !(j < node.children.len() && node.children[j].0 == c) {
        let fresh = TrieNode::new();
        node.children.insert(j, (c, fresh));
        proof {
            let cs = before.children@;
            let cs2 = node.children@;
            assert(keys_sorted(cs2)) by {
                assert forall|a: int, b: int| 0 <= a < b < cs2.len() implies cs2[a].0 < cs2[b].0 by {
                    if b < j {
                        assert(cs2[a] == cs[a] && cs2[b] == cs[b]);
                    } else if b == j {
                        assert(cs2[a] == cs[a]);
                    } else if a < j {
                        assert(cs2[a] == cs[a] && cs2[b] == cs[b - 1]);
                        assert(cs[j as int].0 >= c);
                    } else if a == j {
                        assert(cs2[b] == cs[b - 1]);
                        assert(cs[j as int].0 >= c);
                        if b - 1 > j {
                            assert(cs[j as int].0 < cs[b - 1].0);
                        }
                    } else {
                        assert(cs2[a] == cs[a - 1] && cs2[b] == cs[b - 1]);
                    }
                }
            }
            assert forall|k: int| 0 <= k < cs2.len() implies #[trigger] cs2[k].1.wf() by {
                if k > j {
                    assert(cs2[k] == cs[k - 1]);
                } else if k < j {
                    assert(cs2[k] == cs[k]);
                } else {
                    assert(cs2[k].1 == fresh);
                }
            }
            node.lemma_wf();
            assert forall|v: Seq<char>| #[trigger] node.holds(v) <==> before.holds(v) by {
                if v.len() > 0 {
                    if node.holds(v) {
                        let k = choose|k: int|
                            0 <= k < cs2.len() && #[trigger] cs2[k].0 == v[0] && cs2[k].1.holds(
                                v.drop_first(),
                            );
                        assert(k != j);
                        if k < j {
                            assert(cs2[k] == cs[k]);
                        } else {
                            assert(cs2[k] == cs[k - 1]);
                        }
                    }
                    if before.holds(v) {
                        let k = choose|k: int|
                            0 <= k < cs.len() && #[trigger] cs[k].0 == v[0] && cs[k].1.holds(
                                v.drop_first(),
                            );
                        if k < j {
                            assert(cs2[k] == cs[k]);
                        } else {
                            assert(cs2[k + 1] == cs[k]);
                        }
                    }
                }
            }
        }
    }
    let ghost mid = *node;
    proof {
        mid.lemma_wf();
    }
    assert(mid.children@[j as int].1.wf());
    insert_at(&mut node.children[j].1, w, i + 1);
    proof {
        let cs = mid.children@;
        let cs2 = node.children@;
        assert(cs2 == cs.update(j as int, (c, cs2[j as int].1)));
        assert(keys_sorted(cs2));
        node.lemma_wf();
        assert forall|k: int| 0 <= k < cs2.len() implies #[trigger] cs2[k].1.wf() by {
            if k != j {
                assert(cs2[k] == cs[k]);
            }
        }
        assert forall|v: Seq<char>|
            #[trigger] node.holds(v) <==> (old(node).holds(v) || v == w@.subrange(
                i as int,
                w.len() as int,
            )) by {
            let rest = w@.subrange(i + 1, w.len() as int);
            if v.len() > 0 {
                assert(mid.holds(v) == old(node).holds(v));
                if v[0] == c {
                    assert(v == w@.subrange(i as int, w.len() as int) <==> v.drop_first() == rest) by {
                        assert(w@.subrange(i as int, w.len() as int) =~= seq![c] + rest);
                        assert(v =~= seq![c] + v.drop_first());
                        if v == w@.subrange(i as int, w.len() as int) {
                            assert(v.drop_first() =~= rest);
                        }
                    }
                    if node.holds(v) {
                        let k = choose|k: int|
                            0 <= k < cs2.len() && #[trigger] cs2[k].0 == v[0] && cs2[k].1.holds(
                                v.drop_first(),
                            );
                        assert(k == j);
                    }
                    if mid.holds(v) {
                        let k = choose|k: int|
                            0 <= k < cs.len() && #[trigger] cs[k].0 == v[0] && cs[k].1.holds(
                                v.drop_first(),
                            );
                        assert(k == j);
                    }
                    assert(cs2[j as int].0 == v[0]);
                    assert(cs2[j as int].1.holds(v.drop_first()) <==> (cs[j as int].1.holds(
                        v.drop_first(),
                    ) || v.drop_first() == rest));
                    if cs2[j as int].1.holds(v.drop_first()) {
                        assert(node.holds(v));
                    }
                    if cs[j as int].1.holds(v.drop_first()) {
                        assert(mid.holds(v));
                    }
                } else {
                    assert(v != w@.subrange(i as int, w.len() as int));
                    if node.holds(v) {
                        let k = choose|k: int|
                            0 <= k < cs2.len() && #[trigger] cs2[k].0 == v[0] && cs2[k].1.holds(
                                v.drop_first(),
                            );
                        assert(cs2[k] == cs[k]);
                    }
                    if mid.holds(v) {
                        let k = choose|k: int|
                            0 <= k < cs.len() && #[trigger] cs[k].0 == v[0] && cs[k].1.holds(
                                v.drop_first(),
                            );
                        assert(cs2[k] == cs[k]);
                    }
                }
            } else {
                assert(v != w@.subrange(i as int, w.len() as int));
            }
        }
    }
}

/// Position of the child of `node` keyed by `c`, if there is one.
fn find_child(node: &TrieNode, c: char) -> (r: Option<usize>)
    ensures
        r matches Some(k) ==> k < node.children@.len() && node.children@[k as int].0 == c,
        r is None ==> forall|k: int| 0 <= k < node.children@.len() ==> node.children@[k].0 != c,
{
    let mut k: usize = 0;
    while k < node.children.len()
        invariant
            k <= node.children.len(),
            forall|m: int| 0 <= m < k ==> node.children@[m].0 != c,
        decreases node.children.len() - k,
    {
        if node.children[k].0 == c {
            return Some(k);
        }
        k = k + 1;
    }
    None
}

/// Depth-first walk below `node`: appends each word found there, with the
/// characters of `buffer` in front of it, to `results`.
fn dfs_collect(node: &TrieNode, buffer: &mut Vec<char>, results: &mut Vec<String>)
    requires
        node.wf(),
    ensures
        final(buffer)@ == old(buffer)@,
        views(final(results)@) == views(old(results)@) + prefixed(old(buffer)@, node.collected()),
    decreases node,
{
    proof {
        node.lemma_wf();
    }
    if node.is_word {
        let s = string_of(buffer);
        results.push(s);
    }
    proof {
        assert(views(results@) =~= views(old(results)@) + prefixed(
            old(buffer)@,
            node.collected_upto(0),
        ));
    }
    let mut i: usize = 0;
    while i < node.children.len()
        invariant
            node.wf(),
            keys_sorted(node.children@),
            forall|m: int| 0 <= m < node.children@.len() ==> #[trigger] node.children@[m].1.wf(),
            i <= node.children.len(),
            buffer@ == old(buffer)@,
            views(results@) == views(old(results)@) + prefixed(
                old(buffer)@,
                node.collected_upto(i as int),
            ),
        decreases node.children.len() - i,
    {
        let c = node.children[i].0;
        let child = &node.children[i].1;
        let ghost before = views(results@);
        buffer.push(c);
        dfs_collect(child, buffer, results);
        buffer.pop();
        proof {
            let b = old(buffer)@;
            let cc = child.collected();
            let grown = node.collected_upto(i + 1);
            assert(grown == node.collected_upto(i as int) + prefixed(seq![c], cc));
            assert forall|x: int| 0 <= x < cc.len() implies #[trigger] prefixed(b.push(c), cc)[x]
                == prefixed(b, prefixed(seq![c], cc))[x] by {
                assert(b.push(c) + cc[x] =~= b + (seq![c] + cc[x]));
            }
            assert(prefixed(b.push(c), cc) =~= prefixed(b, prefixed(seq![c], cc)));
            assert(prefixed(b, grown) =~= prefixed(b, node.collected_upto(i as int)) + prefixed(
                b,
                prefixed(seq![c], cc),
            ));
            assert(views(results@) =~= views(old(results)@) + prefixed(b, grown));
        }
        i = i + 1;
    }
}

/// Trie data structure for prefix searches over a set of words.
pub struct Trie {
    root: TrieNode,
}

impl View for Trie {
    type V = Set<Seq<char>>;

    closed spec fn view(&self) -> Set<Seq<char>> {
        Set::new(|w: Seq<char>| self.root.holds(w))
    }
}

impl Trie {
    pub closed spec fn wf(self) -> bool {
        self.root.wf()
    }

    /// Creates a new empty trie.
    pub fn new() -> (r: Trie)
        ensures
            r.wf(),
            r@ == Set::<Seq<char>>::empty(),
    {
        let r = Trie { root: TrieNode::new() };
        assert(r@ =~= Set::<Seq<char>>::empty());
        r
    }

    /// Inserts a word into the trie; inserting it again changes nothing.
    pub fn insert(&mut self, word: &str)
        requires
            old(self).wf(),
        ensures
            final(self).wf(),
            final(self)@ == old(self)@.insert(word@),
    {
        let w = chars_of(word);
        insert_at(&mut self.root, &w, 0);
        assert(w@.subrange(0, w@.len() as int) == word@);
        assert(self@ =~= old(self)@.insert(word@));
    }

    /// A trie holding each of `words`.
    pub fn from_words(words: &Vec<String>) -> (r: Trie)
        ensures
            r.wf(),
            r@ == views(words@).to_set(),
    {
        let mut t = Trie::new();
        let mut i: usize = 0;
        while i < words.len()
            invariant
                i <= words.len(),
                t.wf(),
                t@ == views(words@.take(i as int)).to_set(),
            decreases words.len() - i,
        {
            t.insert(words[i].as_str());
            assert(views(words@.take(i + 1)) =~= views(words@.take(i as int)).push(words@[i as int]@));
            proof { views(words@.take(i as int)).lemma_push_to_set_commute(words@[i as int]@); }
            assert(views(words@.take(i + 1)).to_set() =~= views(words@.take(i as int)).to_set().insert(words@[i as int]@));
            i = i + 1;
        }
        assert(words@.take(words.len() as int) =~= words@);
        t
    }

    /// Node reached from the root by the characters of `prefix`.
    fn get_node(&self, prefix: &str) -> (r: Option<&TrieNode>)
        requires
            self.wf(),
        ensures
            r matches Some(n) ==> n.wf() && forall|v: Seq<char>|
                #[trigger] n.holds(v) <==> self.root.holds(prefix@ + v),
            r is None ==> forall|v: Seq<char>| !#[trigger] self.root.holds(prefix@ + v),
    {
        let p = chars_of(prefix);
        let mut node = &self.root;
        let mut i: usize = 0;
        while i < p.len()
            invariant
                i <= p.len(),
                p@ == prefix@,
                node.wf(),
                forall|v: Seq<char>|
                    #[trigger] node.holds(v) <==> self.root.holds(p@.take(i as int) + v),
            decreases p.len() - i,
        {
            let c = p[i];
            proof {
                node.lemma_wf();
            }
            match find_child(node, c) {
                None => {
                    assert forall|v: Seq<char>| !#[trigger] self.root.holds(prefix@ + v) by {
                        let rest = seq![c] + p@.subrange(i + 1, p.len() as int) + v;
                        assert(p@ + v =~= p@.take(i as int) + rest);
                        assert(!node.holds(rest));
                    }
                    return None;
                },
                Some(k) => {
                    let ghost parent = *node;
                    node = &node.children[k].1;
                    assert forall|v: Seq<char>|
                        #[trigger] node.holds(v) <==> self.root.holds(
                            p@.take(i + 1) + v,
                        ) by {
                        assert(p@.take(i + 1) + v =~= p@.take(i as int) + (seq![c] + v));
                        assert((seq![c] + v).drop_first() =~= v);
                        if parent.holds(seq![c] + v) {
                            let m = choose|m: int|
                                0 <= m < parent.children@.len() && #[trigger] parent.children@[m].0
                                    == (seq![c] + v)[0] && parent.children@[m].1.holds(
                                    (seq![c] + v).drop_first(),
                                );
                            assert(m == k);
                        }
                        if node.holds(v) {
                            assert(parent.children@[k as int].0 == (seq![c] + v)[0]);
                        }
                    }
                },
            }
            i = i + 1;
        }
        assert(p@.take(i as int) =~= prefix@);
        Some(node)
    }

    /// Finds all words starting with `prefix`, in lexicographic order and
    /// each once.
    pub fn words_starting_with(&self, prefix: &str) -> (r: Vec<String>)
        requires
            self.wf(),
        ensures
            prefix_query(self@, prefix@, views(r@)),
    {
        let mut results: Vec<String> = Vec::new();
        match self.get_node(prefix) {
            Some(node) => {
                let mut buffer = chars_of(prefix);
                dfs_collect(node, &mut buffer, &mut results);
                proof {
                    node.lemma_collected();
                    let rv = views(results@);
                    assert(rv =~= prefixed(prefix@, node.collected()));
                    lemma_prefixed_sorted(prefix@, node.collected());
                    assert forall|w: Seq<char>|
                        #[trigger] rv.contains(w) <==> (self@.contains(w) && prefix@.is_prefix_of(
                            w,
                        )) by {
                        lemma_prefixed_contains(prefix@, node.collected(), w);
                        let u = w.subrange(prefix@.len() as int, w.len() as int);
                        if prefix@.is_prefix_of(w) {
                            assert(w =~= prefix@ + u);
                            assert(node.holds(u) <==> self.root.holds(w));
                        }
                    }
                }
            },
            None => {
                proof {
                    let rv = views(results@);
                    assert forall|w: Seq<char>|
                        #[trigger] rv.contains(w) <==> (self@.contains(w) && prefix@.is_prefix_of(
                            w,
                        )) by {
                        if prefix@.is_prefix_of(w) {
                            let u = w.subrange(prefix@.len() as int, w.len() as int);
                            assert(w =~= prefix@ + u);
                            assert(!self.root.holds(prefix@ + u));
                        }
                    }
                }
            },
        }
        results
    }
}

} // verus!
