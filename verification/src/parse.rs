use vstd::prelude::*;
use vstd::utf8::encode_utf8;
use vstd::string::StringSliceAdditionalSpecFns;
use std::ops::Range;

verus! {

/// An iterator of a sized character sequence.
///
/// The model of an iterator is the sequence of characters `chars()` it walks
/// over and its position `pos()` in that sequence.
pub trait CharIterator {
    spec fn chars(&self) -> Seq<char>;

    spec fn pos(&self) -> u32;

    /// The iterator is in a usable state: its position is within its characters.
    spec fn inv(&self) -> bool;

    fn index(&self) -> (r: u32)
        requires
            self.inv(),
        ensures
            r == self.pos(),
            self.pos() <= self.chars().len(),
    ;

    fn restore(&mut self, idx: u32)
        requires
            old(self).inv(),
            idx <= old(self).chars().len(),
        ensures
            final(self).inv(),
            final(self).chars() == old(self).chars(),
            final(self).pos() == idx,
    ;

    fn advance_0(&mut self) -> (r: Option<char>)
        requires
            old(self).inv(),
        ensures
            final(self).inv(),
            final(self).chars() == old(self).chars(),
            final(self).pos() == (if old(self).pos() < old(self).chars().len() {
                old(self).pos() + 1
            } else {
                old(self).pos() as int
            }),
            r == (if final(self).pos() < final(self).chars().len() {
                Some(final(self).chars()[final(self).pos() as int])
            } else {
                None
            }),
    ;

    fn peek_0(&self) -> (r: Option<char>)
        requires
            self.inv(),
        ensures
            r == (if self.pos() < self.chars().len() {
                Some(self.chars()[self.pos() as int])
            } else {
                None
            }),
    ;

    fn done(&self) -> (r: bool)
        requires
            self.inv(),
        ensures
            r == (self.pos() >= self.chars().len()),
    ;

    fn peek_and_advance(&mut self) -> (r: Option<char>)
        requires
            old(self).inv(),
        ensures
            final(self).inv(),
            final(self).chars() == old(self).chars(),
            final(self).pos() == (if old(self).pos() < old(self).chars().len() {
                old(self).pos() + 1
            } else {
                old(self).pos() as int
            }),
            r == (if old(self).pos() < old(self).chars().len() {
                Some(old(self).chars()[old(self).pos() as int])
            } else {
                None
            }),
    {
        let ch = self.peek_0();
        self.advance_0();
        ch
    }
}

/// A node of a `CharTree`: the value associated with the path to this node,
/// and the edges to its children (the index of each child in the tree's node list).
struct TrieNode<T> {
    associate: Option<T>,
    children: Vec<(char, usize)>,
}

/// A character tree used to parse aliased tokens from strings.
///
/// The nodes live in one list; node 0 is the root. `labels[n]` is the path
/// of characters that leads from the root to node `n`.
pub struct CharTree<T: Clone> {
    nodes: Vec<TrieNode<T>>,
    labels: Ghost<Seq<Seq<char>>>,
}

/// The characters that a sequence of bytes stands for, one per byte.
pub open spec fn byte_key(b: Seq<u8>) -> Seq<char> {
    b.map_values(|x: u8| x as char)
}

/// The first child index reached by `c` among `ch[j..]`.
spec fn find_child_from(ch: Seq<(char, usize)>, c: char, j: int) -> Option<int>
    decreases ch.len() - j,
{
    if 0 <= j < ch.len() {
        if ch[j].0 == c {
            Some(ch[j].1 as int)
        } else {
            find_child_from(ch, c, j + 1)
        }
    } else {
        None
    }
}

spec fn child_of<T>(nodes: Seq<TrieNode<T>>, n: int, c: char) -> Option<int> {
    if 0 <= n < nodes.len() {
        find_child_from(nodes[n].children@, c, 0)
    } else {
        None
    }
}

/// The node reached from node `n` by following the characters of `p`.
spec fn walk<T>(nodes: Seq<TrieNode<T>>, n: int, p: Seq<char>) -> Option<int>
    decreases p.len(),
{
    if p.len() == 0 {
        Some(n)
    } else {
        match child_of(nodes, n, p[0]) {
            Some(m) => walk(nodes, m, p.drop_first()),
            None => None,
        }
    }
}

spec fn children_in_bounds<T>(nodes: Seq<TrieNode<T>>) -> bool {
    forall|n: int, j: int|
        0 <= n < nodes.len() && 0 <= j < nodes[n].children@.len() ==> (
        #[trigger] nodes[n].children@[j]).1 < nodes.len()
}

proof fn lemma_find_child_in(ch: Seq<(char, usize)>, c: char, j: int, bound: int)
    requires
        0 <= j,
        forall|k: int| 0 <= k < ch.len() ==> (#[trigger] ch[k]).1 < bound,
    ensures
        find_child_from(ch, c, j) matches Some(m) ==> 0 <= m < bound,
    decreases ch.len() - j,
{
    if 0 <= j < ch.len() && ch[j].0 != c {
        lemma_find_child_in(ch, c, j + 1, bound);
    }
}

proof fn lemma_find_child_push(ch: Seq<(char, usize)>, c: char, m: usize, d: char, j: int)
    requires
        0 <= j <= ch.len(),
    ensures
        find_child_from(ch.push((c, m)), d, j) == (match find_child_from(ch, d, j) {
            Some(x) => Some(x),
            None => if d == c {
                Some(m as int)
            } else {
                None
            },
        }),
    decreases ch.len() - j,
{
    if j < ch.len() {
        assert(ch.push((c, m))[j] == ch[j]);
        lemma_find_child_push(ch, c, m, d, j + 1);
    } else {
        assert(ch.push((c, m))[j] == (c, m));
        assert(find_child_from(ch.push((c, m)), d, j + 1) == None::<int>);
    }
}

/// Following `p + q` is following `p`, then `q`.
proof fn lemma_walk_concat<T>(nodes: Seq<TrieNode<T>>, n: int, p: Seq<char>, q: Seq<char>)
    ensures
        walk(nodes, n, p + q) == (match walk(nodes, n, p) {
            Some(k) => walk(nodes, k, q),
            None => None,
        }),
    decreases p.len(),
{
    if p.len() == 0 {
        assert(p + q =~= q);
    } else {
        assert((p + q)[0] == p[0]);
        assert((p + q).drop_first() =~= p.drop_first() + q);
        match child_of(nodes, n, p[0]) {
            Some(m) => {
                lemma_walk_concat(nodes, m, p.drop_first(), q);
            },
            None => {},
        }
    }
}

proof fn lemma_walk_push<T>(nodes: Seq<TrieNode<T>>, n: int, p: Seq<char>, c: char)
    ensures
        walk(nodes, n, p.push(c)) == (match walk(nodes, n, p) {
            Some(k) => child_of(nodes, k, c),
            None => None,
        }),
{
    lemma_walk_concat(nodes, n, p, seq![c]);
    assert(p + seq![c] =~= p.push(c));
    match walk(nodes, n, p) {
        Some(k) => {
            reveal_with_fuel(walk, 2);
            assert(seq![c].drop_first() =~= Seq::<char>::empty());
        },
        None => {},
    }
}

/// `nodes2` is `nodes` with one new, empty node `m` (at the end) reached from
/// node `cur` by the character `c`, which led nowhere before.
spec fn extended<T>(
    nodes: Seq<TrieNode<T>>,
    nodes2: Seq<TrieNode<T>>,
    cur: int,
    c: char,
    m: int,
) -> bool {
    &&& m == nodes.len()
    &&& m < usize::MAX
    &&& nodes2.len() == nodes.len() + 1
    &&& 0 <= cur < nodes.len()
    &&& child_of(nodes, cur, c) is None
    &&& children_in_bounds(nodes)
    &&& forall|k: int|
        0 <= k < nodes.len() && k != cur ==> (#[trigger] nodes2[k]).children@ == nodes[k].children@
    &&& nodes2[cur].children@ == nodes[cur].children@.push((c, m as usize))
    &&& nodes2[m].children@.len() == 0
}

proof fn lemma_extended_child<T>(
    nodes: Seq<TrieNode<T>>,
    nodes2: Seq<TrieNode<T>>,
    cur: int,
    c: char,
    m: int,
    k: int,
    d: char,
)
    requires
        extended(nodes, nodes2, cur, c, m),
        0 <= k,
    ensures
        child_of(nodes2, k, d) == (if k == cur && d == c {
            Some(m)
        } else if k == m {
            None
        } else {
            child_of(nodes, k, d)
        }),
        child_of(nodes, k, d) matches Some(x) ==> 0 <= x < nodes.len(),
{
    if k < nodes.len() {
        lemma_find_child_in(nodes[k].children@, d, 0, nodes.len() as int);
    }
    if k == cur {
        lemma_find_child_push(nodes[cur].children@, c, m as usize, d, 0);
    }
}

proof fn lemma_extended_walk<T>(
    nodes: Seq<TrieNode<T>>,
    nodes2: Seq<TrieNode<T>>,
    cur: int,
    c: char,
    m: int,
    s: int,
    p: Seq<char>,
)
    requires
        extended(nodes, nodes2, cur, c, m),
        0 <= s < nodes.len(),
    ensures
        walk(nodes, s, p) matches Some(k) ==> walk(nodes2, s, p) == Some(k),
        walk(nodes2, s, p) is Some && walk(nodes2, s, p) != Some(m) ==> walk(nodes, s, p) == walk(
            nodes2,
            s,
            p,
        ),
        walk(nodes2, s, p) == Some(m) ==> p.len() > 0 && p.last() == c && walk(
            nodes,
            s,
            p.drop_last(),
        ) == Some(cur),
    decreases p.len(),
{
    if p.len() > 0 {
        let rest = p.drop_first();
        lemma_extended_child(nodes, nodes2, cur, c, m, s, p[0]);
        if s == cur && p[0] == c {
            // the new edge: only the empty rest stays on the path
            if rest.len() > 0 {
                lemma_extended_child(nodes, nodes2, cur, c, m, m, rest[0]);
                assert(walk(nodes2, m, rest) == None::<int>);
            } else {
                assert(p =~= seq![c]);
                assert(p.drop_last() =~= Seq::<char>::empty());
            }
        } else {
            match child_of(nodes, s, p[0]) {
                Some(k1) => {
                    lemma_extended_walk(nodes, nodes2, cur, c, m, k1, rest);
                    if walk(nodes2, s, p) == Some(m) {
                        assert(p.drop_last() =~= seq![p[0]] + rest.drop_last());
                        lemma_walk_concat(nodes, s, seq![p[0]], rest.drop_last());
                        reveal_with_fuel(walk, 2);
                        assert(seq![p[0]].drop_first() =~= Seq::<char>::empty());
                    }
                },
                None => {},
            }
        }
    }
}

/// The value stored at the node that `p` leads to from the root, if any.
spec fn value_at<T>(nodes: Seq<TrieNode<T>>, p: Seq<char>) -> Option<T> {
    match walk(nodes, 0, p) {
        Some(k) => if 0 <= k < nodes.len() {
            nodes[k].associate
        } else {
            None
        },
        None => None,
    }
}

/// The strings stored in a tree, with their values.
spec fn view_of<T>(nodes: Seq<TrieNode<T>>) -> Map<Seq<char>, T> {
    Map::new(|p: Seq<char>| value_at(nodes, p) is Some, |p: Seq<char>| value_at(nodes, p)->0)
}

/// The labels name exactly the paths to the nodes; the tree is a tree.
spec fn wf_of<T>(nodes: Seq<TrieNode<T>>, labels: Seq<Seq<char>>) -> bool {
    &&& nodes.len() >= 1
    &&& labels.len() == nodes.len()
    &&& children_in_bounds(nodes)
    &&& forall|n: int| 0 <= n < nodes.len() ==> walk(nodes, 0, #[trigger] labels[n]) == Some(n)
    &&& forall|p: Seq<char>| #[trigger]
        walk(nodes, 0, p) matches Some(k) ==> 0 <= k < nodes.len() && labels[k] == p
}

proof fn lemma_extend_wf<T>(
    nodes: Seq<TrieNode<T>>,
    nodes2: Seq<TrieNode<T>>,
    labels: Seq<Seq<char>>,
    cur: int,
    c: char,
    m: int,
)
    requires
        wf_of(nodes, labels),
        extended(nodes, nodes2, cur, c, m),
        nodes2[m].associate is None,
        forall|k: int| 0 <= k < nodes.len() ==> (#[trigger] nodes2[k]).associate == nodes[k].associate,
    ensures
        wf_of(nodes2, labels.push(labels[cur].push(c))),
        view_of(nodes2) == view_of(nodes),
        walk(nodes2, 0, labels[cur].push(c)) == Some(m),
{
    let labels2 = labels.push(labels[cur].push(c));
    lemma_walk_push(nodes2, 0, labels[cur], c);
    lemma_extended_walk(nodes, nodes2, cur, c, m, 0, labels[cur]);
    lemma_extended_child(nodes, nodes2, cur, c, m, cur, c);
    assert forall|n: int| 0 <= n < nodes2.len() implies walk(nodes2, 0, #[trigger] labels2[n])
        == Some(n) by {
        if n < nodes.len() {
            lemma_extended_walk(nodes, nodes2, cur, c, m, 0, labels[n]);
        }
    }
    assert forall|p: Seq<char>| #[trigger]
        walk(nodes2, 0, p) is Some implies 0 <= walk(nodes2, 0, p)->0 < nodes2.len()
            && labels2[walk(nodes2, 0, p)->0] == p by {
        lemma_extended_walk(nodes, nodes2, cur, c, m, 0, p);
        if walk(nodes2, 0, p) == Some(m) {
            assert(p =~= p.drop_last().push(c));
        }
    }
    assert forall|n: int, j: int|
        0 <= n < nodes2.len() && 0 <= j < nodes2[n].children@.len() implies (
    #[trigger] nodes2[n].children@[j]).1 < nodes2.len() by {
        if n < nodes.len() && n != cur {
            assert(nodes2[n].children@[j] == nodes[n].children@[j]);
        }
        if n == cur && j < nodes[cur].children@.len() {
            assert(nodes2[n].children@[j] == nodes[n].children@[j]);
        }
    }
    assert forall|p: Seq<char>| #[trigger] view_of(nodes2).contains_key(p) == view_of(
        nodes,
    ).contains_key(p) && (view_of(nodes).contains_key(p) ==> view_of(nodes2)[p] == view_of(
        nodes,
    )[p]) by {
        lemma_extended_walk(nodes, nodes2, cur, c, m, 0, p);
    }
    assert(view_of(nodes2) =~= view_of(nodes));
}

proof fn lemma_walk_same_children<T>(
    nodes: Seq<TrieNode<T>>,
    nodes2: Seq<TrieNode<T>>,
    s: int,
    p: Seq<char>,
)
    requires
        nodes.len() == nodes2.len(),
        forall|k: int| 0 <= k < nodes.len() ==> (#[trigger] nodes2[k]).children@ == nodes[k].children@,
    ensures
        walk(nodes2, s, p) == walk(nodes, s, p),
    decreases p.len(),
{
    if p.len() > 0 {
        if 0 <= s < nodes.len() {
            assert(nodes2[s].children@ == nodes[s].children@);
        }
        match child_of(nodes, s, p[0]) {
            Some(k) => lemma_walk_same_children(nodes, nodes2, k, p.drop_first()),
            None => {},
        }
    }
}

proof fn lemma_set_value_wf<T>(
    nodes: Seq<TrieNode<T>>,
    nodes2: Seq<TrieNode<T>>,
    labels: Seq<Seq<char>>,
    cur: int,
    v: T,
)
    requires
        wf_of(nodes, labels),
        0 <= cur < nodes.len(),
        nodes2.len() == nodes.len(),
        nodes2[cur].associate == Some(v),
        nodes2[cur].children@ == nodes[cur].children@,
        forall|k: int| 0 <= k < nodes.len() && k != cur ==> #[trigger] nodes2[k] == nodes[k],
    ensures
        wf_of(nodes2, labels),
        view_of(nodes2) == view_of(nodes).insert(labels[cur], v),
{
    assert forall|k: int| 0 <= k < nodes.len() implies (#[trigger] nodes2[k]).children@
        == nodes[k].children@ by {}
    assert forall|p: Seq<char>| #[trigger] walk(nodes2, 0, p) == walk(nodes, 0, p) by {
        lemma_walk_same_children(nodes, nodes2, 0, p);
    }
    assert forall|n: int, j: int|
        0 <= n < nodes2.len() && 0 <= j < nodes2[n].children@.len() implies (
    #[trigger] nodes2[n].children@[j]).1 < nodes2.len() by {
        assert(nodes2[n].children@[j] == nodes[n].children@[j]);
    }
    assert forall|n: int| 0 <= n < nodes2.len() implies walk(nodes2, 0, #[trigger] labels[n])
        == Some(n) by {
        assert(walk(nodes2, 0, labels[n]) == walk(nodes, 0, labels[n]));
    }
    assert(view_of(nodes2) =~= view_of(nodes).insert(labels[cur], v)) by {
        assert forall|p: Seq<char>| #[trigger] walk(nodes2, 0, p) == walk(nodes, 0, p) by {
            lemma_walk_same_children(nodes, nodes2, 0, p);
        }
    }
}

/// After a string is inserted, the tree holds it with the inserted value,
/// and every other string keeps the value (or absence) it had.
pub proof fn law_lookup_after_insert<T: Clone>(
    before: CharTree<T>,
    after: CharTree<T>,
    key: Seq<u8>,
    value: T,
    other: Seq<char>,
)
    requires
        after@ == before@.insert(byte_key(key), value),
    ensures
        after@.contains_key(byte_key(key)),
        after@[byte_key(key)] == value,
        other != byte_key(key) ==> after@.contains_key(other) == before@.contains_key(other),
        other != byte_key(key) && before@.contains_key(other) ==> after@[other] == before@[other],
{
}

/// The length of the longest prefix of `rest`, of length 1 to `n`, that is a
/// key of `m` (0 when there is none).
pub open spec fn longest_key_prefix<T>(m: Map<Seq<char>, T>, rest: Seq<char>, n: int) -> int
    decreases n,
{
    if n <= 0 {
        0
    } else if m.contains_key(rest.take(n)) {
        n
    } else {
        longest_key_prefix(m, rest, n - 1)
    }
}

/// Lengths past `k` that are no keys do not change the longest key prefix.
proof fn lemma_longest_no_more<T>(m: Map<Seq<char>, T>, rest: Seq<char>, k: int, n: int)
    requires
        0 <= k <= n,
        forall|j: int| k < j <= n ==> !m.contains_key(#[trigger] rest.take(j)),
    ensures
        longest_key_prefix(m, rest, n) == longest_key_prefix(m, rest, k),
    decreases n - k,
{
    if n > k {
        lemma_longest_no_more(m, rest, k, n - 1);
    }
}

/// The longest key prefix is 0 or a length of a key prefix.
pub proof fn lemma_longest_key_prefix_bounds<T>(m: Map<Seq<char>, T>, rest: Seq<char>, n: int)
    ensures
        0 <= longest_key_prefix(m, rest, n),
        n >= 0 ==> longest_key_prefix(m, rest, n) <= n,
        longest_key_prefix(m, rest, n) > 0 ==> m.contains_key(
            rest.take(longest_key_prefix(m, rest, n)),
        ),
    decreases n,
{
    if n > 0 && !m.contains_key(rest.take(n)) {
        lemma_longest_key_prefix_bounds(m, rest, n - 1);
    }
}

impl<T: Clone> View for CharTree<T> {
    type V = Map<Seq<char>, T>;

    /// The strings stored in the tree, each with its associated value.
    closed spec fn view(&self) -> Map<Seq<char>, T> {
        view_of(self.nodes@)
    }
}

impl<T: Clone> CharTree<T> {
    pub closed spec fn wf(&self) -> bool {
        wf_of(self.nodes@, self.labels@)
    }

    pub fn new() -> (t: CharTree<T>)
        ensures
            t.wf(),
            t@ == Map::<Seq<char>, T>::empty(),
    {
        let mut nodes: Vec<TrieNode<T>> = Vec::new();
        nodes.push(TrieNode { associate: None, children: Vec::new() });
        let labels: Ghost<Seq<Seq<char>>> = Ghost(Seq::<Seq<char>>::empty().push(Seq::<char>::empty()));
        let t = CharTree { nodes, labels };
        assert forall|p: Seq<char>| #[trigger]
            walk(t.nodes@, 0, p) matches Some(k) ==> 0 <= k < t.nodes@.len() && t.labels@[k]
                == p by {
            if p.len() > 0 {
                assert(child_of(t.nodes@, 0, p[0]) == None::<int>);
            }
        }
        assert(t@ =~= Map::<Seq<char>, T>::empty());
        t
    }

    /// The child of node `n` reached by `c`.
    fn child(&self, n: usize, c: char) -> (r: Option<usize>)
        requires
            self.wf(),
            n < self.nodes@.len(),
        ensures
            r matches Some(m) ==> child_of(self.nodes@, n as int, c) == Some(m as int) && m
                < self.nodes@.len(),
            r is None ==> child_of(self.nodes@, n as int, c) is None,
    {
        let children = &self.nodes[n].children;
        proof {
            lemma_find_child_in(children@, c, 0, self.nodes@.len() as int);
        }
        let mut j: usize = 0;
        while j < children.len()
            invariant
                n < self.nodes@.len(),
                children@ == self.nodes@[n as int].children@,
                j <= children@.len(),
                find_child_from(children@, c, 0) == find_child_from(children@, c, j as int),
                find_child_from(children@, c, 0) matches Some(m) ==> 0 <= m < self.nodes@.len(),
            decreases children@.len() - j,
        {
            if children[j].0 == c {
                return Some(children[j].1);
            }
            j = j + 1;
        }
        None
    }

    pub fn insert_str(&mut self, chars: &str, associate: T) -> (r: &mut Self)
        requires
            old(self).wf(),
            chars@.len() > 0,
        ensures
            r.wf(),
            r@ == old(self)@.insert(byte_key(encode_utf8(chars@)), associate),
            *final(self) == *final(r),
    {
        let bytes = chars.as_bytes();
        proof {
            reveal_with_fuel(encode_utf8, 1);
        }
        self.insert(bytes, associate)
    }

    pub fn insert(&mut self, chars: &[u8], associate: T) -> (r: &mut Self)
        requires
            old(self).wf(),
            chars@.len() > 0,
        ensures
            r.wf(),
            r@ == old(self)@.insert(byte_key(chars@), associate),
            *final(self) == *final(r),
    {
        let ghost key = byte_key(chars@);
        let mut cur: usize = 0;
        let mut i: usize = 0;
        assert(key.take(0) =~= Seq::<char>::empty());
        while i < chars.len()
            invariant
                self.wf(),
                self@ == old(self)@,
                key == byte_key(chars@),
                i <= chars@.len(),
                cur < self.nodes@.len(),
                walk(self.nodes@, 0, key.take(i as int)) == Some(cur as int),
            decreases chars@.len() - i,
        {
            let c = chars[i] as char;
            assert(key.take(i + 1) =~= key.take(i as int).push(c));
            proof {
                lemma_walk_push(self.nodes@, 0, key.take(i as int), c);
            }
            match self.child(cur, c) {
                Some(m) => {
                    cur = m;
                },
                None => {
                    let ghost nodes = self.nodes@;
                    let ghost labels = self.labels@;
                    let m = self.nodes.len();
                    self.nodes.push(TrieNode { associate: None, children: Vec::new() });
                    let _len = self.nodes.len();
                    self.nodes[cur].children.push((c, m));
                    let new_labels: Ghost<Seq<Seq<char>>> = Ghost(
                        labels.push(labels[cur as int].push(c)),
                    );
                    self.labels = new_labels;
                    proof {
                        assert(labels[cur as int] == key.take(i as int));
                        lemma_extend_wf(nodes, self.nodes@, labels, cur as int, c, m as int);
                    }
                    cur = m;
                },
            }
            i = i + 1;
        }
        assert(key.take(chars@.len() as int) =~= key);
        let ghost nodes = self.nodes@;
        self.nodes[cur].associate = Some(associate);
        proof {
            lemma_set_value_wf(nodes, self.nodes@, self.labels@, cur as int, associate);
        }
        self
    }

    /// Reads the longest stored string at the position of `it`: when some
    /// nonempty prefix of the rest of the input is stored, the iterator moves
    /// past the longest such prefix and a clone of its value is returned with
    /// the range it was read from; otherwise the iterator is restored to where
    /// it started.
    pub fn read_or_restore<I: CharIterator>(&self, it: &mut I) -> (r: Option<(T, Range<u32>)>)
        requires
            self.wf(),
            old(it).inv(),
        ensures
            final(it).inv(),
            final(it).chars() == old(it).chars(),
            ({
                let rest = old(it).chars().subrange(
                    old(it).pos() as int,
                    old(it).chars().len() as int,
                );
                let k = longest_key_prefix(self@, rest, rest.len() as int);
                if k > 0 {
                    &&& r matches Some((v, span)) && cloned(self@[rest.take(k)], v) && span == Range {
                        start: old(it).pos(),
                        end: (old(it).pos() + k) as u32,
                    }
                    &&& final(it).pos() == old(it).pos() + k
                } else {
                    r is None && final(it).pos() == old(it).pos()
                }
            }),
    {
        let start = it.index();
        let ghost s = it.chars();
        let ghost m = self@;
        let ghost rest = s.subrange(start as int, s.len() as int);
        let mut current: usize = 0;
        let mut best: Option<(T, u32)> = None;
        assert(s.subrange(start as int, start as int) =~= Seq::<char>::empty());
        loop
            invariant
                self.wf(),
                m == self@,
                it.inv(),
                it.chars() == s,
                s == old(it).chars(),
                start == old(it).pos(),
                rest == s.subrange(start as int, s.len() as int),
                start <= it.pos() <= s.len(),
                current < self.nodes@.len(),
                walk(self.nodes@, 0, s.subrange(start as int, it.pos() as int)) == Some(
                    current as int,
                ),
                longest_key_prefix(m, rest, it.pos() - start) == (match best {
                    Some((_, e)) => e - start,
                    None => 0,
                }),
                best matches Some((v, e)) ==> start < e <= it.pos() && m.contains_key(
                    rest.take(e - start),
                ) && cloned(m[rest.take(e - start)], v),
            ensures
                self.wf(),
                it.inv(),
                it.chars() == s,
                start <= it.pos() <= s.len(),
                longest_key_prefix(m, rest, rest.len() as int) == (match best {
                    Some((_, e)) => e - start,
                    None => 0,
                }),
                best matches Some((v, e)) ==> start < e <= s.len() && m.contains_key(
                    rest.take(e - start),
                ) && cloned(m[rest.take(e - start)], v),
            decreases s.len() - it.pos(),
        {
            let ghost p = it.pos() as int;
            assert(rest.take(p - start) =~= s.subrange(start as int, p));
            let c = match it.peek_0() {
                Some(c) => c,
                None => {
                    assert(rest.len() == p - start);
                    break;
                },
            };
            assert(s.subrange(start as int, p + 1) =~= s.subrange(start as int, p).push(c));
            proof {
                lemma_walk_push(self.nodes@, 0, s.subrange(start as int, p), c);
            }
            match self.child(current, c) {
                Some(next) => {
                    current = next;
                },
                None => {
                    proof {
                        assert forall|j: int| p - start < j <= rest.len() implies !m.contains_key(
                            #[trigger] rest.take(j),
                        ) by {
                            assert(rest.take(j) =~= s.subrange(start as int, p + 1) + s.subrange(
                                p + 1,
                                start + j,
                            ));
                            lemma_walk_concat(
                                self.nodes@,
                                0,
                                s.subrange(start as int, p + 1),
                                s.subrange(p + 1, start + j),
                            );
                        }
                        lemma_longest_no_more(m, rest, p - start, rest.len() as int);
                    }
                    break;
                },
            }
            it.advance_0();
            let pos = it.index();
            let ghost q = p + 1;
            assert(rest.take(q - start) =~= s.subrange(start as int, q));
            match &self.nodes[current].associate {
                Some(a) => {
                    best = Some((a.clone(), pos));
                },
                None => {},
            }
        }
        match best {
            Some((v, e)) => {
                it.restore(e);
                Some((v, Range { start, end: e }))
            },
            None => {
                it.restore(start);
                None
            },
        }
    }
}

} // verus!
