//! A suffix trie over literal triggers. Triggers are stored from their last
//! character to their first, so that walking the typed text backwards from its
//! end finds every trigger that the text ends with.

use vstd::prelude::*;

use crate::config::Snippet;
use crate::text::chars_of;

verus! {

/// The key under which a trigger is stored: its characters from last to first.
pub open spec fn reversed(s: Seq<char>) -> Seq<char> {
    Seq::new(s.len(), |i: int| s[s.len() - 1 - i])
}

/// The last `d` characters of `t`, from last to first.
pub open spec fn tail_key(t: Seq<char>, d: int) -> Seq<char> {
    Seq::new(d as nat, |i: int| t[t.len() - 1 - i])
}

/// The largest `d` in `1..=k` such that the last `d` characters of `t` are a stored trigger.
pub open spec fn longest_from(m: Map<Seq<char>, Snippet>, t: Seq<char>, k: int) -> Option<int>
    decreases k,
{
    if k <= 0 {
        None
    } else if m.contains_key(tail_key(t, k)) {
        Some(k)
    } else {
        longest_from(m, t, k - 1)
    }
}

/// The length of the longest stored trigger that `t` ends with.
pub open spec fn longest_suffix(m: Map<Seq<char>, Snippet>, t: Seq<char>) -> Option<int> {
    longest_from(m, t, t.len() as int)
}

pub proof fn lemma_longest_from(m: Map<Seq<char>, Snippet>, t: Seq<char>, k: int, d: int)
    requires
        1 <= d <= k,
        m.contains_key(tail_key(t, d)),
        forall|e: int| d < e <= k ==> !m.contains_key(#[trigger] tail_key(t, e)),
    ensures
        longest_from(m, t, k) == Some(d),
    decreases k,
{
    if k > d {
        lemma_longest_from(m, t, k - 1, d);
    }
}

pub proof fn lemma_longest_none(m: Map<Seq<char>, Snippet>, t: Seq<char>, k: int)
    requires
        forall|e: int| 1 <= e <= k ==> !m.contains_key(#[trigger] tail_key(t, e)),
    ensures
        longest_from(m, t, k) is None,
    decreases k,
{
    if k > 0 {
        lemma_longest_none(m, t, k - 1);
    }
}

/// The result of a lookup is the longest trigger, and nothing longer is stored.
pub proof fn lemma_longest_is_max(m: Map<Seq<char>, Snippet>, t: Seq<char>, k: int)
    ensures
        longest_from(m, t, k) matches Some(d) ==> 1 <= d <= k && m.contains_key(tail_key(t, d))
            && forall|e: int| d < e <= k ==> !m.contains_key(#[trigger] tail_key(t, e)),
        longest_from(m, t, k) is None ==> forall|e: int|
            1 <= e <= k ==> !m.contains_key(#[trigger] tail_key(t, e)),
    decreases k,
{
    if k > 0 {
        lemma_longest_is_max(m, t, k - 1);
    }
}

/// A node of the trie.
pub struct TrieNode {
    children: Vec<(char, usize)>,
    snippet: Option<Snippet>,
}

impl TrieNode {
    fn new() -> (r: TrieNode)
        ensures
            r.children@.len() == 0,
            r.snippet is None,
    {
        TrieNode { children: Vec::new(), snippet: None }
    }
}

/// A set of literal triggers, each with its snippet, that answers
/// longest-suffix queries in time linear in the length of the match.
pub struct Trie {
    nodes: Vec<TrieNode>,
    /// The characters on the way from the root to each node.
    paths: Ghost<Seq<Seq<char>>>,
    /// The stored snippets, keyed by reversed trigger.
    contents: Ghost<Map<Seq<char>, Snippet>>,
}

impl View for Trie {
    type V = Map<Seq<char>, Snippet>;

    closed spec fn view(&self) -> Map<Seq<char>, Snippet> {
        self.contents@
    }
}

impl Trie {
    spec fn edge(&self, i: int, k: int) -> (char, usize) {
        self.nodes[i].children[k]
    }

    spec fn path(&self, i: int) -> Seq<char> {
        self.paths@[i]
    }

    spec fn has_node(&self, q: Seq<char>) -> bool {
        exists|i: int| 0 <= i < self.nodes.len() && self.path(i) == q
    }

    spec fn has_parent(&self, j: int) -> bool {
        exists|i: int, k: int|
            0 <= i < self.nodes.len() && 0 <= k < self.nodes[i].children.len() && #[trigger] self.edge(
                i,
                k,
            ) == (self.path(j).last(), j as usize)
    }

    pub closed spec fn wf(&self) -> bool {
        let n = self.nodes.len() as int;
        &&& n >= 1
        &&& self.paths@.len() == n
        &&& self.path(0) == Seq::<char>::empty()
        &&& forall|i: int, k: int|
            0 <= i < n && 0 <= k < self.nodes[i].children.len() ==> {
                let e = #[trigger] self.edge(i, k);
                e.1 < n && self.path(e.1 as int) == self.path(i).push(e.0)
            }
        &&& forall|i: int, j: int|
            0 <= i < n && 0 <= j < n && #[trigger] self.path(i) == #[trigger] self.path(j)
                ==> i == j
        &&& forall|j: int| 1 <= j < n ==> #[trigger] self.has_parent(j)
        &&& forall|i: int|
            0 <= i < n ==> (self.nodes[i].snippet is Some <==> self.contents@.contains_key(
                #[trigger] self.path(i),
            ))
        &&& forall|i: int|
            0 <= i < n && self.nodes[i].snippet is Some ==> self.contents@[#[trigger] self.path(i)]
                == self.nodes[i].snippet->0
        &&& forall|q: Seq<char>| #[trigger] self.contents@.contains_key(q) ==> self.has_node(q)
    }

    /// An empty trie.
    pub fn new() -> (r: Trie)
        ensures
            r.wf(),
            r@ == Map::<Seq<char>, Snippet>::empty(),
    {
        let mut nodes: Vec<TrieNode> = Vec::new();
        nodes.push(TrieNode::new());
        let ghost root_paths = seq![Seq::<char>::empty()];
        let r = Trie {
            nodes,
            paths: Ghost(root_paths),
            contents: Ghost(Map::empty()),
        };
        r
    }

    proof fn lemma_parent(&self, j: int) -> (ik: (int, int))
        requires
            self.wf(),
            1 <= j < self.nodes.len(),
        ensures
            0 <= ik.0 < self.nodes.len(),
            0 <= ik.1 < self.nodes[ik.0].children.len(),
            self.edge(ik.0, ik.1) == (self.path(j).last(), j as usize),
            self.path(j) == self.path(ik.0).push(self.path(j).last()),
            self.path(j).len() >= 1,
            self.path(ik.0) == self.path(j).drop_last(),
    {
        assert(self.has_parent(j));
        let (i, k) = choose|i: int, k: int|
            0 <= i < self.nodes.len() && 0 <= k < self.nodes[i].children.len() && #[trigger] self.edge(
                i,
                k,
            ) == (self.path(j).last(), j as usize);
        assert(self.path(j) == self.path(i).push(self.edge(i, k).0));
        assert(self.path(j).drop_last() =~= self.path(i));
        (i, k)
    }

    /// Every prefix of a node's path is the path of a node.
    proof fn lemma_prefix(&self, j: int, m: int)
        requires
            self.wf(),
            0 <= j < self.nodes.len(),
            0 <= m <= self.path(j).len(),
        ensures
            self.has_node(self.path(j).subrange(0, m)),
        decreases self.path(j).len() - m,
    {
        if m == self.path(j).len() {
            assert(self.path(j).subrange(0, m) =~= self.path(j));
        } else {
            if j == 0 {
                assert(false);
            }
            let (i, k) = self.lemma_parent(j);
            self.lemma_prefix(i, m);
            assert(self.path(i).subrange(0, m) =~= self.path(j).subrange(0, m));
        }
    }

    /// Where node `i` has no edge labelled `c`, no node has its path followed by `c`.
    proof fn lemma_no_child(&self, i: int, c: char)
        requires
            self.wf(),
            0 <= i < self.nodes.len(),
            forall|k: int| 0 <= k < self.nodes[i].children.len() ==> (#[trigger] self.edge(i, k)).0 != c,
        ensures
            !self.has_node(self.path(i).push(c)),
    {
        if self.has_node(self.path(i).push(c)) {
            let j = choose|j: int| 0 <= j < self.nodes.len() && self.path(j) == self.path(i).push(c);
            assert(self.path(j).len() >= 1);
            if j == 0 {
                assert(false);
            }
            let (p, k) = self.lemma_parent(j);
            assert(self.path(j).last() == c);
            assert(self.path(p) =~= self.path(i));
            assert(p == i);
            assert(self.edge(i, k).0 == c);
        }
    }

    /// The child of node `i` along the edge labelled `c`, if there is one.
    fn find_child(&self, i: usize, c: char) -> (r: Option<usize>)
        requires
            self.wf(),
            i < self.nodes.len(),
        ensures
            r matches Some(j) ==> j < self.nodes.len() && self.path(j as int) == self.path(
                i as int,
            ).push(c),
            r is None ==> !self.has_node(self.path(i as int).push(c)),
    {
        let children = &self.nodes[i].children;
        let mut k: usize = 0;
        while k < children.len()
            invariant
                self.wf(),
                i < self.nodes.len(),
                children == self.nodes[i as int].children,
                k <= children.len(),
                forall|q: int| 0 <= q < k ==> (#[trigger] self.edge(i as int, q)).0 != c,
            decreases children.len() - k,
        {
            if children[k].0 == c {
                assert(self.edge(i as int, k as int) == children[k as int]);
                return Some(children[k].1);
            }
            assert(self.edge(i as int, k as int) == children[k as int]);
            k += 1;
        }
        proof {
            self.lemma_no_child(i as int, c);
        }
        None
    }

    /// Stores `snippet` under its trigger, replacing a snippet stored under the same trigger.
    pub fn insert(&mut self, snippet: Snippet)
        requires
            old(self).wf(),
        ensures
            final(self).wf(),
            final(self)@ == old(self)@.insert(reversed(snippet.trigger@), snippet),
    {
        let ghost s = snippet;
        let text = chars_of(snippet.trigger.as_str());
        let ghost key = reversed(text@);
        let mut node: usize = 0;
        let mut i: usize = text.len();
        while i > 0
            invariant
                self.wf(),
                node < self.nodes.len(),
                i <= text.len(),
                key == reversed(text@),
                self.path(node as int) == key.subrange(0, text.len() - i),
                self@ == old(self)@,
            decreases i,
        {
            let c = text[i - 1];
            assert(key.subrange(0, text.len() - i + 1) =~= key.subrange(0, text.len() - i).push(c));
            match self.find_child(node, c) {
                Some(j) => {
                    node = j;
                },
                None => {
                    let n = self.nodes.len();
                    let ghost old_self = *self;
                    let ghost np = self.path(node as int).push(c);
                    self.nodes.push(TrieNode::new());
                    self.nodes[node].children.push((c, n));
                    self.paths = Ghost(self.paths@.push(np));
                    proof {
                        self.lemma_grow(old_self, node as int, c);
                    }
                    node = n;
                },
            }
            i -= 1;
        }
        assert(key.subrange(0, text.len() as int) =~= key);
        let ghost old_self = *self;
        self.nodes[node].snippet = Some(snippet);
        self.contents = Ghost(self.contents@.insert(key, s));
        proof {
            self.lemma_store(old_self, node as int, s);
        }
    }

    /// Adding a node below `parent` along `c`, where none was, keeps the trie well formed.
    proof fn lemma_grow(&self, old_self: Trie, parent: int, c: char)
        requires
            old_self.wf(),
            0 <= parent < old_self.nodes.len(),
            !old_self.has_node(old_self.path(parent).push(c)),
            self.nodes.len() == old_self.nodes.len() + 1,
            self.paths@ == old_self.paths@.push(old_self.path(parent).push(c)),
            self.contents@ == old_self.contents@,
            self.nodes[self.nodes.len() - 1].children@.len() == 0,
            self.nodes[self.nodes.len() - 1].snippet is None,
            self.nodes[parent].children@ == old_self.nodes[parent].children@.push(
                (c, old_self.nodes.len() as usize),
            ),
            self.nodes[parent].snippet == old_self.nodes[parent].snippet,
            forall|i: int|
                0 <= i < old_self.nodes.len() && i != parent ==> #[trigger] self.nodes[i]
                    == old_self.nodes[i],
        ensures
            self.wf(),
    {
        let n = old_self.nodes.len() as int;
        assert forall|i: int| 0 <= i < n implies #[trigger] self.path(i) == old_self.path(i) by {}
        assert forall|i: int, k: int|
            0 <= i < n && 0 <= k < old_self.nodes[i].children.len() implies #[trigger] self.edge(i, k)
            == old_self.edge(i, k) by {}
        assert forall|i: int, k: int|
            0 <= i < n + 1 && 0 <= k < self.nodes[i].children.len() implies {
                let e = #[trigger] self.edge(i, k);
                e.1 < n + 1 && self.path(e.1 as int) == self.path(i).push(e.0)
            } by {
            if i < n && k < old_self.nodes[i].children.len() {
                assert(old_self.edge(i, k) == self.edge(i, k));
            }
        }
        assert forall|i: int, j: int|
            0 <= i < n + 1 && 0 <= j < n + 1 && #[trigger] self.path(i) == #[trigger] self.path(
                j,
            ) implies i == j by {
            if i == n && j < n {
                assert(old_self.path(j) == old_self.path(parent).push(c));
            }
            if j == n && i < n {
                assert(old_self.path(i) == old_self.path(parent).push(c));
            }
        }
        assert forall|j: int| 1 <= j < n + 1 implies #[trigger] self.has_parent(j) by {
            if j == n {
                let k = old_self.nodes[parent].children.len() as int;
                assert(self.edge(parent, k) == (c, n as usize));
                assert(self.path(j).last() == c);
            } else {
                let (i, k) = old_self.lemma_parent(j);
                assert(self.edge(i, k) == old_self.edge(i, k));
            }
        }
        assert forall|i: int| 0 <= i < n + 1 implies (self.nodes[i].snippet is Some
            <==> self.contents@.contains_key(#[trigger] self.path(i))) by {
            if i == n {
                assert(!old_self.contents@.contains_key(self.path(i)));
            }
        }
        assert forall|q: Seq<char>| #[trigger] self.contents@.contains_key(q) implies self.has_node(
            q,
        ) by {
            assert(old_self.has_node(q));
            let i = choose|i: int| 0 <= i < n && old_self.path(i) == q;
            assert(self.path(i) == q);
        }
    }

    /// Storing a snippet at node `at` keeps the trie well formed.
    proof fn lemma_store(&self, old_self: Trie, at: int, s: Snippet)
        requires
            old_self.wf(),
            0 <= at < old_self.nodes.len(),
            self.nodes.len() == old_self.nodes.len(),
            self.paths@ == old_self.paths@,
            self.contents@ == old_self.contents@.insert(old_self.path(at), s),
            self.nodes[at].children == old_self.nodes[at].children,
            self.nodes[at].snippet == Some(s),
            forall|i: int|
                0 <= i < old_self.nodes.len() && i != at ==> #[trigger] self.nodes[i]
                    == old_self.nodes[i],
        ensures
            self.wf(),
    {
        let n = old_self.nodes.len() as int;
        assert forall|i: int, k: int|
            0 <= i < n && 0 <= k < self.nodes[i].children.len() implies #[trigger] self.edge(i, k)
            == old_self.edge(i, k) by {}
        assert forall|j: int| 1 <= j < n implies #[trigger] self.has_parent(j) by {
            let (i, k) = old_self.lemma_parent(j);
            assert(self.edge(i, k) == old_self.edge(i, k));
        }
        assert forall|i: int, j: int|
            0 <= i < n && 0 <= j < n && #[trigger] self.path(i) == #[trigger] self.path(j) implies i
            == j by {
            assert(old_self.path(i) == old_self.path(j));
        }
        assert forall|i: int| 0 <= i < n implies (self.nodes[i].snippet is Some
            <==> self.contents@.contains_key(#[trigger] self.path(i))) && (self.nodes[i].snippet is Some
            ==> self.contents@[self.path(i)] == self.nodes[i].snippet->0) by {
            if i != at {
                assert(old_self.path(i) != old_self.path(at));
            }
        }
        assert forall|q: Seq<char>| #[trigger] self.contents@.contains_key(q) implies self.has_node(
            q,
        ) by {
            if q != old_self.path(at) {
                assert(old_self.has_node(q));
                let i = choose|i: int| 0 <= i < n && old_self.path(i) == q;
                assert(self.path(i) == q);
            } else {
                assert(self.path(at) == q);
            }
        }
    }

    /// The snippet of the longest stored trigger that `t` ends with, and that
    /// trigger's length in characters.
    pub fn find_match_chars(&self, t: &Vec<char>) -> (r: Option<(&Snippet, usize)>)
        requires
            self.wf(),
        ensures
            match r {
                Some((s, d)) => longest_suffix(self@, t@) == Some(d as int) && *s == self@[tail_key(
                    t@,
                    d as int,
                )],
                None => longest_suffix(self@, t@) is None,
            },
    {
        let len = t.len();
        let mut node: usize = 0;
        let mut depth: usize = 0;
        let mut best: Option<(&Snippet, usize)> = None;
        let mut stop = false;
        assert(tail_key(t@, 0) =~= Seq::<char>::empty());
        while depth < len && !stop
            invariant
                self.wf(),
                node < self.nodes.len(),
                depth <= len == t@.len(),
                self.path(node as int) == tail_key(t@, depth as int),
                match best {
                    Some((s, d)) => 1 <= d <= depth && self@.contains_key(tail_key(t@, d as int))
                        && *s == self@[tail_key(t@, d as int)] && forall|e: int|
                        d < e <= depth ==> !self@.contains_key(#[trigger] tail_key(t@, e)),
                    None => forall|e: int|
                        1 <= e <= depth ==> !self@.contains_key(#[trigger] tail_key(t@, e)),
                },
                stop ==> forall|e: int|
                    depth < e <= len ==> !self@.contains_key(#[trigger] tail_key(t@, e)),
            decreases len - depth + (if stop { 0int } else { 1int }),
        {
            let c = t[len - 1 - depth];
            assert(tail_key(t@, depth + 1) =~= tail_key(t@, depth as int).push(c));
            match self.find_child(node, c) {
                Some(next) => {
                    node = next;
                    depth += 1;
                    match &self.nodes[next].snippet {
                        Some(s) => {
                            best = Some((s, depth));
                        },
                        None => {},
                    }
                },
                None => {
                    proof {
                        assert forall|e: int| depth < e <= len implies !self@.contains_key(
                            #[trigger] tail_key(t@, e),
                        ) by {
                            if self@.contains_key(tail_key(t@, e)) {
                                let j = choose|j: int|
                                    0 <= j < self.nodes.len() && self.path(j) == tail_key(t@, e);
                                self.lemma_prefix(j, depth + 1);
                                assert(tail_key(t@, e).subrange(0, depth + 1) =~= tail_key(
                                    t@,
                                    depth + 1,
                                ));
                            }
                        }
                    }
                    stop = true;
                },
            }
        }
        proof {
            let m = self@;
            match best {
                Some((s, d)) => {
                    lemma_longest_from(m, t@, len as int, d as int);
                },
                None => {
                    lemma_longest_none(m, t@, len as int);
                },
            }
        }
        best
    }

    /// The snippet of the longest stored trigger that `text` ends with, and
    /// that trigger's length in characters.
    pub fn find_match(&self, text: &str) -> (r: Option<(&Snippet, usize)>)
        requires
            self.wf(),
        ensures
            match r {
                Some((s, d)) => longest_suffix(self@, text@) == Some(d as int) && *s
                    == self@[tail_key(text@, d as int)],
                None => longest_suffix(self@, text@) is None,
            },
    {
        let t = chars_of(text);
        self.find_match_chars(&t)
    }
}

} // verus!
