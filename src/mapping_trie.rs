//! Compilation of many sequences into one shared prefix structure, and
//! incremental matching of a buffered prefix plus a new key against it.
//!
//! The structure is an arena: `nodes` holds each node's kind and the place of
//! its mapping among the compiled sequences, `edges` holds the key-labelled
//! links from a node to its children, in the order in which they were made.
//! Node 0 is the root.
use vstd::prelude::*;

use crate::types::{distinct_presses, first_with_press, lemma_first_with_press_prefix};
use crate::types::{Behaviour, Behaviours, KeyPress, Mapping};

verus! {

/// What a trie node is.
#[derive(Clone, Copy, Debug, PartialEq, Eq, Structural)]
pub enum NodeKind {
    /// The start of every match; carries no mapping.
    Root,
    /// Reached by exactly one key press.
    OneOff,
    /// Reached by any key of a choice set, and stays put on further keys of it.
    Repeatable,
}

/// A node: its kind, and for a non-root node the place of its mapping
/// (`sequence`-th sequence, `position`-th step).
#[derive(Clone, Copy, Debug, PartialEq, Eq, Structural)]
pub struct NodeInfo {
    pub kind: NodeKind,
    pub sequence: usize,
    pub position: usize,
}

/// A link from `parent` to `child`, followed on `press`.
#[derive(Clone, Copy, Debug, PartialEq, Eq, Structural)]
pub struct Edge {
    pub parent: usize,
    pub press: KeyPress,
    pub child: usize,
}

/// Why the rest of a sequence was left out of the trie.
#[derive(Clone, Copy, Debug, PartialEq, Eq, Structural)]
pub enum ConflictReason {
    /// A key of the choice set already leads somewhere from this node.
    KeysTaken,
    /// The choice would start right at another choice's repeatable node.
    NestedChoice,
    /// Two members of the choice set react to the same key press.
    DuplicateKeys,
}

/// A compilation diagnostic: the step at which a sequence was cut off.
#[derive(Clone, Copy, Debug, PartialEq, Eq, Structural)]
pub struct Conflict {
    pub sequence: usize,
    pub position: usize,
    pub reason: ConflictReason,
}

/// The abstract content of a trie: its nodes, its edges and the diagnostics
/// collected while it was built.
pub struct Shape {
    pub nodes: Seq<NodeInfo>,
    pub edges: Seq<Edge>,
    pub conflicts: Seq<Conflict>,
}

/// The trie before any sequence is added: a lone root.
pub open spec fn empty_shape() -> Shape {
    Shape {
        nodes: seq![NodeInfo { kind: NodeKind::Root, sequence: 0, position: 0 }],
        edges: seq![],
        conflicts: seq![],
    }
}

/// The index of the first edge from `n` on `k`.
pub open spec fn first_edge(edges: Seq<Edge>, n: int, k: KeyPress) -> Option<int>
    decreases edges.len(),
{
    if edges.len() == 0 {
        None
    } else {
        match first_edge(edges.drop_last(), n, k) {
            Some(e) => Some(e),
            None => if edges.last().parent == n && edges.last().press == k {
                Some(edges.len() - 1)
            } else {
                None
            },
        }
    }
}

/// The child of `n` on `k`, if there is one.
pub open spec fn child(edges: Seq<Edge>, n: int, k: KeyPress) -> Option<int> {
    match first_edge(edges, n, k) {
        Some(e) => Some(edges[e].child as int),
        None => None,
    }
}

/// The mapping that a non-root node carries.
pub open spec fn mapping_at<A, T>(seqs: Seq<Vec<Mapping<A, T>>>, info: NodeInfo) -> Mapping<A, T> {
    seqs[info.sequence as int]@[info.position as int]
}

/// `k` belongs to the choice set of a repeatable node.
pub open spec fn repeats<A, T>(seqs: Seq<Vec<Mapping<A, T>>>, info: NodeInfo, k: KeyPress) -> bool {
    &&& info.kind is Repeatable
    &&& match mapping_at(seqs, info) {
        Mapping::Choice(bs, _) => first_with_press(bs.0@, k) is Some,
        Mapping::Single(_) => false,
    }
}

/// One transition: a repeatable node keeps its own keys, every other key
/// follows an edge.
pub open spec fn step<A, T>(seqs: Seq<Vec<Mapping<A, T>>>, sh: Shape, n: int, k: KeyPress) -> Option<int> {
    if repeats(seqs, sh.nodes[n], k) {
        Some(n)
    } else {
        child(sh.edges, n, k)
    }
}

/// The node reached by replaying `buf` from the root.
pub open spec fn walk<A, T>(seqs: Seq<Vec<Mapping<A, T>>>, sh: Shape, buf: Seq<KeyPress>) -> Option<int>
    decreases buf.len(),
{
    if buf.len() == 0 {
        Some(0)
    } else {
        match walk(seqs, sh, buf.drop_last()) {
            Some(n) => step(seqs, sh, n, buf.last()),
            None => None,
        }
    }
}

/// The place of the mapping that `key` selects after the prefix `buf`.
pub open spec fn resolve<A, T>(seqs: Seq<Vec<Mapping<A, T>>>, sh: Shape, buf: Seq<KeyPress>, key: KeyPress) -> Option<NodeInfo> {
    match walk(seqs, sh, buf.push(key)) {
        Some(n) => if sh.nodes[n].kind is Root {
            None
        } else {
            Some(sh.nodes[n])
        },
        None => None,
    }
}

/// The structural invariant of a trie over the sequences `seqs`.
pub open spec fn shape_wf<A, T>(seqs: Seq<Vec<Mapping<A, T>>>, sh: Shape) -> bool {
    &&& sh.nodes.len() >= 1
    &&& sh.nodes[0].kind is Root
    &&& forall|i: int| 0 <= i < sh.nodes.len() && !((#[trigger] sh.nodes[i]).kind is Root) ==> {
        &&& sh.nodes[i].sequence < seqs.len()
        &&& sh.nodes[i].position < seqs[sh.nodes[i].sequence as int]@.len()
        &&& (sh.nodes[i].kind is Repeatable <==> mapping_at(seqs, sh.nodes[i]) is Choice)
    }
    &&& forall|e: int| 0 <= e < sh.edges.len() ==> {
        &&& (#[trigger] sh.edges[e]).parent < sh.nodes.len()
        &&& sh.edges[e].child < sh.nodes.len()
    }
}

/// Follows the edge from `n` on `k`, or makes a new node `info` there first.
/// Returns the shape after that and the node reached.
pub open spec fn get_or_create(sh: Shape, n: int, k: KeyPress, info: NodeInfo) -> (Shape, int) {
    match child(sh.edges, n, k) {
        Some(c) => (sh, c),
        None => (
            Shape {
                nodes: sh.nodes.push(info),
                edges: sh.edges.push(Edge { parent: n as usize, press: k, child: sh.nodes.len() as usize }),
                conflicts: sh.conflicts,
            },
            sh.nodes.len() as int,
        ),
    }
}

/// `sh` with one more diagnostic.
pub open spec fn with_conflict(sh: Shape, c: Conflict) -> Shape {
    Shape { nodes: sh.nodes, edges: sh.edges, conflicts: sh.conflicts.push(c) }
}

/// No member of `bs` has an edge from `n` yet.
pub open spec fn all_free<A>(edges: Seq<Edge>, n: int, bs: Seq<Behaviour<A>>) -> bool {
    forall|j: int| 0 <= j < bs.len() ==> child(edges, n, #[trigger] bs[j].press()) is None
}

/// The shape after the steps `i..` of sequence `s` are added below node `n`.
///
/// A single step follows (or makes) a one-off child. A choice step makes a
/// repeatable child for each member and adds the remaining steps below each
/// of them, unless it collides: with another choice at `n`, with an edge
/// already taken, or within its own set. Then the rest of the sequence is
/// dropped and a diagnostic recorded.
pub open spec fn insert_from<A, T>(seqs: Seq<Vec<Mapping<A, T>>>, sh: Shape, s: int, n: int, i: int) -> Shape
    decreases seqs[s]@.len() - i, 1int, 0int,
{
    if i < 0 || i >= seqs[s]@.len() {
        sh
    } else {
        match seqs[s]@[i] {
            Mapping::Single(b) => {
                let info = NodeInfo { kind: NodeKind::OneOff, sequence: s as usize, position: i as usize };
                let (sh2, c) = get_or_create(sh, n, b.press(), info);
                insert_from(seqs, sh2, s, c, i + 1)
            },
            Mapping::Choice(bs, _) => {
                let conflict = |reason: ConflictReason|
                    Conflict { sequence: s as usize, position: i as usize, reason };
                if sh.nodes[n].kind is Repeatable {
                    with_conflict(sh, conflict(ConflictReason::NestedChoice))
                } else if !distinct_presses(bs.0@) {
                    with_conflict(sh, conflict(ConflictReason::DuplicateKeys))
                } else if !all_free(sh.edges, n, bs.0@) {
                    with_conflict(sh, conflict(ConflictReason::KeysTaken))
                } else {
                    insert_members(seqs, sh, s, n, i, 0)
                }
            },
        }
    }
}

/// The shape after members `j..` of the choice at step `i` of sequence `s`
/// get their repeatable children below `n`, each followed by the steps after `i`.
pub open spec fn insert_members<A, T>(seqs: Seq<Vec<Mapping<A, T>>>, sh: Shape, s: int, n: int, i: int, j: int) -> Shape
    decreases seqs[s]@.len() - i, 0int, choice_len(seqs[s]@[i]) - j,
{
    if i < 0 || i >= seqs[s]@.len() || j < 0 || j >= choice_len(seqs[s]@[i]) {
        sh
    } else {
        let b = choice_members(seqs[s]@[i])[j];
        let info = NodeInfo { kind: NodeKind::Repeatable, sequence: s as usize, position: i as usize };
        let (sh2, c) = get_or_create(sh, n, b.press(), info);
        insert_members(seqs, insert_from(seqs, sh2, s, c, i + 1), s, n, i, j + 1)
    }
}

/// The members of a choice step (none for a single step).
pub open spec fn choice_members<A, T>(m: Mapping<A, T>) -> Seq<Behaviour<A>> {
    match m {
        Mapping::Choice(bs, _) => bs.0@,
        Mapping::Single(_) => seq![],
    }
}

pub open spec fn choice_len<A, T>(m: Mapping<A, T>) -> int {
    choice_members(m).len() as int
}

/// The trie built from the first `k` sequences of `seqs`, in order.
pub open spec fn compiled<A, T>(seqs: Seq<Vec<Mapping<A, T>>>, k: int) -> Shape
    decreases k,
{
    if k <= 0 {
        empty_shape()
    } else {
        insert_from(seqs, compiled(seqs, k - 1), k - 1, 0, 0)
    }
}

/// The index form of an optional node.
pub open spec fn node_of(o: Option<usize>) -> Option<int> {
    match o {
        Some(n) => Some(n as int),
        None => None,
    }
}

/// An edge found in a prefix is the first such edge of the whole list.
proof fn lemma_first_edge_prefix(edges: Seq<Edge>, m: int, n: int, k: KeyPress)
    requires
        0 <= m <= edges.len(),
        first_edge(edges.take(m), n, k) is Some,
    ensures
        first_edge(edges, n, k) == first_edge(edges.take(m), n, k),
    decreases edges.len() - m,
{
    if m < edges.len() {
        assert(edges.take(m + 1).drop_last() == edges.take(m));
        lemma_first_edge_prefix(edges, m + 1, n, k);
    } else {
        assert(edges.take(m) == edges);
    }
}

/// A prefix that leads nowhere cannot be extended into one that does.
proof fn lemma_walk_dead_prefix<A, T>(seqs: Seq<Vec<Mapping<A, T>>>, sh: Shape, buf: Seq<KeyPress>, m: int)
    requires
        0 <= m <= buf.len(),
        walk(seqs, sh, buf.take(m)) is None,
    ensures
        walk(seqs, sh, buf) is None,
    decreases buf.len() - m,
{
    if m < buf.len() {
        assert(buf.take(m + 1).drop_last() == buf.take(m));
        lemma_walk_dead_prefix(seqs, sh, buf, m + 1);
    } else {
        assert(buf.take(m) == buf);
    }
}

/// The members of a choice step, counted.
fn members_len<A: Copy, T: Copy>(m: &Mapping<A, T>) -> (r: usize)
    ensures
        r == choice_len(*m),
{
    match m {
        Mapping::Choice(bs, _) => bs.0.len(),
        Mapping::Single(_) => 0,
    }
}

/// The key press of the `j`-th member of a choice step.
fn member_press<A: Copy, T: Copy>(m: &Mapping<A, T>, j: usize) -> (r: KeyPress)
    requires
        j < choice_len(*m),
    ensures
        r == choice_members(*m)[j as int].press(),
{
    match m {
        Mapping::Choice(bs, _) => bs.0[j].get_key(),
        Mapping::Single(b) => b.get_key(),
    }
}

/// Sequences of mappings compiled into one shared search structure.
pub struct MappingTrie<A, T> {
    sequences: Vec<Vec<Mapping<A, T>>>,
    nodes: Vec<NodeInfo>,
    edges: Vec<Edge>,
    conflicts: Vec<Conflict>,
}

impl<A, T> MappingTrie<A, T> {
    /// The sequences this trie was compiled from.
    pub closed spec fn sequences(&self) -> Seq<Vec<Mapping<A, T>>> {
        self.sequences@
    }

    /// The nodes, edges and diagnostics of this trie.
    pub closed spec fn shape(&self) -> Shape {
        Shape { nodes: self.nodes@, edges: self.edges@, conflicts: self.conflicts@ }
    }

    pub open spec fn wf(&self) -> bool {
        shape_wf(self.sequences(), self.shape())
    }

    /// The mapping that `key` selects after the prefix `buf`, if any.
    pub open spec fn lookup(&self, buf: Seq<KeyPress>, key: KeyPress) -> Option<Mapping<A, T>> {
        match resolve(self.sequences(), self.shape(), buf, key) {
            Some(info) => Some(mapping_at(self.sequences(), info)),
            None => None,
        }
    }
}

impl<A: Copy, T: Copy> MappingTrie<A, T> {
    /// The child of node `n` on `key`.
    fn child_of(&self, n: usize, key: &KeyPress) -> (r: Option<usize>)
        requires
            self.wf(),
        ensures
            node_of(r) == child(self.shape().edges, n as int, *key),
            r matches Some(c) ==> c < self.shape().nodes.len(),
    {
        let mut e: usize = 0;
        while e < self.edges.len()
            invariant
                self.wf(),
                e <= self.edges@.len(),
                first_edge(self.edges@.take(e as int), n as int, *key) is None,
            decreases self.edges@.len() - e,
        {
            assert(self.edges@.take(e + 1).drop_last() == self.edges@.take(e as int));
            if self.edges[e].parent == n && self.edges[e].press == *key {
                proof {
                    lemma_first_edge_prefix(self.edges@, e + 1, n as int, *key);
                }
                return Some(self.edges[e].child);
            }
            e = e + 1;
        }
        assert(self.edges@.take(e as int) == self.edges@);
        None
    }

    /// One transition from node `n` on `key`.
    fn step(&self, n: usize, key: &KeyPress) -> (r: Option<usize>)
        requires
            self.wf(),
            n < self.shape().nodes.len(),
        ensures
            node_of(r) == step(self.sequences(), self.shape(), n as int, *key),
            r matches Some(c) ==> c < self.shape().nodes.len(),
    {
        let info = self.nodes[n];
        if info.kind == NodeKind::Repeatable {
            match &self.sequences[info.sequence][info.position] {
                Mapping::Choice(bs, _) => {
                    if bs.get_mapping(key).is_some() {
                        return Some(n);
                    }
                },
                Mapping::Single(_) => {},
            }
        }
        self.child_of(n, key)
    }

    /// None of the members of `key_presses` has an edge from node `n` yet.
    fn all_keys_available(&self, n: usize, key_presses: &Behaviours<A>) -> (r: bool)
        requires
            self.wf(),
        ensures
            r == all_free(self.shape().edges, n as int, key_presses.0@),
    {
        let mut j: usize = 0;
        while j < key_presses.0.len()
            invariant
                self.wf(),
                j <= key_presses.0@.len(),
                forall|jj: int| 0 <= jj < j ==> child(self.shape().edges, n as int, #[trigger] key_presses.0@[jj].press()) is None,
            decreases key_presses.0@.len() - j,
        {
            if self.child_of(n, &key_presses.0[j].get_key()).is_some() {
                return false;
            }
            j = j + 1;
        }
        true
    }

    /// No two members of `key_presses` react to the same key press.
    fn has_distinct_keys(key_presses: &Behaviours<A>) -> (r: bool)
        ensures
            r == distinct_presses(key_presses.0@),
    {
        let v = &key_presses.0;
        let mut i: usize = 0;
        while i < v.len()
            invariant
                v@ == key_presses.0@,
                i <= v@.len(),
                forall|a: int, b: int|
                    0 <= a < i && 0 <= b < v@.len() && a != b ==> #[trigger] v@[a].press() != #[trigger] v@[b].press(),
            decreases v@.len() - i,
        {
            let mut j: usize = 0;
            while j < v.len()
                invariant
                    v@ == key_presses.0@,
                    i < v@.len(),
                    j <= v@.len(),
                    forall|a: int, b: int|
                        0 <= a < i && 0 <= b < v@.len() && a != b ==> #[trigger] v@[a].press() != #[trigger] v@[b].press(),
                    forall|b: int| 0 <= b < j && b != i ==> v@[i as int].press() != #[trigger] v@[b].press(),
                decreases v@.len() - j,
            {
                if j != i && v[i].get_key() == v[j].get_key() {
                    assert(v@[i as int].press() == v@[j as int].press());
                    return false;
                }
                j = j + 1;
            }
            i = i + 1;
        }
        true
    }

    /// Follows the edge from `n` on `key`, making node `info` there first if
    /// there is none.
    fn get_or_create(&mut self, n: usize, key: KeyPress, info: NodeInfo) -> (c: usize)
        requires
            old(self).wf(),
            n < old(self).shape().nodes.len(),
            !(info.kind is Root) ==> info.sequence < old(self).sequences().len()
                && info.position < old(self).sequences()[info.sequence as int]@.len()
                && (info.kind is Repeatable <==> mapping_at(old(self).sequences(), info) is Choice),
        ensures
            final(self).wf(),
            final(self).sequences() == old(self).sequences(),
            (final(self).shape(), c as int) == get_or_create(old(self).shape(), n as int, key, info),
            c < final(self).shape().nodes.len(),
            final(self).shape().nodes.len() >= old(self).shape().nodes.len(),
    {
        match self.child_of(n, &key) {
            Some(c) => c,
            None => {
                let c = self.nodes.len();
                self.nodes.push(info);
                self.edges.push(Edge { parent: n, press: key, child: c });
                assert(forall|e: int| 0 <= e < self.edges@.len() - 1 ==> #[trigger] self.edges@[e] == old(self).edges@[e]);
                c
            },
        }
    }

    /// Adds steps `starting_pos..` of sequence `s` below node `root`.
    fn map(&mut self, s: usize, root: usize, starting_pos: usize)
        requires
            old(self).wf(),
            s < old(self).sequences().len(),
            root < old(self).shape().nodes.len(),
        ensures
            final(self).wf(),
            final(self).sequences() == old(self).sequences(),
            final(self).shape() == insert_from(old(self).sequences(), old(self).shape(), s as int, root as int, starting_pos as int),
            final(self).shape().nodes.len() >= old(self).shape().nodes.len(),
        decreases old(self).sequences()[s as int]@.len() - starting_pos,
    {
        let ghost seqs = self.sequences();
        let ghost goal = insert_from(seqs, self.shape(), s as int, root as int, starting_pos as int);
        let len = self.sequences[s].len();
        let mut node = root;
        let mut i = starting_pos;
        while i < len
            invariant
                self.wf(),
                self.sequences() == seqs,
                seqs == old(self).sequences(),
                goal == insert_from(seqs, old(self).shape(), s as int, root as int, starting_pos as int),
                s < seqs.len(),
                len == seqs[s as int]@.len(),
                starting_pos <= i,
                node < self.shape().nodes.len(),
                self.shape().nodes.len() >= old(self).shape().nodes.len(),
                insert_from(seqs, self.shape(), s as int, node as int, i as int) == goal,
            decreases len - i,
        {
            let single = match &self.sequences[s][i] {
                Mapping::Single(behaviour) => Some(behaviour.get_key()),
                Mapping::Choice(_, _) => None,
            };
            match single {
                Some(key) => {
                    let info = NodeInfo { kind: NodeKind::OneOff, sequence: s, position: i };
                    node = self.get_or_create(node, key, info);
                    i = i + 1;
                },
                None => {
                    let ghost sh0 = self.shape();
                    let conflict = if self.nodes[node].kind == NodeKind::Repeatable {
                        Some(ConflictReason::NestedChoice)
                    } else {
                        match &self.sequences[s][i] {
                            Mapping::Choice(behaviours, _) => {
                                if !Self::has_distinct_keys(behaviours) {
                                    Some(ConflictReason::DuplicateKeys)
                                } else if !self.all_keys_available(node, behaviours) {
                                    Some(ConflictReason::KeysTaken)
                                } else {
                                    None
                                }
                            },
                            Mapping::Single(_) => None,
                        }
                    };
                    if let Some(reason) = conflict {
                        self.conflicts.push(Conflict { sequence: s, position: i, reason });
                        assert(self.shape() == with_conflict(sh0, Conflict { sequence: s, position: i, reason }));
                        return;
                    }
                    assert(goal == insert_members(seqs, sh0, s as int, node as int, i as int, 0));
                    let count = members_len(&self.sequences[s][i]);
                    let mut j: usize = 0;
                    while j < count
                        invariant
                            self.wf(),
                            self.sequences() == seqs,
                            seqs == old(self).sequences(),
                            goal == insert_from(seqs, old(self).shape(), s as int, root as int, starting_pos as int),
                            s < seqs.len(),
                            len == seqs[s as int]@.len(),
                            starting_pos <= i < len,
                            node < self.shape().nodes.len(),
                            self.shape().nodes.len() >= old(self).shape().nodes.len(),
                            count == choice_len(seqs[s as int]@[i as int]),
                            insert_members(seqs, self.shape(), s as int, node as int, i as int, j as int) == goal,
                        decreases count - j,
                    {
                        let key = member_press(&self.sequences[s][i], j);
                        let info = NodeInfo { kind: NodeKind::Repeatable, sequence: s, position: i };
                        let c = self.get_or_create(node, key, info);
                        self.map(s, c, i + 1);
                        j = j + 1;
                    }
                    return;
                },
            }
        }
    }

    /// Compiles `mappings`, one sequence after another, into a trie that
    /// owns them. A sequence that collides is kept up to the colliding step
    /// and recorded among the conflicts; the others are unaffected.
    pub fn from_mappings(mappings: Vec<Vec<Mapping<A, T>>>) -> (r: Self)
        ensures
            r.wf(),
            r.sequences() == mappings@,
            r.shape() == compiled(mappings@, mappings@.len() as int),
    {
        let ghost seqs = mappings@;
        let mut nodes: Vec<NodeInfo> = Vec::new();
        nodes.push(NodeInfo { kind: NodeKind::Root, sequence: 0, position: 0 });
        let mut trie = MappingTrie { sequences: mappings, nodes, edges: Vec::new(), conflicts: Vec::new() };
        assert(trie.shape() == empty_shape());
        let count = trie.sequences.len();
        let mut s: usize = 0;
        while s < count
            invariant
                trie.wf(),
                trie.sequences() == seqs,
                count == seqs.len(),
                s <= count,
                trie.shape() == compiled(seqs, s as int),
            decreases count - s,
        {
            trie.map(s, 0, 0);
            s = s + 1;
        }
        trie
    }

    /// The mapping that `key` selects once the keys of `buffer` have been
    /// replayed from the root, if any.
    pub fn find_mapping(&self, key: &KeyPress, buffer: &[KeyPress]) -> (r: Option<&Mapping<A, T>>)
        requires
            self.wf(),
        ensures
            match self.lookup(buffer@, *key) {
                Some(m) => r == Some(&m),
                None => r is None,
            },
    {
        let ghost seqs = self.sequences();
        let ghost sh = self.shape();
        assert(buffer@.push(*key).drop_last() == buffer@);
        let mut node: usize = 0;
        let mut i: usize = 0;
        while i < buffer.len()
            invariant
                self.wf(),
                i <= buffer@.len(),
                node < sh.nodes.len(),
                seqs == self.sequences(),
                sh == self.shape(),
                walk(seqs, sh, buffer@.take(i as int)) == Some(node as int),
            decreases buffer@.len() - i,
        {
            assert(buffer@.take(i + 1).drop_last() == buffer@.take(i as int));
            match self.step(node, &buffer[i]) {
                Some(next) => {
                    node = next;
                },
                None => {
                    proof {
                        lemma_walk_dead_prefix(seqs, sh, buffer@, i + 1);
                        assert(buffer@.push(*key).drop_last() == buffer@);
                    }
                    return None;
                },
            }
            i = i + 1;
        }
        assert(buffer@.take(i as int) == buffer@);
        match self.step(node, key) {
            Some(next) => {
                let info = self.nodes[next];
                if info.kind == NodeKind::Root {
                    None
                } else {
                    Some(&self.sequences[info.sequence][info.position])
                }
            },
            None => None,
        }
    }

    /// The diagnostics collected while compiling, in the order they arose.
    pub fn conflicts(&self) -> (r: &Vec<Conflict>)
        ensures
            r@ == self.shape().conflicts,
    {
        &self.conflicts
    }
}

/// Every edge of `sh` links nodes that exist, and the root exists.
pub open spec fn edges_closed(sh: Shape) -> bool {
    &&& sh.nodes.len() >= 1
    &&& forall|e: int| 0 <= e < sh.edges.len() ==> {
        &&& (#[trigger] sh.edges[e]).parent < sh.nodes.len()
        &&& sh.edges[e].child < sh.nodes.len()
    }
}

/// `new` keeps all of `old`: the same nodes first, the same edges first.
pub open spec fn extends(old: Shape, new: Shape) -> bool {
    &&& old.nodes.len() <= new.nodes.len()
    &&& forall|i: int| 0 <= i < old.nodes.len() ==> #[trigger] new.nodes[i] == old.nodes[i]
    &&& old.edges.len() <= new.edges.len()
    &&& forall|e: int| 0 <= e < old.edges.len() ==> #[trigger] new.edges[e] == old.edges[e]
}

proof fn lemma_extends_trans(a: Shape, b: Shape, c: Shape)
    requires
        extends(a, b),
        extends(b, c),
    ensures
        extends(a, c),
{
    assert forall|i: int| 0 <= i < a.nodes.len() implies #[trigger] c.nodes[i] == a.nodes[i] by {
        assert(b.nodes[i] == a.nodes[i]);
    }
    assert forall|e: int| 0 <= e < a.edges.len() implies #[trigger] c.edges[e] == a.edges[e] by {
        assert(b.edges[e] == a.edges[e]);
    }
}

proof fn lemma_get_or_create_extends(sh: Shape, n: int, k: KeyPress, info: NodeInfo)
    requires
        edges_closed(sh),
        0 <= n < sh.nodes.len(),
    ensures
        extends(sh, get_or_create(sh, n, k, info).0),
        edges_closed(get_or_create(sh, n, k, info).0),
        0 <= get_or_create(sh, n, k, info).1 < get_or_create(sh, n, k, info).0.nodes.len(),
{
    if let Some(e) = first_edge(sh.edges, n, k) {
        lemma_first_edge_bounds(sh.edges, n, k);
    }
    let sh2 = get_or_create(sh, n, k, info).0;
    assert forall|e: int| 0 <= e < sh2.edges.len() implies {
        &&& (#[trigger] sh2.edges[e]).parent < sh2.nodes.len()
        &&& sh2.edges[e].child < sh2.nodes.len()
    } by {
        if e < sh.edges.len() {
            assert(sh2.edges[e] == sh.edges[e]);
        }
    }
}

/// The first edge found is an edge of the list, and leaves the queried node on the queried key.
pub proof fn lemma_first_edge_bounds(edges: Seq<Edge>, n: int, k: KeyPress)
    ensures
        first_edge(edges, n, k) matches Some(e) ==> 0 <= e < edges.len() && edges[e].parent == n && edges[e].press == k,
    decreases edges.len(),
{
    if edges.len() > 0 {
        lemma_first_edge_bounds(edges.drop_last(), n, k);
    }
}

/// Adding the rest of a sequence only adds: nodes and edges already there stay.
proof fn lemma_insert_from_extends<A, T>(seqs: Seq<Vec<Mapping<A, T>>>, sh: Shape, s: int, n: int, i: int)
    requires
        edges_closed(sh),
        0 <= n < sh.nodes.len(),
    ensures
        extends(sh, insert_from(seqs, sh, s, n, i)),
        edges_closed(insert_from(seqs, sh, s, n, i)),
    decreases seqs[s]@.len() - i, 1int, 0int,
{
    if 0 <= i < seqs[s]@.len() {
        match seqs[s]@[i] {
            Mapping::Single(b) => {
                let info = NodeInfo { kind: NodeKind::OneOff, sequence: s as usize, position: i as usize };
                let (sh2, c) = get_or_create(sh, n, b.press(), info);
                lemma_get_or_create_extends(sh, n, b.press(), info);
                lemma_insert_from_extends(seqs, sh2, s, c, i + 1);
                lemma_extends_trans(sh, sh2, insert_from(seqs, sh2, s, c, i + 1));
            },
            Mapping::Choice(bs, _) => {
                lemma_insert_members_extends(seqs, sh, s, n, i, 0);
            },
        }
    }
}

proof fn lemma_insert_members_extends<A, T>(seqs: Seq<Vec<Mapping<A, T>>>, sh: Shape, s: int, n: int, i: int, j: int)
    requires
        edges_closed(sh),
        0 <= n < sh.nodes.len(),
    ensures
        extends(sh, insert_members(seqs, sh, s, n, i, j)),
        edges_closed(insert_members(seqs, sh, s, n, i, j)),
    decreases seqs[s]@.len() - i, 0int, choice_len(seqs[s]@[i]) - j,
{
    if 0 <= i < seqs[s]@.len() && 0 <= j < choice_len(seqs[s]@[i]) {
        let b = choice_members(seqs[s]@[i])[j];
        let info = NodeInfo { kind: NodeKind::Repeatable, sequence: s as usize, position: i as usize };
        let (sh2, c) = get_or_create(sh, n, b.press(), info);
        lemma_get_or_create_extends(sh, n, b.press(), info);
        let sh3 = insert_from(seqs, sh2, s, c, i + 1);
        lemma_insert_from_extends(seqs, sh2, s, c, i + 1);
        lemma_extends_trans(sh, sh2, sh3);
        lemma_insert_members_extends(seqs, sh3, s, n, i, j + 1);
        lemma_extends_trans(sh, sh3, insert_members(seqs, sh3, s, n, i, j + 1));
    }
}

/// The trie of the first `k` sequences is kept whole in the trie of the first `m`.
pub proof fn lemma_compiled_extends<A, T>(seqs: Seq<Vec<Mapping<A, T>>>, k: int, m: int)
    requires
        0 <= k <= m,
    ensures
        extends(compiled(seqs, k), compiled(seqs, m)),
        edges_closed(compiled(seqs, m)),
    decreases m,
{
    if m == 0 {
        assert(edges_closed(compiled(seqs, 0)));
    } else {
        lemma_compiled_extends(seqs, 0, m - 1);
        lemma_insert_from_extends(seqs, compiled(seqs, m - 1), m - 1, 0, 0);
        if k < m {
            lemma_compiled_extends(seqs, k, m - 1);
            lemma_extends_trans(compiled(seqs, k), compiled(seqs, m - 1), compiled(seqs, m));
        }
    }
}

/// An edge that exists keeps being the first one found after more edges are added.
proof fn lemma_first_edge_stable(old: Seq<Edge>, new: Seq<Edge>, n: int, k: KeyPress)
    requires
        old.len() <= new.len(),
        forall|e: int| 0 <= e < old.len() ==> #[trigger] new[e] == old[e],
        first_edge(old, n, k) is Some,
    ensures
        first_edge(new, n, k) == first_edge(old, n, k),
    decreases new.len(),
{
    if new.len() == old.len() {
        assert(new == old);
    } else {
        lemma_first_edge_stable(old, new.drop_last(), n, k);
    }
}

/// A walk that succeeds keeps reaching the same node in any extension.
proof fn lemma_walk_stable<A, T>(seqs: Seq<Vec<Mapping<A, T>>>, old: Shape, new: Shape, buf: Seq<KeyPress>)
    requires
        edges_closed(old),
        extends(old, new),
        walk(seqs, old, buf) is Some,
    ensures
        walk(seqs, new, buf) == walk(seqs, old, buf),
        walk(seqs, old, buf) matches Some(n) && 0 <= n < old.nodes.len(),
    decreases buf.len(),
{
    if buf.len() > 0 {
        let k = buf.last();
        lemma_walk_stable(seqs, old, new, buf.drop_last());
        let n = walk(seqs, old, buf.drop_last()).unwrap();
        assert(new.nodes[n] == old.nodes[n]);
        if !repeats(seqs, old.nodes[n], k) {
            lemma_first_edge_stable(old.edges, new.edges, n, k);
            lemma_first_edge_bounds(old.edges, n, k);
            let e = first_edge(old.edges, n, k).unwrap();
            assert(new.edges[e] == old.edges[e]);
        }
    }
}

/// What a key selects after a prefix in an earlier trie, it still selects
/// in any trie that extends it.
pub proof fn lemma_resolve_stable<A, T>(seqs: Seq<Vec<Mapping<A, T>>>, old: Shape, new: Shape, buf: Seq<KeyPress>, key: KeyPress)
    requires
        edges_closed(old),
        extends(old, new),
        resolve(seqs, old, buf, key) is Some,
    ensures
        resolve(seqs, new, buf, key) == resolve(seqs, old, buf, key),
{
    lemma_walk_stable(seqs, old, new, buf.push(key));
    let n = walk(seqs, old, buf.push(key)).unwrap();
    assert(new.nodes[n] == old.nodes[n]);
}

} // verus!
