//! The keyboard graph: unique keys as nodes, directed edges labelled with
//! the relative offset between neighbouring keys.
//!
//! The node and edge store is petgraph's `DiGraphMap`. The store keeps plain
//! pairs: a node is `(value, shifted)` and an edge label is the pair of
//! signed axis offsets. What the store holds is named by two uninterpreted
//! spec functions, and each store method the library calls is wrapped in a
//! trusted function whose contract states what petgraph's source shows.

use vstd::prelude::*;
use crate::key::{Key, lookup_spec};
use crate::geometry::{Direction, Edge};

verus! {

/// The petgraph store behind a keyboard graph: directed, node pairs
/// `(value, shifted)`, edge labels `(horizontal, vertical)` axis offsets.
pub type Store = petgraph::graphmap::DiGraphMap<(char, char), (i8, i8)>;

#[verifier::external_type_specification]
#[verifier::external_body]
#[verifier::reject_recursive_types(N)]
#[verifier::reject_recursive_types(E)]
#[verifier::reject_recursive_types(Ty)]
#[verifier::reject_recursive_types(S)]
pub struct ExGraphMap<N, E, Ty, S>(petgraph::graphmap::GraphMap<N, E, Ty, S>) where S: std::hash::BuildHasher;

#[verifier::external_type_specification]
#[verifier::external_body]
pub struct ExDirected(petgraph::Directed);

/// A stored node: a key's unshifted and shifted characters.
pub type NodePair = (char, char);

/// A stored edge label: the signed horizontal and vertical axis offsets.
pub type OffsetPair = (i8, i8);

/// The store's node pairs, in insertion order. `GraphMap` is backed by
/// `IndexMap`, whose iteration order is the order of node insertion.
pub uninterp spec fn store_nodes(g: Store) -> Seq<NodePair>;

/// The store's directed edges: each ordered node pair maps to the edge
/// label it was last written with.
pub uninterp spec fn store_edges(g: Store) -> Map<(NodePair, NodePair), OffsetPair>;

/// A node list after one pair is registered: appended at the end when new,
/// unchanged when already present.
pub open spec fn register_pair(nodes: Seq<NodePair>, p: NodePair) -> Seq<NodePair> {
    if nodes.contains(p) {
        nodes
    } else {
        nodes.push(p)
    }
}

/// The edge map of a store with no edges.
pub open spec fn no_edges() -> Map<(NodePair, NodePair), OffsetPair> {
    Map::empty()
}

/// Relies on `GraphMap::new`: the new store has no nodes and no edges.
#[verifier::external_body]
fn store_new() -> (g: Store)
    ensures
        store_nodes(g) == Seq::<NodePair>::empty(),
        store_edges(g) == no_edges(),
{
    petgraph::graphmap::DiGraphMap::new()
}

/// Relies on `GraphMap::add_node`: the pair joins the node map (at the end
/// of its insertion order) unless already present; edges are untouched.
#[verifier::external_body]
fn store_add_node(g: &mut Store, p: NodePair)
    ensures
        store_nodes(*final(g)) == register_pair(store_nodes(*old(g)), p),
        store_edges(*final(g)) == store_edges(*old(g)),
{
    g.add_node(p);
}

/// Relies on `GraphMap::contains_node`.
#[verifier::external_body]
fn store_contains_node(g: &Store, p: NodePair) -> (r: bool)
    ensures
        r == store_nodes(*g).contains(p),
{
    g.contains_node(p)
}

/// Relies on `GraphMap::add_edge` on a directed graph: the label is written
/// under the ordered pair `(a, b)`, replacing any earlier label, and each
/// endpoint joins the node map if not already present, `a` first. (When the
/// edge already existed both endpoints are already nodes, so registering
/// them again changes nothing.)
#[verifier::external_body]
fn store_add_edge(g: &mut Store, a: NodePair, b: NodePair, w: OffsetPair)
    ensures
        store_edges(*final(g)) == store_edges(*old(g)).insert((a, b), w),
        store_nodes(*final(g)) == register_pair(register_pair(store_nodes(*old(g)), a), b),
{
    g.add_edge(a, b, w);
}

/// Relies on `GraphMap::edge_weight` on a directed graph: the label stored
/// under the ordered pair `(a, b)`, if that edge exists.
#[verifier::external_body]
fn store_edge_weight(g: &Store, a: NodePair, b: NodePair) -> (r: Option<OffsetPair>)
    ensures
        r == (if store_edges(*g).contains_key((a, b)) {
            Some(store_edges(*g)[(a, b)])
        } else {
            None::<OffsetPair>
        }),
{
    g.edge_weight(a, b).copied()
}

/// Relies on `GraphMap::nodes`: the nodes come out in insertion order.
#[verifier::external_body]
fn store_node_list(g: &Store) -> (r: Vec<NodePair>)
    ensures
        r@ == store_nodes(*g),
{
    g.nodes().collect()
}

/// The key a stored node pair stands for.
pub open spec fn key_of_pair(p: (char, char)) -> Key {
    Key { value: p.0, shifted: p.1 }
}

/// The stored form of a key.
pub open spec fn pair_of_key(k: Key) -> (char, char) {
    (k.value, k.shifted)
}

/// The direction a stored axis offset stands for.
pub open spec fn dir_of_code(x: i8) -> Direction {
    if x == -1 {
        Direction::Previous
    } else if x == 1 {
        Direction::Next
    } else {
        Direction::Same
    }
}

/// The stored form of a direction.
pub open spec fn code_of_dir(d: Direction) -> i8 {
    match d {
        Direction::Previous => -1i8,
        Direction::Next => 1i8,
        Direction::Same => 0i8,
    }
}

/// The edge label a stored offset pair stands for.
pub open spec fn edge_of_code(c: (i8, i8)) -> Edge {
    Edge { horizontal: dir_of_code(c.0), vertical: dir_of_code(c.1) }
}

/// The stored form of a direction, computed.
fn encode_dir(d: Direction) -> (r: i8)
    ensures
        r == code_of_dir(d),
{
    match d {
        Direction::Previous => -1,
        Direction::Next => 1,
        Direction::Same => 0,
    }
}

/// The direction a stored axis offset stands for, computed.
fn decode_dir(x: i8) -> (r: Direction)
    ensures
        r == dir_of_code(x),
{
    if x == -1 {
        Direction::Previous
    } else if x == 1 {
        Direction::Next
    } else {
        Direction::Same
    }
}

/// A directed graph of keyboard keys. Nodes are unique keys; each directed
/// edge carries the relative offset from its source key to its target key.
pub struct KeyGraph {
    store: Store,
}

impl KeyGraph {
    /// The graph's keys, in insertion order.
    pub closed spec fn node_seq(&self) -> Seq<Key> {
        store_nodes(self.store).map_values(|p: (char, char)| key_of_pair(p))
    }

    /// The graph's directed edges: each ordered key pair maps to its offset
    /// label.
    pub closed spec fn edge_map(&self) -> Map<(Key, Key), Edge> {
        Map::new(
            |ab: (Key, Key)|
                store_edges(self.store).contains_key(
                    (pair_of_key(ab.0), pair_of_key(ab.1)),
                ),
            |ab: (Key, Key)|
                edge_of_code(store_edges(self.store)[(pair_of_key(ab.0), pair_of_key(ab.1))]),
        )
    }

    /// A fresh graph with no keys and no edges.
    pub fn new() -> (g: KeyGraph)
        ensures
            g.node_seq() == Seq::<Key>::empty(),
            g.edge_map() == Map::<(Key, Key), Edge>::empty(),
    {
        let g = KeyGraph { store: store_new() };
        proof {
            assert(g.node_seq() =~= Seq::<Key>::empty());
            assert(g.edge_map() =~= Map::<(Key, Key), Edge>::empty());
        }
        g
    }

    /// Adds a key as a node: appended in insertion order when new, a no-op
    /// when the same key is already present. Edges are untouched.
    pub fn add_node(&mut self, k: Key)
        ensures
            final(self).node_seq() == (if old(self).node_seq().contains(k) {
                old(self).node_seq()
            } else {
                old(self).node_seq().push(k)
            }),
            final(self).edge_map() == old(self).edge_map(),
    {
        proof {
            lemma_pair_view_contains(store_nodes(self.store), pair_of_key(k));
        }
        let ghost pre = *self;
        store_add_node(&mut self.store, (k.value, k.shifted));
        proof {
            if !pre.node_seq().contains(k) {
                assert(self.node_seq() =~= pre.node_seq().push(k));
            } else {
                assert(self.node_seq() =~= pre.node_seq());
            }
            lemma_same_store_edges(pre, *self);
        }
    }

    /// Whether the exact key is a node of the graph.
    pub fn contains_node(&self, k: Key) -> (r: bool)
        ensures
            r == self.node_seq().contains(k),
    {
        proof {
            lemma_pair_view_contains(store_nodes(self.store), pair_of_key(k));
        }
        store_contains_node(&self.store, (k.value, k.shifted))
    }

    /// Adds a directed edge from `a` to `b` labelled `e`, replacing any
    /// earlier label on that ordered pair. Either endpoint that is not a
    /// node yet joins the graph, `a` first.
    pub fn add_edge(&mut self, a: Key, b: Key, e: Edge)
        ensures
            final(self).edge_map() == old(self).edge_map().insert((a, b), e),
            final(self).node_seq() == register_key(register_key(old(self).node_seq(), a), b),
    {
        proof {
            lemma_pair_view_contains(store_nodes(self.store), pair_of_key(a));
            lemma_pair_view_contains(register_pair(store_nodes(self.store), pair_of_key(a)),
                pair_of_key(b));
        }
        let ghost pre = *self;
        store_add_edge(
            &mut self.store,
            (a.value, a.shifted),
            (b.value, b.shifted),
            (encode_dir(e.horizontal), encode_dir(e.vertical)),
        );
        proof {
            assert(register_pair(store_nodes(pre.store), pair_of_key(a)).map_values(
                |p: (char, char)| key_of_pair(p),
            ) =~= register_key(pre.node_seq(), a));
            assert(self.node_seq() =~= register_key(register_key(pre.node_seq(), a), b));
            assert forall|ab: (Key, Key)|
                #[trigger] self.edge_map().contains_key(ab)
                    == pre.edge_map().insert((a, b), e).contains_key(ab) by {
                if ab.0.value == a.value && ab.0.shifted == a.shifted && ab.1.value == b.value
                    && ab.1.shifted == b.shifted {
                    assert(ab == (a, b));
                }
            }
            assert(self.edge_map() =~= pre.edge_map().insert((a, b), e));
        }
    }

    /// The label on the directed edge from `a` to `b`, if that edge exists.
    pub fn edge_weight(&self, a: Key, b: Key) -> (r: Option<Edge>)
        ensures
            r == (if self.edge_map().contains_key((a, b)) {
                Some(self.edge_map()[(a, b)])
            } else {
                None::<Edge>
            }),
    {
        match store_edge_weight(&self.store, (a.value, a.shifted), (b.value, b.shifted)) {
            Some(c) => Some(Edge { horizontal: decode_dir(c.0), vertical: decode_dir(c.1) }),
            None => None,
        }
    }

    /// All keys of the graph, in insertion order.
    pub fn nodes(&self) -> (r: Vec<Key>)
        ensures
            r@ == self.node_seq(),
    {
        let pairs = store_node_list(&self.store);
        let mut r: Vec<Key> = Vec::new();
        let mut i: usize = 0;
        while i < pairs.len()
            invariant
                i <= pairs.len(),
                pairs@ == store_nodes(self.store),
                r@ == store_nodes(self.store).take(i as int).map_values(
                    |p: (char, char)| key_of_pair(p),
                ),
            decreases pairs.len() - i,
        {
            let p = pairs[i];
            r.push(Key { value: p.0, shifted: p.1 });
            proof {
                let f = |q: (char, char)| key_of_pair(q);
                let sn = store_nodes(self.store);
                assert(sn.take(i + 1) =~= sn.take(i as int).push(p));
                assert(sn.take(i as int).push(p).map_values(f) =~= sn.take(
                    i as int,
                ).map_values(f).push(key_of_pair(p)));
                assert(r@ =~= sn.take(i + 1).map_values(|p: (char, char)| key_of_pair(p)));
            }
            i = i + 1;
        }
        proof {
            assert(store_nodes(self.store).take(pairs@.len() as int) =~= store_nodes(
                self.store,
            ));
        }
        r
    }
}

/// A key list after one key is registered: appended at the end when new,
/// unchanged when already present.
pub open spec fn register_key(nodes: Seq<Key>, k: Key) -> Seq<Key> {
    if nodes.contains(k) {
        nodes
    } else {
        nodes.push(k)
    }
}

/// A registered key is in the list afterwards.
pub proof fn lemma_register_has(nodes: Seq<Key>, k: Key)
    ensures
        register_key(nodes, k).contains(k),
{
    if !nodes.contains(k) {
        assert(register_key(nodes, k)[nodes.len() as int] == k);
    }
}

/// Registering one key keeps every key that was already in the list.
pub proof fn lemma_register_keeps(nodes: Seq<Key>, k: Key, x: Key)
    requires
        nodes.contains(x),
    ensures
        register_key(nodes, k).contains(x),
{
    let m = choose|m: int| 0 <= m < nodes.len() && nodes[m] == x;
    assert(register_key(nodes, k)[m] == x);
}

/// A pair is stored exactly when the key it stands for is in the graph's
/// key view.
proof fn lemma_pair_view_contains(pairs: Seq<(char, char)>, p: (char, char))
    ensures
        pairs.contains(p) == pairs.map_values(|q: (char, char)| key_of_pair(q)).contains(
            key_of_pair(p),
        ),
{
    let mapped = pairs.map_values(|q: (char, char)| key_of_pair(q));
    if pairs.contains(p) {
        let m = choose|m: int| 0 <= m < pairs.len() && pairs[m] == p;
        assert(mapped[m] == key_of_pair(p));
    }
    if mapped.contains(key_of_pair(p)) {
        let m = choose|m: int| 0 <= m < mapped.len() && mapped[m] == key_of_pair(p);
        assert(key_of_pair(pairs[m]) == key_of_pair(p));
        assert(pairs[m] == p);
    }
}

/// Two graphs over one edge store have one edge view.
proof fn lemma_same_store_edges(g1: KeyGraph, g2: KeyGraph)
    requires
        store_edges(g1.store) == store_edges(g2.store),
    ensures
        g1.edge_map() == g2.edge_map(),
{
    assert(g1.edge_map() =~= g2.edge_map());
}

/// Finds a key given a single character from it. Useful when the keyboard's
/// locale is unknown: numbers and symbols move between layouts, so callers
/// search by the printed character without knowing whether it is the base or
/// the shifted form.
pub trait KeySearch {
    /// The keys the lookup runs over, in iteration order.
    spec fn search_seq(&self) -> Seq<Key>;

    /// Returns the first key whose value or shifted character is `v`, or
    /// `None` when no key matches or `v` is the sentinel itself.
    fn find_key(&self, v: char) -> (r: Option<Key>)
        ensures
            r == lookup_spec(self.search_seq(), v),
    ;
}

impl KeySearch for KeyGraph {
    open spec fn search_seq(&self) -> Seq<Key> {
        self.node_seq()
    }

    fn find_key(&self, v: char) -> (r: Option<Key>) {
        if v == '\0' {
            return None;
        }
        let nodes = self.nodes();
        let ghost all = self.node_seq();
        let mut i: usize = 0;
        proof {
            assert(all.skip(0) =~= all);
        }
        while i < nodes.len()
            invariant
                i <= nodes.len(),
                nodes@ == all,
                all == self.node_seq(),
                v != '\0',
                crate::key::first_match(all, v) == crate::key::first_match(
                    all.skip(i as int),
                    v,
                ),
            decreases nodes.len() - i,
        {
            let k = nodes[i];
            if k.value == v || k.shifted == v {
                proof {
                    assert(all.skip(i as int)[0] == k);
                    assert(crate::key::first_match(all.skip(i as int), v) == Some(k));
                    assert(lookup_spec(all, v) == Some(k));
                }
                return Some(k);
            }
            proof {
                assert(all.skip(i as int)[0] == k);
                assert(all.skip(i as int).skip(1) =~= all.skip(i + 1));
            }
            i = i + 1;
        }
        proof {
            assert(all.skip(nodes@.len() as int) =~= Seq::<Key>::empty());
        }
        None
    }
}

} // verus!
