//! The graph connector: for every key placed in the grid and every offset of
//! the applicable geometry, locates the neighbouring grid cell and adds a
//! directed edge labelled with that offset. There are no fatal errors here:
//! out-of-range cells and unresolvable characters are silently skipped (or
//! synthesized, under the auto-create policy).

use vstd::prelude::*;
use crate::key::{Key, lookup_spec, resolve_spec, lemma_first_match_in, lemma_resolve_stable};
use crate::geometry::{
    Direction, Edge, KeyboardStyle, style_offsets, get_slanted_positions, get_aligned_positions,
};
use crate::grammar::{grid_of, parse_rows};
use crate::graph::{KeyGraph, register_key};
use crate::KeySearch;

verus! {

/// One application of the connection rule: starting from the in-bounds cell
/// `(i, j)`, the offset `e` lands on an in-bounds cell of the (possibly
/// ragged) grid, and both cells' characters resolve — the source to `a`, the
/// target to `b`. `nodes0` are the graph's keys before connection ran.
pub open spec fn grid_step(
    grid: Seq<Seq<char>>,
    nodes0: Seq<Key>,
    add_missing: bool,
    i: int,
    j: int,
    e: Edge,
    a: Key,
    b: Key,
) -> bool {
    &&& 0 <= i < grid.len()
    &&& 0 <= j < grid[i].len()
    &&& 0 <= i + e.vertical.offset() < grid.len()
    &&& 0 <= j + e.horizontal.offset()
    &&& j + e.horizontal.offset() < grid[i + e.vertical.offset()].len()
    &&& resolve_spec(nodes0, grid[i][j], add_missing) == Some(a)
    &&& resolve_spec(
        nodes0,
        grid[i + e.vertical.offset()][j + e.horizontal.offset()],
        add_missing,
    ) == Some(b)
}

/// Soundness of a connected edge map: every edge either survives from the
/// map the connector started with, or carries an offset of the geometry and
/// was discovered from some grid cell.
pub open spec fn edges_within(
    grid: Seq<Seq<char>>,
    nodes0: Seq<Key>,
    offs: Seq<Edge>,
    add_missing: bool,
    edges0: Map<(Key, Key), Edge>,
    edges: Map<(Key, Key), Edge>,
) -> bool {
    forall|a: Key, b: Key| #[trigger] edges.contains_key((a, b)) ==> {
        ||| (edges0.contains_key((a, b)) && edges[(a, b)] == edges0[(a, b)])
        ||| (offs.contains(edges[(a, b)]) && exists|i: int, j: int|
            grid_step(grid, nodes0, add_missing, i, j, edges[(a, b)], a, b))
    }
}

/// Completeness of a connected edge map: every application of the
/// connection rule left its edge in the map.
pub open spec fn edges_cover(
    grid: Seq<Seq<char>>,
    nodes0: Seq<Key>,
    offs: Seq<Edge>,
    add_missing: bool,
    edges: Map<(Key, Key), Edge>,
) -> bool {
    forall|i: int, j: int, n: int, a: Key, b: Key|
        0 <= n < offs.len() && #[trigger] grid_step(grid, nodes0, add_missing, i, j, offs[n], a, b)
            ==> edges.contains_key((a, b))
}

/// Whether some cell of the grid holds the character.
pub open spec fn grid_holds(grid: Seq<Seq<char>>, c: char) -> bool {
    exists|i: int, j: int|
        0 <= i < grid.len() && 0 <= j < grid[i].len() && #[trigger] grid[i][j] == c
}

/// How the node list may grow during connection: the earlier keys keep
/// their places, and everything appended is an auto-created key for a grid
/// character that was unregistered before connection started; no key is
/// appended twice.
pub open spec fn nodes_extended(
    nodes0: Seq<Key>,
    grid: Seq<Seq<char>>,
    add_missing: bool,
    nodes: Seq<Key>,
) -> bool {
    &&& nodes0.is_prefix_of(nodes)
    &&& (nodes.len() > nodes0.len() ==> add_missing)
    &&& forall|m: int| nodes0.len() <= m < nodes.len() ==> {
        let k = #[trigger] nodes[m];
        &&& k.shifted == '\0'
        &&& k.value != '\0'
        &&& lookup_spec(nodes0, k.value) is None
        &&& grid_holds(grid, k.value)
    }
    &&& (forall|m1: int, m2: int|
        nodes0.len() <= m1 < m2 < nodes.len() ==> #[trigger] nodes[m1] != #[trigger] nodes[m2])
}

/// Every edge that connection added runs between keys that are nodes of the
/// graph: only edges that predate connection may dangle.
pub open spec fn edge_endpoints_in(
    edges0: Map<(Key, Key), Edge>,
    edges: Map<(Key, Key), Edge>,
    nodes: Seq<Key>,
) -> bool {
    forall|ab: (Key, Key)| #[trigger] edges.contains_key(ab) ==> {
        ||| edges0.contains_key(ab)
        ||| (nodes.contains(ab.0) && nodes.contains(ab.1))
    }
}

/// Coverage of every cell strictly above row `i`.
spec fn cover_upto_row(
    grid: Seq<Seq<char>>,
    nodes0: Seq<Key>,
    offs: Seq<Edge>,
    add_missing: bool,
    edges: Map<(Key, Key), Edge>,
    i: int,
) -> bool {
    forall|i2: int, j2: int, n2: int, a: Key, b: Key|
        0 <= n2 < offs.len() && i2 < i && #[trigger] grid_step(
            grid,
            nodes0,
            add_missing,
            i2,
            j2,
            offs[n2],
            a,
            b,
        ) ==> edges.contains_key((a, b))
}

/// Coverage of every cell of row `i` strictly left of column `j`.
spec fn cover_upto_col(
    grid: Seq<Seq<char>>,
    nodes0: Seq<Key>,
    offs: Seq<Edge>,
    add_missing: bool,
    edges: Map<(Key, Key), Edge>,
    i: int,
    j: int,
) -> bool {
    forall|j2: int, n2: int, a: Key, b: Key|
        0 <= n2 < offs.len() && j2 < j && #[trigger] grid_step(
            grid,
            nodes0,
            add_missing,
            i,
            j2,
            offs[n2],
            a,
            b,
        ) ==> edges.contains_key((a, b))
}

/// Coverage of the first `n` offsets at cell `(i, j)`.
spec fn cover_upto_off(
    grid: Seq<Seq<char>>,
    nodes0: Seq<Key>,
    offs: Seq<Edge>,
    add_missing: bool,
    edges: Map<(Key, Key), Edge>,
    i: int,
    j: int,
    n: int,
) -> bool {
    forall|n2: int, a: Key, b: Key|
        0 <= n2 < n && #[trigger] grid_step(grid, nodes0, add_missing, i, j, offs[n2], a, b)
            ==> edges.contains_key((a, b))
}

/// Registering a key that some grid character resolves to keeps the node
/// list within the shape connection allows.
proof fn lemma_register_resolved(
    nodes0: Seq<Key>,
    grid: Seq<Seq<char>>,
    add_missing: bool,
    nodes: Seq<Key>,
    c: char,
    k: Key,
)
    requires
        nodes_extended(nodes0, grid, add_missing, nodes),
        resolve_spec(nodes0, c, add_missing) == Some(k),
        grid_holds(grid, c),
    ensures
        nodes_extended(nodes0, grid, add_missing, register_key(nodes, k)),
{
    if !nodes.contains(k) {
        let grown = nodes.push(k);
        assert(nodes0.is_prefix_of(grown)) by {
            assert(grown.take(nodes0.len() as int) =~= nodes.take(nodes0.len() as int));
        }
        if lookup_spec(nodes0, c) is Some {
            lemma_first_match_in(nodes0, c);
            assert(nodes0.contains(k));
            let m = choose|m: int| 0 <= m < nodes0.len() && nodes0[m] == k;
            assert(nodes.take(nodes0.len() as int)[m] == k);
            assert(nodes[m] == k);
            assert(false);
        }
        assert(k == Key { value: c, shifted: '\0' });
        assert(forall|m: int| nodes0.len() <= m < grown.len() ==> {
            let q = #[trigger] grown[m];
            q.shifted == '\0' && q.value != '\0' && lookup_spec(nodes0, q.value) is None
                && grid_holds(grid, q.value)
        });
        assert forall|m1: int, m2: int|
            nodes0.len() <= m1 < m2 < grown.len() implies #[trigger] grown[m1] != #[trigger] grown[m2] by {
            if m2 == nodes.len() {
                if nodes[m1] == k {
                    assert(nodes.contains(k));
                }
            }
        }
    }
}

/// A larger edge map keeps row coverage.
proof fn lemma_cover_row_mono(
    grid: Seq<Seq<char>>,
    nodes0: Seq<Key>,
    offs: Seq<Edge>,
    add_missing: bool,
    em1: Map<(Key, Key), Edge>,
    em2: Map<(Key, Key), Edge>,
    i: int,
)
    requires
        cover_upto_row(grid, nodes0, offs, add_missing, em1, i),
        forall|ab: (Key, Key)| em1.contains_key(ab) ==> em2.contains_key(ab),
    ensures
        cover_upto_row(grid, nodes0, offs, add_missing, em2, i),
{
    assert forall|i2: int, j2: int, n2: int, a: Key, b: Key|
        0 <= n2 < offs.len() && i2 < i && #[trigger] grid_step(
            grid,
            nodes0,
            add_missing,
            i2,
            j2,
            offs[n2],
            a,
            b,
        ) implies em2.contains_key((a, b)) by {
        assert(em1.contains_key((a, b)));
    }
}

/// A larger edge map keeps column coverage.
proof fn lemma_cover_col_mono(
    grid: Seq<Seq<char>>,
    nodes0: Seq<Key>,
    offs: Seq<Edge>,
    add_missing: bool,
    em1: Map<(Key, Key), Edge>,
    em2: Map<(Key, Key), Edge>,
    i: int,
    j: int,
)
    requires
        cover_upto_col(grid, nodes0, offs, add_missing, em1, i, j),
        forall|ab: (Key, Key)| em1.contains_key(ab) ==> em2.contains_key(ab),
    ensures
        cover_upto_col(grid, nodes0, offs, add_missing, em2, i, j),
{
    assert forall|j2: int, n2: int, a: Key, b: Key|
        0 <= n2 < offs.len() && j2 < j && #[trigger] grid_step(
            grid,
            nodes0,
            add_missing,
            i,
            j2,
            offs[n2],
            a,
            b,
        ) implies em2.contains_key((a, b)) by {
        assert(em1.contains_key((a, b)));
    }
}

/// The in-bounds row index the direction steps to from `base`, if any.
fn step_row(base: usize, d: Direction, bound: usize) -> (r: Option<usize>)
    requires
        base < bound,
    ensures
        (r matches Some(y) ==> 0 <= base + d.offset() < bound && y as int == base + d.offset()),
        (r is None ==> !(0 <= base + d.offset() < bound)),
{
    match d {
        Direction::Previous => if base == 0 {
            None
        } else {
            Some(base - 1)
        },
        Direction::Same => Some(base),
        Direction::Next => if base + 1 < bound {
            Some(base + 1)
        } else {
            None
        },
    }
}

/// The non-negative column index the direction steps to from `base`, if
/// any. The upper bound is the target row's own length, checked by the
/// caller: rows may be ragged.
fn step_col(base: usize, d: Direction) -> (r: Option<usize>)
    requires
        base < usize::MAX,
    ensures
        (r matches Some(x) ==> 0 <= base + d.offset() && x as int == base + d.offset()),
        (r is None ==> base + d.offset() < 0),
{
    match d {
        Direction::Previous => if base == 0 {
            None
        } else {
            Some(base - 1)
        },
        Direction::Same => Some(base),
        Direction::Next => Some(base + 1),
    }
}

/// What a character resolves to against the graph's current keys: the first
/// matching key; or, under the auto-create policy, a fresh key with no
/// shift mapping when the character is not the sentinel and no key matches.
fn resolve_key(graph: &KeyGraph, c: char, add_missing: bool) -> (r: Option<Key>)
    ensures
        r == resolve_spec(graph.node_seq(), c, add_missing),
{
    match graph.find_key(c) {
        Some(k) => Some(k),
        None => {
            if add_missing && c != '\0' {
                Some(Key { value: c, shifted: '\0' })
            } else {
                None
            }
        },
    }
}

/// Connects the edges between the nodes of a keyboard graph, given the text
/// block describing the keyboard's rows.
///
/// * `keyboard` — text block: line breaks separate rows, spaces delimit
///   characters, and `'\0'` on a row stands for a void area (it keeps its
///   column so that slanted rows line up, but never becomes a key).
/// * `graph` — the graph storing the keyboard's keys.
/// * `style` — physical alignment of the keys, which picks the offset set.
/// * `add_missing_keys` — whether unregistered characters are auto-created
///   as new keys or silently ignored.
///
/// Afterwards the edge map is exactly the connection rule's: it covers
/// every in-bounds, resolving neighbour pair (`edges_cover`), and nothing
/// else beyond what it started with (`edges_within`); every added edge
/// runs between nodes of the graph (`edge_endpoints_in`). Verification
/// also shows the function total on every text block: no panic, no
/// out-of-bounds read and no overflow, however ragged the rows — a cell
/// beyond a row's length simply yields no neighbour there.
#[verifier::loop_isolation(false)]
pub fn connect_keyboard_nodes(
    keyboard: &str,
    graph: &mut KeyGraph,
    style: KeyboardStyle,
    add_missing_keys: bool,
)
    ensures
        ({
            let grid = grid_of(keyboard@);
            let nodes0 = old(graph).node_seq();
            let offs = style_offsets(style);
            &&& nodes_extended(nodes0, grid, add_missing_keys, final(graph).node_seq())
            &&& (!add_missing_keys ==> final(graph).node_seq() == nodes0)
            &&& edges_within(
                grid,
                nodes0,
                offs,
                add_missing_keys,
                old(graph).edge_map(),
                final(graph).edge_map(),
            )
            &&& edges_cover(grid, nodes0, offs, add_missing_keys, final(graph).edge_map())
            &&& edge_endpoints_in(
                old(graph).edge_map(),
                final(graph).edge_map(),
                final(graph).node_seq(),
            )
            &&& (forall|ab: (Key, Key)|
                old(graph).edge_map().contains_key(ab)
                    ==> final(graph).edge_map().contains_key(ab))
        }),
{
    let ghost nodes0 = graph.node_seq();
    let ghost edges0 = graph.edge_map();
    let ghost offs = style_offsets(style);
    let positions: Vec<Edge> = match style {
        KeyboardStyle::Slanted => get_slanted_positions(),
        KeyboardStyle::Aligned => get_aligned_positions(),
    };
    let rows: Vec<Vec<char>> = parse_rows(keyboard);
    let ghost grid = grid_of(keyboard@);
    let rowcount = rows.len();
    let mut i: usize = 0;
    while i < rowcount
        invariant
            i <= rowcount,
            nodes_extended(nodes0, grid, add_missing_keys, graph.node_seq()),
            edges_within(grid, nodes0, offs, add_missing_keys, edges0, graph.edge_map()),
            cover_upto_row(grid, nodes0, offs, add_missing_keys, graph.edge_map(), i as int),
            edge_endpoints_in(edges0, graph.edge_map(), graph.node_seq()),
            forall|ab: (Key, Key)|
                edges0.contains_key(ab) ==> graph.edge_map().contains_key(ab),
        decreases rowcount - i,
    {
        let row_len = rows[i].len();
        assert(row_len == grid[i as int].len());
        let mut j: usize = 0;
        while j < row_len
            invariant
                j <= row_len,
                i < rowcount,
                nodes_extended(nodes0, grid, add_missing_keys, graph.node_seq()),
                edges_within(grid, nodes0, offs, add_missing_keys, edges0, graph.edge_map()),
                cover_upto_row(grid, nodes0, offs, add_missing_keys, graph.edge_map(), i as int),
                cover_upto_col(
                    grid,
                    nodes0,
                    offs,
                    add_missing_keys,
                    graph.edge_map(),
                    i as int,
                    j as int,
                ),
                edge_endpoints_in(edges0, graph.edge_map(), graph.node_seq()),
                forall|ab: (Key, Key)|
                    edges0.contains_key(ab) ==> graph.edge_map().contains_key(ab),
            decreases row_len - j,
        {
            let c = rows[i][j];
            assert(c == grid[i as int][j as int]);
            proof {
                lemma_resolve_stable(nodes0, graph.node_seq(), c, add_missing_keys);
            }
            let source = resolve_key(graph, c, add_missing_keys);
            match source {
                None => {
                    proof {
                        assert forall|j2: int, n2: int, a: Key, b: Key|
                            0 <= n2 < offs.len() && j2 < j + 1 && #[trigger] grid_step(
                                grid,
                                nodes0,
                                add_missing_keys,
                                i as int,
                                j2,
                                offs[n2],
                                a,
                                b,
                            ) implies graph.edge_map().contains_key((a, b)) by {
                            if j2 == j as int {
                                assert(resolve_spec(nodes0, grid[i as int][j2], add_missing_keys)
                                    is None);
                            }
                        }
                    }
                },
                Some(k) => {
                    let mut p: usize = 0;
                    while p < positions.len()
                        invariant
                            p <= positions.len(),
                            i < rowcount,
                            j < row_len,
                            resolve_spec(nodes0, grid[i as int][j as int], add_missing_keys)
                                == Some(k),
                            nodes_extended(nodes0, grid, add_missing_keys, graph.node_seq()),
                            edges_within(
                                grid,
                                nodes0,
                                offs,
                                add_missing_keys,
                                edges0,
                                graph.edge_map(),
                            ),
                            cover_upto_row(
                                grid,
                                nodes0,
                                offs,
                                add_missing_keys,
                                graph.edge_map(),
                                i as int,
                            ),
                            cover_upto_col(
                                grid,
                                nodes0,
                                offs,
                                add_missing_keys,
                                graph.edge_map(),
                                i as int,
                                j as int,
                            ),
                            cover_upto_off(
                                grid,
                                nodes0,
                                offs,
                                add_missing_keys,
                                graph.edge_map(),
                                i as int,
                                j as int,
                                p as int,
                            ),
                            edge_endpoints_in(edges0, graph.edge_map(), graph.node_seq()),
                            forall|ab: (Key, Key)|
                                edges0.contains_key(ab) ==> graph.edge_map().contains_key(ab),
                        decreases positions.len() - p,
                    {
                        let d = positions[p];
                        assert(d == offs[p as int]);
                        let ghost dv = d.vertical.offset();
                        let ghost dh = d.horizontal.offset();
                        let ghost em_before = graph.edge_map();
                        match step_row(i, d.vertical, rowcount) {
                            None => {
                                proof {
                                    assert(!(0 <= i + dv < grid.len()));
                                }
                            },
                            Some(y) => {
                                match step_col(j, d.horizontal) {
                                    None => {
                                        proof {
                                            assert(j + dh < 0);
                                        }
                                    },
                                    Some(x) => {
                                        if x < rows[y].len() {
                                            let tc = rows[y][x];
                                            assert(tc == grid[i + dv][j + dh]);
                                            proof {
                                                lemma_resolve_stable(
                                                    nodes0,
                                                    graph.node_seq(),
                                                    tc,
                                                    add_missing_keys,
                                                );
                                            }
                                            match resolve_key(graph, tc, add_missing_keys) {
                                                None => {
                                                    proof {
                                                        assert(resolve_spec(
                                                            nodes0,
                                                            grid[i + dv][j + dh],
                                                            add_missing_keys,
                                                        ) is None);
                                                    }
                                                },
                                                Some(nk) => {
                                                    let ghost ns_before = graph.node_seq();
                                                    proof {
                                                        lemma_register_resolved(
                                                            nodes0,
                                                            grid,
                                                            add_missing_keys,
                                                            graph.node_seq(),
                                                            grid[i as int][j as int],
                                                            k,
                                                        );
                                                        lemma_register_resolved(
                                                            nodes0,
                                                            grid,
                                                            add_missing_keys,
                                                            register_key(graph.node_seq(), k),
                                                            grid[i + dv][j + dh],
                                                            nk,
                                                        );
                                                    }
                                                    graph.add_edge(k, nk, d);
                                                    proof {
                                                        assert(grid_step(
                                                            grid,
                                                            nodes0,
                                                            add_missing_keys,
                                                            i as int,
                                                            j as int,
                                                            d,
                                                            k,
                                                            nk,
                                                        ));
                                                        assert(offs.contains(d)) by {
                                                            assert(offs[p as int] == d);
                                                        }
                                                        assert forall|a: Key, b: Key| #[trigger]
                                                            graph.edge_map().contains_key(
                                                                (a, b),
                                                            ) implies {
                                                            ||| (edges0.contains_key((a, b))
                                                                && graph.edge_map()[(a, b)]
                                                                == edges0[(a, b)])
                                                            ||| (offs.contains(
                                                                graph.edge_map()[(a, b)],
                                                            ) && exists|i2: int, j2: int|
                                                                grid_step(
                                                                    grid,
                                                                    nodes0,
                                                                    add_missing_keys,
                                                                    i2,
                                                                    j2,
                                                                    graph.edge_map()[(a, b)],
                                                                    a,
                                                                    b,
                                                                ))
                                                        } by {
                                                            if a == k && b == nk {
                                                                assert(graph.edge_map()[(k, nk)]
                                                                    == d);
                                                                assert(grid_step(
                                                                    grid,
                                                                    nodes0,
                                                                    add_missing_keys,
                                                                    i as int,
                                                                    j as int,
                                                                    graph.edge_map()[(k, nk)],
                                                                    k,
                                                                    nk,
                                                                ));
                                                            } else {
                                                                assert((a, b) != (k, nk));
                                                                assert(em_before.contains_key(
                                                                    (a, b),
                                                                ));
                                                                assert(graph.edge_map()[(a, b)]
                                                                    == em_before[(a, b)]);
                                                            }
                                                        }
                                                        assert forall|ab: (Key, Key)|
                                                            edges0.contains_key(
                                                                ab,
                                                            ) implies graph.edge_map().contains_key(
                                                            ab,
                                                        ) by {
                                                            assert(em_before.contains_key(ab));
                                                        }
                                                        crate::graph::lemma_register_has(
                                                            ns_before,
                                                            k,
                                                        );
                                                        crate::graph::lemma_register_keeps(
                                                            register_key(ns_before, k),
                                                            nk,
                                                            k,
                                                        );
                                                        crate::graph::lemma_register_has(
                                                            register_key(ns_before, k),
                                                            nk,
                                                        );
                                                        assert forall|ab: (Key, Key)| #[trigger]
                                                            graph.edge_map().contains_key(
                                                                ab,
                                                            ) implies {
                                                            ||| edges0.contains_key(ab)
                                                            ||| (graph.node_seq().contains(ab.0)
                                                                && graph.node_seq().contains(
                                                                ab.1,
                                                            ))
                                                        } by {
                                                            if ab == (k, nk) {
                                                            } else {
                                                                assert(em_before.contains_key(
                                                                    ab,
                                                                ));
                                                                if !edges0.contains_key(ab) {
                                                                    crate::graph::lemma_register_keeps(
                                                                        ns_before,
                                                                        k,
                                                                        ab.0,
                                                                    );
                                                                    crate::graph::lemma_register_keeps(
                                                                        register_key(ns_before, k),
                                                                        nk,
                                                                        ab.0,
                                                                    );
                                                                    crate::graph::lemma_register_keeps(
                                                                        ns_before,
                                                                        k,
                                                                        ab.1,
                                                                    );
                                                                    crate::graph::lemma_register_keeps(
                                                                        register_key(ns_before, k),
                                                                        nk,
                                                                        ab.1,
                                                                    );
                                                                }
                                                            }
                                                        }
                                                    }
                                                },
                                            }
                                        } else {
                                            proof {
                                                assert(rows@[y as int]@.len() == grid[i
                                                    + dv].len());
                                            }
                                        }
                                    },
                                }
                            },
                        }
                        proof {
                            lemma_cover_row_mono(
                                grid,
                                nodes0,
                                offs,
                                add_missing_keys,
                                em_before,
                                graph.edge_map(),
                                i as int,
                            );
                            lemma_cover_col_mono(
                                grid,
                                nodes0,
                                offs,
                                add_missing_keys,
                                em_before,
                                graph.edge_map(),
                                i as int,
                                j as int,
                            );
                            assert forall|n2: int, a: Key, b: Key|
                                0 <= n2 < p + 1 && #[trigger] grid_step(
                                    grid,
                                    nodes0,
                                    add_missing_keys,
                                    i as int,
                                    j as int,
                                    offs[n2],
                                    a,
                                    b,
                                ) implies graph.edge_map().contains_key((a, b)) by {
                                if n2 == p as int {
                                    assert(offs[n2] == d);
                                    assert(resolve_spec(
                                        nodes0,
                                        grid[i as int][j as int],
                                        add_missing_keys,
                                    ) == Some(a));
                                    assert(a == k);
                                } else {
                                    assert(em_before.contains_key((a, b)));
                                }
                            }
                        }
                        p = p + 1;
                    }
                    proof {
                        assert forall|j2: int, n2: int, a: Key, b: Key|
                            0 <= n2 < offs.len() && j2 < j + 1 && #[trigger] grid_step(
                                grid,
                                nodes0,
                                add_missing_keys,
                                i as int,
                                j2,
                                offs[n2],
                                a,
                                b,
                            ) implies graph.edge_map().contains_key((a, b)) by {}
                    }
                },
            }
            j = j + 1;
        }
        proof {
            assert forall|i2: int, j2: int, n2: int, a: Key, b: Key|
                0 <= n2 < offs.len() && i2 < i + 1 && #[trigger] grid_step(
                    grid,
                    nodes0,
                    add_missing_keys,
                    i2,
                    j2,
                    offs[n2],
                    a,
                    b,
                ) implies graph.edge_map().contains_key((a, b)) by {}
        }
        i = i + 1;
    }
    proof {
        if !add_missing_keys {
            assert(graph.node_seq() =~= nodes0);
        }
        assert forall|i2: int, j2: int, n2: int, a: Key, b: Key|
            0 <= n2 < offs.len() && #[trigger] grid_step(
                grid,
                nodes0,
                add_missing_keys,
                i2,
                j2,
                offs[n2],
                a,
                b,
            ) implies graph.edge_map().contains_key((a, b)) by {}
    }
}

} // verus!
