//! Graph-level laws of the connection algorithm: reciprocal edges, absence
//! of self-loops, and guaranteed lookup of pre-registered keys.

use vstd::prelude::*;
use crate::key::{
    Key, key_matches, lookup_spec, resolve_spec, values_unique, lemma_first_match_found,
    lemma_first_match_extended,
};
use crate::geometry::{Direction, Edge, offsets_symmetric, offsets_no_self};
use crate::connector::{grid_step, edges_within, edges_cover, nodes_extended, edge_endpoints_in};
use crate::layouts::{
    letter_key, letter_keys, digit_key, digit_keys, punctuation_keys, alpha_layout_nodes,
    keys_registered, lemma_keys_registered_contains, lemma_keys_registered_fresh,
};

verus! {

/// The resolution of the cell `(i, j)` of the grid.
pub open spec fn resolve_at(
    grid: Seq<Seq<char>>,
    nodes0: Seq<Key>,
    add_missing: bool,
    i: int,
    j: int,
) -> Option<Key> {
    resolve_spec(nodes0, grid[i][j], add_missing)
}

/// A grid is unambiguous when no two distinct cells resolve to the same
/// key: each key then has exactly one place on the keyboard.
pub open spec fn grid_unambiguous(
    grid: Seq<Seq<char>>,
    nodes0: Seq<Key>,
    add_missing: bool,
) -> bool {
    forall|i1: int, j1: int, i2: int, j2: int|
        0 <= i1 < grid.len() && 0 <= j1 < grid[i1].len() && 0 <= i2 < grid.len() && 0 <= j2
            < grid[i2].len() && (i1 != i2 || j1 != j2) && #[trigger] resolve_at(
            grid,
            nodes0,
            add_missing,
            i1,
            j1,
        ) is Some && #[trigger] resolve_at(grid, nodes0, add_missing, i2, j2) is Some
            ==> resolve_at(grid, nodes0, add_missing, i1, j1) != resolve_at(
            grid,
            nodes0,
            add_missing,
            i2,
            j2,
        )
}

/// LAW (geometry symmetry): in a graph whose edges all come from connecting
/// a grid over a symmetric offset set, every edge `A -> B` has a reciprocal
/// edge `B -> A`. The reciprocal is discovered from the neighbour's own
/// cell, never added explicitly.
pub proof fn lemma_edge_symmetry(
    grid: Seq<Seq<char>>,
    nodes0: Seq<Key>,
    offs: Seq<Edge>,
    add_missing: bool,
    edges: Map<(Key, Key), Edge>,
    a: Key,
    b: Key,
)
    requires
        offsets_symmetric(offs),
        edges_within(grid, nodes0, offs, add_missing, Map::<(Key, Key), Edge>::empty(), edges),
        edges_cover(grid, nodes0, offs, add_missing, edges),
        edges.contains_key((a, b)),
    ensures
        edges.contains_key((b, a)),
{
    let d = edges[(a, b)];
    assert(offs.contains(d) && exists|i: int, j: int|
        grid_step(grid, nodes0, add_missing, i, j, d, a, b));
    let (i, j): (int, int) = choose|i: int, j: int|
        grid_step(grid, nodes0, add_missing, i, j, d, a, b);
    let r = d.reciprocal();
    let i2 = i + d.vertical.offset();
    let j2 = j + d.horizontal.offset();
    assert(r.vertical.offset() == -d.vertical.offset());
    assert(r.horizontal.offset() == -d.horizontal.offset());
    assert(grid_step(grid, nodes0, add_missing, i2, j2, r, b, a));
    let n = choose|n: int| 0 <= n < offs.len() && offs[n] == d;
    assert(offs.contains(offs[n].reciprocal()));
    let n2 = choose|n2: int| 0 <= n2 < offs.len() && offs[n2] == r;
    assert(grid_step(grid, nodes0, add_missing, i2, j2, offs[n2], b, a));
}

/// LAW (geometry symmetry, exact label): over an unambiguous grid the
/// reciprocal edge carries exactly the negated offset: if `A -> B` is
/// labelled `d`, then `B -> A` is labelled `-d`.
pub proof fn lemma_edge_symmetry_exact(
    grid: Seq<Seq<char>>,
    nodes0: Seq<Key>,
    offs: Seq<Edge>,
    add_missing: bool,
    edges: Map<(Key, Key), Edge>,
    a: Key,
    b: Key,
)
    requires
        offsets_symmetric(offs),
        grid_unambiguous(grid, nodes0, add_missing),
        edges_within(grid, nodes0, offs, add_missing, Map::<(Key, Key), Edge>::empty(), edges),
        edges_cover(grid, nodes0, offs, add_missing, edges),
        edges.contains_key((a, b)),
    ensures
        edges.contains_key((b, a)),
        edges[(b, a)] == edges[(a, b)].reciprocal(),
{
    lemma_edge_symmetry(grid, nodes0, offs, add_missing, edges, a, b);
    let d = edges[(a, b)];
    let (i, j): (int, int) = choose|i: int, j: int|
        grid_step(grid, nodes0, add_missing, i, j, d, a, b);
    let i2 = i + d.vertical.offset();
    let j2 = j + d.horizontal.offset();
    let d2 = edges[(b, a)];
    assert(offs.contains(d2) && exists|i3: int, j3: int|
        grid_step(grid, nodes0, add_missing, i3, j3, d2, b, a));
    let (i3, j3): (int, int) = choose|i3: int, j3: int|
        grid_step(grid, nodes0, add_missing, i3, j3, d2, b, a);
    // b resolves from both (i2, j2) and (i3, j3): one cell.
    assert(resolve_at(grid, nodes0, add_missing, i2, j2) == Some(b));
    assert(resolve_at(grid, nodes0, add_missing, i3, j3) == Some(b));
    assert(i3 == i2 && j3 == j2);
    // a resolves from both (i, j) and the target of (i3, j3, d2): one cell.
    let i4 = i3 + d2.vertical.offset();
    let j4 = j3 + d2.horizontal.offset();
    assert(resolve_at(grid, nodes0, add_missing, i4, j4) == Some(a));
    assert(resolve_at(grid, nodes0, add_missing, i, j) == Some(a));
    assert(i4 == i && j4 == j);
    // The axis offsets are negated, so the directions are opposite.
    assert(d2.vertical.offset() == -d.vertical.offset());
    assert(d2.horizontal.offset() == -d.horizontal.offset());
    assert(d2.vertical == d.vertical.opposite());
    assert(d2.horizontal == d.horizontal.opposite());
}

/// LAW (no self-loops): over an unambiguous grid, connection never adds an
/// edge from a key to itself: no offset stays in place, so source and
/// target cells differ, and distinct cells resolve to distinct keys. A
/// self-loop could only survive from the map connection started with.
pub proof fn lemma_no_self_loops(
    grid: Seq<Seq<char>>,
    nodes0: Seq<Key>,
    offs: Seq<Edge>,
    add_missing: bool,
    edges0: Map<(Key, Key), Edge>,
    edges: Map<(Key, Key), Edge>,
    a: Key,
)
    requires
        offsets_no_self(offs),
        grid_unambiguous(grid, nodes0, add_missing),
        edges_within(grid, nodes0, offs, add_missing, edges0, edges),
        !edges0.contains_key((a, a)),
    ensures
        !edges.contains_key((a, a)),
{
    if edges.contains_key((a, a)) {
        let d = edges[(a, a)];
        assert(offs.contains(d) && exists|i: int, j: int|
            grid_step(grid, nodes0, add_missing, i, j, d, a, a));
        let (i, j): (int, int) = choose|i: int, j: int|
            grid_step(grid, nodes0, add_missing, i, j, d, a, a);
        let n = choose|n: int| 0 <= n < offs.len() && offs[n] == d;
        assert(!(d.horizontal == Direction::Same && d.vertical == Direction::Same));
        let i2 = i + d.vertical.offset();
        let j2 = j + d.horizontal.offset();
        assert(i2 != i || j2 != j);
        assert(resolve_at(grid, nodes0, add_missing, i, j) == Some(a));
        assert(resolve_at(grid, nodes0, add_missing, i2, j2) == Some(a));
        assert(false);
    }
}

/// LAW (no identity labels): no edge that connection adds carries the
/// stay-in-place offset, since no geometry offset is `{Same, Same}`; such a
/// label could only survive from the map connection started with.
pub proof fn lemma_no_identity_labels(
    grid: Seq<Seq<char>>,
    nodes0: Seq<Key>,
    offs: Seq<Edge>,
    add_missing: bool,
    edges0: Map<(Key, Key), Edge>,
    edges: Map<(Key, Key), Edge>,
    a: Key,
    b: Key,
)
    requires
        offsets_no_self(offs),
        edges_within(grid, nodes0, offs, add_missing, edges0, edges),
        forall|ab: (Key, Key)| #[trigger] edges0.contains_key(ab) ==> edges0[ab]
            != (Edge { horizontal: Direction::Same, vertical: Direction::Same }),
        edges.contains_key((a, b)),
    ensures
        edges[(a, b)] != (Edge { horizontal: Direction::Same, vertical: Direction::Same }),
{
    let d = edges[(a, b)];
    if !(edges0.contains_key((a, b)) && d == edges0[(a, b)]) {
        assert(offs.contains(d));
        let n = choose|n: int| 0 <= n < offs.len() && offs[n] == d;
        assert(!(offs[n].horizontal == Direction::Same && offs[n].vertical == Direction::Same));
    }
}

/// LAW (alphabetics resolve): in any graph holding the `m`-th alphabetic
/// key, lookup succeeds both by the lowercase and by the uppercase
/// character, each returning a key that carries the probed character.
pub proof fn lemma_alphabetic_lookup(nodes: Seq<Key>, m: int)
    requires
        0 <= m < 26,
        nodes.contains(letter_key(m)),
    ensures
        lookup_spec(nodes, letter_key(m).value) matches Some(k) && key_matches(
            k,
            letter_key(m).value,
        ),
        lookup_spec(nodes, letter_key(m).shifted) matches Some(k) && key_matches(
            k,
            letter_key(m).shifted,
        ),
{
    assert(letter_key(m).value != '\0' && letter_key(m).shifted != '\0') by {
        assert(letter_key(m).value as int == 97 + m);
        assert(letter_key(m).shifted as int == 65 + m);
        assert('\0' as int == 0);
    }
    let idx = choose|idx: int| 0 <= idx < nodes.len() && nodes[idx] == letter_key(m);
    assert(key_matches(nodes[idx], letter_key(m).value));
    assert(key_matches(nodes[idx], letter_key(m).shifted));
    lemma_first_match_found(nodes, letter_key(m).value);
    lemma_first_match_found(nodes, letter_key(m).shifted);
    crate::key::lemma_first_match_in(nodes, letter_key(m).value);
    crate::key::lemma_first_match_in(nodes, letter_key(m).shifted);
}

/// LAW (digits resolve, the sentinel never does): in any graph holding the
/// `m`-th digit key, lookup by the digit character succeeds; lookup by the
/// sentinel character fails in every graph whatsoever.
pub proof fn lemma_digit_lookup(nodes: Seq<Key>, m: int)
    requires
        0 <= m < 10,
        nodes.contains(crate::layouts::digit_key(m)),
    ensures
        lookup_spec(nodes, crate::layouts::digit_key(m).value) matches Some(k) && key_matches(
            k,
            crate::layouts::digit_key(m).value,
        ),
        lookup_spec(nodes, '\0') is None,
{
    let dk = crate::layouts::digit_key(m);
    assert(dk.value != '\0') by {
        assert(dk.value as int == 48 + m);
        assert('\0' as int == 0);
    }
    let idx = choose|idx: int| 0 <= idx < nodes.len() && nodes[idx] == dk;
    assert(key_matches(nodes[idx], dk.value));
    lemma_first_match_found(nodes, dk.value);
    crate::key::lemma_first_match_in(nodes, dk.value);
}

/// Auto-created keys never shadow an earlier key: any lookup that succeeded
/// before connection returns the same key afterwards.
pub proof fn lemma_lookup_kept_by_connection(
    nodes0: Seq<Key>,
    grid: Seq<Seq<char>>,
    add_missing: bool,
    nodes: Seq<Key>,
    c: char,
)
    requires
        nodes_extended(nodes0, grid, add_missing, nodes),
        lookup_spec(nodes0, c) is Some,
    ensures
        lookup_spec(nodes, c) == lookup_spec(nodes0, c),
{
    lemma_first_match_extended(nodes0, nodes, c);
}

/// LAW (alphabetic presets): the node list every QWERTY or Dvorak graph is
/// built over holds all 26 letter keys, and lookup by either character of
/// each succeeds.
pub proof fn lemma_alpha_layout_has_letters(m: int)
    requires
        0 <= m < 26,
    ensures
        alpha_layout_nodes().contains(letter_key(m)),
        lookup_spec(alpha_layout_nodes(), letter_key(m).value) is Some,
        lookup_spec(alpha_layout_nodes(), letter_key(m).shifted) is Some,
{
    let base = keys_registered(Seq::<Key>::empty(), letter_keys());
    assert(letter_keys()[m] == letter_key(m));
    assert(letter_keys().contains(letter_key(m)));
    lemma_keys_registered_contains(Seq::<Key>::empty(), letter_keys(), letter_key(m));
    lemma_keys_registered_contains(base, punctuation_keys(), letter_key(m));
    lemma_alphabetic_lookup(alpha_layout_nodes(), m);
}

/// LAW (numeric preset): the node list the standard numpad is built over
/// holds all 10 digit keys with no shift mapping; lookup by the digit
/// succeeds and lookup by the sentinel fails.
pub proof fn lemma_numpad_has_digits(m: int)
    requires
        0 <= m < 10,
    ensures
        keys_registered(Seq::<Key>::empty(), digit_keys()).contains(digit_key(m)),
        lookup_spec(
            keys_registered(Seq::<Key>::empty(), digit_keys()),
            digit_key(m).value,
        ) is Some,
        lookup_spec(keys_registered(Seq::<Key>::empty(), digit_keys()), '\0') is None,
{
    assert(digit_keys()[m] == digit_key(m));
    assert(digit_keys().contains(digit_key(m)));
    lemma_keys_registered_contains(Seq::<Key>::empty(), digit_keys(), digit_key(m));
    lemma_digit_lookup(keys_registered(Seq::<Key>::empty(), digit_keys()), m);
}

/// LAW (auto-created nodes are complete): every key that any application
/// of the connection rule resolves — source or target — is a node of the
/// connected graph, unless its edge predates connection.
pub proof fn lemma_step_keys_are_nodes(
    grid: Seq<Seq<char>>,
    nodes0: Seq<Key>,
    offs: Seq<Edge>,
    add_missing: bool,
    edges0: Map<(Key, Key), Edge>,
    edges: Map<(Key, Key), Edge>,
    nodes: Seq<Key>,
    i: int,
    j: int,
    n: int,
    a: Key,
    b: Key,
)
    requires
        0 <= n < offs.len(),
        grid_step(grid, nodes0, add_missing, i, j, offs[n], a, b),
        edges_cover(grid, nodes0, offs, add_missing, edges),
        edge_endpoints_in(edges0, edges, nodes),
        !edges0.contains_key((a, b)),
    ensures
        nodes.contains(a),
        nodes.contains(b),
{
    assert(edges.contains_key((a, b)));
}

/// LAW (lookup stays unambiguous): connection keeps node values pairwise
/// distinct. An auto-created key's value matched nothing registered before,
/// and no key is appended twice, so a value-unique starting list stays
/// value-unique.
pub proof fn lemma_connection_keeps_value_uniqueness(
    nodes0: Seq<Key>,
    grid: Seq<Seq<char>>,
    add_missing: bool,
    nodes: Seq<Key>,
)
    requires
        nodes_extended(nodes0, grid, add_missing, nodes),
        values_unique(nodes0),
    ensures
        values_unique(nodes),
{
    assert forall|m1: int, m2: int|
        0 <= m1 < m2 < nodes.len() implies (#[trigger] nodes[m1]).value != (
    #[trigger] nodes[m2]).value by {
        if m2 >= nodes0.len() {
            if m1 < nodes0.len() {
                assert(nodes0[m1] == nodes.take(nodes0.len() as int)[m1]);
                assert(nodes0[m1] == nodes[m1]);
                if nodes[m1].value == nodes[m2].value {
                    assert(key_matches(nodes0[m1], nodes[m2].value));
                    lemma_first_match_found(nodes0, nodes[m2].value);
                    assert(lookup_spec(nodes0, nodes[m2].value) is Some);
                }
            } else {
                if nodes[m1].value == nodes[m2].value {
                    assert(nodes[m1] == nodes[m2]);
                }
            }
        } else {
            assert(nodes0[m1] == nodes[m1] && nodes0[m2] == nodes[m2]) by {
                assert(nodes0[m1] == nodes.take(nodes0.len() as int)[m1]);
                assert(nodes0[m2] == nodes.take(nodes0.len() as int)[m2]);
            }
        }
    }
}

/// LAW (numeric preset is unambiguous): the digit keys the standard numpad
/// starts from carry pairwise-distinct values, so every graph connection
/// grows from them stays unambiguous for lookup by value.
pub proof fn lemma_numpad_base_values_unique()
    ensures
        keys_registered(Seq::<Key>::empty(), digit_keys()) == digit_keys(),
        values_unique(digit_keys()),
{
    assert forall|m1: int, m2: int|
        0 <= m1 < m2 < digit_keys().len() implies #[trigger] digit_keys()[m1]
        != #[trigger] digit_keys()[m2] by {
        assert(digit_key(m1).value as int == 48 + m1);
        assert(digit_key(m2).value as int == 48 + m2);
    }
    assert(forall|m: int|
        0 <= m < digit_keys().len() ==> !Seq::<Key>::empty().contains(#[trigger] digit_keys()[m]));
    lemma_keys_registered_fresh(Seq::<Key>::empty(), digit_keys());
    assert(Seq::<Key>::empty() + digit_keys() =~= digit_keys());
    assert forall|m1: int, m2: int|
        0 <= m1 < m2 < digit_keys().len() implies (#[trigger] digit_keys()[m1]).value != (
    #[trigger] digit_keys()[m2]).value by {
        assert(digit_key(m1).value as int == 48 + m1);
        assert(digit_key(m2).value as int == 48 + m2);
    }
}

/// LAW (alphabetic presets are unambiguous): the 47 keys a QWERTY or
/// Dvorak graph is built over are the 26 letters followed by the
/// punctuation table, with pairwise-distinct values; the pre-registered
/// policy adds no others, so lookup by value is unambiguous in both
/// generated graphs.
#[verifier::rlimit(50)]
pub proof fn lemma_alpha_layout_values_unique()
    ensures
        alpha_layout_nodes() == letter_keys() + punctuation_keys(),
        values_unique(alpha_layout_nodes()),
{
    assert forall|m1: int, m2: int|
        0 <= m1 < m2 < letter_keys().len() implies #[trigger] letter_keys()[m1]
        != #[trigger] letter_keys()[m2] by {
        assert(letter_key(m1).value as int == 97 + m1);
        assert(letter_key(m2).value as int == 97 + m2);
    }
    assert(forall|m: int|
        0 <= m < letter_keys().len() ==> !Seq::<Key>::empty().contains(
            #[trigger] letter_keys()[m],
        ));
    lemma_keys_registered_fresh(Seq::<Key>::empty(), letter_keys());
    assert(Seq::<Key>::empty() + letter_keys() =~= letter_keys());
    assert forall|m: int|
        0 <= m < punctuation_keys().len() implies !letter_keys().contains(
        #[trigger] punctuation_keys()[m],
    ) by {
        if letter_keys().contains(punctuation_keys()[m]) {
            let w = choose|w: int| 0 <= w < letter_keys().len() && letter_keys()[w]
                == punctuation_keys()[m];
            assert(letter_key(w).value as int == 97 + w);
            assert(false);
        }
    }
    assert(forall|m1: int, m2: int|
        0 <= m1 < m2 < punctuation_keys().len() ==> #[trigger] punctuation_keys()[m1]
            != #[trigger] punctuation_keys()[m2]);
    lemma_keys_registered_fresh(letter_keys(), punctuation_keys());
    let all = letter_keys() + punctuation_keys();
    assert forall|m1: int, m2: int|
        0 <= m1 < m2 < all.len() implies (#[trigger] all[m1]).value != (
    #[trigger] all[m2]).value by {
        if m2 < 26 {
            assert(letter_key(m1).value as int == 97 + m1);
            assert(letter_key(m2).value as int == 97 + m2);
        } else if m1 < 26 {
            assert(letter_key(m1).value as int == 97 + m1);
            assert(all[m2] == punctuation_keys()[m2 - 26]);
        } else {
            assert(all[m1] == punctuation_keys()[m1 - 26]);
            assert(all[m2] == punctuation_keys()[m2 - 26]);
        }
    }
}

} // verus!
