//! Layout presets: the static per-layout data (alphabetic keys, punctuation
//! tables, row-text blocks, geometry style, missing-key policy) and the
//! generators that compile each named layout into its graph.

use vstd::prelude::*;
use crate::key::Key;
use crate::geometry::{KeyboardStyle, slanted_offsets, aligned_offsets, Edge};
use crate::grammar::grid_of;
use crate::graph::{KeyGraph, register_key};
use crate::connector::{
    connect_keyboard_nodes, edges_within, edges_cover, nodes_extended, edge_endpoints_in,
};

verus! {

/// The key carrying the `m`-th lowercase letter, shifted to its uppercase.
pub open spec fn letter_key(m: int) -> Key {
    Key { value: (97 + m) as char, shifted: (65 + m) as char }
}

/// The 26 alphabetic keys, `a`/`A` through `z`/`Z`, in order.
pub open spec fn letter_keys() -> Seq<Key> {
    Seq::new(26, |m: int| letter_key(m))
}

/// The key carrying the `m`-th digit, with no shift mapping.
pub open spec fn digit_key(m: int) -> Key {
    Key { value: (48 + m) as char, shifted: '\0' }
}

/// The 10 digit keys, `0` through `9`, in order.
pub open spec fn digit_keys() -> Seq<Key> {
    Seq::new(10, |m: int| digit_key(m))
}

/// A node list after a whole list of keys is registered in order.
pub open spec fn keys_registered(nodes: Seq<Key>, keys: Seq<Key>) -> Seq<Key>
    decreases keys.len(),
{
    if keys.len() == 0 {
        nodes
    } else {
        keys_registered(register_key(nodes, keys[0]), keys.skip(1))
    }
}

/// Registering a list reaches exactly the old keys and the listed ones.
pub proof fn lemma_keys_registered_contains(nodes: Seq<Key>, keys: Seq<Key>, k: Key)
    ensures
        keys_registered(nodes, keys).contains(k) <==> (nodes.contains(k) || keys.contains(k)),
    decreases keys.len(),
{
    if keys.len() == 0 {
        assert(!keys.contains(k));
    } else {
        let reg = register_key(nodes, keys[0]);
        lemma_keys_registered_contains(reg, keys.skip(1), k);
        assert(reg.contains(k) <==> (nodes.contains(k) || k == keys[0])) by {
            if !nodes.contains(keys[0]) {
                if nodes.contains(k) {
                    let m = choose|m: int| 0 <= m < nodes.len() && nodes[m] == k;
                    assert(reg[m] == k);
                }
                if k == keys[0] {
                    assert(reg[nodes.len() as int] == keys[0]);
                }
                if reg.contains(k) && k != keys[0] {
                    let m = choose|m: int| 0 <= m < reg.len() && reg[m] == k;
                    assert(m < nodes.len());
                    assert(nodes[m] == k);
                }
            }
        }
        assert(keys.skip(1).contains(k) || k == keys[0] <==> keys.contains(k)) by {
            if keys.skip(1).contains(k) {
                let m = choose|m: int| 0 <= m < keys.skip(1).len() && keys.skip(1)[m] == k;
                assert(keys[m + 1] == k);
            }
            if keys.contains(k) && k != keys[0] {
                let m = choose|m: int| 0 <= m < keys.len() && keys[m] == k;
                assert(keys.skip(1)[m - 1] == k);
            }
        }
    }
}

/// Registering keys that are all new and pairwise distinct appends them in
/// the given order.
pub proof fn lemma_keys_registered_fresh(nodes: Seq<Key>, keys: Seq<Key>)
    requires
        forall|m: int| 0 <= m < keys.len() ==> !nodes.contains(#[trigger] keys[m]),
        forall|m1: int, m2: int|
            0 <= m1 < m2 < keys.len() ==> #[trigger] keys[m1] != #[trigger] keys[m2],
    ensures
        keys_registered(nodes, keys) == nodes + keys,
    decreases keys.len(),
{
    if keys.len() == 0 {
        assert(keys_registered(nodes, keys) =~= nodes + keys);
    } else {
        assert(!nodes.contains(keys[0]));
        let grown = nodes.push(keys[0]);
        assert(register_key(nodes, keys[0]) == grown);
        assert forall|m: int|
            0 <= m < keys.skip(1).len() implies !grown.contains(#[trigger] keys.skip(1)[m]) by {
            assert(keys.skip(1)[m] == keys[m + 1]);
            if grown.contains(keys[m + 1]) {
                let w = choose|w: int| 0 <= w < grown.len() && grown[w] == keys[m + 1];
                if w < nodes.len() {
                    assert(nodes[w] == keys[m + 1]);
                } else {
                    assert(keys[0] == keys[m + 1]);
                }
            }
        }
        assert(forall|m1: int, m2: int|
            0 <= m1 < m2 < keys.skip(1).len() ==> #[trigger] keys.skip(1)[m1]
                != #[trigger] keys.skip(1)[m2]);
        lemma_keys_registered_fresh(grown, keys.skip(1));
        assert(grown + keys.skip(1) =~= nodes + keys);
    }
}

/// Function to add all alphabet characters to a keyboard graph (a–z & A–Z):
/// on QWERTY and Dvorak unshifted is lowercase and shifted is uppercase, so
/// these keys are common to both.
pub fn add_alphabetics(graph: &mut KeyGraph)
    ensures
        final(graph).node_seq() == keys_registered(old(graph).node_seq(), letter_keys()),
        final(graph).edge_map() == old(graph).edge_map(),
{
    let ghost start = graph.node_seq();
    let mut m: u8 = 0;
    proof {
        assert(letter_keys().skip(0) =~= letter_keys());
    }
    while m < 26
        invariant
            m <= 26,
            keys_registered(graph.node_seq(), letter_keys().skip(m as int)) == keys_registered(
                start,
                letter_keys(),
            ),
            graph.edge_map() == old(graph).edge_map(),
        decreases 26 - m,
    {
        let value = (97 + m) as char;
        let shifted = (65 + m) as char;
        proof {
            assert(letter_keys().skip(m as int)[0] == letter_key(m as int));
            assert(letter_keys().skip(m as int).skip(1) =~= letter_keys().skip(m as int + 1));
        }
        graph.add_node(Key { value, shifted });
        m = m + 1;
    }
    proof {
        assert(letter_keys().skip(26) =~= Seq::<Key>::empty());
    }
}

/// Numpads typically have no shift modifiers, so this function populates
/// the ten numeric keys with no shift mapping.
pub fn add_unshifted_number_keys(graph: &mut KeyGraph)
    ensures
        final(graph).node_seq() == keys_registered(old(graph).node_seq(), digit_keys()),
        final(graph).edge_map() == old(graph).edge_map(),
{
    let ghost start = graph.node_seq();
    let mut m: u8 = 0;
    proof {
        assert(digit_keys().skip(0) =~= digit_keys());
    }
    while m < 10
        invariant
            m <= 10,
            keys_registered(graph.node_seq(), digit_keys().skip(m as int)) == keys_registered(
                start,
                digit_keys(),
            ),
            graph.edge_map() == old(graph).edge_map(),
        decreases 10 - m,
    {
        let value = (48 + m) as char;
        proof {
            assert(digit_keys().skip(m as int)[0] == digit_key(m as int));
            assert(digit_keys().skip(m as int).skip(1) =~= digit_keys().skip(m as int + 1));
        }
        graph.add_node(Key { value, shifted: '\0' });
        m = m + 1;
    }
    proof {
        assert(digit_keys().skip(10) =~= Seq::<Key>::empty());
    }
}

/// Any keys a layout wants that no other function populates are added here.
pub fn add_remaining_keys(keys: Vec<Key>, graph: &mut KeyGraph)
    ensures
        final(graph).node_seq() == keys_registered(old(graph).node_seq(), keys@),
        final(graph).edge_map() == old(graph).edge_map(),
{
    let ghost start = graph.node_seq();
    let mut m: usize = 0;
    proof {
        assert(keys@.skip(0) =~= keys@);
    }
    while m < keys.len()
        invariant
            m <= keys.len(),
            keys_registered(graph.node_seq(), keys@.skip(m as int)) == keys_registered(
                start,
                keys@,
            ),
            graph.edge_map() == old(graph).edge_map(),
        decreases keys.len() - m,
    {
        proof {
            assert(keys@.skip(m as int)[0] == keys@[m as int]);
            assert(keys@.skip(m as int).skip(1) =~= keys@.skip(m as int + 1));
        }
        graph.add_node(keys[m]);
        m = m + 1;
    }
    proof {
        assert(keys@.skip(keys@.len() as int) =~= Seq::<Key>::empty());
    }
}

/// The punctuation and number-row keys shared by the QWERTY and Dvorak
/// presets, with their shifted counterparts.
pub open spec fn punctuation_keys() -> Seq<Key> {
    seq![
        Key { value: '`', shifted: '~' },
        Key { value: '1', shifted: '!' },
        Key { value: '2', shifted: '@' },
        Key { value: '3', shifted: '#' },
        Key { value: '4', shifted: '$' },
        Key { value: '5', shifted: '%' },
        Key { value: '6', shifted: '^' },
        Key { value: '7', shifted: '&' },
        Key { value: '8', shifted: '*' },
        Key { value: '9', shifted: '(' },
        Key { value: '0', shifted: ')' },
        Key { value: '-', shifted: '_' },
        Key { value: '=', shifted: '+' },
        Key { value: '[', shifted: '{' },
        Key { value: ']', shifted: '}' },
        Key { value: '\\', shifted: '|' },
        Key { value: ';', shifted: ':' },
        Key { value: '\'', shifted: '"' },
        Key { value: ',', shifted: '<' },
        Key { value: '.', shifted: '>' },
        Key { value: '/', shifted: '?' },
    ]
}

/// The keys every alphabetic (QWERTY or Dvorak) preset registers before
/// connection: the 26 letters, then the punctuation table.
pub open spec fn alpha_layout_nodes() -> Seq<Key> {
    keys_registered(keys_registered(Seq::<Key>::empty(), letter_keys()), punctuation_keys())
}

/// The punctuation table, computed.
fn punctuation_key_list() -> (r: Vec<Key>)
    ensures
        r@ == punctuation_keys(),
{
    let mut r: Vec<Key> = Vec::new();
    r.push(Key { value: '`', shifted: '~' });
    r.push(Key { value: '1', shifted: '!' });
    r.push(Key { value: '2', shifted: '@' });
    r.push(Key { value: '3', shifted: '#' });
    r.push(Key { value: '4', shifted: '$' });
    r.push(Key { value: '5', shifted: '%' });
    r.push(Key { value: '6', shifted: '^' });
    r.push(Key { value: '7', shifted: '&' });
    r.push(Key { value: '8', shifted: '*' });
    r.push(Key { value: '9', shifted: '(' });
    r.push(Key { value: '0', shifted: ')' });
    r.push(Key { value: '-', shifted: '_' });
    r.push(Key { value: '=', shifted: '+' });
    r.push(Key { value: '[', shifted: '{' });
    r.push(Key { value: ']', shifted: '}' });
    r.push(Key { value: '\\', shifted: '|' });
    r.push(Key { value: ';', shifted: ':' });
    r.push(Key { value: '\'', shifted: '"' });
    r.push(Key { value: ',', shifted: '<' });
    r.push(Key { value: '.', shifted: '>' });
    r.push(Key { value: '/', shifted: '?' });
    proof {
        assert(r@ =~= punctuation_keys());
    }
    r
}

/// The QWERTY US row-text block.
pub open spec fn qwerty_us_text() -> Seq<char> {
    "` 1 2 3 4 5 6 7 8 9 0 - =\n\0 q w e r t y u i o p [ ] \\\n\0 a s d f g h j k l ; '\n\0 z x c v b n m , . /"@
}

/// The Dvorak row-text block.
pub open spec fn dvorak_text() -> Seq<char> {
    "` 1 2 3 4 5 6 7 8 9 0 [ ]\n\0 ' , . p y f g c r l / = \\\n\0 a o e u i d h t n s -\n\0 ; q j k x b m w v z"@
}

/// The standard numpad row-text block.
pub open spec fn standard_numpad_text() -> Seq<char> {
    "\0 / * -\n7 8 9 +\n4 5 6\n1 2 3\n\0 0 ."@
}

/// The Apple Mac style numpad row-text block.
pub open spec fn mac_numpad_text() -> Seq<char> {
    "\0 = / *\n7 8 9 -\n4 5 6 +\n1 2 3\n\0 0 ."@
}

/// Generates the graph for the QWERTY US keyboard layout: letters and the
/// punctuation table pre-registered, slanted geometry, missing keys
/// ignored.
pub fn generate_qwerty_us() -> (g: KeyGraph)
    ensures
        g.node_seq() == alpha_layout_nodes(),
        edges_within(
            grid_of(qwerty_us_text()),
            alpha_layout_nodes(),
            slanted_offsets(),
            false,
            Map::<(Key, Key), Edge>::empty(),
            g.edge_map(),
        ),
        edges_cover(
            grid_of(qwerty_us_text()),
            alpha_layout_nodes(),
            slanted_offsets(),
            false,
            g.edge_map(),
        ),
        edge_endpoints_in(Map::<(Key, Key), Edge>::empty(), g.edge_map(), g.node_seq()),
{
    let mut result = KeyGraph::new();
    let qwerty_us = "` 1 2 3 4 5 6 7 8 9 0 - =\n\0 q w e r t y u i o p [ ] \\\n\0 a s d f g h j k l ; '\n\0 z x c v b n m , . /";

    add_alphabetics(&mut result);
    let remaining_keys = punctuation_key_list();
    add_remaining_keys(remaining_keys, &mut result);

    connect_keyboard_nodes(qwerty_us, &mut result, KeyboardStyle::Slanted, false);
    result
}

/// Generates the graph for the Dvorak keyboard layout: the same key set as
/// QWERTY, arranged by the Dvorak row-text block.
pub fn generate_dvorak() -> (g: KeyGraph)
    ensures
        g.node_seq() == alpha_layout_nodes(),
        edges_within(
            grid_of(dvorak_text()),
            alpha_layout_nodes(),
            slanted_offsets(),
            false,
            Map::<(Key, Key), Edge>::empty(),
            g.edge_map(),
        ),
        edges_cover(
            grid_of(dvorak_text()),
            alpha_layout_nodes(),
            slanted_offsets(),
            false,
            g.edge_map(),
        ),
        edge_endpoints_in(Map::<(Key, Key), Edge>::empty(), g.edge_map(), g.node_seq()),
{
    let mut result = KeyGraph::new();
    let dvorak = "` 1 2 3 4 5 6 7 8 9 0 [ ]\n\0 ' , . p y f g c r l / = \\\n\0 a o e u i d h t n s -\n\0 ; q j k x b m w v z";

    add_alphabetics(&mut result);
    let remaining_keys = punctuation_key_list();
    add_remaining_keys(remaining_keys, &mut result);

    connect_keyboard_nodes(dvorak, &mut result, KeyboardStyle::Slanted, false);
    result
}

/// Generates a standard numpad: digits pre-registered without shift
/// mappings, aligned geometry, missing keys auto-created.
pub fn generate_standard_numpad() -> (g: KeyGraph)
    ensures
        nodes_extended(
            keys_registered(Seq::<Key>::empty(), digit_keys()),
            grid_of(standard_numpad_text()),
            true,
            g.node_seq(),
        ),
        edges_within(
            grid_of(standard_numpad_text()),
            keys_registered(Seq::<Key>::empty(), digit_keys()),
            aligned_offsets(),
            true,
            Map::<(Key, Key), Edge>::empty(),
            g.edge_map(),
        ),
        edges_cover(
            grid_of(standard_numpad_text()),
            keys_registered(Seq::<Key>::empty(), digit_keys()),
            aligned_offsets(),
            true,
            g.edge_map(),
        ),
        edge_endpoints_in(Map::<(Key, Key), Edge>::empty(), g.edge_map(), g.node_seq()),
{
    let mut result = KeyGraph::new();
    let numpad = "\0 / * -\n7 8 9 +\n4 5 6\n1 2 3\n\0 0 .";

    add_unshifted_number_keys(&mut result);

    connect_keyboard_nodes(numpad, &mut result, KeyboardStyle::Aligned, true);
    result
}

/// Generates the Apple Mac style numpad: nothing pre-registered, aligned
/// geometry, every key auto-created from the row-text block.
pub fn generate_mac_numpad() -> (g: KeyGraph)
    ensures
        nodes_extended(Seq::<Key>::empty(), grid_of(mac_numpad_text()), true, g.node_seq()),
        edges_within(
            grid_of(mac_numpad_text()),
            Seq::<Key>::empty(),
            aligned_offsets(),
            true,
            Map::<(Key, Key), Edge>::empty(),
            g.edge_map(),
        ),
        edges_cover(
            grid_of(mac_numpad_text()),
            Seq::<Key>::empty(),
            aligned_offsets(),
            true,
            g.edge_map(),
        ),
        edge_endpoints_in(Map::<(Key, Key), Edge>::empty(), g.edge_map(), g.node_seq()),
{
    let mut result = KeyGraph::new();
    let numpad = "\0 = / *\n7 8 9 -\n4 5 6 +\n1 2 3\n\0 0 .";

    connect_keyboard_nodes(numpad, &mut result, KeyboardStyle::Aligned, true);
    result
}

} // verus!
