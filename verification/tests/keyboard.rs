use keygraph::{
    add_alphabetics, add_remaining_keys, add_unshifted_number_keys, connect_keyboard_nodes,
    generate_dvorak, generate_mac_numpad, generate_qwerty_us, generate_standard_numpad,
    get_aligned_positions, get_slanted_positions, Direction, Edge, Key, KeyGraph, KeySearch,
    KeyboardStyle,
};

fn flip(d: Direction) -> Direction {
    match d {
        Direction::Previous => Direction::Next,
        Direction::Next => Direction::Previous,
        Direction::Same => Direction::Same,
    }
}

#[test]
fn test_alphabetics() {
    let alphabet = "abcdefghijklmnopqrstuvwxyz";
    assert_eq!(alphabet.chars().count(), 26);

    let mut result = KeyGraph::new();
    add_alphabetics(&mut result);

    let uppercase = alphabet.to_uppercase();
    for (l, u) in alphabet.chars().zip(uppercase.chars()) {
        let test = Key { value: l, shifted: u };
        assert!(result.contains_node(test));
        // Get testing of trait for free
        assert!(result.find_key(l).is_some());
        assert!(result.find_key(u).is_some());
    }
}

#[test]
fn test_add_number_keys() {
    let numbers = "0123456789";
    assert_eq!(numbers.chars().count(), 10);

    let mut result = KeyGraph::new();
    add_unshifted_number_keys(&mut result);
    for c in numbers.chars() {
        let test = Key { value: c, shifted: '\0' };
        assert!(result.contains_node(test));
        assert!(result.find_key(c).is_some());
    }
    assert!(result.find_key('\0').is_none());
}

#[test]
fn offset_sets_are_symmetric_and_never_identity() {
    let slanted = get_slanted_positions();
    let aligned = get_aligned_positions();
    assert_eq!(slanted.len(), 6);
    assert_eq!(aligned.len(), 8);
    for set in [&slanted, &aligned] {
        for e in set.iter() {
            let reciprocal = Edge { horizontal: flip(e.horizontal), vertical: flip(e.vertical) };
            assert!(set.contains(&reciprocal));
            assert!(!(e.horizontal == Direction::Same && e.vertical == Direction::Same));
        }
    }
}

#[test]
fn standard_numpad_five_has_eight_neighbours() {
    let g = generate_standard_numpad();
    let five = g.find_key('5').expect("5 is a numpad key");
    assert_eq!(five, Key { value: '5', shifted: '\0' });

    let mut neighbour_count = 0;
    for k in g.nodes() {
        if g.edge_weight(five, k).is_some() {
            neighbour_count += 1;
        }
    }
    assert_eq!(neighbour_count, 8);

    // 5 sits at row 2, column 1 of the block; each edge direction matches
    // the grid offset between 5 and that neighbour.
    let expected = [
        ('7', Direction::Previous, Direction::Previous),
        ('8', Direction::Same, Direction::Previous),
        ('9', Direction::Next, Direction::Previous),
        ('4', Direction::Previous, Direction::Same),
        ('6', Direction::Next, Direction::Same),
        ('1', Direction::Previous, Direction::Next),
        ('2', Direction::Same, Direction::Next),
        ('3', Direction::Next, Direction::Next),
    ];
    for (c, h, v) in expected {
        let k = g.find_key(c).expect("neighbour key exists");
        let e = g.edge_weight(five, k).expect("neighbour edge exists");
        assert_eq!(e, Edge { horizontal: h, vertical: v });
    }

    // '.' and the sentinel cells are excluded per row length.
    let dot = g.find_key('.').expect("'.' is auto-created");
    assert!(g.edge_weight(five, dot).is_none());
    assert!(g.find_key('\0').is_none());

    // Node census: the 10 digits plus the 5 auto-created symbol keys, each
    // value appearing once, every shifted field the no-shift marker.
    let nodes = g.nodes();
    assert_eq!(nodes.len(), 15);
    for k in &nodes {
        assert_eq!(k.shifted, '\0');
        assert_eq!(nodes.iter().filter(|o| o.value == k.value).count(), 1);
    }
    for c in ['/', '*', '-', '+', '.'] {
        assert!(nodes.iter().any(|k| k.value == c));
    }
}

#[test]
fn qwerty_connects_q_to_the_number_row() {
    let g = generate_qwerty_us();
    let q = g.find_key('q').expect("q is a letter key");
    assert_eq!(q, Key { value: 'q', shifted: 'Q' });

    // q sits at row 1, column 1: '1' is straight above, '2' above-right.
    let one = g.find_key('1').expect("1 is a punctuation-table key");
    let two = g.find_key('2').expect("2 is a punctuation-table key");
    assert_eq!(
        g.edge_weight(q, one),
        Some(Edge { horizontal: Direction::Same, vertical: Direction::Previous })
    );
    assert_eq!(
        g.edge_weight(q, two),
        Some(Edge { horizontal: Direction::Next, vertical: Direction::Previous })
    );

    // q connects to w once, with the single slanted right-hand offset.
    let w = g.find_key('w').expect("w is a letter key");
    assert_eq!(
        g.edge_weight(q, w),
        Some(Edge { horizontal: Direction::Next, vertical: Direction::Same })
    );

    // The pre-registered policy creates no node for characters absent from
    // the alphabetic and punctuation tables: the sentinel stays out.
    assert!(g.find_key('\0').is_none());
    for k in g.nodes() {
        assert_ne!(k.value, '\0');
    }
    assert_eq!(g.nodes().len(), 47);
}

#[test]
fn qwerty_lookup_by_shifted_character() {
    let g = generate_qwerty_us();
    assert_eq!(g.find_key('+'), Some(Key { value: '=', shifted: '+' }));
    assert_eq!(g.find_key('Q'), Some(Key { value: 'q', shifted: 'Q' }));
    assert_eq!(g.find_key('?'), Some(Key { value: '/', shifted: '?' }));
    assert_eq!(g.find_key('\u{7}'), None);
}

#[test]
fn dvorak_places_the_vowel_row() {
    let g = generate_dvorak();
    let a = g.find_key('a').expect("a is a letter key");
    let o = g.find_key('o').expect("o is a letter key");
    assert_eq!(
        g.edge_weight(a, o),
        Some(Edge { horizontal: Direction::Next, vertical: Direction::Same })
    );
    // Dvorak moves q to the bottom row, next to j.
    let q = g.find_key('q').expect("q is a letter key");
    let j = g.find_key('j').expect("j is a letter key");
    assert_eq!(
        g.edge_weight(q, j),
        Some(Edge { horizontal: Direction::Next, vertical: Direction::Same })
    );
}

#[test]
fn mac_numpad_auto_creates_every_key() {
    let g = generate_mac_numpad();
    let nodes = g.nodes();
    assert_eq!(nodes.len(), 16);
    for k in &nodes {
        assert_eq!(k.shifted, '\0');
        assert_eq!(nodes.iter().filter(|o| o.value == k.value).count(), 1);
    }
    for c in ['=', '/', '*', '7', '8', '9', '-', '4', '5', '6', '+', '1', '2', '3', '0', '.'] {
        assert!(nodes.iter().any(|k| k.value == c));
    }
    assert!(g.find_key('=').is_some());
    assert!(g.find_key('\0').is_none());

    let nine = g.find_key('9').expect("9 is on the numpad");
    let minus = g.find_key('-').expect("- is on the numpad");
    assert_eq!(
        g.edge_weight(nine, minus),
        Some(Edge { horizontal: Direction::Next, vertical: Direction::Same })
    );
    let five = g.find_key('5').expect("5 is on the numpad");
    assert!(g.edge_weight(five, minus).is_none());
}

#[test]
fn ragged_rows_yield_no_neighbour_beyond_row_end() {
    let mut g = KeyGraph::new();
    connect_keyboard_nodes("a b c\nd", &mut g, KeyboardStyle::Aligned, true);
    let a = g.find_key('a').expect("a resolves");
    let b = g.find_key('b').expect("b resolves");
    let c = g.find_key('c').expect("c resolves");
    let d = g.find_key('d').expect("d resolves");
    assert_eq!(g.nodes().len(), 4);
    assert!(g.edge_weight(c, b).is_some());
    assert!(g.edge_weight(b, d).is_some());
    assert_eq!(
        g.edge_weight(a, d),
        Some(Edge { horizontal: Direction::Same, vertical: Direction::Next })
    );
    // c's right-hand and lower neighbours fall beyond a row's length.
    assert!(g.edge_weight(c, d).is_none());
    assert!(g.edge_weight(d, c).is_none());
}

#[test]
fn nodes_keep_insertion_order_and_deduplicate() {
    let mut g = KeyGraph::new();
    g.add_node(Key { value: 'x', shifted: 'X' });
    g.add_node(Key { value: 'y', shifted: 'Y' });
    g.add_node(Key { value: 'x', shifted: 'X' });
    assert_eq!(
        g.nodes(),
        vec![Key { value: 'x', shifted: 'X' }, Key { value: 'y', shifted: 'Y' }]
    );
}

#[test]
fn find_key_returns_the_first_match() {
    let mut g = KeyGraph::new();
    g.add_node(Key { value: '1', shifted: '!' });
    g.add_node(Key { value: '!', shifted: '1' });
    assert_eq!(g.find_key('!'), Some(Key { value: '1', shifted: '!' }));
    assert_eq!(g.find_key('1'), Some(Key { value: '1', shifted: '!' }));
}

#[test]
fn remaining_keys_are_added_as_given() {
    let mut g = KeyGraph::new();
    let keys = vec![Key { value: '#', shifted: '\0' }, Key { value: '%', shifted: '\0' }];
    add_remaining_keys(keys, &mut g);
    assert!(g.contains_node(Key { value: '#', shifted: '\0' }));
    assert!(g.contains_node(Key { value: '%', shifted: '\0' }));
    assert_eq!(g.nodes().len(), 2);
}

#[test]
fn pre_registered_policy_skips_unknown_characters() {
    let mut g = KeyGraph::new();
    g.add_node(Key { value: 'a', shifted: 'A' });
    g.add_node(Key { value: 'b', shifted: 'B' });
    connect_keyboard_nodes("a b z", &mut g, KeyboardStyle::Slanted, false);
    assert_eq!(g.nodes().len(), 2);
    assert!(g.find_key('z').is_none());
    let a = g.find_key('a').unwrap();
    let b = g.find_key('b').unwrap();
    assert_eq!(
        g.edge_weight(a, b),
        Some(Edge { horizontal: Direction::Next, vertical: Direction::Same })
    );
    assert_eq!(
        g.edge_weight(b, a),
        Some(Edge { horizontal: Direction::Previous, vertical: Direction::Same })
    );
}
