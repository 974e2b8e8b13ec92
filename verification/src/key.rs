//! The key model: identity and lookup semantics for a single key.

use vstd::prelude::*;

verus! {

/// A key on a physical keyboard: the character it produces unshifted and the
/// character it produces with the shift modifier active. A key with no shift
/// variant (e.g. a numpad digit) carries `'\0'` in `shifted`; that sentinel
/// never resolves to a real key during lookup.
#[derive(Hash, Debug, Clone, Copy, Ord, PartialOrd, Eq, PartialEq)]
pub struct Key {
    /// Value of the key
    pub value: char,
    /// Value when shift is pressed
    pub shifted: char,
}

/// A probe character `c` matches a key when it is either the key's unshifted
/// or its shifted character.
pub open spec fn key_matches(k: Key, c: char) -> bool {
    k.value == c || k.shifted == c
}

/// The first key in `nodes` (in insertion order) matched by `c`, if any.
pub open spec fn first_match(nodes: Seq<Key>, c: char) -> Option<Key>
    decreases nodes.len(),
{
    if nodes.len() == 0 {
        None
    } else if key_matches(nodes[0], c) {
        Some(nodes[0])
    } else {
        first_match(nodes.skip(1), c)
    }
}

/// Lookup semantics over a node list: the sentinel character never resolves;
/// any other character resolves to the first matching key.
pub open spec fn lookup_spec(nodes: Seq<Key>, c: char) -> Option<Key> {
    if c == '\0' {
        None
    } else {
        first_match(nodes, c)
    }
}

/// What a character resolves to during graph connection. Under the
/// auto-create policy an unregistered (non-sentinel) character resolves to a
/// fresh key with no shift mapping; under the pre-registered policy it does
/// not resolve at all.
pub open spec fn resolve_spec(nodes: Seq<Key>, c: char, add_missing: bool) -> Option<Key> {
    if lookup_spec(nodes, c) is Some {
        lookup_spec(nodes, c)
    } else if add_missing && c != '\0' {
        Some(Key { value: c, shifted: '\0' })
    } else {
        None
    }
}

/// No two keys of the list share the same `value` character, so lookup by
/// value is unambiguous.
pub open spec fn values_unique(nodes: Seq<Key>) -> bool {
    forall|m1: int, m2: int|
        0 <= m1 < m2 < nodes.len() ==> (#[trigger] nodes[m1]).value != (#[trigger] nodes[m2]).value
}

/// A successful first match returns a key that is in the list and matches the
/// probe.
pub proof fn lemma_first_match_in(nodes: Seq<Key>, c: char)
    ensures
        first_match(nodes, c) matches Some(k) ==> nodes.contains(k) && key_matches(k, c),
    decreases nodes.len(),
{
    if nodes.len() > 0 && !key_matches(nodes[0], c) {
        lemma_first_match_in(nodes.skip(1), c);
        if first_match(nodes, c) is Some {
            let k = first_match(nodes.skip(1), c).unwrap();
            assert(nodes.skip(1).contains(k));
            let m = choose|m: int| 0 <= m < nodes.skip(1).len() && nodes.skip(1)[m] == k;
            assert(nodes[m + 1] == k);
        }
    }
}

/// If some key in the list matches the probe, the first match succeeds.
pub proof fn lemma_first_match_found(nodes: Seq<Key>, c: char)
    requires
        exists|m: int| 0 <= m < nodes.len() && key_matches(nodes[m], c),
    ensures
        first_match(nodes, c) is Some,
    decreases nodes.len(),
{
    let m = choose|m: int| 0 <= m < nodes.len() && key_matches(nodes[m], c);
    if !key_matches(nodes[0], c) {
        assert(nodes.skip(1)[m - 1] == nodes[m]);
        lemma_first_match_found(nodes.skip(1), c);
    }
}

/// How a first match changes when one key is appended: an existing match is
/// kept, otherwise the new key is consulted.
pub proof fn lemma_first_match_push(nodes: Seq<Key>, k: Key, c: char)
    ensures
        first_match(nodes.push(k), c) == (if first_match(nodes, c) is Some {
            first_match(nodes, c)
        } else if key_matches(k, c) {
            Some(k)
        } else {
            None
        }),
    decreases nodes.len(),
{
    if nodes.len() == 0 {
        assert(nodes.push(k)[0] == k);
        assert(nodes.push(k).skip(1) =~= Seq::<Key>::empty());
    } else {
        assert(nodes.push(k)[0] == nodes[0]);
        assert(nodes.push(k).skip(1) =~= nodes.skip(1).push(k));
        lemma_first_match_push(nodes.skip(1), k, c);
    }
}

/// Appending keys that carry no shift mapping and whose values were
/// unregistered leaves every earlier lookup result intact, and can only make
/// a previously failing lookup find the corresponding fresh key.
pub proof fn lemma_first_match_extended(nodes0: Seq<Key>, nodes: Seq<Key>, c: char)
    requires
        nodes0.is_prefix_of(nodes),
        forall|m: int| nodes0.len() <= m < nodes.len() ==> {
            let k = #[trigger] nodes[m];
            k.shifted == '\0' && k.value != '\0' && lookup_spec(nodes0, k.value) is None
        },
        c != '\0',
    ensures
        first_match(nodes0, c) is Some ==> first_match(nodes, c) == first_match(nodes0, c),
        first_match(nodes0, c) is None && first_match(nodes, c) is Some ==> first_match(
            nodes,
            c,
        ) == Some(Key { value: c, shifted: '\0' }),
    decreases nodes.len(),
{
    if nodes.len() == nodes0.len() {
        assert(nodes =~= nodes0);
    } else {
        let dl = nodes.drop_last();
        let last = nodes.last();
        assert(nodes0.is_prefix_of(dl)) by {
            assert(nodes0 =~= dl.take(nodes0.len() as int));
        }
        assert(forall|m: int| nodes0.len() <= m < dl.len() ==> dl[m] == nodes[m]);
        lemma_first_match_extended(nodes0, dl, c);
        assert(nodes =~= dl.push(last));
        lemma_first_match_push(dl, last, c);
        if first_match(nodes0, c) is None && first_match(dl, c) is None && key_matches(last, c) {
            // `last` has sentinel shift and c is not the sentinel, so c is its value.
            assert(last.value == c);
        }
    }
}

/// Resolution during connection is stable: appending only fresh auto-created
/// keys never changes what any character resolves to.
pub proof fn lemma_resolve_stable(nodes0: Seq<Key>, nodes: Seq<Key>, c: char, add_missing: bool)
    requires
        nodes0.is_prefix_of(nodes),
        forall|m: int| nodes0.len() <= m < nodes.len() ==> {
            let k = #[trigger] nodes[m];
            k.shifted == '\0' && k.value != '\0' && lookup_spec(nodes0, k.value) is None
        },
        nodes.len() > nodes0.len() ==> add_missing,
    ensures
        resolve_spec(nodes, c, add_missing) == resolve_spec(nodes0, c, add_missing),
{
    if c != '\0' {
        lemma_first_match_extended(nodes0, nodes, c);
        if first_match(nodes0, c) is None && !add_missing {
            assert(nodes =~= nodes0);
        }
    }
}

} // verus!
