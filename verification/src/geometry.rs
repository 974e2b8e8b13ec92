//! The geometry model: relative offsets between neighbouring keys, and the
//! two offset sets (slanted rows vs. an aligned grid).

use vstd::prelude::*;

verus! {

/// A direction relative to a key on either the horizontal or the vertical
/// axis.
#[derive(Debug, PartialEq, Eq, Clone, Copy)]
pub enum Direction {
    /// Above or to the left of the key
    Previous,
    /// Below or to the right of the key
    Next,
    /// The same row or column as the reference key
    Same,
}

impl Direction {
    /// The signed grid offset this direction stands for.
    pub open spec fn offset(self) -> int {
        match self {
            Direction::Previous => -1,
            Direction::Next => 1,
            Direction::Same => 0,
        }
    }

    /// The opposite direction.
    pub open spec fn opposite(self) -> Direction {
        match self {
            Direction::Previous => Direction::Next,
            Direction::Next => Direction::Previous,
            Direction::Same => Direction::Same,
        }
    }
}

/// The relative position of one key to a neighbouring key.
#[derive(Debug, PartialEq, Clone, Copy)]
pub struct Edge {
    /// Relative horizontal position
    pub horizontal: Direction,
    /// Relative vertical position
    pub vertical: Direction,
}

impl Edge {
    /// The offset pointing back from the neighbour to the reference key.
    pub open spec fn reciprocal(self) -> Edge {
        Edge { horizontal: self.horizontal.opposite(), vertical: self.vertical.opposite() }
    }
}

/// Physical alignment of the keys: the alphanumeric block of a keyboard
/// slants its rows, so a key touches 6 neighbours; a numpad is a true grid,
/// so a key touches 8.
#[derive(Debug, PartialEq, Eq, Clone, Copy)]
pub enum KeyboardStyle {
    /// Keys are slanted with a row offset likely applied
    Slanted,
    /// Keys are aligned in a clear grid
    Aligned,
}

/// The 6 relative neighbour positions on a slanted (row-staggered) keyboard.
pub open spec fn slanted_offsets() -> Seq<Edge> {
    seq![
        Edge { horizontal: Direction::Previous, vertical: Direction::Same },
        Edge { horizontal: Direction::Same, vertical: Direction::Previous },
        Edge { horizontal: Direction::Next, vertical: Direction::Previous },
        Edge { horizontal: Direction::Next, vertical: Direction::Same },
        Edge { horizontal: Direction::Same, vertical: Direction::Next },
        Edge { horizontal: Direction::Previous, vertical: Direction::Next },
    ]
}

/// The 8 relative neighbour positions on an aligned (grid) keyboard: every
/// combination of the two axes except staying in place.
pub open spec fn aligned_offsets() -> Seq<Edge> {
    seq![
        Edge { horizontal: Direction::Previous, vertical: Direction::Same },
        Edge { horizontal: Direction::Previous, vertical: Direction::Previous },
        Edge { horizontal: Direction::Same, vertical: Direction::Previous },
        Edge { horizontal: Direction::Next, vertical: Direction::Previous },
        Edge { horizontal: Direction::Next, vertical: Direction::Same },
        Edge { horizontal: Direction::Next, vertical: Direction::Next },
        Edge { horizontal: Direction::Same, vertical: Direction::Next },
        Edge { horizontal: Direction::Previous, vertical: Direction::Next },
    ]
}

/// The offset set a keyboard style connects by.
pub open spec fn style_offsets(style: KeyboardStyle) -> Seq<Edge> {
    match style {
        KeyboardStyle::Slanted => slanted_offsets(),
        KeyboardStyle::Aligned => aligned_offsets(),
    }
}

/// An offset set is symmetric when it holds the reciprocal of each of its
/// offsets.
pub open spec fn offsets_symmetric(offs: Seq<Edge>) -> bool {
    forall|n: int| 0 <= n < offs.len() ==> offs.contains(#[trigger] offs[n].reciprocal())
}

/// An offset set never holds the identity offset.
pub open spec fn offsets_no_self(offs: Seq<Edge>) -> bool {
    forall|n: int|
        0 <= n < offs.len() ==> !((#[trigger] offs[n]).horizontal == Direction::Same
            && offs[n].vertical == Direction::Same)
}

/// Returns a vector of the relative positions of the neighbours to a key on
/// a slanted keyboard.
pub fn get_slanted_positions() -> (r: Vec<Edge>)
    ensures
        r@ == slanted_offsets(),
{
    let mut r: Vec<Edge> = Vec::new();
    r.push(Edge { horizontal: Direction::Previous, vertical: Direction::Same });
    r.push(Edge { horizontal: Direction::Same, vertical: Direction::Previous });
    r.push(Edge { horizontal: Direction::Next, vertical: Direction::Previous });
    r.push(Edge { horizontal: Direction::Next, vertical: Direction::Same });
    r.push(Edge { horizontal: Direction::Same, vertical: Direction::Next });
    r.push(Edge { horizontal: Direction::Previous, vertical: Direction::Next });
    proof {
        assert(r@ =~= slanted_offsets());
    }
    r
}

/// Returns a vector of the relative positions of the neighbours to a key on
/// an aligned keyboard.
pub fn get_aligned_positions() -> (r: Vec<Edge>)
    ensures
        r@ == aligned_offsets(),
{
    let mut r: Vec<Edge> = Vec::new();
    r.push(Edge { horizontal: Direction::Previous, vertical: Direction::Same });
    r.push(Edge { horizontal: Direction::Previous, vertical: Direction::Previous });
    r.push(Edge { horizontal: Direction::Same, vertical: Direction::Previous });
    r.push(Edge { horizontal: Direction::Next, vertical: Direction::Previous });
    r.push(Edge { horizontal: Direction::Next, vertical: Direction::Same });
    r.push(Edge { horizontal: Direction::Next, vertical: Direction::Next });
    r.push(Edge { horizontal: Direction::Same, vertical: Direction::Next });
    r.push(Edge { horizontal: Direction::Previous, vertical: Direction::Next });
    proof {
        assert(r@ =~= aligned_offsets());
    }
    r
}

/// The slanted offset set is closed under negation: each offset's reciprocal
/// is in the set too.
pub proof fn lemma_slanted_symmetric()
    ensures
        offsets_symmetric(slanted_offsets()),
        offsets_no_self(slanted_offsets()),
{
    let s = slanted_offsets();
    assert forall|n: int| 0 <= n < s.len() implies s.contains(#[trigger] s[n].reciprocal()) by {
        assert(s[0].reciprocal() == s[3]);
        assert(s[1].reciprocal() == s[4]);
        assert(s[2].reciprocal() == s[5]);
        assert(s[3].reciprocal() == s[0]);
        assert(s[4].reciprocal() == s[1]);
        assert(s[5].reciprocal() == s[2]);
    }
}

/// The aligned offset set is closed under negation: each offset's reciprocal
/// is in the set too.
pub proof fn lemma_aligned_symmetric()
    ensures
        offsets_symmetric(aligned_offsets()),
        offsets_no_self(aligned_offsets()),
{
    let s = aligned_offsets();
    assert forall|n: int| 0 <= n < s.len() implies s.contains(#[trigger] s[n].reciprocal()) by {
        assert(s[0].reciprocal() == s[4]);
        assert(s[1].reciprocal() == s[5]);
        assert(s[2].reciprocal() == s[6]);
        assert(s[3].reciprocal() == s[7]);
        assert(s[4].reciprocal() == s[0]);
        assert(s[5].reciprocal() == s[1]);
        assert(s[6].reciprocal() == s[2]);
        assert(s[7].reciprocal() == s[3]);
    }
}

} // verus!
