//! The row grammar: turns a layout's text block into a 2-D grid of
//! characters. Line breaks separate rows, spaces delimit the keys of a row,
//! and the sentinel `'\0'` keeps its column so that staggered rows stay
//! aligned. Rows may have different lengths; no padding is performed.

use vstd::prelude::*;

verus! {

/// The grid a text block describes: one row per line, with the space
/// delimiters removed. Every other character, the sentinel included, keeps
/// its own column.
pub open spec fn grid_of(text: Seq<char>) -> Seq<Seq<char>>
    decreases text.len(),
{
    if text.len() == 0 {
        seq![Seq::<char>::empty()]
    } else {
        let g = grid_of(text.drop_last());
        let c = text.last();
        if c == '\n' {
            g.push(Seq::<char>::empty())
        } else if c == ' ' {
            g
        } else {
            g.update(g.len() - 1, g.last().push(c))
        }
    }
}

/// Parses a text block into its grid of characters.
pub fn parse_rows(text: &str) -> (rows: Vec<Vec<char>>)
    ensures
        rows@.map_values(|r: Vec<char>| r@) == grid_of(text@),
{
    let len = text.unicode_len();
    let mut done: Vec<Vec<char>> = Vec::new();
    let mut cur: Vec<char> = Vec::new();
    let mut i: usize = 0;
    proof {
        assert(text@.take(0) =~= Seq::<char>::empty());
        assert(done@.map_values(|r: Vec<char>| r@).push(cur@) =~= grid_of(text@.take(0)));
    }
    while i < len
        invariant
            i <= len,
            len == text@.len(),
            done@.map_values(|r: Vec<char>| r@).push(cur@) == grid_of(text@.take(i as int)),
        decreases len - i,
    {
        let c = text.get_char(i);
        proof {
            assert(text@.take(i + 1).drop_last() =~= text@.take(i as int));
            assert(text@.take(i + 1).last() == text@[i as int]);
        }
        let ghost prev = done@.map_values(|r: Vec<char>| r@).push(cur@);
        if c == '\n' {
            done.push(cur);
            cur = Vec::new();
            proof {
                assert(done@.map_values(|r: Vec<char>| r@).push(cur@) =~= prev.push(
                    Seq::<char>::empty(),
                ));
            }
        } else if c == ' ' {
        } else {
            cur.push(c);
            proof {
                assert(done@.map_values(|r: Vec<char>| r@).push(cur@) =~= prev.update(
                    prev.len() - 1,
                    prev.last().push(c),
                ));
            }
        }
        i = i + 1;
    }
    done.push(cur);
    proof {
        assert(text@.take(len as int) =~= text@);
        assert(done@.map_values(|r: Vec<char>| r@) =~= grid_of(text@));
    }
    done
}

} // verus!
