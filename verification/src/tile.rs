use vstd::prelude::*;
use core::cmp::Ordering;

verus! {

/// A cell address on the grid. The same type gives the grid's dimensions.
#[derive(Clone, Copy, Debug, PartialEq, Eq, Structural, Ord, Hash)]
pub struct Tile {
    pub row: usize,
    pub col: usize,
}

impl PartialOrd for Tile {
    fn partial_cmp(&self, other: &Self) -> (order: Option<Ordering>) {
        if self.row < other.row {
            Some(Ordering::Less)
        } else if self.row > other.row {
            Some(Ordering::Greater)
        } else if self.col < other.col {
            Some(Ordering::Less)
        } else if self.col > other.col {
            Some(Ordering::Greater)
        } else {
            Some(Ordering::Equal)
        }
    }
}

impl vstd::std_specs::cmp::PartialOrdSpecImpl for Tile {
    open spec fn obeys_partial_cmp_spec() -> bool {
        true
    }

    open spec fn partial_cmp_spec(&self, other: &Self) -> Option<Ordering> {
        if self.precedes(*other) {
            Some(Ordering::Less)
        } else if other.precedes(*self) {
            Some(Ordering::Greater)
        } else {
            Some(Ordering::Equal)
        }
    }
}

impl Tile {
    /// Whether this cell lies on a grid of the given dimensions.
    pub open spec fn within(self, size: Tile) -> bool {
        self.row < size.row && self.col < size.col
    }

    /// Row-major order: by row first, then by column.
    pub open spec fn precedes(self, other: Tile) -> bool {
        self.row < other.row || (self.row == other.row && self.col < other.col)
    }

    /// Tests whether this cell lies on a grid of the given dimensions.
    pub fn is_within(&self, size: &Tile) -> (inside: bool)
        ensures
            inside == self.within(*size),
    {
        self.row < size.row && self.col < size.col
    }

    /// Tests whether this cell comes strictly before `other` in row-major order.
    pub fn is_before(&self, other: &Tile) -> (before: bool)
        ensures
            before == self.precedes(*other),
    {
        *self < *other
    }
}

/// Row-major order is a strict total order on cells.
pub proof fn lemma_precedes_total_order(a: Tile, b: Tile, c: Tile)
    ensures
        !a.precedes(a),
        a.precedes(b) || b.precedes(a) || a == b,
        !(a.precedes(b) && b.precedes(a)),
        a.precedes(b) && b.precedes(c) ==> a.precedes(c),
{
}

} // verus!
