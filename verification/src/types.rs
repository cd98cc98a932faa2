use vstd::prelude::*;

verus! {

/// A lattice coordinate pair: `x` is the column, `y` is the row.
///
/// A `Point` converts losslessly to and from a linear index through the
/// grid's width; see `grid::Grid::coords_to_index` and
/// `grid::Grid::index_to_coords`.
#[derive(Debug, Copy, Clone, PartialEq, Eq, Structural)]
pub struct Point {
    pub x: usize,
    pub y: usize,
}

impl From<(usize, usize)> for Point {
    fn from(item: (usize, usize)) -> (p: Self) {
        Point { x: item.0, y: item.1 }
    }
}

impl vstd::std_specs::convert::FromSpecImpl<(usize, usize)> for Point {
    open spec fn obeys_from_spec() -> bool {
        true
    }

    open spec fn from_spec(item: (usize, usize)) -> Point {
        (Point { x: item.0, y: item.1 })
    }
}

} // verus!
