//! Grids of cells, and what it means to draw on one.
//!
//! Both framebuffers are grids stored row by row from the top. Their drawing
//! functions are all stated the same way: the grid after the call is the grid
//! before it with a layer drawn over it.

use vstd::prelude::*;

verus! {

/// Whether `grid` has `height` rows of `width` cells each.
pub open spec fn rectangular<T>(grid: Seq<Seq<T>>, width: nat, height: nat) -> bool {
    &&& grid.len() == height
    &&& forall|y: int| 0 <= y < height ==> (#[trigger] grid[y]).len() == width
}

/// The grid of the given size in which every cell is the same.
pub open spec fn uniform<T>(width: nat, height: nat, cell: T) -> Seq<Seq<T>> {
    Seq::new(height, |y: int| Seq::new(width, |x: int| cell))
}

/// `under` with a layer drawn over it: where the layer has something for the
/// cell at `(x, y)` the cell takes it, elsewhere it stays as it is.
pub open spec fn overlay<T>(under: Seq<Seq<T>>, layer: spec_fn(int, int) -> Option<T>) -> Seq<
    Seq<T>,
> {
    Seq::new(
        under.len(),
        |y: int|
            Seq::new(
                under[y].len(),
                |x: int|
                    match layer(x, y) {
                        Some(cell) => cell,
                        None => under[y][x],
                    },
            ),
    )
}

/// The layer that has `cell` in the places that `hit` selects.
pub open spec fn solid<T>(hit: spec_fn(int, int) -> bool, cell: T) -> spec_fn(int, int) -> Option<
    T,
> {
    |x: int, y: int|
        if hit(x, y) {
            Some(cell)
        } else {
            None
        }
}

/// Selects the one place `(at_x, at_y)`.
pub open spec fn at(at_x: int, at_y: int) -> spec_fn(int, int) -> bool {
    |x: int, y: int| x == at_x && y == at_y
}

/// Selects the places with `from_x <= x < to_x` and `from_y <= y < to_y`.
pub open spec fn in_rectangle(from_x: int, from_y: int, to_x: int, to_y: int) -> spec_fn(
    int,
    int,
) -> bool {
    |x: int, y: int| from_x <= x < to_x && from_y <= y < to_y
}

/// Selects the places of row `row`.
pub open spec fn in_row(row: int) -> spec_fn(int, int) -> bool {
    |x: int, y: int| y == row
}

} // verus!
