//! What both framebuffers can do, whatever their cells are: tell their size,
//! set a cell, and return to the grid they were made with.

use vstd::prelude::*;
use crate::grid::at;
use crate::grid::overlay;
use crate::grid::rectangular;
use crate::grid::solid;
use crate::screen::RGB;
use crate::tile::Tile;

verus! {

/// A framebuffer: a grid of cells that is drawn on, and the grid to which it
/// returns on `reset`.
pub trait Framebuffer {
    /// What a cell is set to.
    type Brush;

    /// What a cell holds.
    type Cell;

    /// What a cell holds that was set with `brush`.
    spec fn painted(brush: Self::Brush) -> Self::Cell;

    /// The grid that is drawn on, as rows of cells from the top.
    spec fn grid(&self) -> Seq<Seq<Self::Cell>>;

    /// The grid that `reset` returns to.
    spec fn baseline(&self) -> Seq<Seq<Self::Cell>>;

    /// Number of cells in a row, of either grid.
    fn width(&self) -> (width: usize)
        ensures
            rectangular(self.grid(), width as nat, self.grid().len()),
            rectangular(self.baseline(), width as nat, self.baseline().len()),
    ;

    /// Number of rows, of either grid.
    fn height(&self) -> (height: usize)
        ensures
            self.grid().len() == height,
            self.baseline().len() == height,
    ;

    /// Wipes whatever was drawn since the framebuffer was made.
    fn reset(&mut self)
        ensures
            final(self).grid() == old(self).baseline(),
            final(self).baseline() == old(self).baseline(),
    ;

    /// Sets one cell, which has to be on the grid.
    fn set_pixel(&mut self, x: usize, y: usize, brush: Self::Brush)
        requires
            y < old(self).grid().len(),
            x < old(self).grid()[y as int].len(),
        ensures
            final(self).grid() == overlay(
                old(self).grid(),
                solid(at(x as int, y as int), Self::painted(brush)),
            ),
            final(self).baseline() == old(self).baseline(),
    ;
}

impl Framebuffer for crate::screen::Screen {
    type Brush = RGB;

    type Cell = RGB;

    open spec fn painted(brush: RGB) -> RGB {
        brush
    }

    open spec fn grid(&self) -> Seq<Seq<RGB>> {
        self@
    }

    open spec fn baseline(&self) -> Seq<Seq<RGB>> {
        crate::screen::Screen::baseline(self)
    }

    fn width(&self) -> (width: usize) {
        crate::screen::Screen::width(self)
    }

    fn height(&self) -> (height: usize) {
        crate::screen::Screen::height(self)
    }

    fn reset(&mut self) {
        crate::screen::Screen::reset(self);
    }

    fn set_pixel(&mut self, x: usize, y: usize, brush: RGB) {
        // Asking for the width tells the shape of the grid.
        crate::screen::Screen::width(self);
        crate::screen::Screen::set_pixel(self, x, y, brush);
        assert(self@ =~~= overlay(old(self)@, solid(at(x as int, y as int), brush)));
    }
}

impl Framebuffer for crate::tile::Screen {
    type Brush = Tile;

    type Cell = Seq<u8>;

    open spec fn painted(brush: Tile) -> Seq<u8> {
        brush.bytes()
    }

    open spec fn grid(&self) -> Seq<Seq<Seq<u8>>> {
        self@
    }

    open spec fn baseline(&self) -> Seq<Seq<Seq<u8>>> {
        crate::tile::Screen::baseline(self)
    }

    fn width(&self) -> (width: usize) {
        crate::tile::Screen::width(self)
    }

    fn height(&self) -> (height: usize) {
        crate::tile::Screen::height(self)
    }

    fn reset(&mut self) {
        crate::tile::Screen::reset(self);
    }

    fn set_pixel(&mut self, x: usize, y: usize, brush: Tile) {
        // Asking for the width tells the shape of the grid.
        crate::tile::Screen::width(self);
        self.set(x, y, brush);
    }
}

} // verus!
