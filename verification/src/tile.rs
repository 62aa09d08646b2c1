//! The 16-colour framebuffer.
//!
//! A tile is one character with a foreground and a background colour out of
//! the terminal's palette. The screen stores each tile as the 11 bytes that
//! show it, so that rendering only has to copy them out.

use vstd::prelude::*;
use vstd::string::StringSliceAdditionalSpecFns;
use crate::ansi::clear_home;
use crate::ansi::decimal;
use crate::ansi::push_all;
use crate::ansi::push_clear_home;
use crate::grid::at;
use crate::grid::in_rectangle;
use crate::grid::in_row;
use crate::grid::overlay;
use crate::grid::rectangular;
use crate::grid::solid;
use crate::grid::uniform;

verus! {

/// A foreground colour of the terminal's palette.
#[derive(Copy, Clone, Debug, PartialEq, Eq, Structural)]
pub enum FgColor {
    Black,
    Red,
    Green,
    Yellow,
    Blue,
    White,
    Default,
}

/// A background colour of the terminal's palette.
#[derive(Copy, Clone, Debug, PartialEq, Eq, Structural)]
pub enum BgColor {
    Black,
    Red,
    Green,
    Yellow,
    Blue,
    White,
    Default,
}

impl FgColor {
    /// The colour's number in a "select graphic rendition" escape.
    pub open spec fn number(self) -> nat {
        match self {
            FgColor::Black => 30,
            FgColor::Red => 31,
            FgColor::Green => 32,
            FgColor::Yellow => 33,
            FgColor::Blue => 34,
            FgColor::White => 37,
            FgColor::Default => 39,
        }
    }

    /// The colour's number as two ASCII digits.
    pub fn get_code(&self) -> (code: [u8; 2])
        ensures
            code@ == decimal(self.number()),
    {
        let code: [u8; 2] = match self {
            FgColor::Black => [0x33, 0x30],
            FgColor::Red => [0x33, 0x31],
            FgColor::Green => [0x33, 0x32],
            FgColor::Yellow => [0x33, 0x33],
            FgColor::Blue => [0x33, 0x34],
            FgColor::White => [0x33, 0x37],
            FgColor::Default => [0x33, 0x39],
        };
        proof {
            reveal_with_fuel(decimal, 2);
            assert(code@ =~= decimal(self.number()));
        }
        code
    }
}

impl BgColor {
    /// The colour's number in a "select graphic rendition" escape.
    pub open spec fn number(self) -> nat {
        match self {
            BgColor::Black => 40,
            BgColor::Red => 41,
            BgColor::Green => 42,
            BgColor::Yellow => 43,
            BgColor::Blue => 44,
            BgColor::White => 47,
            BgColor::Default => 49,
        }
    }

    /// The colour's number as two ASCII digits.
    pub fn get_code(&self) -> (code: [u8; 2])
        ensures
            code@ == decimal(self.number()),
    {
        let code: [u8; 2] = match self {
            BgColor::Black => [0x34, 0x30],
            BgColor::Red => [0x34, 0x31],
            BgColor::Green => [0x34, 0x32],
            BgColor::Yellow => [0x34, 0x33],
            BgColor::Blue => [0x34, 0x34],
            BgColor::White => [0x34, 0x37],
            BgColor::Default => [0x34, 0x39],
        };
        proof {
            reveal_with_fuel(decimal, 2);
            assert(code@ =~= decimal(self.number()));
        }
        code
    }
}

/// One character cell: a character and its two colours.
#[derive(Copy, Clone, Debug, PartialEq, Eq, Structural)]
pub struct Tile {
    pub fg_color: FgColor,
    pub bg_color: BgColor,
    /// The character, as its ASCII code.
    pub tile: u8,
}

impl Tile {
    /// The bytes that show the tile: `ESC [ 0 ; <fg> ; <bg> m` and the
    /// character.
    pub open spec fn bytes(self) -> Seq<u8> {
        seq![0x1bu8, 0x5bu8, 0x30u8, 0x3bu8] + decimal(self.fg_color.number()) + seq![0x3bu8]
            + decimal(self.bg_color.number()) + seq![0x6du8, self.tile]
    }

    /// A tile of the given colours and character.
    pub fn new(fg_color: FgColor, bg_color: BgColor, tile: u8) -> (made: Tile)
        ensures
            made == (Tile { fg_color, bg_color, tile }),
    {
        Tile { fg_color, bg_color, tile }
    }

    /// The bytes that show the tile.
    pub fn calc(&self) -> (out: [u8; 11])
        ensures
            out@ == self.bytes(),
    {
        let fg_code = self.fg_color.get_code();
        let bg_code = self.bg_color.get_code();
        let out: [u8; 11] = [
            0x1b,
            0x5b,
            0x30,
            0x3b,
            fg_code[0],
            fg_code[1],
            0x3b,
            bg_code[0],
            bg_code[1],
            0x6d,
            self.tile,
        ];
        proof {
            assert(fg_code@.len() == 2 && bg_code@.len() == 2);
            assert(out@ =~= self.bytes());
        }
        out
    }
}

/// The rows of a stored grid as sequences of tiles, each tile as its bytes.
spec fn rows_of(rows: Seq<Vec<[u8; 11]>>) -> Seq<Seq<Seq<u8>>> {
    Seq::new(rows.len(), |y: int| Seq::new(rows[y]@.len(), |x: int| rows[y][x]@))
}

/// The tile of the sky in the default backdrop.
pub open spec fn sky() -> Tile {
    Tile { fg_color: FgColor::Black, bg_color: BgColor::Blue, tile: 0x2d }
}

/// The tile of the ground in the default backdrop.
pub open spec fn ground() -> Tile {
    Tile { fg_color: FgColor::Black, bg_color: BgColor::Yellow, tile: 0x3d }
}

/// The tile of which a new screen is full.
pub open spec fn empty() -> Tile {
    Tile { fg_color: FgColor::Default, bg_color: BgColor::Default, tile: 0x20 }
}

/// The default backdrop: sky, and two rows of ground at the bottom.
pub open spec fn backdrop(width: nat, height: nat) -> Seq<Seq<Seq<u8>>> {
    Seq::new(
        height,
        |y: int|
            Seq::new(
                width,
                |x: int|
                    if y + 2 >= height {
                        ground().bytes()
                    } else {
                        sky().bytes()
                    },
            ),
    )
}

/// The bytes of the first `n` tiles of a row, one after the other.
pub open spec fn row_bytes(row: Seq<Seq<u8>>, n: int) -> Seq<u8>
    decreases n,
{
    if n <= 0 {
        Seq::empty()
    } else {
        row_bytes(row, n - 1) + row[n - 1]
    }
}

/// The bytes of the first `n` rows, one row after the other.
pub open spec fn rows_bytes(grid: Seq<Seq<Seq<u8>>>, n: int) -> Seq<u8>
    decreases n,
{
    if n <= 0 {
        Seq::empty()
    } else {
        rows_bytes(grid, n - 1) + row_bytes(grid[n - 1], grid[n - 1].len() as int)
    }
}

/// What comes between the tiles and the status line: a newline, and the
/// escape that puts the colours back, `ESC [ 0 m`.
pub open spec fn status_lead() -> Seq<u8> {
    seq![0x0au8, 0x1bu8, 0x5bu8, 0x30u8, 0x6du8]
}

/// A whole frame: the terminal is cleared, all tiles are sent row by row, and
/// the status line follows in plain colours.
pub open spec fn frame_bytes(grid: Seq<Seq<Seq<u8>>>, status: Seq<u8>) -> Seq<u8> {
    clear_home() + rows_bytes(grid, grid.len() as int) + status_lead() + status
}

/// The framebuffer of tiles.
pub struct Screen {
    height: usize,
    width: usize,
    // The grid that is drawn on.
    data: Vec<Vec<[u8; 11]>>,
    // The grid as it was when the screen was created.
    initial: Vec<Vec<[u8; 11]>>,
}

// Writes one tile of a stored grid.
fn put(grid: &mut Vec<Vec<[u8; 11]>>, x: usize, y: usize, tile: [u8; 11])
    requires
        y < old(grid).len(),
        x < old(grid)[y as int].len(),
    ensures
        final(grid).len() == old(grid).len(),
        final(grid)[y as int]@ == old(grid)[y as int]@.update(x as int, tile),
        forall|k: int| 0 <= k < old(grid).len() && k != y ==> final(grid)[k] == old(grid)[k],
    no_unwind
{
    grid[y][x] = tile;
}

// Replaces one row of a stored grid.
fn put_row(grid: &mut Vec<Vec<[u8; 11]>>, y: usize, row: Vec<[u8; 11]>)
    requires
        y < old(grid).len(),
    ensures
        final(grid)@ == old(grid)@.update(y as int, row),
    no_unwind
{
    grid[y] = row;
}

impl Screen {
    #[verifier::type_invariant]
    closed spec fn sized(self) -> bool {
        &&& self.data.len() == self.height
        &&& self.initial.len() == self.height
        &&& forall|y: int| 0 <= y < self.height ==> (#[trigger] self.data[y]).len() == self.width
        &&& forall|y: int| 0 <= y < self.height ==> (#[trigger] self.initial[y]).len() == self.width
    }

    /// The grid that is drawn on: rows of tiles from the top, each tile as
    /// the bytes that show it.
    pub closed spec fn view(&self) -> Seq<Seq<Seq<u8>>> {
        rows_of(self.data@)
    }

    /// The grid that `reset` returns to.
    pub closed spec fn baseline(&self) -> Seq<Seq<Seq<u8>>> {
        rows_of(self.initial@)
    }

    /// Number of tiles in a row.
    pub closed spec fn spec_width(&self) -> usize {
        self.width
    }

    /// Number of rows.
    pub closed spec fn spec_height(&self) -> usize {
        self.height
    }

    /// Both grids have the screen's width and height.
    pub open spec fn shaped(&self) -> bool {
        &&& rectangular(self@, self.spec_width() as nat, self.spec_height() as nat)
        &&& rectangular(self.baseline(), self.spec_width() as nat, self.spec_height() as nat)
    }

    /// Whether `after` is this screen with nothing changed but the grid that
    /// is drawn on.
    pub open spec fn redrawn(&self, after: &Screen) -> bool {
        &&& after.spec_width() == self.spec_width()
        &&& after.spec_height() == self.spec_height()
        &&& after.baseline() == self.baseline()
        &&& after.shaped()
    }

    /// Whether this is a screen for a terminal of the given size on which
    /// nothing was drawn yet.
    pub open spec fn fresh(&self, columns: u16, rows: u16) -> bool {
        &&& self.spec_width() == columns
        &&& self.spec_height() == rows - 1
        &&& self@ == uniform(columns as nat, (rows - 1) as nat, empty().bytes())
        &&& self.baseline() == self@
    }

    /// Number of tiles in a row.
    #[verifier::when_used_as_spec(spec_width)]
    pub fn width(&self) -> (width: usize)
        ensures
            width == self.spec_width(),
            self.shaped(),
    {
        proof {
            use_type_invariant(self);
        }
        self.width
    }

    /// Number of rows.
    #[verifier::when_used_as_spec(spec_height)]
    pub fn height(&self) -> (height: usize)
        ensures
            height == self.spec_height(),
            self.shaped(),
    {
        proof {
            use_type_invariant(self);
        }
        self.height
    }

    /// Makes the screen for a terminal of `columns` by `rows` characters. The
    /// terminal's last row is kept for the status line, so the screen has one
    /// row less; the terminal has to have a row.
    ///
    /// `initial_draw` is handed the screen once, full of blank tiles in the
    /// terminal's own colours, to paint what stays: the screen it gives back
    /// is the one that `reset` returns to from then on.
    pub fn new<F: FnOnce(Screen) -> Screen>(columns: u16, rows: u16, initial_draw: F) -> (screen:
        Screen)
        requires
            rows >= 1,
            forall|blank: Screen| blank.fresh(columns, rows) ==> call_requires(initial_draw, (blank,)),
        ensures
            screen.shaped(),
            screen.baseline() == screen@,
            exists|blank: Screen, painted: Screen|
                blank.fresh(columns, rows) && #[trigger] call_ensures(
                    initial_draw,
                    (blank,),
                    painted,
                ) && screen@ == painted@ && screen.width() == painted.width() && screen.height()
                    == painted.height(),
    {
        let width = columns as usize;
        let height = (rows - 1) as usize;
        let tile = Tile::new(FgColor::Default, BgColor::Default, 0x20).calc();
        let data = vec![vec![tile; width]; height];
        let initial = vec![vec![tile; width]; height];
        let blank = Screen { height, width, data, initial };
        let ghost given = blank;
        assert(blank@ =~~= uniform(columns as nat, (rows - 1) as nat, empty().bytes()));
        assert(blank.baseline() =~~= blank@);
        assert(blank.fresh(columns, rows));
        let painted = initial_draw(blank);
        let ghost got = painted;
        proof {
            use_type_invariant(&painted);
        }
        let Screen { height, width, data, initial: _ } = painted;
        let initial = data.clone();
        let screen = Screen { height, width, data, initial };
        assert(screen.baseline() =~~= screen@);
        assert(given.fresh(columns, rows) && call_ensures(initial_draw, (given,), got));
        screen
    }

    /// Draws the default backdrop: sky all over, and two rows of ground at
    /// the bottom. The screen needs two rows for the ground.
    pub fn initial_draw(&mut self)
        requires
            old(self).height() >= 2,
        ensures
            final(self)@ == backdrop(old(self).width() as nat, old(self).height() as nat),
            old(self).redrawn(final(self)),
    {
        proof {
            use_type_invariant(&*self);
        }
        self.bg_color(Tile::new(FgColor::Black, BgColor::Blue, 0x2d));
        let height = self.height;
        self.line(height - 2, Tile::new(FgColor::Black, BgColor::Yellow, 0x3d));
        self.line(height - 1, Tile::new(FgColor::Black, BgColor::Yellow, 0x3d));
        assert(self@ =~~= backdrop(old(self).width() as nat, old(self).height() as nat));
    }

    /// The bytes that show the screen on the terminal, with `status` on the
    /// line below it.
    pub fn render(&self, status: &str) -> (out: Vec<u8>)
        ensures
            out@ == frame_bytes(self@, status.spec_bytes()),
    {
        proof {
            use_type_invariant(self);
        }
        let mut out: Vec<u8> = Vec::new();
        push_clear_home(&mut out);
        let mut y: usize = 0;
        assert(out@ =~= clear_home() + rows_bytes(self@, 0));
        while y < self.height
            invariant
                y <= self.height,
                self.data.len() == self.height,
                forall|k: int| 0 <= k < self.height ==> (#[trigger] self.data[k]).len() == self.width,
                out@ == clear_home() + rows_bytes(self@, y as int),
            decreases self.height - y,
        {
            let ghost head = out@;
            let ghost row = self@[y as int];
            let mut x: usize = 0;
            assert(out@ =~= head + row_bytes(row, 0));
            while x < self.width
                invariant
                    y < self.height,
                    x <= self.width,
                    self.data.len() == self.height,
                    forall|k: int|
                        0 <= k < self.height ==> (#[trigger] self.data[k]).len() == self.width,
                    row == self@[y as int],
                    out@ == head + row_bytes(row, x as int),
                decreases self.width - x,
            {
                let tile = &self.data[y][x];
                push_all(&mut out, tile.as_slice());
                assert(out@ =~= head + row_bytes(row, x + 1)) by {
                    assert(row[x as int] == tile@);
                }
                x = x + 1;
            }
            assert(out@ =~= clear_home() + rows_bytes(self@, y + 1)) by {
                assert(row.len() == self.width);
            }
            y = y + 1;
        }
        out.push(0x0a);
        out.push(0x1b);
        out.push(0x5b);
        out.push(0x30);
        out.push(0x6d);
        push_all(&mut out, status.as_bytes());
        assert(out@ =~= frame_bytes(self@, status.spec_bytes()));
        out
    }

    /// The bytes of one tile, which has to be on the screen.
    pub fn tile(&self, x: usize, y: usize) -> (bytes: [u8; 11])
        requires
            x < self.width(),
            y < self.height(),
        ensures
            bytes@ == self@[y as int][x as int],
    {
        proof {
            use_type_invariant(self);
        }
        self.data[y][x]
    }

    /// Takes the initial state of the screen and loads it into the current
    /// state: whatever was drawn since is wiped.
    pub fn reset(&mut self)
        ensures
            final(self)@ == old(self).baseline(),
            old(self).redrawn(final(self)),
    {
        proof {
            use_type_invariant(&*self);
        }
        self.data = self.initial.clone();
        assert(self@ =~~= old(self).baseline());
    }

    // Sets the bytes of one tile, which has to be on the screen.
    fn set_bytes(&mut self, x: usize, y: usize, tile: [u8; 11])
        requires
            x < old(self).width(),
            y < old(self).height(),
        ensures
            final(self)@ == overlay(old(self)@, solid(at(x as int, y as int), tile@)),
            old(self).redrawn(final(self)),
    {
        proof {
            use_type_invariant(&*self);
        }
        put(&mut self.data, x, y, tile);
        assert(self@ =~~= overlay(old(self)@, solid(at(x as int, y as int), tile@)));
    }

    /// Sets one tile, which has to be on the screen.
    pub fn set(&mut self, x: usize, y: usize, tile: Tile)
        requires
            x < old(self).width(),
            y < old(self).height(),
        ensures
            final(self)@ == overlay(old(self)@, solid(at(x as int, y as int), tile.bytes())),
            old(self).redrawn(final(self)),
    {
        self.set_bytes(x, y, tile.calc());
    }

    /// Fills row `y`, which has to be on the screen, with one tile.
    pub fn line(&mut self, y: usize, tile: Tile)
        requires
            y < old(self).height(),
        ensures
            final(self)@ == overlay(old(self)@, solid(in_row(y as int), tile.bytes())),
            old(self).redrawn(final(self)),
    {
        proof {
            use_type_invariant(&*self);
        }
        let row = vec![tile.calc(); self.width];
        put_row(&mut self.data, y, row);
        assert(self@ =~~= overlay(old(self)@, solid(in_row(y as int), tile.bytes())));
    }

    /// Fills the rectangle of the tiles with `from_x <= x < to_x` and
    /// `from_y <= y < to_y`. Unless it is empty, it has to lie on the screen.
    pub fn rectangle(&mut self, from_x: usize, from_y: usize, to_x: usize, to_y: usize, tile: Tile)
        requires
            from_x < to_x && from_y < to_y ==> to_x <= old(self).width() && to_y <= old(
                self,
            ).height(),
        ensures
            final(self)@ == overlay(
                old(self)@,
                solid(
                    in_rectangle(from_x as int, from_y as int, to_x as int, to_y as int),
                    tile.bytes(),
                ),
            ),
            old(self).redrawn(final(self)),
    {
        proof {
            use_type_invariant(&*self);
        }
        let calculated_tile = tile.calc();
        let ghost cell = tile.bytes();
        if from_x >= to_x || from_y >= to_y {
            assert(self@ =~~= overlay(
                old(self)@,
                solid(in_rectangle(from_x as int, from_y as int, to_x as int, to_y as int), cell),
            ));
            return ;
        }
        let mut y = from_y;
        assert(self@ =~~= overlay(
            old(self)@,
            solid(in_rectangle(from_x as int, from_y as int, to_x as int, from_y as int), cell),
        ));
        while y < to_y
            invariant
                from_y <= y <= to_y,
                from_x < to_x <= old(self).width(),
                to_y <= old(self).height(),
                calculated_tile@ == cell,
                old(self).redrawn(&*self),
                old(self).shaped(),
                self@ == overlay(
                    old(self)@,
                    solid(in_rectangle(from_x as int, from_y as int, to_x as int, y as int), cell),
                ),
            decreases to_y - y,
        {
            let mut x = from_x;
            let ghost above = self@;
            assert(self@ =~~= overlay(
                above,
                solid(in_rectangle(from_x as int, y as int, from_x as int, y + 1), cell),
            ));
            while x < to_x
                invariant
                    from_y <= y < to_y,
                    from_x <= x <= to_x,
                    to_x <= old(self).width(),
                    to_y <= old(self).height(),
                    calculated_tile@ == cell,
                    old(self).redrawn(&*self),
                    old(self).shaped(),
                    above == overlay(
                        old(self)@,
                        solid(
                            in_rectangle(from_x as int, from_y as int, to_x as int, y as int),
                            cell,
                        ),
                    ),
                    self@ == overlay(
                        above,
                        solid(in_rectangle(from_x as int, y as int, x as int, y + 1), cell),
                    ),
                decreases to_x - x,
            {
                self.set_bytes(x, y, calculated_tile);
                assert(self@ =~~= overlay(
                    above,
                    solid(in_rectangle(from_x as int, y as int, x + 1, y + 1), cell),
                ));
                x = x + 1;
            }
            assert(self@ =~~= overlay(
                old(self)@,
                solid(in_rectangle(from_x as int, from_y as int, to_x as int, y + 1), cell),
            ));
            y = y + 1;
        }
    }

    /// Wipes the screen and replaces it with one solid tile.
    pub fn bg_color(&mut self, tile: Tile)
        ensures
            final(self)@ == uniform(
                old(self).width() as nat,
                old(self).height() as nat,
                tile.bytes(),
            ),
            old(self).redrawn(final(self)),
    {
        proof {
            use_type_invariant(&*self);
        }
        self.data = vec![vec![tile.calc(); self.width]; self.height];
        assert(self@ =~~= uniform(
            old(self).width() as nat,
            old(self).height() as nat,
            tile.bytes(),
        ));
    }
}

} // verus!
