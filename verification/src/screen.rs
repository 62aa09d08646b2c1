//! The truecolor framebuffer.
//!
//! A `Screen` is a grid of RGB pixels, as wide as the terminal and twice as
//! high: every character cell shows two pixels, one above the other. Beside
//! the grid that is drawn on, a screen keeps the grid it was created with, to
//! which `reset` returns.

use vstd::prelude::*;
use crate::math::bresenham;
use crate::math::coords;
use crate::math::lemma_line_in_box;
use crate::math::line_len;
use crate::math::line_points;
use crate::grid::in_rectangle;
use crate::grid::overlay;
use crate::grid::rectangular;
use crate::grid::solid;
use crate::grid::uniform;
use crate::ansi::clear_home;
use crate::ansi::decimal;
use crate::ansi::push_clear_home;
use crate::ansi::push_decimal;
use crate::font::bit_at;
use crate::font::Font;
use vstd::string::StrSliceExecFns;
use vstd::slice::slice_subrange;
use vstd::slice::slice_to_vec;

verus! {

/// A colour: red, green and blue.
#[derive(Copy, Clone, Debug, PartialEq, Eq, Structural)]
pub struct RGB(pub u8, pub u8, pub u8);

/// What the framebuffer holds in each place.
pub type Pixel = RGB;

/// What is sent to a running render loop.
#[derive(Copy, Clone, Debug, PartialEq, Eq, Structural)]
pub enum ChannelMessage {
    /// Asks the loop to end before its next frame.
    Stop,
}

/// The colour of a screen before anything is drawn on it.
pub open spec fn blank() -> RGB {
    RGB(0, 0, 0)
}

/// The framebuffer.
pub struct Screen {
    height: usize,
    width: usize,
    // The grid that is drawn on.
    data: Vec<Vec<Pixel>>,
    // The grid as it was when the screen was created.
    initial: Vec<Vec<Pixel>>,
}

/// The rows of a stored grid as sequences.
spec fn rows_of(rows: Seq<Vec<Pixel>>) -> Seq<Seq<RGB>> {
    Seq::new(rows.len(), |y: int| rows[y]@)
}

/// Whether `(x, y)` is among the first `n` of `points`.
spec fn listed_at(points: Seq<(int, int)>, n: int, x: int, y: int) -> bool {
    exists|j: int| 0 <= j < n && #[trigger] points[j] == (x, y)
}

/// Selects the pixels among the first `n` of `points`.
spec fn listed(points: Seq<(int, int)>, n: int) -> spec_fn(int, int) -> bool {
    |x: int, y: int| listed_at(points, n, x, y)
}

/// Selects the pixels of the line from `(x1, y1)` to `(x2, y2)`.
pub open spec fn on_line(x1: int, y1: int, x2: int, y2: int) -> spec_fn(int, int) -> bool {
    |x: int, y: int| line_points(x1, y1, x2, y2).contains((x, y))
}

/// Selects the pixels of the three sides of a triangle.
pub open spec fn on_triangle(x1: int, y1: int, x2: int, y2: int, x3: int, y3: int) -> spec_fn(
    int,
    int,
) -> bool {
    |x: int, y: int|
        on_line(x1, y1, x2, y2)(x, y) || on_line(x2, y2, x3, y3)(x, y) || on_line(x3, y3, x1, y1)(
            x,
            y,
        )
}

// Writes one pixel of a stored grid.
fn put(grid: &mut Vec<Vec<Pixel>>, x: usize, y: usize, color: RGB)
    requires
        y < old(grid).len(),
        x < old(grid)[y as int].len(),
    ensures
        final(grid).len() == old(grid).len(),
        final(grid)[y as int]@ == old(grid)[y as int]@.update(x as int, color),
        forall|k: int| 0 <= k < old(grid).len() && k != y ==> final(grid)[k] == old(grid)[k],
    no_unwind
{
    grid[y][x] = color;
}

impl Screen {
    #[verifier::type_invariant]
    closed spec fn sized(self) -> bool {
        &&& self.data.len() == self.height
        &&& self.initial.len() == self.height
        &&& forall|y: int| 0 <= y < self.height ==> (#[trigger] self.data[y]).len() == self.width
        &&& forall|y: int| 0 <= y < self.height ==> (#[trigger] self.initial[y]).len() == self.width
    }

    /// The grid that is drawn on, as rows of pixels from the top.
    pub closed spec fn view(&self) -> Seq<Seq<RGB>> {
        rows_of(self.data@)
    }

    /// The grid that `reset` returns to.
    pub closed spec fn baseline(&self) -> Seq<Seq<RGB>> {
        rows_of(self.initial@)
    }

    /// Number of pixels in a row.
    pub closed spec fn spec_width(&self) -> usize {
        self.width
    }

    /// Number of rows.
    pub closed spec fn spec_height(&self) -> usize {
        self.height
    }

    /// Both grids have the screen's width and height.
    pub open spec fn shaped(&self) -> bool {
        &&& rectangular(self@, self.spec_width() as nat, self.spec_height() as nat)
        &&& rectangular(self.baseline(), self.spec_width() as nat, self.spec_height() as nat)
    }

    /// Whether `after` is this screen with nothing changed but the grid that
    /// is drawn on.
    pub open spec fn redrawn(&self, after: &Screen) -> bool {
        &&& after.spec_width() == self.spec_width()
        &&& after.spec_height() == self.spec_height()
        &&& after.baseline() == self.baseline()
        &&& after.shaped()
    }

    /// Number of pixels in a row.
    #[verifier::when_used_as_spec(spec_width)]
    pub fn width(&self) -> (width: usize)
        ensures
            width == self.spec_width(),
            self.shaped(),
    {
        proof {
            use_type_invariant(self);
        }
        self.width
    }

    /// Number of rows.
    #[verifier::when_used_as_spec(spec_height)]
    pub fn height(&self) -> (height: usize)
        ensures
            height == self.spec_height(),
            self.shaped(),
    {
        proof {
            use_type_invariant(self);
        }
        self.height
    }

    /// The colour of one pixel, which has to be on the screen.
    pub fn pixel(&self, x: usize, y: usize) -> (color: RGB)
        requires
            x < self.width(),
            y < self.height(),
        ensures
            color == self@[y as int][x as int],
    {
        proof {
            use_type_invariant(self);
        }
        self.data[y][x]
    }

    /// Takes the initial state of the screen and loads it into the current
    /// state: whatever was drawn since is wiped.
    pub fn reset(&mut self)
        ensures
            final(self)@ == old(self).baseline(),
            old(self).redrawn(final(self)),
    {
        proof {
            use_type_invariant(&*self);
        }
        self.data = self.initial.clone();
        assert(self@ =~~= old(self).baseline());
    }

    /// Sets one pixel. The pixel has to be on the screen.
    pub fn set_pixel(&mut self, x: usize, y: usize, color: RGB)
        requires
            x < old(self).width(),
            y < old(self).height(),
        ensures
            final(self)@ == old(self)@.update(y as int, old(self)@[y as int].update(x as int, color)),
            old(self).redrawn(final(self)),
    {
        proof {
            use_type_invariant(&*self);
        }
        put(&mut self.data, x, y, color);
        assert(self@ =~~= old(self)@.update(
            y as int,
            old(self)@[y as int].update(x as int, color),
        ));
    }

    /// Wipes the screen and replaces it with one solid colour.
    pub fn bg(&mut self, color: RGB)
        ensures
            final(self)@ == uniform(old(self).width() as nat, old(self).height() as nat, color),
            old(self).redrawn(final(self)),
    {
        proof {
            use_type_invariant(&*self);
        }
        self.data = vec![vec![color; self.width]; self.height];
        assert(self@ =~~= uniform(old(self).width() as nat, old(self).height() as nat, color));
    }

    // Sets the listed pixels, which all have to be on the screen.
    fn plot(&mut self, points: &Vec<(usize, usize)>, color: RGB)
        requires
            forall|j: int|
                0 <= j < points.len() ==> (#[trigger] points[j]).0 < old(self).width() && points[j].1
                    < old(self).height(),
        ensures
            final(self)@ == overlay(
                old(self)@,
                solid(listed(coords(points@), points.len() as int), color),
            ),
            old(self).redrawn(final(self)),
    {
        proof {
            use_type_invariant(&*self);
        }
        let ghost spots = coords(points@);
        let mut i: usize = 0;
        assert(self@ =~~= overlay(old(self)@, solid(listed(spots, 0), color)));
        while i < points.len()
            invariant
                i <= points.len(),
                spots == coords(points@),
                forall|j: int|
                    0 <= j < points.len() ==> (#[trigger] points[j]).0 < old(self).width()
                        && points[j].1 < old(self).height(),
                old(self).redrawn(&*self),
                old(self).shaped(),
                self@ == overlay(old(self)@, solid(listed(spots, i as int), color)),
            decreases points.len() - i,
        {
            let point = points[i];
            self.set_pixel(point.0, point.1, color);
            proof {
                assert(spots[i as int] == (point.0 as int, point.1 as int));
                assert forall|x: int, y: int|
                    #[trigger] listed_at(spots, i + 1, x, y) == (listed_at(spots, i as int, x, y)
                        || (x, y) == (point.0 as int, point.1 as int)) by {
                    if listed_at(spots, i + 1, x, y) {
                        let j = choose|j: int| 0 <= j < i + 1 && #[trigger] spots[j] == (x, y);
                        if j < i {
                            assert(listed_at(spots, i as int, x, y));
                        }
                    }
                }
                assert(self@ =~~= overlay(old(self)@, solid(listed(spots, i + 1), color)));
            }
            i = i + 1;
        }
    }

    /// Draws a line with Bresenham's algorithm. Both ends have to be on the
    /// screen.
    pub fn line(&mut self, from_x: usize, from_y: usize, to_x: usize, to_y: usize, color: RGB)
        requires
            from_x < old(self).width(),
            to_x < old(self).width(),
            from_y < old(self).height(),
            to_y < old(self).height(),
        ensures
            final(self)@ == overlay(
                old(self)@,
                solid(on_line(from_x as int, from_y as int, to_x as int, to_y as int), color),
            ),
            old(self).redrawn(final(self)),
    {
        proof {
            use_type_invariant(&*self);
        }
        let points = bresenham(from_x, from_y, to_x, to_y);
        let ghost wanted = line_points(from_x as int, from_y as int, to_x as int, to_y as int);
        proof {
            assert(coords(points@).len() == points.len());
            assert(wanted.len() == line_len(
                from_x as int,
                from_y as int,
                to_x as int,
                to_y as int,
            ));
            assert forall|j: int| 0 <= j < points.len() implies (#[trigger] points[j]).0
                < self.width() && points[j].1 < self.height() by {
                assert(coords(points@)[j] == wanted[j]);
                lemma_line_in_box(from_x as int, from_y as int, to_x as int, to_y as int, j);
            }
        }
        self.plot(&points, color);
        proof {
            assert forall|x: int, y: int|
                #[trigger] listed_at(wanted, wanted.len() as int, x, y) == wanted.contains(
                    (x, y),
                ) by {
                if wanted.contains((x, y)) {
                    let j = choose|j: int| 0 <= j < wanted.len() && wanted[j] == (x, y);
                    assert(wanted[j] == (x, y));
                }
            }
            assert(self@ =~~= overlay(
                old(self)@,
                solid(on_line(from_x as int, from_y as int, to_x as int, to_y as int), color),
            ));
        }
    }

    /// Draws the three sides of a triangle. The corners have to be on the
    /// screen.
    pub fn triangle(
        &mut self,
        x1: usize,
        y1: usize,
        x2: usize,
        y2: usize,
        x3: usize,
        y3: usize,
        color: RGB,
    )
        requires
            x1 < old(self).width(),
            x2 < old(self).width(),
            x3 < old(self).width(),
            y1 < old(self).height(),
            y2 < old(self).height(),
            y3 < old(self).height(),
        ensures
            final(self)@ == overlay(
                old(self)@,
                solid(
                    on_triangle(
                        x1 as int,
                        y1 as int,
                        x2 as int,
                        y2 as int,
                        x3 as int,
                        y3 as int,
                    ),
                    color,
                ),
            ),
            old(self).redrawn(final(self)),
    {
        proof {
            use_type_invariant(&*self);
        }
        self.line(x1, y1, x2, y2, color);
        self.line(x2, y2, x3, y3, color);
        self.line(x3, y3, x1, y1, color);
        assert(self@ =~~= overlay(
            old(self)@,
            solid(
                on_triangle(x1 as int, y1 as int, x2 as int, y2 as int, x3 as int, y3 as int),
                color,
            ),
        ));
    }

    /// Fills the rectangle of the pixels with `from_x <= x < to_x` and
    /// `from_y <= y < to_y`. Unless it is empty, it has to lie on the screen.
    pub fn rectangle(&mut self, from_x: usize, from_y: usize, to_x: usize, to_y: usize, color: RGB)
        requires
            from_x < to_x && from_y < to_y ==> to_x <= old(self).width() && to_y <= old(
                self,
            ).height(),
        ensures
            final(self)@ == overlay(
                old(self)@,
                solid(in_rectangle(from_x as int, from_y as int, to_x as int, to_y as int), color),
            ),
            old(self).redrawn(final(self)),
    {
        proof {
            use_type_invariant(&*self);
        }
        if from_x >= to_x || from_y >= to_y {
            assert(self@ =~~= overlay(
                old(self)@,
                solid(in_rectangle(from_x as int, from_y as int, to_x as int, to_y as int), color),
            ));
            return ;
        }
        let mut y = from_y;
        assert(self@ =~~= overlay(
            old(self)@,
            solid(in_rectangle(from_x as int, from_y as int, to_x as int, from_y as int), color),
        ));
        while y < to_y
            invariant
                from_y <= y <= to_y,
                from_x < to_x <= old(self).width(),
                to_y <= old(self).height(),
                old(self).redrawn(&*self),
                old(self).shaped(),
                self@ == overlay(
                    old(self)@,
                    solid(in_rectangle(from_x as int, from_y as int, to_x as int, y as int), color),
                ),
            decreases to_y - y,
        {
            let mut x = from_x;
            let ghost above = self@;
            assert(self@ =~~= overlay(
                above,
                solid(in_rectangle(from_x as int, y as int, from_x as int, y + 1), color),
            ));
            while x < to_x
                invariant
                    from_y <= y < to_y,
                    from_x <= x <= to_x,
                    to_x <= old(self).width(),
                    to_y <= old(self).height(),
                    old(self).redrawn(&*self),
                    old(self).shaped(),
                    above == overlay(
                        old(self)@,
                        solid(
                            in_rectangle(from_x as int, from_y as int, to_x as int, y as int),
                            color,
                        ),
                    ),
                    self@ == overlay(
                        above,
                        solid(in_rectangle(from_x as int, y as int, x as int, y + 1), color),
                    ),
                decreases to_x - x,
            {
                self.set_pixel(x, y, color);
                assert(self@ =~~= overlay(
                    above,
                    solid(in_rectangle(from_x as int, y as int, x + 1, y + 1), color),
                ));
                x = x + 1;
            }
            assert(self@ =~~= overlay(
                old(self)@,
                solid(in_rectangle(from_x as int, from_y as int, to_x as int, y + 1), color),
            ));
            y = y + 1;
        }
    }
}


/// A picture that can be drawn on a screen: rows of pixels from the top, in
/// which `None` is a transparent pixel.
pub type LoadedImage = Vec<Vec<Option<Pixel>>>;

/// The rows of a stored picture as sequences.
pub open spec fn picture(rows: Seq<Vec<Option<Pixel>>>) -> Seq<Seq<Option<RGB>>> {
    Seq::new(rows.len(), |r: int| rows[r]@)
}

/// The picture with its rows in the opposite order: top and bottom change
/// places.
pub open spec fn flip_rows(p: Seq<Seq<Option<RGB>>>) -> Seq<Seq<Option<RGB>>> {
    Seq::new(p.len(), |r: int| p[p.len() - 1 - r])
}

/// The picture with the pixels of every row in the opposite order: left and
/// right change places.
pub open spec fn flip_columns(p: Seq<Seq<Option<RGB>>>) -> Seq<Seq<Option<RGB>>> {
    Seq::new(p.len(), |r: int| Seq::new(p[r].len(), |c: int| p[r][p[r].len() - 1 - c]))
}

/// The picture as `image` lays it out: `mirror_horizontal` reverses the order
/// of the rows, `mirror_vertical` the order of the pixels in each row.
pub open spec fn mirrored(
    p: Seq<Seq<Option<RGB>>>,
    mirror_horizontal: bool,
    mirror_vertical: bool,
) -> Seq<Seq<Option<RGB>>> {
    let rows = if mirror_horizontal {
        flip_rows(p)
    } else {
        p
    };
    if mirror_vertical {
        flip_columns(rows)
    } else {
        rows
    }
}

/// The colour that picture `p`, placed with its first pixel at `(x, y)`,
/// gives to the pixel at `(px, py)`. With `rotate` the picture's rows run
/// down the screen and its columns across. With a `tint` every pixel of the
/// picture that is not transparent has that colour.
pub open spec fn sprite_at(
    p: Seq<Seq<Option<RGB>>>,
    x: int,
    y: int,
    rotate: bool,
    tint: Option<RGB>,
    px: int,
    py: int,
) -> Option<RGB> {
    let column = if rotate {
        py - y
    } else {
        px - x
    };
    let row = if rotate {
        px - x
    } else {
        py - y
    };
    if 0 <= row < p.len() && 0 <= column < p[row].len() {
        match p[row][column] {
            Some(own) => Some(
                match tint {
                    Some(other) => other,
                    None => own,
                },
            ),
            None => None,
        }
    } else {
        None
    }
}

/// The layer that a picture makes: see `sprite_at`.
pub open spec fn sprite(p: Seq<Seq<Option<RGB>>>, x: int, y: int, rotate: bool, tint: Option<RGB>)
    -> spec_fn(int, int) -> Option<RGB> {
    |px: int, py: int| sprite_at(p, x, y, rotate, tint, px, py)
}

/// What `sprite_at` gives when only the picture's rows before `row`, and the
/// first `column` pixels of that row, are drawn.
spec fn sprite_part_at(
    p: Seq<Seq<Option<RGB>>>,
    x: int,
    y: int,
    rotate: bool,
    tint: Option<RGB>,
    row: int,
    column: int,
    px: int,
    py: int,
) -> Option<RGB> {
    let c = if rotate {
        py - y
    } else {
        px - x
    };
    let r = if rotate {
        px - x
    } else {
        py - y
    };
    if r < row || (r == row && c < column) {
        sprite_at(p, x, y, rotate, tint, px, py)
    } else {
        None
    }
}

/// The layer of a picture drawn in part: see `sprite_part_at`.
spec fn sprite_part(
    p: Seq<Seq<Option<RGB>>>,
    x: int,
    y: int,
    rotate: bool,
    tint: Option<RGB>,
    row: int,
    column: int,
) -> spec_fn(int, int) -> Option<RGB> {
    |px: int, py: int| sprite_part_at(p, x, y, rotate, tint, row, column, px, py)
}

/// The pixel stored at byte `at` of an RGBA buffer: transparent where the
/// alpha byte is zero.
pub open spec fn texel(rgba: Seq<u8>, at: int) -> Option<RGB> {
    if rgba[at + 3] != 0 {
        Some(RGB(rgba[at], rgba[at + 1], rgba[at + 2]))
    } else {
        None
    }
}

/// The picture that an RGBA buffer of `height` rows of `width` pixels holds.
pub open spec fn decoded(width: nat, height: nat, rgba: Seq<u8>) -> Seq<Seq<Option<RGB>>> {
    Seq::new(height, |y: int| Seq::new(width, |x: int| texel(rgba, 4 * (y * width + x))))
}

/// Why a file could not be turned into a picture.
#[derive(Copy, Clone, Debug, PartialEq, Eq, Structural)]
pub enum ImageFault {
    /// The file is no image that can be decoded into four bytes for each
    /// of its pixels.
    Undecodable,
}

/// The error of the `image` crate.
#[verifier::external_type_specification]
#[verifier::external_body]
pub struct ExImageError(image::ImageError);

/// What the `image` crate makes of an image file: the image's width, its
/// height and its pixels as RGBA bytes, row by row, or nothing if the file
/// cannot be decoded. This is what `image::load_from_memory` returns for the
/// file, converted with `to_rgba8`.
pub uninterp spec fn rgba_of(file: Seq<u8>) -> Option<(u32, u32, Seq<u8>)>;

/// Decodes an image file with `image::load_from_memory`, which tells the
/// format by the file's first bytes, and converts the image with `to_rgba8`.
///
/// The contract claims no more than that the result depends on the bytes of
/// the file alone, and gives it the name `rgba_of`: what the width, the
/// height and the pixels are is not stated.
#[verifier::external_body]
fn decode_rgba(file: &[u8]) -> (decoded: Result<(u32, u32, Vec<u8>), image::ImageError>)
    ensures
        match decoded {
            Ok(image) => rgba_of(file@) == Some((image.0, image.1, image.2@)),
            Err(_) => rgba_of(file@) is None,
        },
{
    let image = image::load_from_memory(file)?.to_rgba8();
    Ok((image.width(), image.height(), image.into_raw()))
}

/// The part of a picture with `x1 <= x < x2` and `y1 <= y < y2`.
pub open spec fn section(p: Seq<Seq<Option<RGB>>>, x1: int, y1: int, x2: int, y2: int) -> Seq<
    Seq<Option<RGB>>,
> {
    Seq::new((y2 - y1) as nat, |r: int| p[y1 + r].subrange(x1, x2))
}

/// Flipping a picture top to bottom twice gives the picture back.
pub proof fn lemma_flip_rows_twice(p: Seq<Seq<Option<RGB>>>)
    ensures
        flip_rows(flip_rows(p)) == p,
        mirrored(mirrored(p, true, false), true, false) == p,
{
    assert(flip_rows(flip_rows(p)) =~= p);
}

/// Flipping a picture left to right twice gives the picture back.
pub proof fn lemma_flip_columns_twice(p: Seq<Seq<Option<RGB>>>)
    ensures
        flip_columns(flip_columns(p)) == p,
        mirrored(mirrored(p, false, true), false, true) == p,
{
    assert(flip_columns(flip_columns(p)) =~~= p);
}

/// The picture after `times` flips top to bottom.
pub open spec fn flip_rows_times(p: Seq<Seq<Option<RGB>>>, times: nat) -> Seq<Seq<Option<RGB>>>
    decreases times,
{
    if times == 0 {
        p
    } else {
        flip_rows(flip_rows_times(p, (times - 1) as nat))
    }
}

/// The picture after `times` flips left to right.
pub open spec fn flip_columns_times(p: Seq<Seq<Option<RGB>>>, times: nat) -> Seq<
    Seq<Option<RGB>>,
>
    decreases times,
{
    if times == 0 {
        p
    } else {
        flip_columns(flip_columns_times(p, (times - 1) as nat))
    }
}

/// An even number of flips top to bottom gives the picture back.
pub proof fn lemma_flip_rows_even(p: Seq<Seq<Option<RGB>>>, times: nat)
    requires
        times % 2 == 0,
    ensures
        flip_rows_times(p, times) == p,
    decreases times,
{
    if times >= 2 {
        lemma_flip_rows_even(p, (times - 2) as nat);
        reveal_with_fuel(flip_rows_times, 3);
        lemma_flip_rows_twice(p);
    }
}

/// An even number of flips left to right gives the picture back.
pub proof fn lemma_flip_columns_even(p: Seq<Seq<Option<RGB>>>, times: nat)
    requires
        times % 2 == 0,
    ensures
        flip_columns_times(p, times) == p,
    decreases times,
{
    if times >= 2 {
        lemma_flip_columns_even(p, (times - 2) as nat);
        reveal_with_fuel(flip_columns_times, 3);
        lemma_flip_columns_twice(p);
    }
}

impl Screen {
    /// Whether this is a screen for a terminal of the given size on which
    /// nothing was drawn yet.
    pub open spec fn fresh(&self, columns: u16, rows: u16) -> bool {
        &&& self.spec_width() == columns
        &&& self.spec_height() == 2 * rows
        &&& self@ == uniform(columns as nat, (2 * rows) as nat, blank())
        &&& self.baseline() == self@
    }

    /// Makes the screen for a terminal of `columns` by `rows` characters: as
    /// wide as the terminal and twice as high.
    ///
    /// `initial_draw` is handed the screen once, all black, to paint what
    /// stays: the screen it gives back is the one that `reset` returns to
    /// from then on.
    pub fn new<F: FnOnce(Screen) -> Screen>(columns: u16, rows: u16, initial_draw: F) -> (screen:
        Screen)
        requires
            forall|empty: Screen| empty.fresh(columns, rows) ==> call_requires(initial_draw, (empty,)),
        ensures
            screen.shaped(),
            screen.baseline() == screen@,
            exists|empty: Screen, painted: Screen|
                empty.fresh(columns, rows) && #[trigger] call_ensures(
                    initial_draw,
                    (empty,),
                    painted,
                ) && screen@ == painted@ && screen.width() == painted.width() && screen.height()
                    == painted.height(),
    {
        let width = columns as usize;
        let height = (rows as usize) * 2;
        let data = vec![vec![RGB(0, 0, 0); width]; height];
        let initial = vec![vec![RGB(0, 0, 0); width]; height];
        let empty = Screen { height, width, data, initial };
        let ghost given = empty;
        assert(empty@ =~~= uniform(columns as nat, (2 * rows) as nat, blank()));
        assert(empty.baseline() =~~= empty@);
        assert(empty.fresh(columns, rows));
        let painted = initial_draw(empty);
        let ghost got = painted;
        proof {
            use_type_invariant(&painted);
        }
        let Screen { height, width, data, initial: _ } = painted;
        let initial = data.clone();
        let screen = Screen { height, width, data, initial };
        assert(screen.baseline() =~~= screen@);
        assert(given.fresh(columns, rows) && call_ensures(initial_draw, (given,), got));
        screen
    }

    /// Draws a picture with its first pixel at `(x, y)`.
    ///
    /// `mirror_horizontal` reverses the order of the rows, `mirror_vertical`
    /// the order of the pixels in each row, and `rotate` lets the rows run
    /// down the screen in place of across. Transparent pixels leave the screen
    /// as it is, and so do pixels that would land outside it. With a `color`
    /// all the other pixels are drawn in that colour.
    pub fn image(
        &mut self,
        x: usize,
        y: usize,
        image: &LoadedImage,
        mirror_horizontal: bool,
        mirror_vertical: bool,
        rotate: bool,
        color: Option<RGB>,
    )
        ensures
            final(self)@ == overlay(
                old(self)@,
                sprite(
                    mirrored(picture(image@), mirror_horizontal, mirror_vertical),
                    x as int,
                    y as int,
                    rotate,
                    color,
                ),
            ),
            old(self).redrawn(final(self)),
    {
        proof {
            use_type_invariant(&*self);
        }
        let ghost p = mirrored(picture(image@), mirror_horizontal, mirror_vertical);
        let rows = image.len();
        let mut r: usize = 0;
        assert(self@ =~~= overlay(
            old(self)@,
            sprite_part(p, x as int, y as int, rotate, color, 0, 0),
        ));
        while r < rows
            invariant
                r <= rows,
                rows == image.len(),
                p == mirrored(picture(image@), mirror_horizontal, mirror_vertical),
                old(self).redrawn(&*self),
                old(self).shaped(),
                self@ == overlay(
                    old(self)@,
                    sprite_part(p, x as int, y as int, rotate, color, r as int, 0),
                ),
            decreases rows - r,
        {
            let source = if mirror_horizontal {
                &image[rows - 1 - r]
            } else {
                &image[r]
            };
            let columns = source.len();
            assert(p[r as int].len() == columns);
            let mut c: usize = 0;
            while c < columns
                invariant
                    r < rows,
                    c <= columns,
                    rows == image.len(),
                    columns == source.len(),
                    p == mirrored(picture(image@), mirror_horizontal, mirror_vertical),
                    p[r as int].len() == columns,
                    forall|k: int|
                        0 <= k < columns ==> #[trigger] p[r as int][k] == source[if mirror_vertical {
                            columns - 1 - k
                        } else {
                            k
                        }],
                    old(self).redrawn(&*self),
                    old(self).shaped(),
                    self@ == overlay(
                        old(self)@,
                        sprite_part(p, x as int, y as int, rotate, color, r as int, c as int),
                    ),
                decreases columns - c,
            {
                let pixel = if mirror_vertical {
                    source[columns - 1 - c]
                } else {
                    source[c]
                };
                assert(pixel == p[r as int][c as int]);
                let across = if rotate {
                    r
                } else {
                    c
                };
                let down = if rotate {
                    c
                } else {
                    r
                };
                if let Some(own) = pixel {
                    let shade = match color {
                        Some(other) => other,
                        None => own,
                    };
                    if let Some(px) = x.checked_add(across) {
                        if let Some(py) = y.checked_add(down) {
                            if px < self.width && py < self.height {
                                self.set_pixel(px, py, shade);
                            }
                        }
                    }
                }
                assert(self@ =~~= overlay(
                    old(self)@,
                    sprite_part(p, x as int, y as int, rotate, color, r as int, c + 1),
                ));
                c = c + 1;
            }
            assert(self@ =~~= overlay(
                old(self)@,
                sprite_part(p, x as int, y as int, rotate, color, r + 1, 0),
            ));
            r = r + 1;
        }
        assert(self@ =~~= overlay(old(self)@, sprite(p, x as int, y as int, rotate, color)));
    }

    /// Loads an image file into a picture that can be drawn: the file is
    /// decoded, and the pixels of the image become those of the picture as
    /// in `from_rgba`.
    pub fn load_image(file: &[u8]) -> (loaded: Result<LoadedImage, ImageFault>)
        ensures
            match rgba_of(file@) {
                Some((width, height, rgba)) if rgba.len() == 4 * (width * height) => loaded matches Ok(
                    image,
                ) && picture(image@) == decoded(width as nat, height as nat, rgba),
                _ => loaded matches Err(ImageFault::Undecodable),
            },
    {
        match decode_rgba(file) {
            Ok((width, height, rgba)) => {
                assert(width * height <= 0xffff_ffff * 0xffff_ffff) by (nonlinear_arith)
                    requires
                        0 <= width <= 0xffff_ffff,
                        0 <= height <= 0xffff_ffff,
                ;
                if rgba.len() as u128 == 4 * (width as u128 * height as u128) {
                    Ok(Screen::from_rgba(width, height, rgba.as_slice()))
                } else {
                    Err(ImageFault::Undecodable)
                }
            },
            Err(_) => Err(ImageFault::Undecodable),
        }
    }

    /// Turns a decoded image into a picture: `rgba` holds `height` rows of
    /// `width` pixels, four bytes each (red, green, blue, alpha), and a pixel
    /// whose alpha is zero becomes transparent.
    pub fn from_rgba(width: u32, height: u32, rgba: &[u8]) -> (result: LoadedImage)
        requires
            rgba.len() == 4 * (width * height),
        ensures
            picture(result@) == decoded(width as nat, height as nat, rgba@),
    {
        let mut result: LoadedImage = Vec::new();
        let mut at: usize = 0;
        let mut y: u32 = 0;
        while y < height
            invariant
                y <= height,
                rgba.len() == 4 * (width * height),
                at == 4 * (y * width),
                result.len() == y,
                forall|r: int|
                    0 <= r < y ==> (#[trigger] result[r])@ == decoded(
                        width as nat,
                        height as nat,
                        rgba@,
                    )[r],
            decreases height - y,
        {
            let mut row: Vec<Option<Pixel>> = Vec::new();
            let mut x: u32 = 0;
            proof {
                assert((y + 1) * width <= height * width) by (nonlinear_arith)
                    requires
                        y + 1 <= height,
                        0 <= width,
                ;
                assert((y + 1) * width == y * width + width) by (nonlinear_arith);
                assert(height * width == width * height) by (nonlinear_arith);
            }
            while x < width
                invariant
                    x <= width,
                    y < height,
                    rgba.len() == 4 * (width * height),
                    y * width + width <= width * height,
                    at == 4 * (y * width + x),
                    row.len() == x,
                    forall|c: int|
                        0 <= c < x ==> #[trigger] row[c] == texel(rgba@, 4 * (y * width + c)),
                decreases width - x,
            {
                let pixel = if rgba[at + 3] != 0 {
                    Some(RGB(rgba[at], rgba[at + 1], rgba[at + 2]))
                } else {
                    None
                };
                row.push(pixel);
                at = at + 4;
                x = x + 1;
            }
            assert(row@ =~= decoded(width as nat, height as nat, rgba@)[y as int]);
            result.push(row);
            y = y + 1;
        }
        assert(picture(result@) =~~= decoded(width as nat, height as nat, rgba@));
        result
    }

    /// Copies a part of a picture, as for one sprite of a sheet: the pixels
    /// with `x1 <= x < x2` and `y1 <= y < y2`. Every row taken has to reach
    /// as far as `x2`.
    pub fn load_section(image: &LoadedImage, x1: usize, y1: usize, x2: usize, y2: usize) -> (result:
        LoadedImage)
        requires
            y1 <= y2 <= image.len(),
            y1 < y2 ==> x1 <= x2,
            forall|r: int| y1 <= r < y2 ==> x2 <= (#[trigger] image@[r]).len(),
        ensures
            picture(result@) == section(picture(image@), x1 as int, y1 as int, x2 as int, y2 as int),
    {
        let mut result: LoadedImage = Vec::with_capacity(y2 - y1);
        let mut r = y1;
        while r < y2
            invariant
                y1 <= r <= y2 <= image.len(),
                y1 < y2 ==> x1 <= x2,
                forall|k: int| y1 <= k < y2 ==> x2 <= (#[trigger] image@[k]).len(),
                result.len() == r - y1,
                forall|k: int|
                    0 <= k < r - y1 ==> (#[trigger] result[k])@ == image[y1 + k]@.subrange(
                        x1 as int,
                        x2 as int,
                    ),
            decreases y2 - r,
        {
            let line = slice_to_vec(slice_subrange(image[r].as_slice(), x1, x2));
            result.push(line);
            r = r + 1;
        }
        assert(picture(result@) =~~= section(
            picture(image@),
            x1 as int,
            y1 as int,
            x2 as int,
            y2 as int,
        ));
        result
    }
}


/// The lower-case form of an ASCII capital; any other character unchanged.
pub open spec fn ascii_lower(ch: char) -> char {
    if 'A' <= ch && ch <= 'Z' {
        ((ch as u8) + 32) as char
    } else {
        ch
    }
}

/// The line of text on which character `i` stands: the number of newlines
/// before it.
pub open spec fn text_line(chars: Seq<char>, i: int) -> int
    decreases i,
{
    if i <= 0 {
        0
    } else {
        text_line(chars, i - 1) + if chars[i - 1] == '\n' {
            1int
        } else {
            0int
        }
    }
}

/// The place of character `i` in its line: the number of characters between
/// it and the newline before it.
pub open spec fn text_column(chars: Seq<char>, i: int) -> int
    decreases i,
{
    if i <= 0 {
        0
    } else if chars[i - 1] == '\n' {
        0
    } else {
        text_column(chars, i - 1) + 1
    }
}

/// Whether the glyph for `ch`, with its top left corner at `(left, top)`,
/// has a set bit on the pixel `(px, py)`.
pub open spec fn glyph_hits(font: &Font, ch: char, left: int, top: int, px: int, py: int) -> bool {
    let column = px - left;
    let row = py - top;
    0 <= column < 8 && 0 <= row < font.header.glyph_size && bit_at(
        font.glyph_byte(ch, row),
        column,
    ) == 1
}

/// Whether `glyph_hits` holds through one of the glyph's rows before `row`,
/// or through one of the first `column` bits of that row.
spec fn glyph_part_hits(
    font: &Font,
    ch: char,
    left: int,
    top: int,
    row: int,
    column: int,
    px: int,
    py: int,
) -> bool {
    glyph_hits(font, ch, left, top, px, py) && (py - top < row || (py - top == row && px - left
        < column))
}

/// Where the glyph of character `i` has its left edge, for text that starts
/// at `x`: glyphs are 8 pixels apart.
pub open spec fn glyph_left(chars: Seq<char>, x: int, i: int) -> int {
    x + 8 * text_column(chars, i)
}

/// Where the glyph of character `i` has its top edge, for text that starts at
/// `y`: lines are the glyph's height and 2 pixels apart.
pub open spec fn glyph_top(font: &Font, chars: Seq<char>, y: int, i: int) -> int {
    y + text_line(chars, i) * (font.header.glyph_height + 2)
}

/// Whether character `i` of the text plots the pixel `(px, py)`. A newline
/// plots nothing; any other character is looked up in lower case.
pub open spec fn char_hits(font: &Font, chars: Seq<char>, x: int, y: int, i: int, px: int, py: int)
    -> bool {
    chars[i] != '\n' && glyph_hits(
        font,
        ascii_lower(chars[i]),
        glyph_left(chars, x, i),
        glyph_top(font, chars, y, i),
        px,
        py,
    )
}

/// Whether one of the first `n` characters of the text plots the pixel
/// `(px, py)`.
pub open spec fn text_hits(font: &Font, chars: Seq<char>, x: int, y: int, n: int, px: int, py: int)
    -> bool
    decreases n,
{
    n > 0 && (text_hits(font, chars, x, y, n - 1, px, py) || char_hits(
        font,
        chars,
        x,
        y,
        n - 1,
        px,
        py,
    ))
}

/// Selects the pixels that the text plots.
pub open spec fn in_text(font: &Font, chars: Seq<char>, x: int, y: int) -> spec_fn(int, int) -> bool {
    |px: int, py: int| text_hits(font, chars, x, y, chars.len() as int, px, py)
}

/// Whether the font has a glyph for every character of the text.
pub open spec fn text_known(font: &Font, chars: Seq<char>) -> bool {
    forall|i: int|
        0 <= i < chars.len() && #[trigger] chars[i] != '\n' ==> font.has_glyph(
            ascii_lower(chars[i]),
        )
}

/// Whether every pixel that the text plots lies on a screen of the given
/// size.
pub open spec fn text_fits(font: &Font, chars: Seq<char>, x: int, y: int, width: int, height: int)
    -> bool {
    forall|i: int, px: int, py: int|
        0 <= i < chars.len() && #[trigger] char_hits(font, chars, x, y, i, px, py) ==> px < width
            && py < height
}

/// The colour escape of a cell: `ESC [ <plane> 8 ; 2 ; r ; g ; b m`, where
/// `plane` is the digit 3 for the foreground and 4 for the background.
pub open spec fn color_bytes(plane: u8, color: RGB) -> Seq<u8> {
    seq![0x1bu8, 0x5bu8, plane, 0x38u8, 0x3bu8, 0x32u8, 0x3bu8] + decimal(color.0 as nat)
        + seq![0x3bu8] + decimal(color.1 as nat) + seq![0x3bu8] + decimal(color.2 as nat)
        + seq![0x6du8]
}

/// What is sent for one character cell: the lower pixel as foreground, the
/// upper pixel as background, and the lower half block `▄`.
pub open spec fn cell_bytes(upper: RGB, lower: RGB) -> Seq<u8> {
    color_bytes(0x33, lower) + color_bytes(0x34, upper) + seq![0xe2u8, 0x96u8, 0x84u8]
}

/// What is sent for the first `n` cells of a row of characters.
pub open spec fn strip_bytes(upper: Seq<RGB>, lower: Seq<RGB>, n: int) -> Seq<u8>
    decreases n,
{
    if n <= 0 {
        Seq::empty()
    } else {
        strip_bytes(upper, lower, n - 1) + cell_bytes(upper[n - 1], lower[n - 1])
    }
}

/// What is sent for the first `n` rows of characters: row `k` shows the pixel
/// rows `2k` and `2k + 1`.
pub open spec fn strips_bytes(grid: Seq<Seq<RGB>>, n: int) -> Seq<u8>
    decreases n,
{
    if n <= 0 {
        Seq::empty()
    } else {
        strips_bytes(grid, n - 1) + strip_bytes(
            grid[2 * (n - 1)],
            grid[2 * (n - 1) + 1],
            grid[2 * (n - 1)].len() as int,
        )
    }
}

/// A whole frame: the terminal is cleared and every pair of pixel rows is
/// sent, from the top. A last row without a partner is not shown.
pub open spec fn frame_bytes(grid: Seq<Seq<RGB>>) -> Seq<u8> {
    clear_home() + strips_bytes(grid, grid.len() as int / 2)
}

/// The length of a frame in nanoseconds: 16 ms, about 60 frames a second.
pub const TARGET_DELTA: u64 = 16_000_000;

/// How long the render loop sleeps after a frame that took `elapsed`
/// nanoseconds: the rest of the frame's time, and nothing after a frame that
/// took too long.
pub open spec fn pause_after(elapsed: int) -> int {
    if elapsed < TARGET_DELTA {
        TARGET_DELTA - elapsed
    } else {
        0
    }
}

/// When frame `k` of a render loop starts, in nanoseconds after the start of
/// frame 0, if frame `i` takes `cost(i)` and the loop then sleeps for just
/// the pause that is due.
pub open spec fn frame_start(cost: spec_fn(int) -> int, k: int) -> int
    decreases k,
{
    if k <= 0 {
        0
    } else {
        frame_start(cost, k - 1) + cost(k - 1) + pause_after(cost(k - 1))
    }
}

/// How many of the first `n` frames start in the `window` nanoseconds that
/// begin at `from`.
pub open spec fn frames_within(cost: spec_fn(int) -> int, n: int, from: int, window: int) -> int
    decreases n,
{
    if n <= 0 {
        0
    } else {
        frames_within(cost, n - 1, from, window) + if from <= frame_start(cost, n - 1) < from
            + window {
            1int
        } else {
            0int
        }
    }
}

/// As long as no frame takes longer than its time, frame `k` starts `k`
/// frame lengths after frame 0.
pub proof fn lemma_frames_on_time(cost: spec_fn(int) -> int, k: int)
    requires
        forall|i: int| 0 <= #[trigger] cost(i) <= TARGET_DELTA,
        0 <= k,
    ensures
        frame_start(cost, k) == k * TARGET_DELTA,
    decreases k,
{
    if k > 0 {
        lemma_frames_on_time(cost, k - 1);
    }
}

// Frame `m` starts in the window exactly if `m` lies between the window's
// two ends counted in frames.
proof fn lemma_frames_counted(cost: spec_fn(int) -> int, n: int, from: int, window: int)
    requires
        forall|i: int| 0 <= #[trigger] cost(i) <= TARGET_DELTA,
        0 <= n,
        0 <= from,
        0 <= window,
    ensures
        ({
            let first = (from + TARGET_DELTA - 1) / (TARGET_DELTA as int);
            let end = (from + window + TARGET_DELTA - 1) / (TARGET_DELTA as int);
            frames_within(cost, n, from, window) == if n <= first {
                0
            } else if n <= end {
                n - first
            } else {
                end - first
            }
        }),
    decreases n,
{
    if n > 0 {
        lemma_frames_counted(cost, n - 1, from, window);
        lemma_frames_on_time(cost, n - 1);
    }
}

/// In a render loop in which no frame takes longer than its time, the number
/// of frames that start in a window of time is the window's length divided
/// by the frame length, rounded down or up. The window has to lie in the
/// time that the first `n` frames take.
pub proof fn lemma_frames_in_window(cost: spec_fn(int) -> int, n: int, from: int, window: int)
    requires
        forall|i: int| 0 <= #[trigger] cost(i) <= TARGET_DELTA,
        0 <= n,
        0 <= from,
        0 <= window,
        from + window <= frame_start(cost, n),
    ensures
        window / (TARGET_DELTA as int) <= frames_within(cost, n, from, window) <= (window
            + TARGET_DELTA - 1) / (TARGET_DELTA as int),
{
    lemma_frames_counted(cost, n, from, window);
    lemma_frames_on_time(cost, n);
}

/// How long the render loop sleeps after a frame that took `elapsed`
/// nanoseconds.
pub fn frame_pause(elapsed: u64) -> (pause: u64)
    ensures
        pause == pause_after(elapsed as int),
{
    if elapsed < TARGET_DELTA {
        TARGET_DELTA - elapsed
    } else {
        0
    }
}

/// Turns an ASCII capital into its lower-case form.
pub fn to_ascii_lower(ch: char) -> (lower: char)
    ensures
        lower == ascii_lower(ch),
{
    if ch >= 'A' && ch <= 'Z' {
        ((ch as u8) + 32) as char
    } else {
        ch
    }
}

// Appends a colour escape.
fn push_color(out: &mut Vec<u8>, plane: u8, color: RGB)
    ensures
        final(out)@ == old(out)@ + color_bytes(plane, color),
{
    out.push(0x1b);
    out.push(0x5b);
    out.push(plane);
    out.push(0x38);
    out.push(0x3b);
    out.push(0x32);
    out.push(0x3b);
    push_decimal(out, color.0 as u64);
    out.push(0x3b);
    push_decimal(out, color.1 as u64);
    out.push(0x3b);
    push_decimal(out, color.2 as u64);
    out.push(0x6d);
    assert(out@ =~= old(out)@ + color_bytes(plane, color));
}

// Appends one character cell.
fn push_cell(out: &mut Vec<u8>, upper: RGB, lower: RGB)
    ensures
        final(out)@ == old(out)@ + cell_bytes(upper, lower),
{
    push_color(out, 0x33, lower);
    push_color(out, 0x34, upper);
    out.push(0xe2);
    out.push(0x96);
    out.push(0x84);
    assert(out@ =~= old(out)@ + cell_bytes(upper, lower));
}

impl Screen {
    /// The bytes that show the screen on the terminal, two pixel rows to a
    /// row of characters.
    pub fn render(&self) -> (out: Vec<u8>)
        ensures
            out@ == frame_bytes(self@),
    {
        proof {
            use_type_invariant(self);
        }
        let mut out: Vec<u8> = Vec::new();
        push_clear_home(&mut out);
        let strips = self.height / 2;
        let mut k: usize = 0;
        assert(out@ =~= clear_home() + strips_bytes(self@, 0));
        while k < strips
            invariant
                k <= strips,
                strips == self.height / 2,
                self.data.len() == self.height,
                forall|y: int| 0 <= y < self.height ==> (#[trigger] self.data[y]).len() == self.width,
                out@ == clear_home() + strips_bytes(self@, k as int),
            decreases strips - k,
        {
            let ghost upper = self@[2 * k];
            let ghost lower = self@[2 * k + 1];
            let mut x: usize = 0;
            let ghost head = out@;
            assert(out@ =~= head + strip_bytes(upper, lower, 0));
            while x < self.width
                invariant
                    k < strips,
                    strips == self.height / 2,
                    x <= self.width,
                    self.data.len() == self.height,
                    forall|y: int|
                        0 <= y < self.height ==> (#[trigger] self.data[y]).len() == self.width,
                    upper == self@[2 * k],
                    lower == self@[2 * k + 1],
                    out@ == head + strip_bytes(upper, lower, x as int),
                decreases self.width - x,
            {
                let pixel = self.data[2 * k][x];
                let next = self.data[2 * k + 1][x];
                push_cell(&mut out, pixel, next);
                assert(out@ =~= head + strip_bytes(upper, lower, x + 1)) by {
                    assert(upper[x as int] == pixel);
                    assert(lower[x as int] == next);
                    assert(strip_bytes(upper, lower, x + 1) == strip_bytes(upper, lower, x as int)
                        + cell_bytes(pixel, next));
                }
                x = x + 1;
            }
            assert(out@ =~= clear_home() + strips_bytes(self@, k + 1)) by {
                assert(upper.len() == self.width);
                assert(strips_bytes(self@, k + 1) == strips_bytes(self@, k as int) + strip_bytes(
                    upper,
                    lower,
                    upper.len() as int,
                ));
            }
            k = k + 1;
        }
        out
    }

    // Plots the set bits of one glyph, which have to land on the screen.
    fn stamp(&mut self, font: &Font, ch: char, x: usize, y: usize, offset: usize, line: usize, color: RGB)
        requires
            font.has_glyph(ch),
            forall|px: int, py: int| #[trigger]
                glyph_hits(
                    font,
                    ch,
                    x + 8 * offset,
                    y + line * (font.header.glyph_height + 2),
                    px,
                    py,
                ) ==> px < old(self).width() && py < old(self).height(),
        ensures
            final(self)@ == overlay(
                old(self)@,
                solid(
                    |px: int, py: int|
                        glyph_hits(
                            font,
                            ch,
                            x + 8 * offset,
                            y + line * (font.header.glyph_height + 2),
                            px,
                            py,
                        ),
                    color,
                ),
            ),
            old(self).redrawn(final(self)),
    {
        proof {
            use_type_invariant(&*self);
        }
        let ghost left = x + 8 * offset;
        let ghost top = y + line * (font.header.glyph_height + 2);
        let glyph = font.get_char(ch);
        let rows = glyph.len();
        let mut r: usize = 0;
        assert(self@ =~~= overlay(
            old(self)@,
            solid(|px: int, py: int| glyph_part_hits(font, ch, left, top, 0, 0, px, py), color),
        ));
        while r < rows
            invariant
                r <= rows,
                rows == glyph.len(),
                rows == font.header.glyph_size,
                glyph.deep_view() == font.glyph(ch),
                forall|k: int| 0 <= k < rows ==> (#[trigger] glyph[k]).len() == 8,
                left == x + 8 * offset,
                top == y + line * (font.header.glyph_height + 2),
                forall|px: int, py: int| #[trigger]
                    glyph_hits(font, ch, left, top, px, py) ==> px < old(self).width() && py < old(
                        self,
                    ).height(),
                old(self).redrawn(&*self),
                old(self).shaped(),
                self@ == overlay(
                    old(self)@,
                    solid(
                        |px: int, py: int|
                            glyph_part_hits(font, ch, left, top, r as int, 0, px, py),
                        color,
                    ),
                ),
            decreases rows - r,
        {
            let mut c: usize = 0;
            while c < 8
                invariant
                    r < rows,
                    c <= 8,
                    rows == glyph.len(),
                    rows == font.header.glyph_size,
                    glyph.deep_view() == font.glyph(ch),
                    forall|k: int| 0 <= k < rows ==> (#[trigger] glyph[k]).len() == 8,
                    left == x + 8 * offset,
                    top == y + line * (font.header.glyph_height + 2),
                    forall|px: int, py: int| #[trigger]
                        glyph_hits(font, ch, left, top, px, py) ==> px < old(self).width() && py
                            < old(self).height(),
                    old(self).redrawn(&*self),
                    old(self).shaped(),
                    self@ == overlay(
                        old(self)@,
                        solid(
                            |px: int, py: int|
                                glyph_part_hits(font, ch, left, top, r as int, c as int, px, py),
                            color,
                        ),
                    ),
                decreases 8 - c,
            {
                let bit = glyph[r][c];
                proof {
                    assert(glyph.deep_view()[r as int][c as int] == bit);
                    assert(font.glyph(ch)[r as int][c as int] == bit_at(
                        font.glyph_byte(ch, r as int),
                        c as int,
                    ));
                }
                if bit == 1 {
                    assert(glyph_hits(font, ch, left, top, left + c, top + r));
                    let step = if line == 0 {
                        0
                    } else {
                        assert(font.header.glyph_height + 2 <= line * (font.header.glyph_height + 2))
                            by (nonlinear_arith)
                            requires
                                line >= 1,
                        ;
                        line * (font.header.glyph_height as usize + 2)
                    };
                    let px = x + c + offset * 8;
                    let py = y + r + step;
                    self.set_pixel(px, py, color);
                }
                assert(self@ =~~= overlay(
                    old(self)@,
                    solid(
                        |px: int, py: int|
                            glyph_part_hits(font, ch, left, top, r as int, c + 1, px, py),
                        color,
                    ),
                ));
                c = c + 1;
            }
            assert(self@ =~~= overlay(
                old(self)@,
                solid(
                    |px: int, py: int| glyph_part_hits(font, ch, left, top, r + 1, 0, px, py),
                    color,
                ),
            ));
            r = r + 1;
        }
        assert(self@ =~~= overlay(
            old(self)@,
            solid(|px: int, py: int| glyph_hits(font, ch, left, top, px, py), color),
        ));
    }

    /// Tells whether `text` can be drawn at `(x, y)`: whether the font holds
    /// every character and every plotted pixel is on the screen.
    pub fn can_text(&self, x: usize, y: usize, font: &Font, text: &str) -> (ok: bool)
        ensures
            ok == (text_known(font, text@) && text_fits(
                font,
                text@,
                x as int,
                y as int,
                self.width() as int,
                self.height() as int,
            )),
    {
        proof {
            use_type_invariant(self);
        }
        let total = text.unicode_len();
        let mut line: usize = 0;
        let mut offset: usize = 0;
        for ch in it: text.chars()
            invariant
                it.seq() == text@,
                total == text@.len(),
                line == text_line(text@, it.index() as int),
                offset == text_column(text@, it.index() as int),
                line <= it.index(),
                offset <= it.index(),
                self.data.len() == self.height,
                forall|i: int|
                    0 <= i < it.index() && #[trigger] text@[i] != '\n' ==> font.has_glyph(
                        ascii_lower(text@[i]),
                    ),
                forall|i: int, px: int, py: int|
                    0 <= i < it.index() && #[trigger] char_hits(
                        font,
                        text@,
                        x as int,
                        y as int,
                        i,
                        px,
                        py,
                    ) ==> px < self.width && py < self.height,
        {
            let ghost i = it.index() as int;
            assert(ch == text@[i]);
            if ch == '\n' {
                line = line + 1;
                offset = 0;
            } else {
                let lower = to_ascii_lower(ch);
                if !font.contains(lower) {
                    return false;
                }
                let ghost left = glyph_left(text@, x as int, i);
                let ghost top = glyph_top(font, text@, y as int, i);
                let glyph = font.get_char(lower);
                let rows = glyph.len();
                let mut r: usize = 0;
                while r < rows
                    invariant
                        r <= rows,
                        rows == glyph.len(),
                        rows == font.header.glyph_size,
                        glyph.deep_view() == font.glyph(lower),
                        forall|k: int| 0 <= k < rows ==> (#[trigger] glyph[k]).len() == 8,
                        0 <= i < text@.len(),
                        text@[i] == ch,
                        ch != '\n',
                        lower == ascii_lower(ch),
                        left == x + 8 * offset,
                        top == y + line * (font.header.glyph_height + 2),
                        left == glyph_left(text@, x as int, i),
                        top == glyph_top(font, text@, y as int, i),
                        forall|px: int, py: int|
                            glyph_hits(font, lower, left, top, px, py) && py - top < r ==> px
                                < self.width && py < self.height,
                    decreases rows - r,
                {
                    let mut c: usize = 0;
                    while c < 8
                        invariant
                            r < rows,
                            c <= 8,
                            rows == glyph.len(),
                            rows == font.header.glyph_size,
                            glyph.deep_view() == font.glyph(lower),
                            forall|k: int| 0 <= k < rows ==> (#[trigger] glyph[k]).len() == 8,
                            0 <= i < text@.len(),
                            text@[i] == ch,
                            ch != '\n',
                            lower == ascii_lower(ch),
                            left == x + 8 * offset,
                            top == y + line * (font.header.glyph_height + 2),
                            left == glyph_left(text@, x as int, i),
                            top == glyph_top(font, text@, y as int, i),
                            forall|px: int, py: int|
                                glyph_hits(font, lower, left, top, px, py) && (py - top < r || (py
                                    - top == r && px - left < c)) ==> px < self.width && py
                                    < self.height,
                        decreases 8 - c,
                    {
                        let bit = glyph[r][c];
                        proof {
                            assert(glyph.deep_view()[r as int][c as int] == bit);
                            assert(font.glyph(lower)[r as int][c as int] == bit_at(
                                font.glyph_byte(lower, r as int),
                                c as int,
                            ));
                        }
                        if bit == 1 {
                            assert(glyph_hits(font, lower, left, top, left + c, top + r));
                            assert(char_hits(font, text@, x as int, y as int, i, left + c, top + r));
                            let across = match offset.checked_mul(8) {
                                Some(shift) => match shift.checked_add(c) {
                                    Some(sum) => sum.checked_add(x),
                                    None => None,
                                },
                                None => None,
                            };
                            let step = match (font.header.glyph_height as usize).checked_add(2) {
                                Some(pitch) => line.checked_mul(pitch),
                                None => if line == 0 {
                                    Some(0)
                                } else {
                                    None
                                },
                            };
                            let down = match step {
                                Some(shift) => match shift.checked_add(r) {
                                    Some(sum) => sum.checked_add(y),
                                    None => None,
                                },
                                None => None,
                            };
                            proof {
                                let pitch = font.header.glyph_height + 2;
                                if line >= 1 {
                                    assert(pitch <= line * pitch) by (nonlinear_arith)
                                        requires
                                            line >= 1,
                                            pitch >= 0,
                                    ;
                                } else {
                                    assert(line * pitch == 0) by (nonlinear_arith)
                                        requires
                                            line == 0,
                                    ;
                                }
                                assert(across matches Some(px) ==> px == left + c);
                                assert(across is None ==> left + c > usize::MAX);
                                assert(down matches Some(py) ==> py == top + r);
                                assert(down is None ==> top + r > usize::MAX);
                            }
                            let inside = match across {
                                Some(px) => match down {
                                    Some(py) => px < self.width && py < self.height,
                                    None => false,
                                },
                                None => false,
                            };
                            if !inside {
                                return false;
                            }
                        }
                        c = c + 1;
                    }
                    r = r + 1;
                }
                assert forall|px: int, py: int| #[trigger]
                    char_hits(font, text@, x as int, y as int, i, px, py) implies px < self.width
                    && py < self.height by {
                    assert(glyph_hits(font, lower, left, top, px, py));
                }
                offset = offset + 1;
            }
        }
        true
    }

    /// Draws text with its top left corner at `(x, y)`.
    ///
    /// Every character is looked up in lower case and its glyph's set bits
    /// are plotted, glyphs 8 pixels apart. A newline starts the next line,
    /// back at `x` and lower by the glyph's height and 2 pixels. The font has
    /// to hold every character, and every plotted pixel has to be on the
    /// screen.
    pub fn text(&mut self, x: usize, y: usize, color: RGB, font: &Font, text: &str)
        requires
            text_known(font, text@),
            text_fits(
                font,
                text@,
                x as int,
                y as int,
                old(self).width() as int,
                old(self).height() as int,
            ),
        ensures
            final(self)@ == overlay(
                old(self)@,
                solid(in_text(font, text@, x as int, y as int), color),
            ),
            old(self).redrawn(final(self)),
    {
        proof {
            use_type_invariant(&*self);
        }
        let total = text.unicode_len();
        let mut line: usize = 0;
        let mut offset: usize = 0;
        assert(self@ =~~= overlay(
            old(self)@,
            solid(|px: int, py: int| text_hits(font, text@, x as int, y as int, 0, px, py), color),
        ));
        for ch in it: text.chars()
            invariant
                it.seq() == text@,
                total == text@.len(),
                line == text_line(text@, it.index() as int),
                offset == text_column(text@, it.index() as int),
                line <= it.index(),
                offset <= it.index(),
                text_known(font, text@),
                text_fits(
                    font,
                    text@,
                    x as int,
                    y as int,
                    old(self).width() as int,
                    old(self).height() as int,
                ),
                old(self).redrawn(&*self),
                old(self).shaped(),
                self@ == overlay(
                    old(self)@,
                    solid(
                        |px: int, py: int|
                            text_hits(font, text@, x as int, y as int, it.index() as int, px, py),
                        color,
                    ),
                ),
        {
            let ghost i = it.index() as int;
            assert(ch == text@[i]);
            if ch == '\n' {
                line = line + 1;
                offset = 0;
            } else {
                let lower = to_ascii_lower(ch);
                proof {
                    assert forall|px: int, py: int| #[trigger]
                        glyph_hits(
                            font,
                            lower,
                            x + 8 * offset,
                            y + line * (font.header.glyph_height + 2),
                            px,
                            py,
                        ) implies px < self.width() && py < self.height() by {
                        assert(char_hits(font, text@, x as int, y as int, i, px, py));
                    }
                }
                self.stamp(font, lower, x, y, offset, line, color);
                offset = offset + 1;
            }
            assert(self@ =~~= overlay(
                old(self)@,
                solid(
                    |px: int, py: int| text_hits(font, text@, x as int, y as int, i + 1, px, py),
                    color,
                ),
            ));
        }
    }

    /// One turn of the render loop.
    ///
    /// With a message waiting, the loop ends: the screen is handed back as it
    /// is and nothing is to be shown. Otherwise the screen is reset, `action`
    /// draws the frame on it, and the bytes that show it are returned with
    /// the screen.
    pub fn on_update<F: FnOnce(Screen) -> Screen>(
        self,
        message: Option<ChannelMessage>,
        action: F,
    ) -> (next: (Screen, Option<Vec<u8>>))
        requires
            message is None ==> forall|wiped: Screen|
                self.redrawn(&wiped) && wiped@ == self.baseline() ==> call_requires(
                    action,
                    (wiped,),
                ),
        ensures
            message is Some ==> next.0 == self && next.1 is None,
            message is None ==> (exists|wiped: Screen|
                self.redrawn(&wiped) && wiped@ == self.baseline() && #[trigger] call_ensures(
                    action,
                    (wiped,),
                    next.0,
                )),
            message is None ==> (next.1 matches Some(bytes) && bytes@ == frame_bytes(next.0@)),
    {
        match message {
            Some(ChannelMessage::Stop) => (self, None),
            None => {
                let mut screen = self;
                screen.reset();
                let ghost wiped = screen;
                assert(self.redrawn(&wiped) && wiped@ == self.baseline());
                let drawn = action(screen);
                let bytes = drawn.render();
                let next = (drawn, Some(bytes));
                assert(call_ensures(action, (wiped,), next.0));
                next
            },
        }
    }
}

} // verus!
