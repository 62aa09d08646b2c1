//! The game in which a stick figure catches what falls from the sky, and the
//! grid of characters that shows it.

use vstd::prelude::*;
use crate::ansi::decimal;
use crate::chance::random_between;
use crate::grid::in_rectangle;
use crate::grid::in_row;
use crate::grid::overlay;
use crate::grid::rectangular;
use crate::grid::solid;
use crate::grid::uniform;

verus! {

/// What a call of `tick` did.
#[derive(Copy, Clone, Debug, PartialEq, Eq, Structural)]
pub enum TickStatus {
    /// The game moved on.
    Ticked,
    /// The game is over.
    Exit,
    /// It was not yet time for the game to move.
    NoTick,
}

/// Something that falls.
#[derive(Copy, Clone, Debug, PartialEq, Eq, Structural)]
pub struct Food {
    pub pos_y: usize,
    pub pos_x: usize,
}

/// The state of the game.
pub struct Game {
    /// The left edge of the player, who stands at the bottom.
    pub player_x: usize,
    pub score: u32,
    pub lives: u8,
    pub foods: Vec<Food>,
    pub width: usize,
    pub height: usize,
    /// The amount of ticks that need to go by for a food to be spawned.
    pub ticks_for_food: u8,
    /// Calls of `tick` since the game last moved.
    pub tick: u8,
    /// Moves of the game since a food was last spawned.
    pub food_timer: u8,
}

/// How many calls of `tick` pass before the game moves.
pub const CALLS_PER_TICK: u8 = 20;

/// How far the player reaches to the right of `player_x`.
pub const PLAYER_REACH: usize = 5;

impl Food {
    /// Whether the food has reached the ground of a field `height` rows high.
    pub open spec fn grounded(self, height: usize) -> bool {
        self.pos_y >= height - 3
    }

    /// Whether the food is within the player's reach.
    pub open spec fn touching(self, player_x: usize, height: usize) -> bool {
        self.pos_x >= player_x && self.pos_x <= player_x + PLAYER_REACH && self.pos_y >= height
            - 7
    }

    /// The food one row lower.
    pub open spec fn fallen(self) -> Food {
        Food { pos_y: (self.pos_y + 1) as usize, pos_x: self.pos_x }
    }

    /// A food at the top of the field, in a column picked at random. The
    /// field has to have a column.
    pub fn new(game: &Game) -> (food: Food)
        requires
            game.width > 0,
        ensures
            food.pos_y == 0,
            food.pos_x < game.width,
    {
        let spawn_x = random_between(0, game.width);
        Food { pos_x: spawn_x, pos_y: 0 }
    }
}

/// How many of the first `n` foods the player catches.
pub open spec fn caught(foods: Seq<Food>, n: int, player_x: usize, height: usize) -> nat
    decreases n,
{
    if n <= 0 {
        0
    } else {
        caught(foods, n - 1, player_x, height) + if foods[n - 1].touching(player_x, height) {
            1nat
        } else {
            0nat
        }
    }
}

/// How many of the first `n` foods reach the ground out of the player's
/// reach.
pub open spec fn missed(foods: Seq<Food>, n: int, player_x: usize, height: usize) -> nat
    decreases n,
{
    if n <= 0 {
        0
    } else {
        missed(foods, n - 1, player_x, height) + if !foods[n - 1].touching(player_x, height)
            && foods[n - 1].grounded(height) {
            1nat
        } else {
            0nat
        }
    }
}

/// Those of the first `n` foods that stay in the air, each one row lower.
pub open spec fn falling(foods: Seq<Food>, n: int, player_x: usize, height: usize) -> Seq<Food>
    decreases n,
{
    if n <= 0 {
        Seq::empty()
    } else if foods[n - 1].touching(player_x, height) || foods[n - 1].grounded(height) {
        falling(foods, n - 1, player_x, height)
    } else {
        falling(foods, n - 1, player_x, height).push(foods[n - 1].fallen())
    }
}

/// The counts of `caught` and `missed` grow with `n`.
proof fn lemma_counts_grow(foods: Seq<Food>, n: int, m: int, player_x: usize, height: usize)
    requires
        n <= m,
    ensures
        caught(foods, n, player_x, height) <= caught(foods, m, player_x, height),
        missed(foods, n, player_x, height) <= missed(foods, m, player_x, height),
    decreases m - n,
{
    if n < m {
        lemma_counts_grow(foods, n, m - 1, player_x, height);
    }
}

/// The counts of `caught` and `missed` over the first `n` foods depend on
/// these foods only.
proof fn lemma_counts_of_prefix(
    a: Seq<Food>,
    b: Seq<Food>,
    n: int,
    player_x: usize,
    height: usize,
)
    requires
        n <= a.len(),
        n <= b.len(),
        forall|i: int| 0 <= i < n ==> a[i] == b[i],
    ensures
        caught(a, n, player_x, height) == caught(b, n, player_x, height),
        missed(a, n, player_x, height) == missed(b, n, player_x, height),
    decreases n,
{
    if n > 0 {
        lemma_counts_of_prefix(a, b, n - 1, player_x, height);
    }
}

impl Game {
    /// Whether a food is spawned when the game next moves.
    pub open spec fn spawning(&self) -> bool {
        self.food_timer == self.ticks_for_food
    }

    /// The foods that the next move of the game works on: those in the air,
    /// and one more at the top of column `spawn_x` when one is spawned.
    pub open spec fn served(&self, spawn_x: usize) -> Seq<Food> {
        if self.spawning() {
            self.foods@.push(Food { pos_y: 0, pos_x: spawn_x })
        } else {
            self.foods@
        }
    }

    /// Whether the game can make its next move with a food spawned in column
    /// `spawn_x`: the field is high enough to hold the player, and no counter
    /// leaves its range.
    pub open spec fn ready(&self, spawn_x: usize) -> bool {
        let foods = self.served(spawn_x);
        &&& self.height >= 7
        &&& self.player_x + PLAYER_REACH <= usize::MAX
        &&& self.spawning() || self.food_timer < u8::MAX
        &&& self.score + caught(foods, foods.len() as int, self.player_x, self.height) <= u32::MAX
        &&& missed(foods, foods.len() as int, self.player_x, self.height) <= self.lives
    }

    /// Whether `after` is this game after a move with a food spawned in
    /// column `spawn_x`: every food within the player's reach has scored a
    /// point, every other food on the ground has cost a life, and the rest
    /// has fallen by one row. Nothing is said of the count of calls.
    pub open spec fn moved(&self, after: &Game, spawn_x: usize) -> bool {
        let foods = self.served(spawn_x);
        &&& after.foods@ == falling(foods, foods.len() as int, self.player_x, self.height)
        &&& after.score == self.score + caught(
            foods,
            foods.len() as int,
            self.player_x,
            self.height,
        )
        &&& after.lives == self.lives - missed(
            foods,
            foods.len() as int,
            self.player_x,
            self.height,
        )
        &&& after.food_timer == if self.spawning() {
            1
        } else {
            self.food_timer + 1
        }
        &&& after.player_x == self.player_x
        &&& after.width == self.width
        &&& after.height == self.height
        &&& after.ticks_for_food == self.ticks_for_food
    }

    /// Whether the game can make its next move wherever a food is spawned.
    pub open spec fn tickable(&self) -> bool {
        &&& self.spawning() ==> self.width > 0
        &&& forall|spawn_x: usize| spawn_x < self.width ==> self.ready(spawn_x)
        &&& !self.spawning() ==> self.ready(0)
    }

    /// Tells whether the game can make its next move with a food spawned in
    /// column `spawn_x`, which is what `do_tick_with` asks.
    pub fn can_tick_with(&self, spawn_x: usize) -> (ok: bool)
        ensures
            ok == self.ready(spawn_x),
    {
        if self.height < 7 || self.player_x > usize::MAX - PLAYER_REACH {
            return false;
        }
        let spawning = self.food_timer == self.ticks_for_food;
        if !spawning && self.food_timer == u8::MAX {
            return false;
        }
        let ghost foods = self.served(spawn_x);
        let mut catches: u128 = 0;
        let mut misses: u128 = 0;
        let mut i: usize = 0;
        while i < self.foods.len()
            invariant
                i <= self.foods.len(),
                self.height >= 7,
                self.player_x + PLAYER_REACH <= usize::MAX,
                catches == caught(self.foods@, i as int, self.player_x, self.height),
                misses == missed(self.foods@, i as int, self.player_x, self.height),
                catches <= i,
                misses <= i,
            decreases self.foods.len() - i,
        {
            let food = self.foods[i];
            let grounded = food.pos_y >= self.height - 3;
            let touching_player = food.pos_x >= self.player_x && food.pos_x <= self.player_x
                + PLAYER_REACH && food.pos_y >= self.height - 7;
            if touching_player {
                catches += 1;
            } else if grounded {
                misses += 1;
            }
            i += 1;
        }
        if spawning {
            // The food that is spawned stands in row 0.
            if spawn_x >= self.player_x && spawn_x <= self.player_x + PLAYER_REACH && self.height
                == 7 {
                catches += 1;
            }
        }
        proof {
            let n = self.foods.len() as int;
            lemma_counts_of_prefix(self.foods@, foods, n, self.player_x, self.height);
            assert(foods.len() == if self.spawning() {
                n + 1
            } else {
                n
            });
        }
        self.score as u128 + catches <= u32::MAX as u128 && misses <= self.lives as u128
    }

    /// Tells whether the game can make its next move wherever a food is
    /// spawned, which is what `do_tick` asks.
    pub fn can_tick(&self) -> (ok: bool)
        ensures
            ok == self.tickable(),
    {
        let spawning = self.food_timer == self.ticks_for_food;
        if !spawning {
            let ok = self.can_tick_with(0);
            proof {
                assert forall|spawn_x: usize| #[trigger] self.ready(spawn_x) == self.ready(0) by {
                    assert(self.served(spawn_x) == self.served(0));
                }
            }
            return ok;
        }
        if self.width == 0 {
            return false;
        }
        // A food spawned in the player's column is the one most likely to
        // score, and no spawned food is on the ground at once.
        let worst = if self.player_x < self.width {
            self.player_x
        } else {
            0
        };
        let ok = self.can_tick_with(worst);
        proof {
            if ok {
                assert forall|spawn_x: usize| spawn_x < self.width implies self.ready(spawn_x) by {
                    let n = self.foods.len() as int;
                    lemma_counts_of_prefix(
                        self.foods@,
                        self.served(spawn_x),
                        n,
                        self.player_x,
                        self.height,
                    );
                    lemma_counts_of_prefix(
                        self.foods@,
                        self.served(worst),
                        n,
                        self.player_x,
                        self.height,
                    );
                }
            }
        }
        ok
    }

    /// A new game on a field as large as `screen`.
    pub fn new(screen: &Screen) -> (game: Game)
        ensures
            game.player_x == 10,
            game.tick == 0,
            game.food_timer == 0,
            game.ticks_for_food == 10,
            game.width == screen.width(),
            game.height == screen.height(),
            game.score == 0,
            game.lives == 3,
            game.foods@ == Seq::<Food>::empty(),
    {
        Game {
            player_x: 10,
            tick: 0,
            food_timer: 0,
            ticks_for_food: 10,
            width: screen.width(),
            height: screen.height(),
            score: 0,
            lives: 3,
            foods: Vec::new(),
        }
    }

    /// Adds a food at the top of column `spawn_x`.
    pub fn spawn_food_at(&mut self, spawn_x: usize)
        ensures
            final(self).foods@ == old(self).foods@.push(Food { pos_y: 0, pos_x: spawn_x }),
            final(self).player_x == old(self).player_x,
            final(self).score == old(self).score,
            final(self).lives == old(self).lives,
            final(self).width == old(self).width,
            final(self).height == old(self).height,
            final(self).ticks_for_food == old(self).ticks_for_food,
            final(self).tick == old(self).tick,
            final(self).food_timer == old(self).food_timer,
    {
        self.foods.push(Food { pos_x: spawn_x, pos_y: 0 });
    }

    /// Adds a food at the top of the field, in a column picked at random.
    /// The field has to have a column.
    pub fn spawn_food(&mut self)
        requires
            old(self).width > 0,
        ensures
            exists|spawn_x: usize|
                spawn_x < old(self).width && final(self).foods@ == #[trigger] old(self).foods@.push(
                    Food { pos_y: 0, pos_x: spawn_x },
                ),
            final(self).player_x == old(self).player_x,
            final(self).score == old(self).score,
            final(self).lives == old(self).lives,
            final(self).width == old(self).width,
            final(self).height == old(self).height,
            final(self).ticks_for_food == old(self).ticks_for_food,
            final(self).tick == old(self).tick,
            final(self).food_timer == old(self).food_timer,
    {
        let food = Food::new(self);
        self.spawn_food_at(food.pos_x);
    }

    /// One move of the game, with the food that may be due spawned in column
    /// `spawn_x`. Tells whether the player has lives left.
    pub fn do_tick_with(&mut self, spawn_x: usize) -> (status: TickStatus)
        requires
            old(self).ready(spawn_x),
        ensures
            old(self).moved(final(self), spawn_x),
            final(self).tick == old(self).tick,
            status == if final(self).lives == 0 {
                TickStatus::Exit
            } else {
                TickStatus::Ticked
            },
    {
        if self.food_timer == self.ticks_for_food {
            self.food_timer = 0;
            self.spawn_food_at(spawn_x);
        }
        self.food_timer += 1;
        let ghost foods = self.foods@;
        let ghost total = foods.len() as int;
        let mut kept: Vec<Food> = Vec::new();
        let mut i: usize = 0;
        while i < self.foods.len()
            invariant
                i <= self.foods.len(),
                foods == self.foods@,
                total == foods.len(),
                foods == old(self).served(spawn_x),
                self.height == old(self).height,
                self.height >= 7,
                self.player_x == old(self).player_x,
                self.player_x + PLAYER_REACH <= usize::MAX,
                self.width == old(self).width,
                self.ticks_for_food == old(self).ticks_for_food,
                self.tick == old(self).tick,
                self.food_timer == if old(self).spawning() {
                    1
                } else {
                    old(self).food_timer + 1
                },
                old(self).score + caught(foods, total, self.player_x, self.height) <= u32::MAX,
                missed(foods, total, self.player_x, self.height) <= old(self).lives,
                self.score == old(self).score + caught(foods, i as int, self.player_x, self.height),
                self.lives == old(self).lives - missed(foods, i as int, self.player_x, self.height),
                kept@ == falling(foods, i as int, self.player_x, self.height),
            decreases self.foods.len() - i,
        {
            let food = self.foods[i];
            let grounded = food.pos_y >= self.height - 3;
            let touching_player = food.pos_x >= self.player_x && food.pos_x <= self.player_x
                + PLAYER_REACH && food.pos_y >= self.height - 7;
            proof {
                lemma_counts_grow(foods, i + 1, total, self.player_x, self.height);
            }
            if touching_player {
                self.score += 1;
            } else if grounded {
                self.lives -= 1;
            }
            if !grounded && !touching_player {
                kept.push(Food { pos_x: food.pos_x, pos_y: food.pos_y + 1 });
            }
            i += 1;
        }
        self.foods = kept;
        if self.lives == 0 {
            TickStatus::Exit
        } else {
            TickStatus::Ticked
        }
    }

    /// One move of the game. When a food is due, it is spawned in a column
    /// picked at random. Tells whether the player has lives left.
    pub fn do_tick(&mut self) -> (status: TickStatus)
        requires
            old(self).tickable(),
        ensures
            exists|spawn_x: usize|
                (old(self).spawning() ==> spawn_x < old(self).width) && #[trigger] old(self).moved(
                    final(self),
                    spawn_x,
                ),
            final(self).tick == old(self).tick,
            status == if final(self).lives == 0 {
                TickStatus::Exit
            } else {
                TickStatus::Ticked
            },
    {
        let spawn_x = if self.food_timer == self.ticks_for_food {
            Food::new(self).pos_x
        } else {
            0
        };
        self.do_tick_with(spawn_x)
    }

    /// Counts the calls: every 21st call moves the game, as `do_tick` does,
    /// and the others only count.
    pub fn tick(&mut self) -> (status: TickStatus)
        requires
            old(self).tick < u8::MAX,
            old(self).tick == CALLS_PER_TICK ==> old(self).tickable(),
        ensures
            old(self).tick != CALLS_PER_TICK ==> status == TickStatus::NoTick && *final(self) == (
            Game { tick: (old(self).tick + 1) as u8, ..*old(self) }),
            old(self).tick == CALLS_PER_TICK ==> {
                &&& final(self).tick == 0
                &&& exists|spawn_x: usize|
                    (old(self).spawning() ==> spawn_x < old(self).width) && #[trigger] old(
                        self,
                    ).moved(final(self), spawn_x)
                &&& status == if final(self).lives == 0 {
                    TickStatus::Exit
                } else {
                    TickStatus::Ticked
                }
            },
    {
        if self.tick == CALLS_PER_TICK {
            self.tick = 0;
            let ghost reset = *self;
            proof {
                assert forall|spawn_x: usize| spawn_x < self.width implies self.ready(spawn_x) by {
                    assert(old(self).ready(spawn_x));
                    assert(self.served(spawn_x) == old(self).served(spawn_x));
                }
                if !self.spawning() {
                    assert(old(self).ready(0));
                    assert(self.served(0) == old(self).served(0));
                }
            }
            let status = self.do_tick();
            proof {
                let spawn_x = choose|spawn_x: usize|
                    (reset.spawning() ==> spawn_x < reset.width) && #[trigger] reset.moved(
                        &*self,
                        spawn_x,
                    );
                assert(old(self).moved(&*self, spawn_x));
            }
            return status;
        }
        self.tick += 1;
        TickStatus::NoTick
    }
}

/// The stick figure, four rows of five characters.
pub const STICKMAN: [[char; 5]; 4] = [
    ['(', 'u', 'w', 'u', ')'],
    [' ', '/', '|', '\\', ' '],
    [' ', ' ', '|', ' ', ' '],
    [' ', '/', ' ', '\\', ' '],
];

/// The character that shows a food.
pub const FOOD: char = '@';

/// The character of which the ground is made.
pub const GROUND: char = '-';

/// The grid of characters that shows the game.
pub struct Screen {
    data: Vec<Vec<char>>,
    height: usize,
    width: usize,
}

/// The rows of a stored grid as sequences.
spec fn rows_of(rows: Seq<Vec<char>>) -> Seq<Seq<char>> {
    Seq::new(rows.len(), |y: int| rows[y]@)
}

/// The empty field: blank, but for a line of ground in the last row but one.
pub open spec fn field(width: nat, height: nat) -> Seq<Seq<char>> {
    overlay(uniform(width, height, ' '), solid(in_row(height - 2), GROUND))
}

/// What the stick figure with its left edge at `player_x` puts on a grid
/// `height` rows high: its characters, or blanks to take it off again.
pub open spec fn stickman_layer(player_x: int, height: int, clear: bool) -> spec_fn(int, int) -> Option<
    char,
> {
    |x: int, y: int|
        if in_rectangle(player_x, height - 6, player_x + 5, height - 2)(x, y) {
            Some(
                if clear {
                    ' '
                } else {
                    STICKMAN[y - (height - 6)][x - player_x]
                },
            )
        } else {
            None
        }
}

/// What `stickman_layer` puts on the grid when only the figure's rows before
/// `row`, and the first `column` characters of that row, are drawn.
spec fn stickman_part_at(
    player_x: int,
    height: int,
    clear: bool,
    row: int,
    column: int,
    x: int,
    y: int,
) -> Option<char> {
    if y - (height - 6) < row || (y - (height - 6) == row && x - player_x < column) {
        stickman_layer(player_x, height, clear)(x, y)
    } else {
        None
    }
}

/// The layer of a stick figure drawn in part: see `stickman_part_at`.
spec fn stickman_part(player_x: int, height: int, clear: bool, row: int, column: int)
    -> spec_fn(int, int) -> Option<char> {
    |x: int, y: int| stickman_part_at(player_x, height, clear, row, column, x, y)
}

/// Whether one of the first `n` foods is at `(x, y)`.
pub open spec fn food_at(foods: Seq<Food>, n: int, x: int, y: int) -> bool {
    exists|i: int| 0 <= i < n && (#[trigger] foods[i]).pos_x == x && foods[i].pos_y == y
}

/// What the first `n` foods put on a grid: their character, or blanks to
/// take them off again.
pub open spec fn food_layer(foods: Seq<Food>, n: int, clear: bool) -> spec_fn(int, int) -> Option<
    char,
> {
    solid(
        |x: int, y: int| food_at(foods, n, x, y),
        if clear {
            ' '
        } else {
            FOOD
        },
    )
}

/// The characters of the first `n` rows, one row after the other.
pub open spec fn rows_chars(grid: Seq<Seq<char>>, n: int) -> Seq<char>
    decreases n,
{
    if n <= 0 {
        Seq::empty()
    } else {
        rows_chars(grid, n - 1) + grid[n - 1]
    }
}

/// A number in decimal, as characters.
pub open spec fn decimal_chars(n: nat) -> Seq<char> {
    decimal(n).map_values(|digit: u8| digit as char)
}

/// What is sent before the grid: the cursor goes home and the terminal is
/// cleared, `ESC [ H`, return, `ESC [ 2 J`, return.
pub open spec fn frame_lead() -> Seq<char> {
    seq!['\x1b', '[', 'H', '\r', '\x1b', '[', '2', 'J', '\r']
}

/// The line below the grid.
pub open spec fn status_chars(score: u32, lives: u8) -> Seq<char> {
    seq!['S', 'c', 'o', 'r', 'e', ':', ' '] + decimal_chars(score as nat) + seq![
        ' ',
        ' ',
        'L',
        'i',
        'v',
        'e',
        's',
        ':',
        ' ',
    ] + decimal_chars(lives as nat)
}

/// A whole frame: the lead, the grid row by row, and the status line.
pub open spec fn frame_chars(grid: Seq<Seq<char>>, score: u32, lives: u8) -> Seq<char> {
    frame_lead() + rows_chars(grid, grid.len() as int) + status_chars(score, lives)
}

// Writes one character of a stored grid.
fn put(grid: &mut Vec<Vec<char>>, x: usize, y: usize, ch: char)
    requires
        y < old(grid).len(),
        x < old(grid)[y as int].len(),
    ensures
        final(grid).len() == old(grid).len(),
        final(grid)[y as int]@ == old(grid)[y as int]@.update(x as int, ch),
        forall|k: int| 0 <= k < old(grid).len() && k != y ==> final(grid)[k] == old(grid)[k],
    no_unwind
{
    grid[y][x] = ch;
}

// Appends a number in decimal.
fn push_decimal_chars(out: &mut Vec<char>, n: u32)
    ensures
        final(out)@ == old(out)@ + decimal_chars(n as nat),
    decreases n,
{
    if n >= 10 {
        push_decimal_chars(out, n / 10);
    }
    let last = (n % 10) as u8;
    out.push((0x30 + last) as char);
    assert(out@ =~= old(out)@ + decimal_chars(n as nat));
}

impl Screen {
    #[verifier::type_invariant]
    closed spec fn sized(self) -> bool {
        &&& self.data.len() == self.height
        &&& forall|y: int| 0 <= y < self.height ==> (#[trigger] self.data[y]).len() == self.width
    }

    /// The grid, as rows of characters from the top.
    pub closed spec fn view(&self) -> Seq<Seq<char>> {
        rows_of(self.data@)
    }

    /// Number of characters in a row.
    pub closed spec fn spec_width(&self) -> usize {
        self.width
    }

    /// Number of rows.
    pub closed spec fn spec_height(&self) -> usize {
        self.height
    }

    /// The grid has the screen's width and height.
    pub open spec fn shaped(&self) -> bool {
        rectangular(self@, self.spec_width() as nat, self.spec_height() as nat)
    }

    /// Whether `after` is this screen with nothing changed but what the grid
    /// holds.
    pub open spec fn redrawn(&self, after: &Screen) -> bool {
        &&& after.spec_width() == self.spec_width()
        &&& after.spec_height() == self.spec_height()
        &&& after.shaped()
    }

    /// Whether every food of the game is on the screen.
    pub open spec fn holds(&self, foods: Seq<Food>) -> bool {
        forall|i: int|
            0 <= i < foods.len() ==> (#[trigger] foods[i]).pos_x < self.spec_width()
                && foods[i].pos_y < self.spec_height()
    }

    /// Number of characters in a row.
    #[verifier::when_used_as_spec(spec_width)]
    pub fn width(&self) -> (width: usize)
        ensures
            width == self.spec_width(),
            self.shaped(),
    {
        proof {
            use_type_invariant(self);
        }
        self.width
    }

    /// Number of rows.
    #[verifier::when_used_as_spec(spec_height)]
    pub fn height(&self) -> (height: usize)
        ensures
            height == self.spec_height(),
            self.shaped(),
    {
        proof {
            use_type_invariant(self);
        }
        self.height
    }

    /// The character at one place, which has to be on the screen.
    pub fn char_at(&self, x: usize, y: usize) -> (ch: char)
        requires
            x < self.width(),
            y < self.height(),
        ensures
            ch == self@[y as int][x as int],
    {
        proof {
            use_type_invariant(self);
        }
        self.data[y][x]
    }

    // Sets one character, which has to be on the screen.
    fn set(&mut self, x: usize, y: usize, ch: char)
        requires
            x < old(self).width(),
            y < old(self).height(),
        ensures
            final(self)@ == old(self)@.update(y as int, old(self)@[y as int].update(x as int, ch)),
            old(self).redrawn(final(self)),
    {
        proof {
            use_type_invariant(&*self);
        }
        put(&mut self.data, x, y, ch);
        assert(self@ =~~= old(self)@.update(y as int, old(self)@[y as int].update(x as int, ch)));
    }

    /// Makes the screen for a terminal of `columns` by `rows` characters,
    /// showing the empty field. The terminal's last row is kept for the status
    /// line, and the field needs two rows for its ground.
    pub fn new(columns: u16, rows: u16) -> (screen: Screen)
        requires
            rows >= 3,
        ensures
            screen.width() == columns,
            screen.height() == rows - 1,
            screen@ == field(columns as nat, (rows - 1) as nat),
            screen.shaped(),
    {
        let height = (rows - 1) as usize;
        let width = columns as usize;
        let mut data: Vec<Vec<char>> = vec![vec![' '; width]; height];
        data[height - 2] = vec![GROUND; width];
        let screen = Screen { data, height, width };
        assert(screen@ =~~= field(columns as nat, (rows - 1) as nat));
        screen
    }

    /// Draws the stick figure in the four rows above the ground, or with
    /// `clear` takes it off again. The screen has to have these rows, and the
    /// figure has to stand on it.
    pub fn render_stickman(&mut self, game: &Game, clear: bool)
        requires
            old(self).height() >= 6,
            game.player_x + 5 <= old(self).width(),
        ensures
            final(self)@ == overlay(
                old(self)@,
                stickman_layer(game.player_x as int, old(self).height() as int, clear),
            ),
            old(self).redrawn(final(self)),
    {
        proof {
            use_type_invariant(&*self);
        }
        let player_y = self.height - 6;
        let ghost left = game.player_x as int;
        let ghost high = self.height as int;
        let mut i: usize = 0;
        assert(self@ =~~= overlay(old(self)@, stickman_part(left, high, clear, 0, 0)));
        while i < 4
            invariant
                i <= 4,
                player_y == old(self).height() - 6,
                old(self).height() >= 6,
                game.player_x + 5 <= old(self).width(),
                left == game.player_x,
                high == old(self).height(),
                old(self).redrawn(&*self),
                old(self).shaped(),
                self@ == overlay(old(self)@, stickman_part(left, high, clear, i as int, 0)),
            decreases 4 - i,
        {
            let mut j: usize = 0;
            while j < 5
                invariant
                    i < 4,
                    j <= 5,
                    player_y == old(self).height() - 6,
                    old(self).height() >= 6,
                    game.player_x + 5 <= old(self).width(),
                    left == game.player_x,
                    high == old(self).height(),
                    old(self).redrawn(&*self),
                    old(self).shaped(),
                    self@ == overlay(
                        old(self)@,
                        stickman_part(left, high, clear, i as int, j as int),
                    ),
                decreases 5 - j,
            {
                let ch = if clear {
                    ' '
                } else {
                    STICKMAN[i][j]
                };
                self.set(game.player_x + j, player_y + i, ch);
                assert(self@ =~~= overlay(
                    old(self)@,
                    stickman_part(left, high, clear, i as int, j + 1),
                ));
                j += 1;
            }
            assert(self@ =~~= overlay(old(self)@, stickman_part(left, high, clear, i + 1, 0)));
            i += 1;
        }
        assert(self@ =~~= overlay(old(self)@, stickman_layer(left, high, clear)));
    }

    /// Draws the foods of the game, or with `clear` takes them off again.
    /// Every food has to be on the screen.
    pub fn render_food(&mut self, game: &Game, clear: bool)
        requires
            old(self).holds(game.foods@),
        ensures
            final(self)@ == overlay(
                old(self)@,
                food_layer(game.foods@, game.foods.len() as int, clear),
            ),
            old(self).redrawn(final(self)),
    {
        proof {
            use_type_invariant(&*self);
        }
        let ch = if clear {
            ' '
        } else {
            FOOD
        };
        let mut i: usize = 0;
        assert(self@ =~~= overlay(old(self)@, food_layer(game.foods@, 0, clear)));
        while i < game.foods.len()
            invariant
                i <= game.foods.len(),
                ch == if clear {
                    ' '
                } else {
                    FOOD
                },
                old(self).holds(game.foods@),
                old(self).redrawn(&*self),
                old(self).shaped(),
                self@ == overlay(old(self)@, food_layer(game.foods@, i as int, clear)),
            decreases game.foods.len() - i,
        {
            let food = game.foods[i];
            self.set(food.pos_x, food.pos_y, ch);
            proof {
                assert forall|x: int, y: int| #[trigger]
                    food_at(game.foods@, i + 1, x, y) == (food_at(game.foods@, i as int, x, y) || (
                    x == food.pos_x && y == food.pos_y)) by {
                    if food_at(game.foods@, i + 1, x, y) {
                        let k = choose|k: int|
                            0 <= k < i + 1 && (#[trigger] game.foods@[k]).pos_x == x
                                && game.foods@[k].pos_y == y;
                        if k < i {
                            assert(food_at(game.foods@, i as int, x, y));
                        }
                    }
                    if x == food.pos_x && y == food.pos_y {
                        assert(game.foods@[i as int].pos_x == x);
                    }
                }
                assert(self@ =~~= overlay(old(self)@, food_layer(game.foods@, i + 1, clear)));
            }
            i += 1;
        }
    }

    /// The characters that show the game on the terminal: the grid with the
    /// stick figure and, over it, the foods, and the status line. The figure
    /// and the foods are taken off the grid again, which leaves blanks where
    /// they were. The figure and every food have to be on the screen.
    pub fn render(&mut self, game: &Game) -> (out: Vec<char>)
        requires
            old(self).height() >= 6,
            game.player_x + 5 <= old(self).width(),
            old(self).holds(game.foods@),
        ensures
            out@ == frame_chars(
                overlay(
                    overlay(
                        old(self)@,
                        stickman_layer(game.player_x as int, old(self).height() as int, false),
                    ),
                    food_layer(game.foods@, game.foods.len() as int, false),
                ),
                game.score,
                game.lives,
            ),
            final(self)@ == overlay(
                overlay(
                    old(self)@,
                    stickman_layer(game.player_x as int, old(self).height() as int, true),
                ),
                food_layer(game.foods@, game.foods.len() as int, true),
            ),
            old(self).redrawn(final(self)),
    {
        let mut out: Vec<char> = Vec::new();
        out.push('\x1b');
        out.push('[');
        out.push('H');
        out.push('\r');
        out.push('\x1b');
        out.push('[');
        out.push('2');
        out.push('J');
        out.push('\r');
        self.render_stickman(game, false);
        self.render_food(game, false);
        let ghost shown = self@;
        proof {
            use_type_invariant(&*self);
        }
        let mut y: usize = 0;
        assert(out@ =~= frame_lead() + rows_chars(shown, 0));
        while y < self.height
            invariant
                y <= self.height,
                shown == self@,
                self.data.len() == self.height,
                out@ == frame_lead() + rows_chars(shown, y as int),
            decreases self.height - y,
        {
            let ghost head = out@;
            let row = &self.data[y];
            let mut x: usize = 0;
            while x < row.len()
                invariant
                    x <= row.len(),
                    out@ == head + row@.take(x as int),
                decreases row.len() - x,
            {
                out.push(row[x]);
                assert(row@.take(x + 1) =~= row@.take(x as int).push(row[x as int]));
                x += 1;
            }
            assert(row@.take(row.len() as int) =~= row@);
            assert(shown[y as int] == row@);
            assert(out@ =~= frame_lead() + rows_chars(shown, y + 1));
            y += 1;
        }
        self.render_stickman(game, true);
        self.render_food(game, true);
        assert(self@ =~~= overlay(
            overlay(
                old(self)@,
                stickman_layer(game.player_x as int, old(self).height() as int, true),
            ),
            food_layer(game.foods@, game.foods.len() as int, true),
        ));
        let ghost grid = out@;
        out.push('S');
        out.push('c');
        out.push('o');
        out.push('r');
        out.push('e');
        out.push(':');
        out.push(' ');
        push_decimal_chars(&mut out, game.score);
        out.push(' ');
        out.push(' ');
        out.push('L');
        out.push('i');
        out.push('v');
        out.push('e');
        out.push('s');
        out.push(':');
        out.push(' ');
        push_decimal_chars(&mut out, game.lives as u32);
        assert(out@ =~= grid + status_chars(game.score, game.lives));
        out
    }
}

} // verus!
