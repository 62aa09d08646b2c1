//! The game in which a ship defends four walls against rows of invaders.

use vstd::prelude::*;
use crate::chance::random_between;
use crate::input::Key;

verus! {

/// Moves of the game between two steps of the invaders.
pub const TICKS_TO_MOVE_INVADERS: usize = 12;

/// The room that the invaders leave at the edges of the field.
pub const INVADER_PADDING: usize = 8;

/// Steps of the invaders for which a hit ship cannot be hit again.
pub const TICKS_TO_INVINCIBILITY: usize = 8;

/// The columns that an invader takes in its row, room to its neighbour
/// included.
pub const INVADER_PITCH: usize = 14;

/// The rows that a row of invaders takes, room to the next row included.
pub const ROW_PITCH: usize = 10;

/// What the menu offers.
#[derive(Copy, Clone, Debug, PartialEq, Eq, Structural)]
pub enum MenuOption {
    Play,
    Credits,
}

impl MenuOption {
    /// The option's name as the menu shows it.
    pub fn to_str(&self) -> (name: &'static str)
        ensures
            name@ == match self {
                MenuOption::Play => "Play"@,
                MenuOption::Credits => "Credits"@,
            },
    {
        match self {
            MenuOption::Play => "Play",
            MenuOption::Credits => "Credits",
        }
    }
}

/// The menu: its options, and which of them the cursor is on.
#[derive(Copy, Clone, Debug, PartialEq, Eq)]
pub struct MenuData {
    pub options: [MenuOption; 2],
    pub cursor_index: usize,
}

/// The different states the game can be in.
#[derive(Copy, Clone, Debug, PartialEq, Eq)]
pub enum StateMachine {
    Play,
    Win,
    Loss,
    Menu(MenuData),
    Credits,
}

/// Defines a position and size, for what can be collided with.
#[derive(Copy, Clone, Debug, PartialEq, Eq, Structural)]
pub struct Transform {
    pub x: usize,
    pub y: usize,
    pub width: usize,
    pub height: usize,
}

/// Both friendly and enemy bullets.
#[derive(Copy, Clone, Debug, PartialEq, Eq, Structural)]
pub struct Bullet {
    pub transform: Transform,
    /// Whether an invader shot it.
    pub invader: bool,
    /// Whether the bullet leaves the game when the game next moves.
    pub delete: bool,
}

/// Invader.
#[derive(Copy, Clone, Debug, PartialEq, Eq, Structural)]
pub struct Invader {
    /// Where the invader stands in its group.
    pub transform: Transform,
    /// The points that a hit brings: 10, 20 or 30.
    pub score: u8,
}

/// Which direction the horde of invaders moves.
#[derive(Copy, Clone, Debug, PartialEq, Eq, Structural)]
pub enum InvaderDirection {
    Left,
    Right,
}

/// The full group of invaders.
pub struct InvadersGroup {
    pub invaders: Vec<Vec<Invader>>,
    pub width: usize,
    pub direction: InvaderDirection,
    pub x: usize,
    pub y: usize,
}

/// An explosion effect.
#[derive(Copy, Clone, Debug, PartialEq, Eq, Structural)]
pub struct Explosion {
    pub x: usize,
    pub y: usize,
    pub stage: usize,
    pub timer: u8,
}

/// A wall that shelters the ship.
#[derive(Copy, Clone, Debug, PartialEq, Eq, Structural)]
pub struct Wall {
    pub transform: Transform,
    pub health: u8,
}

/// Special visual effects.
pub struct Effects {
    pub explosions: Vec<Explosion>,
}

/// The game with all its information.
pub struct Game {
    pub ship: Transform,
    pub bullets: Vec<Bullet>,
    pub invaders_group: InvadersGroup,
    pub score: u64,
    pub lives: u8,
    pub state: StateMachine,
    pub effects: Effects,
    pub walls: [Wall; 4],
    pub invincible: bool,
    pub invincible_timer: usize,
    pub invader_move_timer: usize,
    pub width: usize,
    pub height: usize,
}

/// The menu as the game starts with it.
pub open spec fn default_menu_spec() -> MenuData {
    MenuData { options: [MenuOption::Play, MenuOption::Credits], cursor_index: 0 }
}

/// The menu as the game starts with it: the cursor on `Play`.
#[verifier::when_used_as_spec(default_menu_spec)]
pub fn default_menu() -> (menu: MenuData)
    ensures
        menu == default_menu_spec(),
{
    MenuData { options: [MenuOption::Play, MenuOption::Credits], cursor_index: 0 }
}

/// Whether two stretches of a line touch: the one from `a` of length `m` and
/// the one from `b` of length `n`, their ends included.
pub open spec fn touches(a: int, m: int, b: int, n: int) -> bool {
    a + m >= b && a <= b + n
}

impl Transform {
    /// Whether this box, moved by the offset, touches `target`.
    pub open spec fn overlaps(self, target: Transform, offset_x: int, offset_y: int) -> bool {
        touches(self.x + offset_x, self.width as int, target.x as int, target.width as int)
            && touches(self.y + offset_y, self.height as int, target.y as int, target.height as int)
    }

    /// Whether the corners of the box lie in the range of the coordinates.
    pub open spec fn bounded(self, offset_x: int, offset_y: int) -> bool {
        self.x + offset_x + self.width <= usize::MAX && self.y + offset_y + self.height
            <= usize::MAX
    }

    /// Use AABB collision to check if self is colliding with another
    /// transform: whether the two boxes, their edges included, have a point
    /// in common. Self can be offset, which is useful for the invaders. The
    /// corners of both boxes have to lie in the range of the coordinates.
    pub fn collided(&self, target: &Transform, offset_x: usize, offset_y: usize) -> (hit: bool)
        requires
            self.bounded(offset_x as int, offset_y as int),
            target.bounded(0, 0),
        ensures
            hit == self.overlaps(*target, offset_x as int, offset_y as int),
    {
        let self_left = self.x + offset_x;
        let self_right = self.x + offset_x + self.width;
        let self_top = self.y + offset_y;
        let self_bottom = self.y + offset_y + self.height;
        let target_left = target.x;
        let target_right = target.x + target.width;
        let target_top = target.y;
        let target_bottom = target.y + target.height;
        let x_collision = self_right >= target_left && self_left <= target_right;
        let y_collision = self_bottom >= target_top && self_top <= target_bottom;
        x_collision && y_collision
    }
}

impl Bullet {
    /// Marks the bullet for deletion, but doesn't actually delete it.
    pub fn delete(&mut self)
        ensures
            *final(self) == (Bullet { delete: true, ..*old(self) }),
    {
        self.delete = true;
    }

    /// Creates a new bullet, one pixel large.
    pub fn new(x: usize, y: usize, invader: bool) -> (bullet: Bullet)
        ensures
            bullet == (Bullet {
                transform: Transform { x, y, width: 1, height: 1 },
                invader,
                delete: false,
            }),
    {
        Bullet { transform: Transform { x, y, width: 1, height: 1 }, invader, delete: false }
    }
}

/// The points for an invader of row `row`.
pub open spec fn row_score(row: int) -> u8 {
    if row == 0 {
        30
    } else if row <= 2 {
        20
    } else {
        10
    }
}

/// How many invaders stand in a row on a field `width` wide: one every 14
/// columns, as long as 56 columns stay free.
pub open spec fn row_len(width: int) -> int {
    (width - 56 + 13) / 14
}

/// The invader that a new game has in place `column` of row `row`.
pub open spec fn recruit(row: int, column: int) -> Invader {
    Invader {
        transform: Transform {
            x: (INVADER_PITCH * column) as usize,
            y: (ROW_PITCH * row) as usize,
            width: 10,
            height: 8,
        },
        score: row_score(row),
    }
}

/// The wall that a new game has in place `i`.
pub open spec fn rampart(width: int, height: int, i: int) -> Wall {
    Wall {
        transform: Transform {
            x: ((width / 4) * i + 6) as usize,
            y: (height - 32) as usize,
            width: 26,
            height: 12,
        },
        health: 4,
    }
}

impl Game {
    /// Whether this is a new game on a field of the given size: the menu is
    /// up, five rows of invaders stand in the top left corner, the ship in
    /// the bottom left corner, and four whole walls above it.
    pub open spec fn fresh(&self, width: usize, height: usize) -> bool {
        &&& self.state == StateMachine::Menu(default_menu_spec())
        &&& self.ship == (Transform { x: 0, y: (height - 16) as usize, width: 9, height: 10 })
        &&& self.bullets@ == Seq::<Bullet>::empty()
        &&& self.effects.explosions@ == Seq::<Explosion>::empty()
        &&& forall|i: int| 0 <= i < 4 ==> #[trigger] self.walls[i] == rampart(
            width as int,
            height as int,
            i,
        )
        &&& !self.invincible
        &&& self.invincible_timer == TICKS_TO_INVINCIBILITY
        &&& self.invaders_group.invaders.len() == 5
        &&& forall|i: int|
            0 <= i < 5 ==> (#[trigger] self.invaders_group.invaders[i]).len() == row_len(
                width as int,
            )
        &&& forall|i: int, j: int|
            0 <= i < 5 && 0 <= j < row_len(width as int)
                ==> #[trigger] self.invaders_group.invaders[i][j] == recruit(i, j)
        &&& self.invaders_group.x == INVADER_PADDING
        &&& self.invaders_group.y == 12
        &&& self.invaders_group.width == row_len(width as int) * INVADER_PITCH
        &&& self.invaders_group.direction == InvaderDirection::Right
        &&& self.lives == 3
        &&& self.invader_move_timer == TICKS_TO_MOVE_INVADERS
        &&& self.score == 0
        &&& self.width == width
        &&& self.height == height
    }

    /// A new game on a field of the given size, which has to be at least 56
    /// wide and 32 high.
    pub fn init(width: usize, height: usize) -> (game: Game)
        requires
            width >= 56,
            height >= 32,
        ensures
            game.fresh(width, height),
    {
        let mut invaders: Vec<Vec<Invader>> = Vec::new();
        let mut i: usize = 0;
        while i < 5
            invariant
                i <= 5,
                width >= 56,
                invaders.len() == i,
                forall|r: int| 0 <= r < i ==> (#[trigger] invaders[r]).len() == row_len(width as int),
                forall|r: int, c: int|
                    0 <= r < i && 0 <= c < row_len(width as int) ==> #[trigger] invaders[r][c]
                        == recruit(r, c),
            decreases 5 - i,
        {
            let mut row: Vec<Invader> = Vec::new();
            let score: u8 = if i == 0 {
                30
            } else if i <= 2 {
                20
            } else {
                10
            };
            let count = (width - 56 + 13) / INVADER_PITCH;
            let mut j: usize = 0;
            while j < count
                invariant
                    i < 5,
                    width >= 56,
                    count == row_len(width as int),
                    score == row_score(i as int),
                    j <= count,
                    row.len() == j,
                    forall|c: int| 0 <= c < j ==> #[trigger] row[c] == recruit(i as int, c),
                decreases count - j,
            {
                row.push(
                    Invader {
                        transform: Transform {
                            x: j * INVADER_PITCH,
                            y: i * ROW_PITCH,
                            height: 8,
                            width: 10,
                        },
                        score,
                    },
                );
                j += 1;
            }
            invaders.push(row);
            i += 1;
        }
        let invaders_width = invaders[0].len() * INVADER_PITCH;
        let wall = Wall {
            transform: Transform { x: 0, y: height - 32, width: 26, height: 12 },
            health: 4,
        };
        let gap = width / 4;
        let shift = wall.transform.width / 4;
        assert(gap * 2 == (width / 4) * 2 && gap * 3 == (width / 4) * 3 && gap == (width / 4) * 1
            && shift == (width / 4) * 0 + 6);
        let walls = [
            Wall { transform: Transform { x: shift, ..wall.transform }, health: wall.health },
            Wall { transform: Transform { x: gap + shift, ..wall.transform }, health: wall.health },
            Wall {
                transform: Transform { x: gap * 2 + shift, ..wall.transform },
                health: wall.health,
            },
            Wall {
                transform: Transform { x: gap * 3 + shift, ..wall.transform },
                health: wall.health,
            },
        ];
        assert(walls[0] == rampart(width as int, height as int, 0));
        assert(walls[1] == rampart(width as int, height as int, 1));
        assert(walls[2] == rampart(width as int, height as int, 2));
        assert(walls[3] == rampart(width as int, height as int, 3));
        Game {
            state: StateMachine::Menu(default_menu()),
            ship: Transform { x: 0, y: height - 16, width: 9, height: 10 },
            bullets: Vec::new(),
            effects: Effects { explosions: Vec::new() },
            walls,
            invincible: false,
            invincible_timer: TICKS_TO_INVINCIBILITY,
            invaders_group: InvadersGroup {
                invaders,
                x: INVADER_PADDING,
                y: 12,
                width: invaders_width,
                direction: InvaderDirection::Right,
            },
            lives: 3,
            invader_move_timer: TICKS_TO_MOVE_INVADERS,
            score: 0,
            width,
            height,
        }
    }
}


/// The explosion that a bullet leaves where it hits.
pub open spec fn blast(bullet: Bullet) -> Explosion {
    Explosion { x: bullet.transform.x, y: bullet.transform.y, stage: 3, timer: 8 }
}

impl Bullet {
    /// Whether the bullet has left the part of the field in which bullets
    /// fly: it is in the top row, or in one of the four rows at the bottom.
    pub open spec fn spent(self, height: usize) -> bool {
        self.transform.y == 0 || self.transform.y >= height - 4
    }

    /// Whether the bullet can fly on without leaving the range of the
    /// coordinates.
    pub open spec fn steady(self) -> bool {
        self.transform.bounded(0, 1)
    }
}

/// Whether a bullet damages a wall that has `health` left.
pub open spec fn strikes(wall: Wall, health: u8, bullet: Bullet, height: usize) -> bool {
    !bullet.spent(height) && health != 0 && wall.transform.overlaps(bullet.transform, 0, 0)
}

/// The health that a wall has left after the first `n` bullets.
pub open spec fn worn(wall: Wall, bullets: Seq<Bullet>, n: int, height: usize) -> u8
    decreases n,
{
    if n <= 0 {
        wall.health
    } else {
        let health = worn(wall, bullets, n - 1, height);
        if strikes(wall, health, bullets[n - 1], height) {
            (health - 1) as u8
        } else {
            health
        }
    }
}

/// How many of the first `k` walls bullet `n` damages.
pub open spec fn struck(walls: Seq<Wall>, bullets: Seq<Bullet>, n: int, k: int, height: usize) -> nat
    decreases k,
{
    if k <= 0 {
        0
    } else {
        struck(walls, bullets, n, k - 1, height) + if strikes(
            walls[k - 1],
            worn(walls[k - 1], bullets, n, height),
            bullets[n],
            height,
        ) {
            1nat
        } else {
            0nat
        }
    }
}

/// Whether a bullet wounds the ship, which a shield would prevent.
pub open spec fn wounds(ship: Transform, shield: bool, bullet: Bullet, height: usize) -> bool {
    !bullet.spent(height) && bullet.invader && !shield && ship.overlaps(bullet.transform, 0, 0)
}

/// Whether the ship is shielded after the first `n` bullets: it was before,
/// or one of them has wounded it.
pub open spec fn shielded(
    ship: Transform,
    invincible: bool,
    bullets: Seq<Bullet>,
    n: int,
    height: usize,
) -> bool
    decreases n,
{
    if n <= 0 {
        invincible
    } else {
        let shield = shielded(ship, invincible, bullets, n - 1, height);
        shield || wounds(ship, shield, bullets[n - 1], height)
    }
}

/// A bullet after its flight, given the number of walls it has damaged and
/// whether it has wounded the ship. A spent bullet is marked to leave the
/// game, and so is one that has hit something. A bullet of the ship rises by
/// one row, and a bullet of the invaders falls by one unless it has wounded
/// the ship.
pub open spec fn flown(bullet: Bullet, walls_hit: nat, wound: bool, height: usize) -> Bullet {
    if bullet.spent(height) {
        Bullet { delete: true, ..bullet }
    } else {
        Bullet {
            transform: Transform {
                y: if !bullet.invader {
                    (bullet.transform.y - 1) as usize
                } else if wound {
                    bullet.transform.y
                } else {
                    (bullet.transform.y + 1) as usize
                },
                ..bullet.transform
            },
            invader: bullet.invader,
            delete: bullet.delete || walls_hit > 0 || wound,
        }
    }
}

/// Bullet `n` after its flight among walls and ship as the bullets before it
/// have left them.
pub open spec fn flown_at(
    walls: Seq<Wall>,
    ship: Transform,
    invincible: bool,
    bullets: Seq<Bullet>,
    n: int,
    height: usize,
) -> Bullet {
    flown(
        bullets[n],
        struck(walls, bullets, n, walls.len() as int, height),
        wounds(ship, shielded(ship, invincible, bullets, n, height), bullets[n], height),
        height,
    )
}

/// Those of the first `n` bullets that stay in the game, after their flight.
pub open spec fn volley(
    walls: Seq<Wall>,
    ship: Transform,
    invincible: bool,
    bullets: Seq<Bullet>,
    n: int,
    height: usize,
) -> Seq<Bullet>
    decreases n,
{
    if n <= 0 {
        Seq::empty()
    } else {
        let rest = volley(walls, ship, invincible, bullets, n - 1, height);
        let bullet = flown_at(walls, ship, invincible, bullets, n - 1, height);
        if bullet.delete {
            rest
        } else {
            rest.push(bullet)
        }
    }
}

/// `k` explosions of one bullet.
pub open spec fn blasts(bullet: Bullet, k: nat) -> Seq<Explosion> {
    Seq::new(k, |i: int| blast(bullet))
}

/// The explosions that the first `n` bullets leave on the walls: one for
/// every wall that a bullet damages, in the order of the bullets.
pub open spec fn wall_blasts(walls: Seq<Wall>, bullets: Seq<Bullet>, n: int, height: usize) -> Seq<
    Explosion,
>
    decreases n,
{
    if n <= 0 {
        Seq::empty()
    } else {
        wall_blasts(walls, bullets, n - 1, height) + blasts(
            bullets[n - 1],
            struck(walls, bullets, n - 1, walls.len() as int, height),
        )
    }
}

/// The first of the first `n` bullets that hits an invader of a group
/// standing at `(x, y)`: a bullet of the ship that touches it.
pub open spec fn first_hit(invader: Invader, bullets: Seq<Bullet>, n: int, x: usize, y: usize)
    -> Option<int>
    decreases n,
{
    if n <= 0 {
        None
    } else {
        match first_hit(invader, bullets, n - 1, x, y) {
            Some(j) => Some(j),
            None => if !bullets[n - 1].invader && invader.transform.overlaps(
                bullets[n - 1].transform,
                x as int,
                y as int,
            ) {
                Some(n - 1)
            } else {
                None
            },
        }
    }
}

/// Whether a bullet hits the invader.
pub open spec fn shot(invader: Invader, bullets: Seq<Bullet>, x: usize, y: usize) -> bool {
    first_hit(invader, bullets, bullets.len() as int, x, y) is Some
}

/// Those of the first `n` invaders of a row that no bullet hits.
pub open spec fn survivors(row: Seq<Invader>, n: int, bullets: Seq<Bullet>, x: usize, y: usize)
    -> Seq<Invader>
    decreases n,
{
    if n <= 0 {
        Seq::empty()
    } else if shot(row[n - 1], bullets, x, y) {
        survivors(row, n - 1, bullets, x, y)
    } else {
        survivors(row, n - 1, bullets, x, y).push(row[n - 1])
    }
}

/// The points for those of the first `n` invaders of a row that are hit.
pub open spec fn bounty(row: Seq<Invader>, n: int, bullets: Seq<Bullet>, x: usize, y: usize) -> nat
    decreases n,
{
    if n <= 0 {
        0
    } else {
        bounty(row, n - 1, bullets, x, y) + if shot(row[n - 1], bullets, x, y) {
            row[n - 1].score as nat
        } else {
            0nat
        }
    }
}

/// The explosions of those of the first `n` invaders of a row that are hit,
/// each where the bullet is that hits first.
pub open spec fn row_blasts(row: Seq<Invader>, n: int, bullets: Seq<Bullet>, x: usize, y: usize)
    -> Seq<Explosion>
    decreases n,
{
    if n <= 0 {
        Seq::empty()
    } else {
        match first_hit(row[n - 1], bullets, bullets.len() as int, x, y) {
            Some(j) => row_blasts(row, n - 1, bullets, x, y).push(blast(bullets[j])),
            None => row_blasts(row, n - 1, bullets, x, y),
        }
    }
}

/// Whether bullet `j` is the first to hit one of the first `n` invaders of a
/// row.
pub open spec fn claims(row: Seq<Invader>, n: int, bullets: Seq<Bullet>, x: usize, y: usize, j: int)
    -> bool
    decreases n,
{
    n > 0 && (claims(row, n - 1, bullets, x, y, j) || first_hit(
        row[n - 1],
        bullets,
        bullets.len() as int,
        x,
        y,
    ) == Some(j))
}

/// The rows of a group as sequences.
pub open spec fn ranks(rows: Seq<Vec<Invader>>) -> Seq<Seq<Invader>> {
    Seq::new(rows.len(), |r: int| rows[r]@)
}

/// What is left of the first `m` rows: rows that were empty are gone, and the
/// others hold their survivors.
pub open spec fn thinned(rows: Seq<Seq<Invader>>, m: int, bullets: Seq<Bullet>, x: usize, y: usize)
    -> Seq<Seq<Invader>>
    decreases m,
{
    if m <= 0 {
        Seq::empty()
    } else if rows[m - 1].len() == 0 {
        thinned(rows, m - 1, bullets, x, y)
    } else {
        thinned(rows, m - 1, bullets, x, y).push(
            survivors(rows[m - 1], rows[m - 1].len() as int, bullets, x, y),
        )
    }
}

/// The points for the invaders of the first `m` rows that are hit.
pub open spec fn spoils(rows: Seq<Seq<Invader>>, m: int, bullets: Seq<Bullet>, x: usize, y: usize)
    -> nat
    decreases m,
{
    if m <= 0 {
        0
    } else {
        spoils(rows, m - 1, bullets, x, y) + bounty(
            rows[m - 1],
            rows[m - 1].len() as int,
            bullets,
            x,
            y,
        )
    }
}

/// The explosions of the invaders of the first `m` rows that are hit, row by
/// row.
pub open spec fn ranks_blasts(
    rows: Seq<Seq<Invader>>,
    m: int,
    bullets: Seq<Bullet>,
    x: usize,
    y: usize,
) -> Seq<Explosion>
    decreases m,
{
    if m <= 0 {
        Seq::empty()
    } else {
        ranks_blasts(rows, m - 1, bullets, x, y) + row_blasts(
            rows[m - 1],
            rows[m - 1].len() as int,
            bullets,
            x,
            y,
        )
    }
}

/// Whether bullet `j` is the first to hit an invader of the first `m` rows.
pub open spec fn claimed(
    rows: Seq<Seq<Invader>>,
    m: int,
    bullets: Seq<Bullet>,
    x: usize,
    y: usize,
    j: int,
) -> bool
    decreases m,
{
    m > 0 && (claimed(rows, m - 1, bullets, x, y, j) || claims(
        rows[m - 1],
        rows[m - 1].len() as int,
        bullets,
        x,
        y,
        j,
    ))
}

/// The counts of `bounty` and `spoils` grow with the number of invaders and
/// rows.
proof fn lemma_bounty_grows(
    rows: Seq<Seq<Invader>>,
    m: int,
    n: int,
    bullets: Seq<Bullet>,
    x: usize,
    y: usize,
)
    requires
        0 <= m < rows.len(),
        0 <= n <= rows[m].len(),
    ensures
        spoils(rows, m, bullets, x, y) + bounty(rows[m], n, bullets, x, y) <= spoils(
            rows,
            rows.len() as int,
            bullets,
            x,
            y,
        ),
{
    lemma_bounty_within(rows[m], n, rows[m].len() as int, bullets, x, y);
    lemma_spoils_within(rows, m + 1, rows.len() as int, bullets, x, y);
}

proof fn lemma_bounty_within(
    row: Seq<Invader>,
    n: int,
    k: int,
    bullets: Seq<Bullet>,
    x: usize,
    y: usize,
)
    requires
        n <= k,
    ensures
        bounty(row, n, bullets, x, y) <= bounty(row, k, bullets, x, y),
    decreases k - n,
{
    if n < k {
        lemma_bounty_within(row, n, k - 1, bullets, x, y);
    }
}

proof fn lemma_spoils_within(
    rows: Seq<Seq<Invader>>,
    m: int,
    k: int,
    bullets: Seq<Bullet>,
    x: usize,
    y: usize,
)
    requires
        m <= k,
    ensures
        spoils(rows, m, bullets, x, y) <= spoils(rows, k, bullets, x, y),
    decreases k - m,
{
    if m < k {
        lemma_spoils_within(rows, m, k - 1, bullets, x, y);
    }
}


/// A bullet with its mark to leave the game set when `marked` holds.
pub open spec fn marked_if(bullet: Bullet, marked: bool) -> Bullet {
    Bullet { delete: bullet.delete || marked, ..bullet }
}

/// Whether two lists hold the same bullets but for their marks.
spec fn same_shots(a: Seq<Bullet>, b: Seq<Bullet>) -> bool {
    &&& a.len() == b.len()
    &&& forall|j: int|
        0 <= j < a.len() ==> (#[trigger] a[j]).transform == b[j].transform && a[j].invader
            == b[j].invader
}

/// Which bullet hits an invader first does not depend on the bullets' marks.
proof fn lemma_first_hit_ignores_marks(
    invader: Invader,
    a: Seq<Bullet>,
    b: Seq<Bullet>,
    n: int,
    x: usize,
    y: usize,
)
    requires
        same_shots(a, b),
        n <= a.len(),
    ensures
        first_hit(invader, a, n, x, y) == first_hit(invader, b, n, x, y),
        first_hit(invader, a, n, x, y) matches Some(j) ==> 0 <= j < n,
    decreases n,
{
    if n > 0 {
        lemma_first_hit_ignores_marks(invader, a, b, n - 1, x, y);
    }
}

// Finds the first bullet that hits the invader.
fn find_hit(invader: &Invader, bullets: &Vec<Bullet>, x: usize, y: usize) -> (hit: Option<usize>)
    requires
        invader.transform.bounded(x as int, y as int),
        forall|j: int| 0 <= j < bullets.len() ==> (#[trigger] bullets[j]).transform.bounded(0, 0),
    ensures
        match hit {
            Some(j) => first_hit(*invader, bullets@, bullets.len() as int, x, y) == Some(j as int)
                && j < bullets.len(),
            None => first_hit(*invader, bullets@, bullets.len() as int, x, y) is None,
        },
{
    let mut j: usize = 0;
    while j < bullets.len()
        invariant
            j <= bullets.len(),
            invader.transform.bounded(x as int, y as int),
            forall|k: int| 0 <= k < bullets.len() ==> (#[trigger] bullets[k]).transform.bounded(0, 0),
            first_hit(*invader, bullets@, j as int, x, y) is None,
        decreases bullets.len() - j,
    {
        let bullet = bullets[j];
        if !bullet.invader && invader.transform.collided(&bullet.transform, x, y) {
            proof {
                lemma_first_hit_found(*invader, bullets@, j as int, bullets.len() as int, x, y);
            }
            return Some(j);
        }
        j += 1;
    }
    None
}

proof fn lemma_first_hit_found(
    invader: Invader,
    bullets: Seq<Bullet>,
    j: int,
    n: int,
    x: usize,
    y: usize,
)
    requires
        0 <= j < n,
        first_hit(invader, bullets, j + 1, x, y) == Some(j),
    ensures
        first_hit(invader, bullets, n, x, y) == Some(j),
    decreases n - j,
{
    if j + 1 < n {
        lemma_first_hit_found(invader, bullets, j, n - 1, x, y);
    }
}

impl Game {
    /// Whether the bullets can fly without a number leaving its range.
    pub open spec fn armed(&self) -> bool {
        &&& self.height >= 4
        &&& self.lives >= 1
        &&& self.ship.bounded(0, 0)
        &&& forall|k: int| 0 <= k < 4 ==> (#[trigger] self.walls[k]).transform.bounded(0, 0)
        &&& forall|j: int| 0 <= j < self.bullets.len() ==> (#[trigger] self.bullets[j]).steady()
    }

    /// Whether `after` has what this game has in the fields that neither
    /// bullets nor timers change.
    pub open spec fn same_field(&self, after: &Game) -> bool {
        &&& after.ship == self.ship
        &&& after.state == self.state
        &&& after.invincible_timer == self.invincible_timer
        &&& after.width == self.width
        &&& after.height == self.height
        &&& after.invaders_group.x == self.invaders_group.x
        &&& after.invaders_group.y == self.invaders_group.y
        &&& after.invaders_group.width == self.invaders_group.width
        &&& after.invaders_group.direction == self.invaders_group.direction
    }

    /// Whether `after` is this game after the flight of the bullets: every
    /// bullet in turn has damaged the walls it touches, an invaders' bullet
    /// may have wounded the ship, and the bullets that are spent or have hit
    /// something are gone while the others have moved by one row.
    pub open spec fn bullets_flown(&self, after: &Game) -> bool {
        let bullets = self.bullets@;
        let n = bullets.len() as int;
        &&& self.same_field(after)
        &&& after.invader_move_timer == self.invader_move_timer
        &&& after.score == self.score
        &&& ranks(after.invaders_group.invaders@) == ranks(self.invaders_group.invaders@)
        &&& after.bullets@ == volley(
            self.walls@,
            self.ship,
            self.invincible,
            bullets,
            n,
            self.height,
        )
        &&& forall|k: int|
            0 <= k < 4 ==> #[trigger] after.walls[k] == (Wall {
                transform: self.walls[k].transform,
                health: worn(self.walls[k], bullets, n, self.height),
            })
        &&& after.effects.explosions@ == self.effects.explosions@ + wall_blasts(
            self.walls@,
            bullets,
            n,
            self.height,
        )
        &&& after.invincible == shielded(self.ship, self.invincible, bullets, n, self.height)
        &&& after.lives == if after.invincible && !self.invincible {
            self.lives - 1
        } else {
            self.lives as int
        }
    }

    /// Lets every bullet fly by one row. Tells whether the ship was wounded,
    /// on which the terminal's bell is to ring.
    pub fn fly_bullets(&mut self) -> (bell: bool)
        requires
            old(self).armed(),
        ensures
            old(self).bullets_flown(final(self)),
            bell == (final(self).invincible && !old(self).invincible),
    {
        let ghost bullets = self.bullets@;
        let ghost walls = self.walls@;
        let ghost before = self.effects.explosions@;
        let n = self.bullets.len();
        let mut kept: Vec<Bullet> = Vec::new();
        let mut bell = false;
        let mut i: usize = 0;
        assert(self.effects.explosions@ =~= before + wall_blasts(walls, bullets, 0, self.height));
        while i < n
            invariant
                i <= n,
                n == bullets.len(),
                bullets == old(self).bullets@,
                self.bullets@ == bullets,
                walls == old(self).walls@,
                before == old(self).effects.explosions@,
                old(self).armed(),
                old(self).same_field(&*self),
                self.invader_move_timer == old(self).invader_move_timer,
                self.score == old(self).score,
                self.invaders_group.invaders == old(self).invaders_group.invaders,
                kept@ == volley(walls, self.ship, old(self).invincible, bullets, i as int, self.height),
                forall|k: int|
                    0 <= k < 4 ==> #[trigger] self.walls[k] == (Wall {
                        transform: walls[k].transform,
                        health: worn(walls[k], bullets, i as int, self.height),
                    }),
                self.effects.explosions@ == before + wall_blasts(
                    walls,
                    bullets,
                    i as int,
                    self.height,
                ),
                self.invincible == shielded(
                    self.ship,
                    old(self).invincible,
                    bullets,
                    i as int,
                    self.height,
                ),
                bell == (self.invincible && !old(self).invincible),
                self.lives == if bell {
                    old(self).lives - 1
                } else {
                    old(self).lives as int
                },
            decreases n - i,
        {
            let mut bullet = self.bullets[i];
            let ghost shots = self.effects.explosions@;
            proof {
                if old(self).invincible {
                    lemma_shield_stays(
                        self.ship,
                        old(self).invincible,
                        bullets,
                        i as int,
                        self.height,
                    );
                }
            }
            if bullet.transform.y == 0 || bullet.transform.y >= self.height - 4 {
                bullet.delete();
                proof {
                    lemma_spent_strikes_nothing(walls, bullets, i as int, 4, self.height);
                    assert(self.effects.explosions@ =~= before + wall_blasts(
                        walls,
                        bullets,
                        i + 1,
                        self.height,
                    ));
                }
            } else {
                let mut k: usize = 0;
                let ghost intact = bullet;
                assert(self.effects.explosions@ =~= shots + blasts(intact, 0));
                while k < 4
                    invariant
                        k <= 4,
                        i < n,
                        n == bullets.len(),
                        walls == old(self).walls@,
                        walls.len() == 4,
                        old(self).armed(),
                        old(self).same_field(&*self),
                        self.invader_move_timer == old(self).invader_move_timer,
                self.invader_move_timer == old(self).invader_move_timer,
                        self.bullets@ == bullets,
                        bullets == old(self).bullets@,
                        self.score == old(self).score,
                        self.lives == if bell {
                            old(self).lives - 1
                        } else {
                            old(self).lives as int
                        },
                        self.invaders_group.invaders == old(self).invaders_group.invaders,
                        self.invincible == shielded(
                            self.ship,
                            old(self).invincible,
                            bullets,
                            i as int,
                            self.height,
                        ),
                        intact == bullets[i as int],
                        !intact.spent(self.height),
                        bullet.transform == intact.transform,
                        bullet.invader == intact.invader,
                        bullet.delete == (intact.delete || struck(
                            walls,
                            bullets,
                            i as int,
                            k as int,
                            self.height,
                        ) > 0),
                        forall|w: int|
                            0 <= w < k ==> #[trigger] self.walls[w] == (Wall {
                                transform: walls[w].transform,
                                health: worn(walls[w], bullets, i + 1, self.height),
                            }),
                        forall|w: int|
                            k <= w < 4 ==> #[trigger] self.walls[w] == (Wall {
                                transform: walls[w].transform,
                                health: worn(walls[w], bullets, i as int, self.height),
                            }),
                        self.effects.explosions@ == shots + blasts(
                            intact,
                            struck(walls, bullets, i as int, k as int, self.height),
                        ),
                    decreases 4 - k,
                {
                    let wall = self.walls[k];
                    if wall.transform.collided(&bullet.transform, 0, 0) && wall.health != 0 {
                        self.walls[k] = Wall { transform: wall.transform, health: wall.health - 1 };
                        bullet.delete();
                        self.effects.explosions.push(
                            Explosion {
                                x: bullet.transform.x,
                                y: bullet.transform.y,
                                stage: 3,
                                timer: 8,
                            },
                        );
                    }
                    assert(self.effects.explosions@ =~= shots + blasts(
                        intact,
                        struck(walls, bullets, i as int, k + 1, self.height),
                    ));
                    k += 1;
                }
                assert(self.effects.explosions@ =~= before + wall_blasts(
                    walls,
                    bullets,
                    i + 1,
                    self.height,
                ));
                if bullet.invader {
                    if self.ship.collided(&bullet.transform, 0, 0) && !self.invincible {
                        bell = true;
                        self.lives -= 1;
                        bullet.delete();
                        self.invincible = true;
                    } else {
                        bullet.transform.y += 1;
                    }
                } else {
                    bullet.transform.y -= 1;
                }
            }
            assert(bullet == flown_at(
                walls,
                self.ship,
                old(self).invincible,
                bullets,
                i as int,
                self.height,
            ));
            if !bullet.delete {
                kept.push(bullet);
            }
            i += 1;
        }
        self.bullets = kept;
        bell
    }

    /// Whether the invaders can be shot at without a number leaving its
    /// range.
    pub open spec fn aimed(&self) -> bool {
        let rows = ranks(self.invaders_group.invaders@);
        &&& forall|r: int, c: int|
            0 <= r < rows.len() && 0 <= c < rows[r].len() ==> (#[trigger] rows[r][c]).transform.bounded(
                self.invaders_group.x as int,
                self.invaders_group.y as int,
            )
        &&& forall|j: int|
            0 <= j < self.bullets.len() ==> (#[trigger] self.bullets[j]).transform.bounded(0, 0)
        &&& self.score + spoils(
            rows,
            rows.len() as int,
            self.bullets@,
            self.invaders_group.x,
            self.invaders_group.y,
        ) <= u64::MAX
    }

    /// Whether `after` is this game after the shots at the invaders: every
    /// invader that a bullet of the ship touches is gone and has brought its
    /// points, the first bullet that touches it is marked to leave the game
    /// and has left an explosion, and the rows that were empty are gone.
    pub open spec fn invaders_shot(&self, after: &Game) -> bool {
        let rows = ranks(self.invaders_group.invaders@);
        let m = rows.len() as int;
        let bullets = self.bullets@;
        let x = self.invaders_group.x;
        let y = self.invaders_group.y;
        &&& self.same_field(after)
        &&& after.invader_move_timer == self.invader_move_timer
        &&& after.walls == self.walls
        &&& after.lives == self.lives
        &&& after.invincible == self.invincible
        &&& ranks(after.invaders_group.invaders@) == thinned(rows, m, bullets, x, y)
        &&& after.bullets@.len() == bullets.len()
        &&& forall|j: int|
            0 <= j < bullets.len() ==> #[trigger] after.bullets@[j] == marked_if(
                bullets[j],
                claimed(rows, m, bullets, x, y, j),
            )
        &&& after.effects.explosions@ == self.effects.explosions@ + ranks_blasts(
            rows,
            m,
            bullets,
            x,
            y,
        )
        &&& after.score == self.score + spoils(rows, m, bullets, x, y)
    }

    /// Takes out the invaders that the ship's bullets touch.
    pub fn shoot_invaders(&mut self)
        requires
            old(self).aimed(),
        ensures
            old(self).invaders_shot(final(self)),
    {
        let ghost rows = ranks(self.invaders_group.invaders@);
        let ghost bullets = self.bullets@;
        let ghost before = self.effects.explosions@;
        let x = self.invaders_group.x;
        let y = self.invaders_group.y;
        let total = self.invaders_group.invaders.len();
        let mut left: Vec<Vec<Invader>> = Vec::new();
        let mut m: usize = 0;
        assert(self.effects.explosions@ =~= before + ranks_blasts(rows, 0, bullets, x, y));
        while m < total
            invariant
                m <= total,
                total == rows.len(),
                rows == ranks(old(self).invaders_group.invaders@),
                self.invaders_group.invaders == old(self).invaders_group.invaders,
                bullets == old(self).bullets@,
                before == old(self).effects.explosions@,
                x == self.invaders_group.x,
                y == self.invaders_group.y,
                old(self).aimed(),
                old(self).same_field(&*self),
                self.invader_move_timer == old(self).invader_move_timer,
                self.walls == old(self).walls,
                self.lives == old(self).lives,
                self.invincible == old(self).invincible,
                ranks(left@) == thinned(rows, m as int, bullets, x, y),
                self.bullets@.len() == bullets.len(),
                forall|j: int|
                    0 <= j < bullets.len() ==> #[trigger] self.bullets@[j] == marked_if(
                        bullets[j],
                        claimed(rows, m as int, bullets, x, y, j),
                    ),
                self.effects.explosions@ == before + ranks_blasts(rows, m as int, bullets, x, y),
                self.score == old(self).score + spoils(rows, m as int, bullets, x, y),
            decreases total - m,
        {
            let len = self.invaders_group.invaders[m].len();
            let ghost row = rows[m as int];
            assert(row == self.invaders_group.invaders[m as int]@);
            if len > 0 {
                let mut alive: Vec<Invader> = Vec::new();
                let mut c: usize = 0;
                let ghost shots = self.effects.explosions@;
                assert(self.effects.explosions@ =~= shots + row_blasts(row, 0, bullets, x, y));
                while c < len
                    invariant
                        c <= len,
                        m < total,
                        total == rows.len(),
                        rows == ranks(old(self).invaders_group.invaders@),
                        self.invaders_group.invaders == old(self).invaders_group.invaders,
                        row == rows[m as int],
                        len == row.len(),
                        bullets == old(self).bullets@,
                        x == self.invaders_group.x,
                        y == self.invaders_group.y,
                        old(self).aimed(),
                        old(self).same_field(&*self),
                        self.invader_move_timer == old(self).invader_move_timer,
                self.invader_move_timer == old(self).invader_move_timer,
                        self.walls == old(self).walls,
                        self.lives == old(self).lives,
                        self.invincible == old(self).invincible,
                        alive@ == survivors(row, c as int, bullets, x, y),
                        self.bullets@.len() == bullets.len(),
                        forall|j: int|
                            0 <= j < bullets.len() ==> #[trigger] self.bullets@[j] == marked_if(
                                bullets[j],
                                claimed(rows, m as int, bullets, x, y, j) || claims(
                                    row,
                                    c as int,
                                    bullets,
                                    x,
                                    y,
                                    j,
                                ),
                            ),
                        self.effects.explosions@ == shots + row_blasts(row, c as int, bullets, x, y),
                        self.score == old(self).score + spoils(rows, m as int, bullets, x, y)
                            + bounty(row, c as int, bullets, x, y),
                    decreases len - c,
                {
                    let invader = self.invaders_group.invaders[m][c];
                    assert(invader == row[c as int]);
                    proof {
                        assert(same_shots(self.bullets@, bullets)) by {
                            assert forall|j: int| 0 <= j < bullets.len() implies (
                            #[trigger] self.bullets@[j]).transform == bullets[j].transform
                                && self.bullets@[j].invader == bullets[j].invader by {
                                assert(self.bullets@[j] == marked_if(
                                    bullets[j],
                                    claimed(rows, m as int, bullets, x, y, j) || claims(
                                        row,
                                        c as int,
                                        bullets,
                                        x,
                                        y,
                                        j,
                                    ),
                                ));
                            }
                        }
                        lemma_first_hit_ignores_marks(
                            invader,
                            self.bullets@,
                            bullets,
                            bullets.len() as int,
                            x,
                            y,
                        );
                        lemma_bounty_grows(rows, m as int, c + 1, bullets, x, y);
                        assert forall|j: int| 0 <= j < self.bullets.len() implies (
                        #[trigger] self.bullets[j]).transform.bounded(0, 0) by {
                            assert(self.bullets@[j].transform == bullets[j].transform);
                        }
                    }
                    let hit = find_hit(&invader, &self.bullets, x, y);
                    match hit {
                        Some(j) => {
                            let bullet = self.bullets[j];
                            self.bullets[j] = Bullet {
                                transform: bullet.transform,
                                invader: bullet.invader,
                                delete: true,
                            };
                            self.effects.explosions.push(
                                Explosion {
                                    x: bullet.transform.x,
                                    y: bullet.transform.y,
                                    stage: 3,
                                    timer: 8,
                                },
                            );
                            self.score += invader.score as u64;
                        },
                        None => {
                            alive.push(invader);
                        },
                    }
                    assert(self.effects.explosions@ =~= shots + row_blasts(
                        row,
                        c + 1,
                        bullets,
                        x,
                        y,
                    ));
                    c += 1;
                }
                left.push(alive);
                assert(ranks(left@) =~= thinned(rows, m + 1, bullets, x, y));
                assert(self.effects.explosions@ =~= before + ranks_blasts(
                    rows,
                    m + 1,
                    bullets,
                    x,
                    y,
                ));
            } else {
                assert(ranks(left@) =~= thinned(rows, m + 1, bullets, x, y));
                assert(self.effects.explosions@ =~= before + ranks_blasts(
                    rows,
                    m + 1,
                    bullets,
                    x,
                    y,
                ));
            }
            m += 1;
        }
        self.invaders_group.invaders = left;
    }
}

/// A ship that is shielded stays so while the bullets fly.
proof fn lemma_shield_stays(
    ship: Transform,
    invincible: bool,
    bullets: Seq<Bullet>,
    n: int,
    height: usize,
)
    requires
        invincible,
    ensures
        shielded(ship, invincible, bullets, n, height),
    decreases n,
{
    if n > 0 {
        lemma_shield_stays(ship, invincible, bullets, n - 1, height);
    }
}

/// A spent bullet damages no wall.
proof fn lemma_spent_strikes_nothing(
    walls: Seq<Wall>,
    bullets: Seq<Bullet>,
    n: int,
    k: int,
    height: usize,
)
    requires
        0 <= n < bullets.len(),
        bullets[n].spent(height),
    ensures
        struck(walls, bullets, n, k, height) == 0,
        forall|w: int| worn(#[trigger] walls[w], bullets, n + 1, height) == worn(walls[w], bullets, n, height),
    decreases k,
{
    if k > 0 {
        lemma_spent_strikes_nothing(walls, bullets, n, k - 1, height);
    }
}


/// The points of the first `n` invaders of a row, hit or not.
pub open spec fn row_stake(row: Seq<Invader>, n: int) -> nat
    decreases n,
{
    if n <= 0 {
        0
    } else {
        row_stake(row, n - 1) + row[n - 1].score as nat
    }
}

/// The points of all invaders of the first `m` rows.
pub open spec fn stake(rows: Seq<Seq<Invader>>, m: int) -> nat
    decreases m,
{
    if m <= 0 {
        0
    } else {
        stake(rows, m - 1) + row_stake(rows[m - 1], rows[m - 1].len() as int)
    }
}

/// The invaders that are hit bring no more points than all of them have.
proof fn lemma_spoils_within_stake(
    rows: Seq<Seq<Invader>>,
    m: int,
    bullets: Seq<Bullet>,
    x: usize,
    y: usize,
)
    ensures
        spoils(rows, m, bullets, x, y) <= stake(rows, m),
    decreases m,
{
    if m > 0 {
        lemma_spoils_within_stake(rows, m - 1, bullets, x, y);
        lemma_bounty_within_stake(rows[m - 1], rows[m - 1].len() as int, bullets, x, y);
    }
}

proof fn lemma_bounty_within_stake(
    row: Seq<Invader>,
    n: int,
    bullets: Seq<Bullet>,
    x: usize,
    y: usize,
)
    ensures
        bounty(row, n, bullets, x, y) <= row_stake(row, n),
    decreases n,
{
    if n > 0 {
        lemma_bounty_within_stake(row, n - 1, bullets, x, y);
    }
}

/// Whoever is left of the invaders was among them before.
proof fn lemma_thinned_from_ranks(
    rows: Seq<Seq<Invader>>,
    m: int,
    bullets: Seq<Bullet>,
    x: usize,
    y: usize,
    r: int,
    c: int,
)
    requires
        0 <= m <= rows.len(),
        0 <= r < thinned(rows, m, bullets, x, y).len(),
        0 <= c < thinned(rows, m, bullets, x, y)[r].len(),
    ensures
        exists|i: int, j: int|
            0 <= i < m && 0 <= j < rows[i].len() && #[trigger] rows[i][j] == thinned(
                rows,
                m,
                bullets,
                x,
                y,
            )[r][c],
    decreases m,
{
    let rest = thinned(rows, m - 1, bullets, x, y);
    if rows[m - 1].len() == 0 || r < rest.len() {
        lemma_thinned_from_ranks(rows, m - 1, bullets, x, y, r, c);
        let (i, j) = choose|i: int, j: int|
            0 <= i < m - 1 && 0 <= j < rows[i].len() && #[trigger] rows[i][j] == rest[r][c];
        assert(rows[i][j] == thinned(rows, m, bullets, x, y)[r][c]);
    } else {
        let row = rows[m - 1];
        lemma_survivors_from_row(row, row.len() as int, bullets, x, y, c);
        let j = choose|j: int|
            0 <= j < row.len() && #[trigger] row[j] == survivors(
                row,
                row.len() as int,
                bullets,
                x,
                y,
            )[c];
        assert(rows[m - 1][j] == thinned(rows, m, bullets, x, y)[r][c]);
    }
}

proof fn lemma_survivors_from_row(
    row: Seq<Invader>,
    n: int,
    bullets: Seq<Bullet>,
    x: usize,
    y: usize,
    c: int,
)
    requires
        0 <= n <= row.len(),
        0 <= c < survivors(row, n, bullets, x, y).len(),
    ensures
        exists|j: int| 0 <= j < n && #[trigger] row[j] == survivors(row, n, bullets, x, y)[c],
    decreases n,
{
    let rest = survivors(row, n - 1, bullets, x, y);
    if shot(row[n - 1], bullets, x, y) || c < rest.len() {
        lemma_survivors_from_row(row, n - 1, bullets, x, y, c);
        let j = choose|j: int| 0 <= j < n - 1 && #[trigger] row[j] == rest[c];
        assert(row[j] == survivors(row, n, bullets, x, y)[c]);
    } else {
        assert(row[n - 1] == survivors(row, n, bullets, x, y)[c]);
    }
}

/// The bullets that stay in the game after a flight can fly on without
/// leaving the range of the coordinates by more than a row.
proof fn lemma_volley_bounded(
    walls: Seq<Wall>,
    ship: Transform,
    invincible: bool,
    bullets: Seq<Bullet>,
    n: int,
    height: usize,
    j: int,
)
    requires
        0 <= n <= bullets.len(),
        forall|k: int| 0 <= k < bullets.len() ==> (#[trigger] bullets[k]).steady(),
        0 <= j < volley(walls, ship, invincible, bullets, n, height).len(),
    ensures
        volley(walls, ship, invincible, bullets, n, height)[j].transform.bounded(0, 0),
    decreases n,
{
    let rest = volley(walls, ship, invincible, bullets, n - 1, height);
    if j < rest.len() {
        lemma_volley_bounded(walls, ship, invincible, bullets, n - 1, height, j);
    } else {
        assert(bullets[n - 1].steady());
    }
}

impl Game {
    /// Whether `after` has in every field what this game has, but for the
    /// moves left to the invaders' next step.
    pub open spec fn alike(&self, after: &Game) -> bool {
        &&& self.same_field(after)
        &&& after.walls == self.walls
        &&& after.lives == self.lives
        &&& after.score == self.score
        &&& after.invincible == self.invincible
        &&& after.bullets@ == self.bullets@
        &&& after.effects.explosions@ == self.effects.explosions@
        &&& ranks(after.invaders_group.invaders@) == ranks(self.invaders_group.invaders@)
    }

    /// Whether `after` is this game after the flight of the bullets and the
    /// shots at the invaders.
    pub open spec fn fought(&self, after: &Game) -> bool {
        exists|between: Game| #[trigger] self.bullets_flown(&between) && between.invaders_shot(after)
    }

    /// Whether the invaders can make a step, from which the invader in place
    /// `shooter` shoots, without a number leaving its range.
    pub open spec fn drilled(&self, shooter: Option<(usize, usize)>) -> bool {
        let rows = ranks(self.invaders_group.invaders@);
        let group = self.invaders_group;
        &&& shooter matches Some((i, j)) ==> {
            &&& i < rows.len()
            &&& j < rows[i as int].len()
            &&& rows[i as int][j as int].transform.x + 6 + group.x <= usize::MAX
            &&& rows[i as int][j as int].transform.y + 5 + group.y <= usize::MAX
        }
        &&& group.direction == InvaderDirection::Right ==> group.x + 1 + group.width
            + INVADER_PADDING <= usize::MAX
        &&& group.direction == InvaderDirection::Left ==> group.x >= 1 + INVADER_PADDING
        &&& group.y + 4 <= usize::MAX
    }

    /// Whether the group, one column further in its direction, has reached
    /// the edge of the field, on which it turns round and comes down.
    pub open spec fn turning(&self) -> bool {
        match self.invaders_group.direction {
            InvaderDirection::Right => self.invaders_group.x + 1 + self.invaders_group.width
                + INVADER_PADDING > self.width,
            InvaderDirection::Left => self.invaders_group.x - 1 - INVADER_PADDING <= 2,
        }
    }

    /// Whether `after` is this game after a step of the invaders from which
    /// the invader in place `shooter` has shot: the ship's shield has worn by
    /// one step, the shot has left the invader from its middle, and the group
    /// has moved by one column, and down by four rows on turning round.
    /// Nothing is said of the moves left to the next step.
    pub open spec fn marched(&self, after: &Game, shooter: Option<(usize, usize)>) -> bool {
        let rows = ranks(self.invaders_group.invaders@);
        let group = self.invaders_group;
        &&& after.ship == self.ship
        &&& after.state == self.state
        &&& after.walls == self.walls
        &&& after.lives == self.lives
        &&& after.score == self.score
        &&& after.width == self.width
        &&& after.height == self.height
        &&& after.effects.explosions@ == self.effects.explosions@
        &&& ranks(after.invaders_group.invaders@) == rows
        &&& after.invaders_group.width == group.width
        &&& after.invincible == (self.invincible && self.invincible_timer > 0)
        &&& after.invincible_timer == if !self.invincible {
            self.invincible_timer as int
        } else if self.invincible_timer > 0 {
            self.invincible_timer - 1
        } else {
            TICKS_TO_INVINCIBILITY as int
        }
        &&& after.bullets@ == match shooter {
            Some((i, j)) => self.bullets@.push(
                Bullet {
                    transform: Transform {
                        x: (rows[i as int][j as int].transform.x + 6 + group.x) as usize,
                        y: (rows[i as int][j as int].transform.y + 5 + group.y) as usize,
                        width: 1,
                        height: 1,
                    },
                    invader: true,
                    delete: false,
                },
            ),
            None => self.bullets@,
        }
        &&& after.invaders_group.x == match group.direction {
            InvaderDirection::Right => group.x + 1,
            InvaderDirection::Left => group.x - 1,
        }
        &&& after.invaders_group.y == if self.turning() {
            group.y + 4
        } else {
            group.y as int
        }
        &&& after.invaders_group.direction == if self.turning() {
            match group.direction {
                InvaderDirection::Right => InvaderDirection::Left,
                InvaderDirection::Left => InvaderDirection::Right,
            }
        } else {
            group.direction
        }
    }

    /// One step of the invaders, from which the invader in place `shooter`,
    /// as (row, place in the row), shoots.
    pub fn march(&mut self, shooter: Option<(usize, usize)>)
        requires
            old(self).drilled(shooter),
        ensures
            old(self).marched(final(self), shooter),
            final(self).invader_move_timer == old(self).invader_move_timer,
    {
        if self.invincible {
            if self.invincible_timer > 0 {
                self.invincible_timer -= 1;
            } else {
                self.invincible_timer = TICKS_TO_INVINCIBILITY;
                self.invincible = false;
            }
        }
        match shooter {
            Some((i, j)) => {
                let invader = self.invaders_group.invaders[i][j];
                self.bullets.push(
                    Bullet::new(
                        invader.transform.x + 6 + self.invaders_group.x,
                        invader.transform.y + 5 + self.invaders_group.y,
                        true,
                    ),
                );
            },
            None => {},
        }
        match self.invaders_group.direction {
            InvaderDirection::Right => {
                self.invaders_group.x += 1;
                if self.invaders_group.x + self.invaders_group.width + INVADER_PADDING > self.width {
                    self.invaders_group.y += 4;
                    self.invaders_group.direction = InvaderDirection::Left;
                }
            },
            InvaderDirection::Left => {
                self.invaders_group.x -= 1;
                if self.invaders_group.x - INVADER_PADDING <= 2 {
                    self.invaders_group.y += 4;
                    self.invaders_group.direction = InvaderDirection::Right;
                }
            },
        }
    }

    /// Whether the game is being played and is neither lost nor won.
    pub open spec fn fighting(&self) -> bool {
        self.state is Play && self.lives != 0 && self.invaders_group.invaders.len() > 0
    }

    /// The points that the next move of the game brings.
    pub open spec fn gain(&self) -> nat {
        let rows = ranks(self.invaders_group.invaders@);
        spoils(
            rows,
            rows.len() as int,
            volley(
                self.walls@,
                self.ship,
                self.invincible,
                self.bullets@,
                self.bullets.len() as int,
                self.height,
            ),
            self.invaders_group.x,
            self.invaders_group.y,
        )
    }

    /// Whether the game can make its next move without a number leaving its
    /// range, whatever invader shoots: the bullets can fly, the boxes of the
    /// invaders lie in the range of the coordinates, the score has room for
    /// the points of the move, and when a step of the invaders is due, the
    /// group can make it and every invader can shoot.
    pub open spec fn ready(&self) -> bool {
        let rows = ranks(self.invaders_group.invaders@);
        let group = self.invaders_group;
        self.fighting() ==> {
            &&& self.armed()
            &&& forall|r: int, c: int|
                0 <= r < rows.len() && 0 <= c < rows[r].len() ==> {
                    &&& (#[trigger] rows[r][c]).transform.bounded(group.x as int, group.y as int)
                    &&& self.invader_move_timer == 0 ==> rows[r][c].transform.x + 6 + group.x
                        <= usize::MAX && rows[r][c].transform.y + 5 + group.y <= usize::MAX
                }
            &&& self.score + self.gain() <= u64::MAX
            &&& self.invader_move_timer == 0 ==> self.drilled(None)
        }
    }

    /// Whether the game is ready for its next move and the score has room
    /// for the points of all invaders.
    pub open spec fn sturdy(&self) -> bool {
        let rows = ranks(self.invaders_group.invaders@);
        self.ready() && (self.fighting() ==> self.score + stake(rows, rows.len() as int)
            <= u64::MAX)
    }

    /// Whether `after` is this game after a move in which the invaders have
    /// stood still: the bullets have flown, the invaders have been shot at,
    /// and it is one move less to the invaders' next step.
    pub open spec fn waited(&self, after: &Game) -> bool {
        exists|fight: Game| #[trigger]
            self.fought(&fight) && fight.alike(after) && after.invader_move_timer
                == self.invader_move_timer - 1
    }

    /// Whether `after` is this game after a move in which the invaders have
    /// made a step, from which the invader in place `shooter` has shot.
    pub open spec fn stepped(&self, after: &Game, shooter: Option<(usize, usize)>) -> bool {
        exists|fight: Game| #[trigger]
            self.fought(&fight) && fight.drilled(shooter) && fight.marched(after, shooter)
                && after.invader_move_timer == TICKS_TO_MOVE_INVADERS
    }

    /// One move of the game. Tells whether the ship was wounded, on which the
    /// terminal's bell is to ring.
    ///
    /// Nothing moves unless the game is being played. A ship without lives
    /// has lost, and a field without rows of invaders is won. Otherwise the
    /// bullets fly and hit what they hit, and every thirteenth move the
    /// invaders make a step. With one step in five one invader, picked at
    /// random, shoots; when the row picked has lost its last invader in this
    /// very move, nobody shoots.
    pub fn tick(&mut self) -> (bell: bool)
        requires
            old(self).ready(),
        ensures
            !(old(self).state is Play) ==> *final(self) == *old(self) && !bell,
            old(self).state is Play && old(self).lives == 0 ==> *final(self) == (Game {
                state: StateMachine::Loss,
                ..*old(self)
            }) && !bell,
            old(self).state is Play && old(self).lives != 0 && old(self).invaders_group.invaders.len()
                == 0 ==> *final(self) == (Game { state: StateMachine::Win, ..*old(self) })
                && !bell,
            old(self).state is Play && old(self).lives != 0 && old(self).invaders_group.invaders.len()
                > 0 ==> {
                &&& bell == (final(self).lives < old(self).lives)
                &&& old(self).invader_move_timer > 0 ==> old(self).waited(final(self))
                &&& old(self).invader_move_timer == 0 ==> exists|shooter: Option<(usize, usize)>| #[trigger]
                    old(self).stepped(final(self), shooter)
            },
    {
        match self.state {
            StateMachine::Play => {},
            _ => {
                return false;
            },
        }
        if self.lives == 0 {
            self.state = StateMachine::Loss;
            return false;
        } else if self.invaders_group.invaders.len() == 0 {
            self.state = StateMachine::Win;
            return false;
        }
        let ghost rows = ranks(self.invaders_group.invaders@);
        let ghost x = self.invaders_group.x;
        let ghost y = self.invaders_group.y;
        let bell = self.fly_bullets();
        let ghost flown = *self;
        proof {
            assert forall|j: int| 0 <= j < self.bullets.len() implies (
            #[trigger] self.bullets[j]).transform.bounded(0, 0) by {
                lemma_volley_bounded(
                    old(self).walls@,
                    old(self).ship,
                    old(self).invincible,
                    old(self).bullets@,
                    old(self).bullets.len() as int,
                    old(self).height,
                    j,
                );
            }
        }
        self.shoot_invaders();
        let ghost fight = *self;
        assert(old(self).fought(&fight));
        if self.invader_move_timer > 0 {
            self.invader_move_timer -= 1;
            assert(fight.alike(&*self));
            assert(old(self).waited(&*self));
            return bell;
        }
        self.invader_move_timer = TICKS_TO_MOVE_INVADERS;
        let mut shooter: Option<(usize, usize)> = None;
        let chance = random_between(0, 5);
        if chance == 0 {
            let rows_left = self.invaders_group.invaders.len();
            if rows_left > 0 {
                let i = random_between(0, rows_left);
                let row_len = self.invaders_group.invaders[i].len();
                if row_len > 0 {
                    let j = random_between(0, row_len);
                    shooter = Some((i, j));
                    proof {
                        lemma_thinned_from_ranks(
                            rows,
                            rows.len() as int,
                            flown.bullets@,
                            x,
                            y,
                            i as int,
                            j as int,
                        );
                    }
                }
            }
        }
        assert(fight.drilled(shooter));
        self.march(shooter);
        assert(fight.marched(&*self, shooter));
        assert(old(self).stepped(&*self, shooter));
        bell
    }
}


/// What a key asks of a ship in play.
#[derive(Copy, Clone, Debug, PartialEq, Eq, Structural)]
pub enum Order {
    Right,
    Left,
    Fire,
    Nothing,
}

/// What `key` asks of a ship in play: the arrows or `d` and `w` move it, and
/// the enter key or the space bar fires.
pub open spec fn order_of(key: Key) -> Order {
    match key {
        Key::Right | Key::Char('d') => Order::Right,
        Key::Left | Key::Char('w') => Order::Left,
        Key::Enter | Key::Char(' ') => Order::Fire,
        _ => Order::Nothing,
    }
}

/// Reads a key as an order to a ship in play.
pub fn order(key: Key) -> (asked: Order)
    ensures
        asked == order_of(key),
{
    match key {
        Key::Right => Order::Right,
        Key::Left => Order::Left,
        Key::Enter => Order::Fire,
        Key::Char(ch) => if ch == 'd' {
            Order::Right
        } else if ch == 'w' {
            Order::Left
        } else if ch == ' ' {
            Order::Fire
        } else {
            Order::Nothing
        },
        _ => Order::Nothing,
    }
}

impl MenuData {
    /// The menu after `key`: the arrows move the cursor up and down, as far
    /// as there are options.
    pub open spec fn moved(self, key: Key) -> MenuData {
        match key {
            Key::Up if self.cursor_index > 0 => MenuData {
                cursor_index: (self.cursor_index - 1) as usize,
                ..self
            },
            Key::Down if self.cursor_index < 1 => MenuData {
                cursor_index: (self.cursor_index + 1) as usize,
                ..self
            },
            _ => self,
        }
    }
}

impl Game {
    /// Whether the game can take `key` without a number leaving its range or
    /// the cursor pointing beside the menu.
    pub open spec fn takes(&self, key: Key) -> bool {
        match self.state {
            StateMachine::Play => match order_of(key) {
                Order::Right => self.ship.x + 2 <= usize::MAX,
                Order::Left => self.ship.x >= 2,
                Order::Fire => self.ship.x + 4 <= usize::MAX && self.ship.y + 4 <= usize::MAX,
                Order::Nothing => true,
            },
            StateMachine::Win | StateMachine::Loss => self.width >= 56 && self.height >= 32,
            StateMachine::Credits => true,
            StateMachine::Menu(menu) => key is Enter ==> menu.cursor_index < 2,
        }
    }

    /// Whether `after` is this game after `key`.
    ///
    /// In play the key is an order to the ship, which moves by two columns or
    /// fires a bullet from its middle. After a game any key starts a new one.
    /// On the credits any key goes back to the menu, and in the menu the
    /// enter key picks the option that the cursor is on.
    pub open spec fn keyed(&self, after: &Game, key: Key) -> bool {
        match self.state {
            StateMachine::Play => {
                &&& self.alike(&Game { ship: self.ship, bullets: self.bullets, ..*after })
                &&& after.invader_move_timer == self.invader_move_timer
                &&& after.ship == (Transform {
                    x: match order_of(key) {
                        Order::Right => (self.ship.x + 2) as usize,
                        Order::Left => (self.ship.x - 2) as usize,
                        _ => self.ship.x,
                    },
                    ..self.ship
                })
                &&& after.bullets@ == if order_of(key) == Order::Fire {
                    self.bullets@.push(
                        Bullet {
                            transform: Transform {
                                x: (self.ship.x + 4) as usize,
                                y: (self.ship.y + 4) as usize,
                                width: 1,
                                height: 1,
                            },
                            invader: false,
                            delete: false,
                        },
                    )
                } else {
                    self.bullets@
                }
            },
            StateMachine::Win | StateMachine::Loss => after.fresh(self.width, self.height),
            StateMachine::Credits => *after == (Game {
                state: StateMachine::Menu(default_menu_spec()),
                ..*self
            }),
            StateMachine::Menu(menu) => *after == (Game {
                state: if key is Enter {
                    match menu.options[menu.cursor_index as int] {
                        MenuOption::Play => StateMachine::Play,
                        MenuOption::Credits => StateMachine::Credits,
                    }
                } else {
                    StateMachine::Menu(menu.moved(key))
                },
                ..*self
            }),
        }
    }

    /// Lets the game take a key.
    pub fn on_key(&mut self, key: Key)
        requires
            old(self).takes(key),
        ensures
            old(self).keyed(final(self), key),
    {
        match self.state {
            StateMachine::Play => match order(key) {
                Order::Right => {
                    self.ship.x += 2;
                },
                Order::Left => {
                    self.ship.x -= 2;
                },
                Order::Fire => {
                    let x = self.ship.x + 4;
                    let y = self.ship.y + 4;
                    self.bullets.push(Bullet::new(x, y, false));
                },
                Order::Nothing => {},
            },
            StateMachine::Loss | StateMachine::Win => {
                *self = Game::init(self.width, self.height);
            },
            StateMachine::Credits => {
                self.state = StateMachine::Menu(default_menu());
            },
            StateMachine::Menu(menu) => match key {
                Key::Up => {
                    if menu.cursor_index > 0 {
                        self.state = StateMachine::Menu(
                            MenuData { options: menu.options, cursor_index: menu.cursor_index - 1 },
                        );
                    }
                },
                Key::Down => {
                    if menu.cursor_index < menu.options.len() - 1 {
                        self.state = StateMachine::Menu(
                            MenuData { options: menu.options, cursor_index: menu.cursor_index + 1 },
                        );
                    }
                },
                Key::Enter => match menu.options[menu.cursor_index] {
                    MenuOption::Play => {
                        self.state = StateMachine::Play;
                    },
                    MenuOption::Credits => {
                        self.state = StateMachine::Credits;
                    },
                },
                _ => {},
            },
        }
    }
}


/// The points of some invaders are no more than the points of all.
proof fn lemma_stake_grows(rows: Seq<Seq<Invader>>, m: int, n: int)
    requires
        0 <= m < rows.len(),
        0 <= n <= rows[m].len(),
    ensures
        stake(rows, m) + row_stake(rows[m], n) <= stake(rows, rows.len() as int),
{
    lemma_row_stake_within(rows[m], n, rows[m].len() as int);
    lemma_stake_within(rows, m + 1, rows.len() as int);
}

proof fn lemma_row_stake_within(row: Seq<Invader>, n: int, k: int)
    requires
        n <= k,
    ensures
        row_stake(row, n) <= row_stake(row, k),
    decreases k - n,
{
    if n < k {
        lemma_row_stake_within(row, n, k - 1);
    }
}

proof fn lemma_stake_within(rows: Seq<Seq<Invader>>, m: int, k: int)
    requires
        m <= k,
    ensures
        stake(rows, m) <= stake(rows, k),
    decreases k - m,
{
    if m < k {
        lemma_stake_within(rows, m, k - 1);
    }
}

impl Transform {
    /// Tells whether the corners of the box, moved by the offset, lie in the
    /// range of the coordinates, which is what `collided` asks.
    pub fn is_bounded(&self, offset_x: usize, offset_y: usize) -> (ok: bool)
        ensures
            ok == self.bounded(offset_x as int, offset_y as int),
    {
        let across = match self.x.checked_add(offset_x) {
            Some(left) => left.checked_add(self.width).is_some(),
            None => false,
        };
        let down = match self.y.checked_add(offset_y) {
            Some(top) => top.checked_add(self.height).is_some(),
            None => false,
        };
        across && down
    }
}

impl Game {
    /// Tells whether the game is sturdy, with which it can make its next
    /// move: `tick` asks no more than that the game is ready.
    pub fn can_tick(&self) -> (ok: bool)
        ensures
            ok == self.sturdy(),
    {
        proof {
            let rows = ranks(self.invaders_group.invaders@);
            lemma_spoils_within_stake(
                rows,
                rows.len() as int,
                volley(
                    self.walls@,
                    self.ship,
                    self.invincible,
                    self.bullets@,
                    self.bullets.len() as int,
                    self.height,
                ),
                self.invaders_group.x,
                self.invaders_group.y,
            );
        }
        match self.state {
            StateMachine::Play => {},
            _ => {
                return true;
            },
        }
        if self.lives == 0 || self.invaders_group.invaders.len() == 0 {
            return true;
        }
        if self.height < 4 || !self.ship.is_bounded(0, 0) {
            return false;
        }
        let mut k: usize = 0;
        while k < 4
            invariant
                self.state is Play,
                self.lives != 0,
                self.invaders_group.invaders.len() > 0,
                k <= 4,
                forall|w: int| 0 <= w < k ==> (#[trigger] self.walls[w]).transform.bounded(0, 0),
            decreases 4 - k,
        {
            if !self.walls[k].transform.is_bounded(0, 0) {
                assert(!self.walls[k as int].transform.bounded(0, 0));
                assert(!self.armed());
                return false;
            }
            k += 1;
        }
        let mut j: usize = 0;
        while j < self.bullets.len()
            invariant
                self.state is Play,
                self.lives != 0,
                self.invaders_group.invaders.len() > 0,
                j <= self.bullets.len(),
                forall|b: int| 0 <= b < j ==> (#[trigger] self.bullets[b]).steady(),
            decreases self.bullets.len() - j,
        {
            if !self.bullets[j].transform.is_bounded(0, 1) {
                assert(!self.bullets[j as int].steady());
                assert(!self.armed());
                return false;
            }
            j += 1;
        }
        let x = self.invaders_group.x;
        let y = self.invaders_group.y;
        let ghost rows = ranks(self.invaders_group.invaders@);
        let mut sum: u128 = self.score as u128;
        let mut r: usize = 0;
        while r < self.invaders_group.invaders.len()
            invariant
                self.state is Play,
                self.lives != 0,
                self.invaders_group.invaders.len() > 0,
                r <= self.invaders_group.invaders.len(),
                rows == ranks(self.invaders_group.invaders@),
                x == self.invaders_group.x,
                y == self.invaders_group.y,
                sum == self.score + stake(rows, r as int),
                sum <= u64::MAX,
                forall|i: int, c: int|
                    0 <= i < r && 0 <= c < rows[i].len() ==> {
                        &&& (#[trigger] rows[i][c]).transform.bounded(x as int, y as int)
                        &&& self.invader_move_timer == 0 ==> rows[i][c].transform.x + 6 + x
                            <= usize::MAX && rows[i][c].transform.y + 5 + y <= usize::MAX
                    },
            decreases self.invaders_group.invaders.len() - r,
        {
            let row = &self.invaders_group.invaders[r];
            assert(row@ == rows[r as int]);
            let ghost so_far = sum;
            let mut c: usize = 0;
            while c < row.len()
                invariant
                self.state is Play,
                self.lives != 0,
                self.invaders_group.invaders.len() > 0,
                    c <= row.len(),
                    r < rows.len(),
                    rows == ranks(self.invaders_group.invaders@),
                    x == self.invaders_group.x,
                    y == self.invaders_group.y,
                    row@ == rows[r as int],
                    so_far == self.score + stake(rows, r as int),
                    sum == so_far + row_stake(row@, c as int),
                    sum <= u64::MAX,
                    forall|k: int|
                        0 <= k < c ==> {
                            &&& (#[trigger] row@[k]).transform.bounded(x as int, y as int)
                            &&& self.invader_move_timer == 0 ==> row@[k].transform.x + 6 + x
                                <= usize::MAX && row@[k].transform.y + 5 + y <= usize::MAX
                        },
                decreases row.len() - c,
            {
                let invader = row[c];
                assert(invader == rows[r as int][c as int]);
                if !invader.transform.is_bounded(x, y) {
                    assert(!rows[r as int][c as int].transform.bounded(x as int, y as int));
                    assert(!self.sturdy());
                    return false;
                }
                let reach = Transform {
                    x: invader.transform.x,
                    y: invader.transform.y,
                    width: 6,
                    height: 5,
                };
                if self.invader_move_timer == 0 && !reach.is_bounded(x, y) {
                    assert(rows[r as int][c as int].transform.x + 6 + x > usize::MAX
                        || rows[r as int][c as int].transform.y + 5 + y > usize::MAX);
                    assert(!self.sturdy());
                    return false;
                }
                sum = sum + invader.score as u128;
                if sum > u64::MAX as u128 {
                    proof {
                        lemma_stake_grows(rows, r as int, c + 1);
                        assert(self.score + stake(rows, rows.len() as int) > u64::MAX);
                        assert(!self.sturdy());
                    }
                    return false;
                }
                c += 1;
            }
            r += 1;
        }
        if self.invader_move_timer > 0 {
            return true;
        }
        let group = &self.invaders_group;
        let room = match group.direction {
            InvaderDirection::Right => match group.x.checked_add(1) {
                Some(a) => match a.checked_add(group.width) {
                    Some(b) => b.checked_add(INVADER_PADDING).is_some(),
                    None => false,
                },
                None => false,
            },
            InvaderDirection::Left => group.x >= 1 + INVADER_PADDING,
        };
        room && group.y.checked_add(4).is_some()
    }

    /// Tells whether the game can take `key`, which is what `on_key` asks.
    pub fn can_take(&self, key: Key) -> (ok: bool)
        ensures
            ok == self.takes(key),
    {
        match self.state {
            StateMachine::Play => match order(key) {
                Order::Right => self.ship.x <= usize::MAX - 2,
                Order::Left => self.ship.x >= 2,
                Order::Fire => self.ship.x <= usize::MAX - 4 && self.ship.y <= usize::MAX - 4,
                Order::Nothing => true,
            },
            StateMachine::Win | StateMachine::Loss => self.width >= 56 && self.height >= 32,
            StateMachine::Credits => true,
            StateMachine::Menu(menu) => match key {
                Key::Enter => menu.cursor_index < 2,
                _ => true,
            },
        }
    }
}

} // verus!
