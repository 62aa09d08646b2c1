//! The game in which a bird flies through the gaps of oncoming pipes.

use vstd::prelude::*;
use crate::chance::random_between;
use crate::tile::Screen;

verus! {

/// Half the height of the gap in a pipe.
pub const PIPE_GAP: usize = 4;

/// How far a pipe reaches to the right of its `pos_x`.
pub const PIPE_WIDTH: usize = 2;

/// The column in which the bird flies.
pub const PLAYER_SPAWN_X: usize = 5;

/// Milliseconds between two frames.
pub const RENDER_TIME: u64 = 10;

/// Milliseconds between two moves of the game.
pub const TICK_TIME: u64 = 100;

/// Moves of the game between two pipes.
pub const PIPE_EVERY: u8 = 20;

/// Moves for which a flap lifts the bird.
pub const FLAP_LASTS: u8 = 2;

/// A pipe with a gap in it.
#[derive(Copy, Clone, Debug, PartialEq, Eq, Structural)]
pub struct Pipes {
    /// The pipe's left edge.
    pub pos_x: usize,
    /// The row in the middle of the gap.
    pub offset_y: usize,
    /// Whether the bird has been given its point for this pipe.
    pub scored: bool,
}

/// The state of the game.
pub struct Game {
    pub player_y: usize,
    pub score: u32,
    pub pipes: Vec<Pipes>,
    pub width: usize,
    pub height: usize,
    /// Moves for which the bird still rises.
    pub flap: u8,
    /// Moves until the next pipe.
    pub spawn_pipe_timer: u8,
}

impl Pipes {
    /// The pipe one column further left.
    pub open spec fn shifted(self) -> Pipes {
        Pipes { pos_x: (self.pos_x - 1) as usize, offset_y: self.offset_y, scored: self.scored }
    }

    /// Whether the pipe stands in the bird's column.
    pub open spec fn reached(self) -> bool {
        PLAYER_SPAWN_X >= self.pos_x && PLAYER_SPAWN_X <= self.pos_x + PIPE_WIDTH
    }

    /// Whether a bird in row `player_y` is outside the pipe's gap.
    pub open spec fn blocks(self, player_y: usize) -> bool {
        player_y >= self.offset_y + PIPE_GAP || player_y <= self.offset_y - PIPE_GAP - 1
    }

    /// Whether the bird has passed the pipe's left edge.
    pub open spec fn passed(self) -> bool {
        PLAYER_SPAWN_X >= self.pos_x + 1
    }

    /// A pipe near the right edge of the field, with its gap in a row picked
    /// at random. The field has to be at least 3 columns wide and 11 rows
    /// high.
    pub fn new(game: &Game) -> (pipe: Pipes)
        requires
            game.width >= 3,
            game.height >= 11,
        ensures
            pipe.pos_x == game.width - 3,
            5 <= pipe.offset_y < game.height - 5,
            !pipe.scored,
    {
        let offset: usize = random_between(5, game.height - 5);
        Pipes { pos_x: game.width - 3, offset_y: offset, scored: false }
    }
}

/// The first `n` pipes after a move: each one column further left, without
/// those that have reached the left edge.
pub open spec fn advanced(pipes: Seq<Pipes>, n: int) -> Seq<Pipes>
    decreases n,
{
    if n <= 0 {
        Seq::empty()
    } else if pipes[n - 1].pos_x > 1 {
        advanced(pipes, n - 1).push(pipes[n - 1].shifted())
    } else {
        advanced(pipes, n - 1)
    }
}

impl Game {
    /// Whether a pipe is spawned when the game next moves.
    pub open spec fn spawning(&self) -> bool {
        self.spawn_pipe_timer == 0
    }

    /// The row of the bird after the next move: up while a flap lasts, down
    /// otherwise.
    pub open spec fn next_y(&self) -> int {
        if self.flap > 0 {
            self.player_y - 1
        } else {
            self.player_y + 1
        }
    }

    /// The pipes after the next move, before any point is given: the pipes
    /// advanced, and a new one with its gap around row `offset` when one is
    /// spawned.
    pub open spec fn next_pipes(&self, offset: usize) -> Seq<Pipes> {
        let moved = advanced(self.pipes@, self.pipes.len() as int);
        if self.spawning() {
            moved.push(Pipes { pos_x: (self.width - 3) as usize, offset_y: offset, scored: false })
        } else {
            moved
        }
    }

    /// Whether the next move, with a pipe spawned around row `offset`, ends
    /// the game: the bird is outside the gap of the first pipe while that
    /// pipe is in its column, or it has reached the top or the bottom.
    pub open spec fn crashes(&self, offset: usize) -> bool {
        let pipe = self.next_pipes(offset)[0];
        (pipe.reached() && pipe.blocks(self.next_y() as usize)) || self.next_y() == 0
            || self.next_y() == self.height
    }

    /// Whether the next move, with a pipe spawned around row `offset`, brings
    /// a point: the game goes on, and the bird has passed the left edge of
    /// the first pipe, for which it has no point yet.
    pub open spec fn scores(&self, offset: usize) -> bool {
        let pipe = self.next_pipes(offset)[0];
        !self.crashes(offset) && pipe.passed() && !pipe.scored
    }

    /// Whether the game can make its next move with a pipe spawned around row
    /// `offset`: no pipe is at the left edge, there is a pipe to fly at, and
    /// no number leaves its range.
    pub open spec fn ready(&self, offset: usize) -> bool {
        &&& forall|i: int| 0 <= i < self.pipes.len() ==> (#[trigger] self.pipes[i]).pos_x >= 1
        &&& 0 <= self.next_y() <= usize::MAX
        &&& self.spawning() ==> self.width >= 3
        &&& self.next_pipes(offset).len() > 0
        &&& self.next_pipes(offset)[0].pos_x + PIPE_WIDTH <= usize::MAX
        &&& self.next_pipes(offset)[0].offset_y + PIPE_GAP <= usize::MAX
        &&& self.next_pipes(offset)[0].offset_y >= PIPE_GAP + 1
        &&& self.scores(offset) ==> self.score < u32::MAX
    }

    /// Whether `after` is this game after a move with a pipe spawned around
    /// row `offset`. When the move ends the game no point is given any more.
    pub open spec fn moved(&self, after: &Game, offset: usize) -> bool {
        let pipes = self.next_pipes(offset);
        let scores = self.scores(offset);
        &&& after.player_y == self.next_y()
        &&& after.flap == if self.flap > 0 {
            self.flap - 1
        } else {
            0
        }
        &&& after.spawn_pipe_timer == if self.spawning() {
            PIPE_EVERY as int
        } else {
            self.spawn_pipe_timer - 1
        }
        &&& after.pipes@ == if scores {
            pipes.update(0, Pipes { scored: true, ..pipes[0] })
        } else {
            pipes
        }
        &&& after.score == if scores {
            self.score + 1
        } else {
            self.score as int
        }
        &&& after.width == self.width
        &&& after.height == self.height
    }

    /// Whether the game can make its next move wherever the gap of a spawned
    /// pipe is.
    pub open spec fn tickable(&self) -> bool {
        &&& self.spawning() ==> self.height >= 11
        &&& forall|offset: usize| 5 <= offset < self.height - 5 ==> self.ready(offset)
        &&& !self.spawning() ==> self.ready(0)
    }

    /// Tells whether the game can make its next move with a pipe spawned
    /// around row `offset`, which is what `tick_with` asks.
    pub fn can_tick_with(&self, offset: usize) -> (ok: bool)
        ensures
            ok == self.ready(offset),
    {
        let spawning = self.spawn_pipe_timer == 0;
        if self.flap > 0 && self.player_y == 0 {
            return false;
        }
        if self.flap == 0 && self.player_y == usize::MAX {
            return false;
        }
        if spawning && self.width < 3 {
            return false;
        }
        // The pipe that the bird flies at is the first that stays on the field.
        let mut first: Option<Pipes> = None;
        let mut i: usize = 0;
        while i < self.pipes.len()
            invariant
                i <= self.pipes.len(),
                forall|k: int| 0 <= k < i ==> (#[trigger] self.pipes[k]).pos_x >= 1,
                match first {
                    Some(pipe) => advanced(self.pipes@, i as int).len() > 0 && advanced(
                        self.pipes@,
                        i as int,
                    )[0] == pipe,
                    None => advanced(self.pipes@, i as int).len() == 0,
                },
            decreases self.pipes.len() - i,
        {
            let pipe = self.pipes[i];
            if pipe.pos_x < 1 {
                return false;
            }
            if first.is_none() && pipe.pos_x > 1 {
                first = Some(
                    Pipes { pos_x: pipe.pos_x - 1, offset_y: pipe.offset_y, scored: pipe.scored },
                );
            }
            i += 1;
        }
        let ahead = match first {
            Some(pipe) => pipe,
            None => {
                if !spawning {
                    return false;
                }
                Pipes { pos_x: self.width - 3, offset_y: offset, scored: false }
            },
        };
        assert(ahead == self.next_pipes(offset)[0]);
        if ahead.pos_x > usize::MAX - PIPE_WIDTH || ahead.offset_y > usize::MAX - PIPE_GAP
            || ahead.offset_y < PIPE_GAP + 1 {
            return false;
        }
        let next_y = if self.flap > 0 {
            self.player_y - 1
        } else {
            self.player_y + 1
        };
        let over = ((PLAYER_SPAWN_X >= ahead.pos_x && PLAYER_SPAWN_X <= ahead.pos_x + PIPE_WIDTH)
            && (next_y >= ahead.offset_y + PIPE_GAP || next_y <= ahead.offset_y - PIPE_GAP - 1))
            || (next_y == 0 || next_y == self.height);
        let scores = !over && PLAYER_SPAWN_X >= ahead.pos_x + 1 && !ahead.scored;
        !scores || self.score < u32::MAX
    }

    /// Whether the game can make its next move wherever the gap of a spawned
    /// pipe is, and the score has room for a point.
    pub open spec fn steady(&self) -> bool {
        self.tickable() && self.score < u32::MAX
    }

    /// Tells whether the game is steady, with which it can make its next
    /// move: `tick` asks no more than that the game is tickable.
    pub fn can_tick(&self) -> (ok: bool)
        ensures
            ok == self.steady(),
    {
        if self.score == u32::MAX {
            return false;
        }
        let spawning = self.spawn_pipe_timer == 0;
        if !spawning {
            let ok = self.can_tick_with(0);
            proof {
                assert forall|offset: usize| #[trigger] self.ready(offset) == self.ready(0) by {
                    assert(self.next_pipes(offset) == self.next_pipes(0));
                }
            }
            return ok;
        }
        if self.height < 11 {
            return false;
        }
        let ok = self.can_tick_with(5);
        proof {
            if ok {
                assert forall|offset: usize| 5 <= offset < self.height - 5 implies self.ready(
                    offset,
                ) by {
                    let moved = advanced(self.pipes@, self.pipes.len() as int);
                    assert(self.next_pipes(offset).len() == self.next_pipes(5).len());
                    if moved.len() > 0 {
                        assert(self.next_pipes(offset)[0] == self.next_pipes(5)[0]);
                    }
                }
            }
        }
        ok
    }

    /// A new game on a field as large as `screen`.
    pub fn new(screen: &Screen) -> (game: Game)
        ensures
            game.player_y == 10,
            game.flap == 0,
            game.spawn_pipe_timer == 0,
            game.width == screen.width(),
            game.height == screen.height(),
            game.score == 0,
            game.pipes@ == Seq::<Pipes>::empty(),
    {
        Game {
            player_y: 10,
            flap: 0,
            spawn_pipe_timer: 0,
            width: screen.width(),
            height: screen.height(),
            score: 0,
            pipes: Vec::new(),
        }
    }

    /// Lets the bird rise for the next two moves.
    pub fn flap(&mut self)
        ensures
            *final(self) == (Game { flap: FLAP_LASTS, ..*old(self) }),
    {
        self.flap = FLAP_LASTS;
    }

    /// One move of the game, with the pipe that may be due spawned around row
    /// `offset`. Tells whether the game is over.
    pub fn tick_with(&mut self, offset: usize) -> (over: bool)
        requires
            old(self).ready(offset),
        ensures
            old(self).moved(final(self), offset),
            over == old(self).crashes(offset),
    {
        let ghost before = self.pipes@;
        let mut kept: Vec<Pipes> = Vec::new();
        let mut i: usize = 0;
        while i < self.pipes.len()
            invariant
                i <= self.pipes.len(),
                self.pipes@ == before,
                forall|k: int| 0 <= k < before.len() ==> (#[trigger] before[k]).pos_x >= 1,
                kept@ == advanced(before, i as int),
            decreases self.pipes.len() - i,
        {
            let pipe = self.pipes[i];
            if pipe.pos_x - 1 > 0 {
                kept.push(Pipes { pos_x: pipe.pos_x - 1, offset_y: pipe.offset_y, scored: pipe.scored });
            }
            i += 1;
        }
        if self.flap > 0 {
            self.player_y -= 1;
            self.flap -= 1;
        } else {
            self.player_y += 1;
        }
        if self.spawn_pipe_timer == 0 {
            self.spawn_pipe_timer = PIPE_EVERY;
            kept.push(Pipes { pos_x: self.width - 3, offset_y: offset, scored: false });
        } else {
            self.spawn_pipe_timer -= 1;
        }
        assert(kept@ == old(self).next_pipes(offset));
        let pipe = kept[0];
        let over = ((PLAYER_SPAWN_X >= pipe.pos_x && PLAYER_SPAWN_X <= pipe.pos_x + PIPE_WIDTH) && (
        self.player_y >= pipe.offset_y + PIPE_GAP || self.player_y <= pipe.offset_y - PIPE_GAP - 1))
            || (self.player_y == 0 || self.player_y == self.height);
        if !over && PLAYER_SPAWN_X >= pipe.pos_x + 1 && !pipe.scored {
            self.score += 1;
            kept[0] = Pipes { pos_x: pipe.pos_x, offset_y: pipe.offset_y, scored: true };
        }
        self.pipes = kept;
        over
    }

    /// One move of the game. When a pipe is due, it is spawned with its gap
    /// in a row picked at random. Tells whether the game is over.
    pub fn tick(&mut self) -> (over: bool)
        requires
            old(self).tickable(),
        ensures
            exists|offset: usize|
                (old(self).spawning() ==> 5 <= offset < old(self).height - 5) && #[trigger] old(
                    self,
                ).moved(final(self), offset) && over == old(self).crashes(offset),
    {
        let offset = if self.spawn_pipe_timer == 0 {
            assert(self.ready(5));
            Pipes::new(self).offset_y
        } else {
            0
        };
        self.tick_with(offset)
    }
}

} // verus!
