//! The whole-number rules of the paddle game. The flight of the ball is
//! computed in floating point and is no part of this library.

use vstd::prelude::*;

verus! {

/// Milliseconds between two frames.
pub const RENDER_TIME: u64 = 10;

/// Milliseconds between two moves of the game.
pub const TICK_TIME: u64 = 60;

/// The columns between a paddle and its edge of the field.
pub const PADDLE_PADDING: usize = 5;

/// How far a paddle reaches above and below its middle.
pub const PADDLE_HEIGHT: usize = 2;

/// Where a paddle that has its middle in row `paddle_y` is after a move by
/// `amount` rows.
///
/// The paddle stays where it is only if the new row is at most 0 and, at the
/// same time, at least `height`, which a field with rows rules out: on such
/// a field the paddle is not held back at the edges.
pub open spec fn paddle_after(paddle_y: int, amount: int, height: int) -> int {
    if paddle_y + amount <= 0 && paddle_y + amount >= height {
        paddle_y
    } else {
        paddle_y + amount
    }
}

/// Moves a paddle by `amount` rows on a field `height` rows high. The rows
/// are counted in 16 bits: the paddle's row before and after the move, and
/// the height, have to be in the range from 0 to 32767.
pub fn move_paddle(paddle_y: usize, amount: i16, height: usize) -> (moved: usize)
    requires
        paddle_y <= i16::MAX,
        height <= i16::MAX,
        0 <= paddle_y + amount <= i16::MAX,
    ensures
        moved == paddle_after(paddle_y as int, amount as int, height as int),
{
    let new = paddle_y as i16 + amount;
    if new <= 0 && new >= height as i16 {
        return paddle_y;
    }
    new as usize
}

} // verus!
