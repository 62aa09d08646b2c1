//! A terminal graphics engine and the rules of five small games that run on
//! it.
//!
//! The engine has two framebuffers: `screen` addresses pixels below the
//! character cell and shows them in 24-bit colour, `tile` holds one
//! character with two palette colours per cell. Both keep the grid they
//! were created with and return to it on `reset`, and `framebuffer` holds
//! what the two have in common. `math` rasterises lines,
//! `font` decodes bitmap console fonts for `screen` to draw text with, and
//! `input` decides what the input loop does with a key. What the render loop
//! does in each of its turns, and how long it sleeps between them, is in
//! `screen` too.
//!
//! The games are `flappy_bird`, `food_catcher`, `pong` and
//! `space_invaders`. Each is a state and the function that moves it on;
//! reading the terminal and the clock is left to the program around them.

pub mod ansi;
mod chance;
pub mod flappy_bird;
pub mod font;
pub mod food_catcher;
pub mod framebuffer;
pub mod grid;
pub mod input;
pub mod math;
pub mod pong;
pub mod screen;
pub mod space_invaders;
pub mod tile;
