use termfx::flappy_bird::Game;
use termfx::flappy_bird::Pipes;
use termfx::flappy_bird::PIPE_GAP;
use termfx::flappy_bird::PIPE_WIDTH;
use termfx::flappy_bird::PLAYER_SPAWN_X;
use termfx::flappy_bird::RENDER_TIME;
use termfx::flappy_bird::TICK_TIME;
use termfx::tile::Screen;

// A game on a field 40 wide and 23 high.
fn new_game() -> Game {
    Game::new(&Screen::new(40, 24, |screen| screen))
}

fn pipe(pos_x: usize, offset_y: usize, scored: bool) -> Pipes {
    Pipes { pos_x, offset_y, scored }
}

#[test]
fn flappy_constants() {
    assert_eq!(PIPE_GAP, 4);
    assert_eq!(PIPE_WIDTH, 2);
    assert_eq!(PLAYER_SPAWN_X, 5);
    assert_eq!(RENDER_TIME, 10);
    assert_eq!(TICK_TIME, 100);
}

#[test]
fn new_flappy_game_has_no_pipes_yet() {
    let game = new_game();
    assert_eq!(game.player_y, 10);
    assert_eq!(game.score, 0);
    assert_eq!(game.pipes, vec![]);
    assert_eq!(game.width, 40);
    assert_eq!(game.height, 23);
    assert_eq!(game.flap, 0);
    assert_eq!(game.spawn_pipe_timer, 0);
}

#[test]
fn random_pipe_keeps_its_gap_off_the_edges() {
    let game = new_game();
    let mut gaps: Vec<usize> = Vec::new();
    for _ in 0..200 {
        let made = Pipes::new(&game);
        assert_eq!(made.pos_x, 37);
        assert!(5 <= made.offset_y && made.offset_y < 18);
        assert!(!made.scored);
        gaps.push(made.offset_y);
    }
    // Two hundred pipes do not all have their gap in one row.
    assert!(gaps.iter().any(|gap| *gap != gaps[0]));
}

#[test]
fn random_pipe_on_the_lowest_field() {
    let mut game = new_game();
    game.height = 11;
    game.width = 3;
    assert_eq!(Pipes::new(&game), pipe(0, 5, false));
}

#[test]
fn flap_lifts_the_bird_for_two_moves() {
    let mut game = new_game();
    game.flap();
    assert_eq!(game.flap, 2);
    assert!(!game.tick_with(9));
    assert_eq!(game.player_y, 9);
    assert!(!game.tick_with(9));
    assert_eq!(game.player_y, 8);
    assert_eq!(game.flap, 0);
    assert!(!game.tick_with(9));
    assert_eq!(game.player_y, 9);
}

#[test]
fn first_move_spawns_a_pipe_and_the_bird_falls() {
    let mut game = new_game();
    assert!(!game.tick_with(12));
    assert_eq!(game.pipes, vec![pipe(37, 12, false)]);
    assert_eq!(game.spawn_pipe_timer, 20);
    assert_eq!(game.player_y, 11);
    assert_eq!(game.score, 0);
    assert!(!game.tick_with(7));
    assert_eq!(game.pipes, vec![pipe(36, 12, false)]);
    assert_eq!(game.spawn_pipe_timer, 19);
    assert_eq!(game.player_y, 12);
}

#[test]
fn pipes_leave_at_the_left_edge() {
    let mut game = new_game();
    game.spawn_pipe_timer = 3;
    game.pipes = vec![pipe(1, 10, true), pipe(2, 10, true), pipe(20, 11, false)];
    assert!(!game.tick_with(0));
    assert_eq!(game.pipes, vec![pipe(1, 10, true), pipe(19, 11, false)]);
    assert!(!game.tick_with(0));
    assert_eq!(game.pipes, vec![pipe(18, 11, false)]);
}

#[test]
fn passing_a_pipe_scores_once() {
    let mut game = new_game();
    game.spawn_pipe_timer = 9;
    game.flap = 1;
    game.player_y = 10;
    game.pipes = vec![pipe(6, 10, false), pipe(30, 10, false)];
    // The pipe comes to column 5: the bird is in it, and in its gap.
    assert!(!game.tick_with(0));
    assert_eq!(game.pipes[0], pipe(5, 10, false));
    assert_eq!(game.score, 0);
    // At column 4 the bird has passed the left edge.
    assert!(!game.tick_with(0));
    assert_eq!(game.pipes, vec![pipe(4, 10, true), pipe(28, 10, false)]);
    assert_eq!(game.score, 1);
    game.flap();
    assert!(!game.tick_with(0));
    assert_eq!(game.pipes[0], pipe(3, 10, true));
    assert_eq!(game.score, 1);
}

#[test]
fn bird_outside_the_gap_crashes() {
    let mut low = new_game();
    low.spawn_pipe_timer = 9;
    low.player_y = 13;
    low.pipes = vec![pipe(6, 10, false)];
    // The bird falls to row 14, the first row below the gap.
    assert!(low.tick_with(0));
    assert_eq!(low.player_y, 14);
    assert_eq!(low.score, 0);
    let mut high = new_game();
    high.spawn_pipe_timer = 9;
    high.flap = 1;
    high.player_y = 6;
    high.pipes = vec![pipe(4, 10, false)];
    // The bird rises to row 5, the first row above the gap. No point is
    // given for the pipe any more.
    assert!(high.tick_with(0));
    assert_eq!(high.pipes, vec![pipe(3, 10, false)]);
    assert_eq!(high.score, 0);
}

#[test]
fn bird_in_the_gap_flies_on() {
    let mut game = new_game();
    game.spawn_pipe_timer = 9;
    game.player_y = 12;
    game.pipes = vec![pipe(6, 10, true)];
    assert!(!game.tick_with(0));
    assert_eq!(game.player_y, 13);
    let mut top = new_game();
    top.spawn_pipe_timer = 9;
    top.flap = 1;
    top.player_y = 7;
    top.pipes = vec![pipe(6, 10, true)];
    assert!(!top.tick_with(0));
    assert_eq!(top.player_y, 6);
}

#[test]
fn pipe_beside_the_bird_does_not_block() {
    let mut behind = new_game();
    behind.spawn_pipe_timer = 9;
    behind.player_y = 20;
    behind.pipes = vec![pipe(3, 10, true)];
    // The pipe reaches from column 2 to 4.
    assert!(!behind.tick_with(0));
    let mut ahead = new_game();
    ahead.spawn_pipe_timer = 9;
    ahead.player_y = 20;
    ahead.pipes = vec![pipe(7, 10, false)];
    assert!(!ahead.tick_with(0));
    assert_eq!(ahead.score, 0);
}

#[test]
fn top_and_bottom_end_the_game() {
    let mut top = new_game();
    top.spawn_pipe_timer = 9;
    top.flap = 2;
    top.player_y = 1;
    top.pipes = vec![pipe(30, 10, false)];
    assert!(top.tick_with(0));
    assert_eq!(top.player_y, 0);
    let mut bottom = new_game();
    bottom.spawn_pipe_timer = 9;
    bottom.player_y = 22;
    bottom.pipes = vec![pipe(30, 10, false)];
    assert!(bottom.tick_with(0));
    assert_eq!(bottom.player_y, 23);
}

#[test]
fn tick_spawns_a_pipe_with_a_random_gap() {
    for _ in 0..50 {
        let mut game = new_game();
        assert!(!game.tick());
        assert_eq!(game.pipes.len(), 1);
        assert_eq!(game.pipes[0].pos_x, 37);
        assert!(5 <= game.pipes[0].offset_y && game.pipes[0].offset_y < 18);
        assert!(!game.tick());
        assert_eq!(game.pipes[0].pos_x, 36);
        assert_eq!(game.spawn_pipe_timer, 19);
    }
}

#[test]
fn flappy_can_tick_on_a_sound_game() {
    let mut game = new_game();
    assert!(game.can_tick());
    assert!(game.can_tick_with(5));
    assert!(!game.tick());
    assert!(game.can_tick());
}

#[test]
fn flappy_cannot_tick_without_a_pipe_to_fly_at() {
    let mut game = new_game();
    game.spawn_pipe_timer = 4;
    assert!(!game.can_tick());
    game.pipes = vec![pipe(1, 10, true)];
    assert!(!game.can_tick());
    game.pipes = vec![pipe(1, 10, true), pipe(2, 10, false)];
    assert!(game.can_tick());
    game.pipes = vec![pipe(0, 10, true), pipe(2, 10, false)];
    assert!(!game.can_tick());
}

#[test]
fn flappy_cannot_tick_when_a_number_would_leave_its_range() {
    let mut low = new_game();
    low.height = 10;
    assert!(!low.can_tick());
    low.height = 11;
    assert!(low.can_tick());
    let mut narrow = new_game();
    narrow.width = 2;
    assert!(!narrow.can_tick());
    let mut top = new_game();
    top.player_y = 0;
    assert!(top.can_tick());
    top.flap();
    assert!(!top.can_tick());
    let mut full = new_game();
    full.score = u32::MAX;
    assert!(!full.can_tick());
    // A move that brings no point can be made with a full score.
    assert!(full.can_tick_with(9));
    assert!(!full.tick_with(9));
    assert_eq!(full.score, u32::MAX);
    full.spawn_pipe_timer = 4;
    full.pipes = vec![pipe(5, 11, false)];
    assert!(!full.can_tick_with(0));
    full.pipes = vec![pipe(5, 11, true)];
    assert!(full.can_tick_with(0));
    // Nor does a crash bring a point.
    full.pipes = vec![pipe(5, 18, false)];
    assert!(full.can_tick_with(0));
    assert!(full.tick_with(0));
    assert_eq!(full.score, u32::MAX);
    let mut gap = new_game();
    gap.spawn_pipe_timer = 4;
    gap.pipes = vec![pipe(30, 4, false)];
    assert!(!gap.can_tick());
    gap.pipes = vec![pipe(30, 5, false)];
    assert!(gap.can_tick());
    gap.pipes = vec![pipe(30, usize::MAX - 3, false)];
    assert!(!gap.can_tick());
}
