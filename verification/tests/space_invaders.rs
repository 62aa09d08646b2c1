use termfx::input::Key;
use termfx::space_invaders::default_menu;
use termfx::space_invaders::order;
use termfx::space_invaders::Bullet;
use termfx::space_invaders::Explosion;
use termfx::space_invaders::Game;
use termfx::space_invaders::Invader;
use termfx::space_invaders::InvaderDirection;
use termfx::space_invaders::MenuData;
use termfx::space_invaders::MenuOption;
use termfx::space_invaders::Order;
use termfx::space_invaders::StateMachine;
use termfx::space_invaders::Transform;
use termfx::space_invaders::Wall;

fn boxed(x: usize, y: usize, width: usize, height: usize) -> Transform {
    Transform { x, y, width, height }
}

fn shot(x: usize, y: usize, invader: bool) -> Bullet {
    Bullet::new(x, y, invader)
}

fn boom(x: usize, y: usize) -> Explosion {
    Explosion { x, y, stage: 3, timer: 8 }
}

// A game in play on a field 148 wide and 128 high: the invaders stand at
// (8, 12), the walls at row 96, and the ship at (0, 112).
fn in_play() -> Game {
    let mut game = Game::init(148, 128);
    game.state = StateMachine::Play;
    game
}

#[test]
fn menu_options_have_names() {
    assert_eq!(MenuOption::Play.to_str(), "Play");
    assert_eq!(MenuOption::Credits.to_str(), "Credits");
}

#[test]
fn menu_starts_on_play() {
    assert_eq!(
        default_menu(),
        MenuData { options: [MenuOption::Play, MenuOption::Credits], cursor_index: 0 }
    );
}

#[test]
fn boxes_that_share_an_edge_collide() {
    let wall = boxed(10, 20, 5, 4);
    assert!(wall.collided(&boxed(12, 22, 1, 1), 0, 0));
    assert!(wall.collided(&boxed(15, 24, 3, 3), 0, 0));
    assert!(wall.collided(&boxed(7, 17, 3, 3), 0, 0));
    assert!(wall.collided(&boxed(0, 0, 100, 100), 0, 0));
    assert!(!wall.collided(&boxed(16, 24, 3, 3), 0, 0));
    assert!(!wall.collided(&boxed(15, 25, 3, 3), 0, 0));
    assert!(!wall.collided(&boxed(6, 17, 3, 3), 0, 0));
    assert!(!wall.collided(&boxed(7, 16, 3, 3), 0, 0));
}

#[test]
fn collision_takes_the_offset_of_the_first_box() {
    let invader = boxed(0, 0, 10, 8);
    let bullet = boxed(18, 20, 1, 1);
    assert!(!invader.collided(&bullet, 0, 0));
    assert!(invader.collided(&bullet, 8, 12));
    assert!(!invader.collided(&bullet, 7, 12));
    assert!(!invader.collided(&bullet, 8, 11));
    assert!(invader.collided(&bullet, 19, 21));
    assert!(!invader.collided(&bullet, 20, 21));
}

#[test]
fn collision_at_the_end_of_the_range() {
    let far = boxed(usize::MAX - 1, usize::MAX - 1, 1, 1);
    assert!(far.collided(&boxed(usize::MAX, usize::MAX, 0, 0), 0, 0));
    assert!(!far.collided(&boxed(0, 0, 3, 3), 0, 0));
}

#[test]
fn new_bullet_is_one_pixel_large() {
    let mut bullet = Bullet::new(3, 9, true);
    assert_eq!(bullet.transform, boxed(3, 9, 1, 1));
    assert!(bullet.invader);
    assert!(!bullet.delete);
    bullet.delete();
    assert!(bullet.delete);
    assert_eq!(bullet.transform, boxed(3, 9, 1, 1));
    bullet.delete();
    assert!(bullet.delete);
}

#[test]
fn new_game_has_five_rows_of_invaders() {
    let game = Game::init(148, 128);
    assert_eq!(game.state, StateMachine::Menu(default_menu()));
    assert_eq!(game.ship, boxed(0, 112, 9, 10));
    assert_eq!(game.bullets, vec![]);
    assert_eq!(game.effects.explosions, vec![]);
    assert_eq!(game.lives, 3);
    assert_eq!(game.score, 0);
    assert!(!game.invincible);
    assert_eq!(game.invincible_timer, 8);
    assert_eq!(game.invader_move_timer, 12);
    assert_eq!(game.width, 148);
    assert_eq!(game.height, 128);
    assert_eq!(game.invaders_group.x, 8);
    assert_eq!(game.invaders_group.y, 12);
    assert_eq!(game.invaders_group.width, 98);
    assert_eq!(game.invaders_group.direction, InvaderDirection::Right);
    assert_eq!(game.invaders_group.invaders.len(), 5);
    for (i, row) in game.invaders_group.invaders.iter().enumerate() {
        assert_eq!(row.len(), 7);
        for (j, invader) in row.iter().enumerate() {
            assert_eq!(invader.transform, boxed(14 * j, 10 * i, 10, 8));
            assert_eq!(invader.score, [30, 20, 20, 10, 10][i]);
        }
    }
    for (i, wall) in game.walls.iter().enumerate() {
        assert_eq!(*wall, Wall { transform: boxed(37 * i + 6, 96, 26, 12), health: 4 });
    }
}

#[test]
fn narrow_field_has_fewer_invaders() {
    assert_eq!(Game::init(56, 32).invaders_group.invaders, vec![vec![]; 5]);
    assert_eq!(Game::init(56, 32).invaders_group.width, 0);
    assert_eq!(Game::init(56, 32).ship.y, 16);
    assert_eq!(Game::init(56, 32).walls[3].transform, boxed(48, 0, 26, 12));
    assert_eq!(Game::init(57, 32).invaders_group.invaders[4].len(), 1);
    assert_eq!(Game::init(70, 32).invaders_group.invaders[0].len(), 1);
    assert_eq!(Game::init(71, 32).invaders_group.invaders[0].len(), 2);
    assert_eq!(Game::init(71, 32).invaders_group.width, 28);
}

#[test]
fn bullets_fly_and_hit_walls_and_ship() {
    let mut game = in_play();
    game.bullets = vec![
        shot(4, 100, false),
        shot(10, 110, false),
        shot(10, 109, false),
        shot(10, 108, false),
        shot(3, 112, true),
        shot(3, 111, true),
        shot(50, 0, false),
        shot(50, 124, true),
    ];
    assert!(game.fly_bullets());
    assert_eq!(
        game.bullets,
        vec![shot(4, 99, false), shot(10, 109, false), shot(10, 108, false), shot(3, 112, true)]
    );
    assert_eq!(game.walls[0].health, 3);
    assert_eq!(game.walls[1].health, 4);
    assert_eq!(game.effects.explosions, vec![boom(10, 108)]);
    assert_eq!(game.lives, 2);
    assert!(game.invincible);
    assert_eq!(game.score, 0);
    assert_eq!(game.invaders_group.invaders.len(), 5);
    // The ship is shielded now.
    game.bullets = vec![shot(3, 112, true)];
    assert!(!game.fly_bullets());
    assert_eq!(game.bullets, vec![shot(3, 113, true)]);
    assert_eq!(game.lives, 2);
}

#[test]
fn a_bullet_marked_to_leave_still_flies() {
    let mut game = in_play();
    let mut marked = shot(70, 50, false);
    marked.delete();
    game.bullets = vec![marked, shot(71, 50, true)];
    assert!(!game.fly_bullets());
    assert_eq!(game.bullets, vec![shot(71, 51, true)]);
}

#[test]
fn a_wall_without_health_lets_bullets_through() {
    let mut game = in_play();
    game.walls[1].health = 1;
    game.bullets = vec![shot(50, 100, true), shot(50, 101, false), shot(50, 102, true)];
    assert!(!game.fly_bullets());
    assert_eq!(game.walls[1].health, 0);
    assert_eq!(game.effects.explosions, vec![boom(50, 100)]);
    assert_eq!(game.bullets, vec![shot(50, 100, false), shot(50, 103, true)]);
}

#[test]
fn a_bullet_between_two_walls_damages_both() {
    let mut game = in_play();
    game.walls[1].transform = boxed(20, 100, 26, 12);
    let mut wide = shot(15, 104, false);
    wide.transform.width = 10;
    game.bullets = vec![wide];
    assert!(!game.fly_bullets());
    assert_eq!(game.walls[0].health, 3);
    assert_eq!(game.walls[1].health, 3);
    assert_eq!(game.walls[2].health, 4);
    assert_eq!(game.effects.explosions, vec![boom(15, 104), boom(15, 104)]);
    assert_eq!(game.bullets, vec![]);
}

#[test]
fn a_bullet_that_hits_a_wall_can_still_wound_the_ship() {
    let mut game = in_play();
    game.ship = boxed(10, 100, 9, 10);
    game.bullets = vec![shot(12, 105, true)];
    assert!(game.fly_bullets());
    assert_eq!(game.walls[0].health, 3);
    assert_eq!(game.lives, 2);
    assert_eq!(game.bullets, vec![]);
    assert_eq!(game.effects.explosions, vec![boom(12, 105)]);
}

#[test]
fn invaders_touched_by_a_bullet_of_the_ship_are_gone() {
    let mut game = in_play();
    game.effects.explosions = vec![boom(1, 1)];
    game.bullets = vec![
        shot(19, 20, false),
        shot(18, 20, true),
        shot(18, 20, false),
        shot(18, 19, false),
        shot(50, 33, false),
    ];
    game.shoot_invaders();
    // The first invader of the first row, and the fourth of the third.
    assert_eq!(game.invaders_group.invaders[0].len(), 6);
    assert_eq!(game.invaders_group.invaders[0][0].transform, boxed(14, 0, 10, 8));
    assert_eq!(game.invaders_group.invaders[1].len(), 7);
    assert_eq!(game.invaders_group.invaders[2].len(), 6);
    assert_eq!(game.invaders_group.invaders[2][2].transform, boxed(28, 20, 10, 8));
    assert_eq!(game.invaders_group.invaders[2][3].transform, boxed(56, 20, 10, 8));
    assert_eq!(game.score, 50);
    assert_eq!(game.effects.explosions, vec![boom(1, 1), boom(18, 20), boom(50, 33)]);
    let marks: Vec<bool> = game.bullets.iter().map(|bullet| bullet.delete).collect();
    assert_eq!(marks, vec![false, false, true, false, true]);
    assert_eq!(game.bullets[3].transform, boxed(18, 19, 1, 1));
    assert_eq!(game.lives, 3);
}

#[test]
fn one_bullet_can_take_out_several_invaders() {
    let mut game = in_play();
    let mut wide = shot(10, 15, false);
    wide.transform.width = 30;
    wide.transform.height = 10;
    game.bullets = vec![shot(12, 16, false), wide];
    game.shoot_invaders();
    // The bullets touch the first three invaders of the first two rows,
    // and the small one comes first where both touch.
    assert_eq!(game.invaders_group.invaders[0].len(), 4);
    assert_eq!(game.invaders_group.invaders[1].len(), 4);
    assert_eq!(game.invaders_group.invaders[2].len(), 7);
    assert_eq!(game.score, 150);
    assert_eq!(
        game.effects.explosions,
        vec![boom(12, 16), boom(10, 15), boom(10, 15), boom(10, 15), boom(10, 15), boom(10, 15)]
    );
    assert!(game.bullets[0].delete && game.bullets[1].delete);
}

#[test]
fn a_row_that_was_empty_is_gone() {
    let mut game = in_play();
    let lone: Invader = game.invaders_group.invaders[4][0];
    game.invaders_group.invaders = vec![vec![], vec![lone], vec![], vec![lone, lone]];
    game.bullets = vec![shot(10, 55, false)];
    game.shoot_invaders();
    // The row that has lost its last invader stays for now.
    assert_eq!(game.invaders_group.invaders, vec![vec![], vec![]]);
    assert_eq!(game.score, 30);
    game.shoot_invaders();
    assert_eq!(game.invaders_group.invaders.len(), 0);
    assert_eq!(game.score, 30);
}

#[test]
fn invaders_step_to_the_right_and_one_shoots() {
    let mut game = in_play();
    game.bullets = vec![shot(1, 1, false)];
    game.march(Some((1, 2)));
    assert_eq!(game.invaders_group.x, 9);
    assert_eq!(game.invaders_group.y, 12);
    assert_eq!(game.invaders_group.direction, InvaderDirection::Right);
    assert_eq!(game.bullets, vec![shot(1, 1, false), shot(42, 27, true)]);
    assert_eq!(game.invader_move_timer, 12);
    game.march(None);
    assert_eq!(game.invaders_group.x, 10);
    assert_eq!(game.bullets.len(), 2);
}

#[test]
fn invaders_turn_round_at_the_edges() {
    let mut game = in_play();
    game.invaders_group.x = 41;
    game.march(None);
    assert_eq!(game.invaders_group.x, 42);
    assert_eq!(game.invaders_group.y, 12);
    assert_eq!(game.invaders_group.direction, InvaderDirection::Right);
    game.march(None);
    assert_eq!(game.invaders_group.x, 43);
    assert_eq!(game.invaders_group.y, 16);
    assert_eq!(game.invaders_group.direction, InvaderDirection::Left);
    game.march(None);
    assert_eq!(game.invaders_group.x, 42);
    assert_eq!(game.invaders_group.y, 16);
    game.invaders_group.x = 12;
    game.march(None);
    assert_eq!(game.invaders_group.x, 11);
    assert_eq!(game.invaders_group.direction, InvaderDirection::Left);
    game.march(None);
    assert_eq!(game.invaders_group.x, 10);
    assert_eq!(game.invaders_group.y, 20);
    assert_eq!(game.invaders_group.direction, InvaderDirection::Right);
}

#[test]
fn the_shield_wears_off_after_nine_steps() {
    let mut game = in_play();
    game.invincible = true;
    for left in (0..8).rev() {
        game.march(None);
        assert!(game.invincible);
        assert_eq!(game.invincible_timer, left);
    }
    game.march(None);
    assert!(!game.invincible);
    assert_eq!(game.invincible_timer, 8);
    game.march(None);
    assert!(!game.invincible);
    assert_eq!(game.invincible_timer, 8);
}

#[test]
fn nothing_moves_outside_play() {
    let mut game = Game::init(148, 128);
    game.bullets = vec![shot(10, 50, true)];
    assert!(!game.tick());
    assert_eq!(game.state, StateMachine::Menu(default_menu()));
    assert_eq!(game.bullets, vec![shot(10, 50, true)]);
    assert_eq!(game.invader_move_timer, 12);
    for state in [StateMachine::Credits, StateMachine::Win, StateMachine::Loss] {
        game.state = state;
        assert!(!game.tick());
        assert_eq!(game.state, state);
        assert_eq!(game.bullets, vec![shot(10, 50, true)]);
    }
}

#[test]
fn a_ship_without_lives_has_lost() {
    let mut game = in_play();
    game.lives = 0;
    game.bullets = vec![shot(10, 50, true)];
    assert!(!game.tick());
    assert_eq!(game.state, StateMachine::Loss);
    assert_eq!(game.bullets, vec![shot(10, 50, true)]);
    assert_eq!(game.invader_move_timer, 12);
}

#[test]
fn a_field_without_rows_is_won() {
    let mut game = in_play();
    game.invaders_group.invaders = vec![];
    assert!(!game.tick());
    assert_eq!(game.state, StateMachine::Win);
    // Lost comes before won.
    game.state = StateMachine::Play;
    game.lives = 0;
    assert!(!game.tick());
    assert_eq!(game.state, StateMachine::Loss);
}

#[test]
fn invaders_step_on_every_thirteenth_move() {
    let mut game = in_play();
    // The bullet falls between the first two walls.
    game.bullets = vec![shot(36, 90, true)];
    for left in (0..12).rev() {
        assert!(!game.tick());
        assert_eq!(game.invader_move_timer, left);
        assert_eq!(game.invaders_group.x, 8);
    }
    assert_eq!(game.bullets, vec![shot(36, 102, true)]);
    assert_eq!(game.effects.explosions, vec![]);
    assert!(!game.tick());
    assert_eq!(game.invader_move_timer, 12);
    assert_eq!(game.invaders_group.x, 9);
    assert_eq!(game.bullets[0], shot(36, 103, true));
    assert_eq!(game.state, StateMachine::Play);
}

#[test]
fn a_shooting_invader_shoots_from_its_middle() {
    let mut shots: usize = 0;
    for _ in 0..300 {
        let mut game = in_play();
        game.invader_move_timer = 0;
        assert!(!game.tick());
        assert!(game.bullets.len() <= 1);
        for bullet in game.bullets {
            shots += 1;
            assert!(bullet.invader && !bullet.delete);
            assert_eq!((bullet.transform.width, bullet.transform.height), (1, 1));
            // Invader (i, j) stands at (14 j, 10 i), and the group at (8, 12).
            assert_eq!((bullet.transform.x - 14) % 14, 0);
            assert!(bullet.transform.x <= 14 + 14 * 6);
            assert_eq!((bullet.transform.y - 17) % 10, 0);
            assert!(bullet.transform.y <= 17 + 10 * 4);
        }
    }
    assert!(shots > 0 && shots < 300);
}

#[test]
fn nobody_shoots_from_empty_rows() {
    for _ in 0..100 {
        let mut game = in_play();
        game.invader_move_timer = 0;
        game.invaders_group.invaders = vec![vec![]];
        assert!(!game.tick());
        assert_eq!(game.bullets, vec![]);
        assert_eq!(game.invaders_group.invaders.len(), 0);
        assert_eq!(game.invaders_group.x, 9);
        assert!(!game.tick());
        assert_eq!(game.state, StateMachine::Win);
    }
}

#[test]
fn the_bell_rings_when_the_ship_is_wounded() {
    let mut game = in_play();
    game.bullets = vec![shot(4, 115, true)];
    assert!(game.tick());
    assert_eq!(game.lives, 2);
    assert!(game.invincible);
    assert_eq!(game.bullets, vec![]);
    assert!(!game.tick());
}

#[test]
fn keys_are_orders_to_the_ship() {
    assert_eq!(order(Key::Right), Order::Right);
    assert_eq!(order(Key::Char('d')), Order::Right);
    assert_eq!(order(Key::Left), Order::Left);
    assert_eq!(order(Key::Char('w')), Order::Left);
    assert_eq!(order(Key::Enter), Order::Fire);
    assert_eq!(order(Key::Char(' ')), Order::Fire);
    assert_eq!(order(Key::Char('a')), Order::Nothing);
    assert_eq!(order(Key::Up), Order::Nothing);
    assert_eq!(order(Key::Esc), Order::Nothing);
    assert_eq!(order(Key::Other), Order::Nothing);
}

#[test]
fn in_play_the_keys_steer_and_fire() {
    let mut game = in_play();
    game.on_key(Key::Right);
    assert_eq!(game.ship, boxed(2, 112, 9, 10));
    game.on_key(Key::Char('d'));
    assert_eq!(game.ship.x, 4);
    game.on_key(Key::Left);
    assert_eq!(game.ship.x, 2);
    game.on_key(Key::Enter);
    assert_eq!(game.bullets, vec![shot(6, 116, false)]);
    game.on_key(Key::Char('w'));
    game.on_key(Key::Char(' '));
    assert_eq!(game.bullets, vec![shot(6, 116, false), shot(4, 116, false)]);
    game.on_key(Key::Up);
    game.on_key(Key::Char('x'));
    assert_eq!(game.ship.x, 0);
    assert_eq!(game.bullets.len(), 2);
    assert_eq!(game.state, StateMachine::Play);
}

#[test]
fn the_menu_cursor_stays_on_the_menu() {
    let mut game = Game::init(148, 128);
    let at = |index: usize| {
        StateMachine::Menu(MenuData {
            options: [MenuOption::Play, MenuOption::Credits],
            cursor_index: index,
        })
    };
    game.on_key(Key::Up);
    assert_eq!(game.state, at(0));
    game.on_key(Key::Down);
    assert_eq!(game.state, at(1));
    game.on_key(Key::Down);
    assert_eq!(game.state, at(1));
    game.on_key(Key::Char('x'));
    game.on_key(Key::Left);
    assert_eq!(game.state, at(1));
    game.on_key(Key::Up);
    assert_eq!(game.state, at(0));
}

#[test]
fn enter_picks_the_option_under_the_cursor() {
    let mut game = Game::init(148, 128);
    game.on_key(Key::Enter);
    assert_eq!(game.state, StateMachine::Play);
    let mut other = Game::init(148, 128);
    other.on_key(Key::Down);
    other.on_key(Key::Enter);
    assert_eq!(other.state, StateMachine::Credits);
    other.on_key(Key::Other);
    assert_eq!(other.state, StateMachine::Menu(default_menu()));
}

#[test]
fn any_key_after_a_game_starts_a_new_one() {
    for state in [StateMachine::Win, StateMachine::Loss] {
        let mut game = in_play();
        game.score = 170;
        game.lives = 0;
        game.bullets = vec![shot(1, 1, true)];
        game.invaders_group.invaders = vec![];
        game.state = state;
        game.on_key(Key::Char('x'));
        assert_eq!(game.state, StateMachine::Menu(default_menu()));
        assert_eq!(game.score, 0);
        assert_eq!(game.lives, 3);
        assert_eq!(game.bullets, vec![]);
        assert_eq!(game.invaders_group.invaders.len(), 5);
        assert_eq!(game.width, 148);
        assert_eq!(game.height, 128);
    }
}

#[test]
fn box_bounds() {
    assert!(boxed(1, 2, 3, 4).is_bounded(5, 6));
    assert!(boxed(usize::MAX - 3, 0, 3, usize::MAX).is_bounded(0, 0));
    assert!(!boxed(usize::MAX - 3, 0, 3, 0).is_bounded(1, 0));
    assert!(!boxed(usize::MAX - 3, 0, 4, 0).is_bounded(0, 0));
    assert!(!boxed(0, usize::MAX, 0, 0).is_bounded(0, 1));
    assert!(!boxed(0, 5, 0, usize::MAX).is_bounded(0, 0));
    assert!(!boxed(usize::MAX, usize::MAX, 1, 1).is_bounded(usize::MAX, usize::MAX));
}

#[test]
fn invaders_can_tick_on_a_sound_game() {
    let mut game = in_play();
    assert!(game.can_tick());
    game.bullets = vec![shot(3, 112, true), shot(18, 20, false)];
    assert!(game.can_tick());
    assert!(game.tick());
    assert!(game.can_tick());
    assert!(Game::init(56, 32).can_tick());
}

#[test]
fn invaders_can_always_tick_outside_play() {
    let mut game = Game::init(148, 128);
    game.height = 0;
    game.ship = boxed(usize::MAX, usize::MAX, 9, 10);
    assert!(game.can_tick());
    game.state = StateMachine::Play;
    assert!(!game.can_tick());
    game.lives = 0;
    assert!(game.can_tick());
    game.lives = 1;
    game.invaders_group.invaders = vec![];
    assert!(game.can_tick());
}

#[test]
fn invaders_cannot_tick_when_a_number_would_leave_its_range() {
    let mut low = in_play();
    low.height = 3;
    assert!(!low.can_tick());
    let mut ship = in_play();
    ship.ship.x = usize::MAX - 8;
    assert!(!ship.can_tick());
    let mut wall = in_play();
    wall.walls[3].transform.y = usize::MAX - 11;
    assert!(!wall.can_tick());
    let mut bullet = in_play();
    bullet.bullets = vec![shot(0, usize::MAX - 2, true)];
    assert!(bullet.can_tick());
    bullet.bullets = vec![shot(0, 0, true), shot(0, usize::MAX - 1, true)];
    assert!(!bullet.can_tick());
    let mut invader = in_play();
    invader.invaders_group.invaders[4][6].transform.x = usize::MAX - 17;
    assert!(!invader.can_tick());
    invader.invaders_group.invaders[4][6].transform.x = usize::MAX - 18;
    assert!(invader.can_tick());
    // An invader shoots from six columns to the right of its left edge,
    // when a step is due.
    invader.invaders_group.invaders[4][6].transform.width = 0;
    invader.invaders_group.invaders[4][6].transform.x = usize::MAX - 13;
    assert!(invader.can_tick());
    invader.invader_move_timer = 0;
    assert!(!invader.can_tick());
    invader.invaders_group.invaders[4][6].transform.x = usize::MAX - 14;
    assert!(invader.can_tick());
    let mut score = in_play();
    // The 35 invaders are worth 630 points.
    score.score = u64::MAX - 629;
    assert!(!score.can_tick());
    score.score = u64::MAX - 630;
    assert!(score.can_tick());
    let mut left = in_play();
    left.invaders_group.direction = InvaderDirection::Left;
    assert!(left.can_tick());
    left.invader_move_timer = 0;
    assert!(!left.can_tick());
    left.invaders_group.x = 9;
    assert!(left.can_tick());
    let mut right = in_play();
    right.invader_move_timer = 0;
    right.invaders_group.width = usize::MAX - 17;
    assert!(right.can_tick());
    right.invaders_group.width = usize::MAX - 16;
    assert!(!right.can_tick());
    right.invader_move_timer = 1;
    assert!(right.can_tick());
    let mut down = in_play();
    down.invaders_group.invaders = vec![vec![]];
    down.invaders_group.y = usize::MAX - 3;
    assert!(down.can_tick());
    down.invader_move_timer = 0;
    assert!(!down.can_tick());
}

#[test]
fn invaders_can_take_keys() {
    let mut game = in_play();
    assert!(game.can_take(Key::Right));
    assert!(game.can_take(Key::Enter));
    assert!(game.can_take(Key::Up));
    assert!(!game.can_take(Key::Left));
    assert!(!game.can_take(Key::Char('w')));
    game.ship.x = 1;
    assert!(!game.can_take(Key::Left));
    game.ship.x = 2;
    assert!(game.can_take(Key::Left));
    game.ship.x = usize::MAX - 3;
    assert!(!game.can_take(Key::Char(' ')));
    assert!(game.can_take(Key::Char('d')));
    game.ship.x = usize::MAX - 1;
    assert!(!game.can_take(Key::Char('d')));
    game.width = 55;
    game.state = StateMachine::Win;
    assert!(!game.can_take(Key::Other));
    game.state = StateMachine::Credits;
    assert!(game.can_take(Key::Other));
    game.state = StateMachine::Menu(MenuData {
        options: [MenuOption::Credits, MenuOption::Credits],
        cursor_index: 2,
    });
    assert!(!game.can_take(Key::Enter));
    assert!(game.can_take(Key::Up));
    game.on_key(Key::Up);
    assert!(game.can_take(Key::Enter));
    game.on_key(Key::Enter);
    assert_eq!(game.state, StateMachine::Credits);
}
