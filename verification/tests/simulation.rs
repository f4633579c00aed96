use luabridge::Vector2;
use luabridge::add_two_numbers;
use luabridge::decorate;
use luabridge::is_odd;
use luabridge::pong::PongGameState;
use luabridge::unbox;
use luabridge::vector2_swap;

#[test]
fn a_new_game_starts_centered() {
    let g = PongGameState::new();
    assert_eq!(g.pong_ball(), (750, 500));
    assert_eq!(g.left_player(), 500);
    assert_eq!(g.right_player(), 500);
    assert_eq!(g.score(), (0, 0));
    assert_eq!(g.pong_trail_x().len(), 0);
}

#[test]
fn one_idle_tick_moves_the_ball_up_right() {
    let mut g = PongGameState::new();
    g.update(false, false, false, false);
    assert_eq!(g.pong_ball(), (760, 490));
    assert_eq!(g.score(), (0, 0));
    let xs = g.pong_trail_x();
    let ys = g.pong_trail_y();
    assert_eq!(xs.len(), 10);
    assert_eq!(xs[0], 751);
    assert_eq!(ys[0], 499);
    assert_eq!(xs[9], 760);
    assert_eq!(ys[9], 490);
}

#[test]
fn paddles_move_twelve_steps_per_tick() {
    let mut g = PongGameState::new();
    g.update(true, false, false, true);
    assert_eq!(g.left_player(), 512);
    assert_eq!(g.right_player(), 488);
    g.update(true, true, false, false);
    assert_eq!(g.left_player(), 512);
    assert_eq!(g.right_player(), 488);
}

#[test]
fn paddles_stop_at_the_edges() {
    let mut g = PongGameState::new();
    for _ in 0..40 {
        g.update(true, false, false, true);
    }
    assert_eq!(g.left_player(), 925);
    assert_eq!(g.right_player(), 75);
}

#[test]
fn the_ball_is_not_on_a_paddle_at_the_start() {
    let g = PongGameState::new();
    assert!(!g.left_player_hit());
    assert!(!g.right_player_hit());
}

#[test]
fn the_opponent_predicts_and_caches_its_target() {
    let mut g = PongGameState::new();
    assert_eq!(g.right_player_ai(), 200);
    assert_eq!(g.right_player_ai(), 200);
}

#[test]
fn an_unattended_ball_scores_for_the_left_player() {
    let mut g = PongGameState::new();
    for _ in 0..75 {
        g.update(false, false, false, false);
    }
    // The ball crossed the right edge and the game reset it.
    assert_eq!(g.pong_ball(), (1400, 500));
    assert_eq!(g.score(), (1, 0));
    assert_eq!(g.pong_trail_x().len(), 1);
    for _ in 0..25 {
        g.update(false, false, false, false);
    }
    assert_eq!(g.pong_ball(), (1150, 750));
    assert_eq!(g.score(), (1, 0));
    assert_eq!(g.pong_trail_x().len(), 251);
    // Another hundred ticks: the ball bounced off the top and heads back.
    for _ in 0..100 {
        g.update(false, false, false, false);
    }
    assert_eq!(g.pong_ball(), (150, 250));
    assert_eq!(g.score(), (1, 0));
}

#[test]
fn a_lowered_paddle_returns_the_ball_with_spin() {
    let mut g = PongGameState::new();
    for _ in 0..100 {
        g.update(false, false, false, false);
    }
    // Drop the left paddle to the bottom to intercept the returning ball.
    for _ in 0..120 {
        g.update(false, true, false, false);
    }
    assert_eq!(g.left_player(), 75);
    assert_eq!(g.pong_ball(), (166, 266));
    assert_eq!(g.score(), (1, 0));
    assert_eq!(g.speed(), 12);
}

#[test]
fn vector_swap_exchanges_the_coordinates() {
    let v = vector2_swap(Vector2 { x: 3, y: 9 });
    assert_eq!(v.x, 9);
    assert_eq!(v.y, 3);
    assert_eq!(v.render(), "{9, 3}");
}

#[test]
fn the_parity_check_keeps_its_historical_meaning() {
    assert!(is_odd(2));
    assert!(is_odd(0));
    assert!(!is_odd(3));
}

#[test]
fn small_sums_add_up() {
    assert_eq!(add_two_numbers(2, 40), 42);
}

#[test]
fn unboxing_returns_the_boxed_value() {
    assert_eq!(unbox(Box::new(7u32)), 7);
}

#[test]
fn decoration_appends_the_heart() {
    assert_eq!(decorate(String::from("Recieved")), "Recieved\u{1f496}");
}
