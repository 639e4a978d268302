use comfy_breakout::collide::collide_ball_with_capsule;
use comfy_breakout::collide::Ball;
use comfy_breakout::game::standard_config;
use comfy_breakout::game::generate_level;
use comfy_breakout::game::move_paddle;
use comfy_breakout::game::collide_ball_with_level;
use comfy_breakout::game::update;
use comfy_breakout::game::GameState;
use comfy_breakout::game::Paddle;
use comfy_breakout::game::State;
use comfy_breakout::math::Point2;

fn pt(x: i64, y: i64) -> Point2 {
    Point2 { x, y }
}

#[test]
fn no_contact_leaves_ball_untouched() {
    // travel far from the capsule: resolver must not change anything
    let mut ball = Ball { center: pt(0, 0), velocity: pt(100, 100) };
    let mut new_pos = pt(10, 10);
    let hit = collide_ball_with_capsule(pt(5000, 5000), pt(6000, 5000), 45, 30, &mut ball, &mut new_pos);
    assert!(!hit);
    assert_eq!(ball.center, pt(0, 0));
    assert_eq!(ball.velocity, pt(100, 100));
    assert_eq!(new_pos, pt(10, 10));
}

#[test]
fn head_on_hit_reflects_and_pushes_out() {
    // vertical approach onto a horizontal capsule from above
    let mut ball = Ball { center: pt(0, 0), velocity: pt(0, -2100) };
    let mut new_pos = pt(0, -250);
    let hit = collide_ball_with_capsule(pt(-90, -300), pt(90, -300), 45, 30, &mut ball, &mut new_pos);
    assert!(hit);
    // pushed out to exactly the sum of the radii above the spine
    assert_eq!(new_pos, pt(0, -225));
    // speed conserved exactly, motion now outward
    assert_eq!(ball.velocity, pt(0, 2100));
    assert_eq!(ball.center, pt(0, 0));
}

#[test]
fn travel_through_spine_destroys_block_and_flips_velocity() {
    let cfg = standard_config();
    let mut level = comfy_breakout::game::Level { blocks: Vec::new() };
    level.blocks.push(comfy_breakout::game::Block { center: pt(0, 100) });
    let mut ball = Ball { center: pt(0, 0), velocity: pt(0, 2100) };
    let mut new_pos = pt(0, 200);
    let hits = collide_ball_with_level(&cfg, &mut level, &mut ball, &mut new_pos);
    assert_eq!(hits, 1);
    assert_eq!(level.blocks.len(), 0);
    // perpendicular component flipped, pushed below the spine
    assert_eq!(ball.velocity, pt(0, -2100));
    assert_eq!(new_pos, pt(0, 25));
}

#[test]
fn wall_bounce_clamps_to_boundary_and_flips() {
    // ball at the origin, velocity (35, 35) world units/s at scale 60,
    // world half-height 26.67 units = 1600: the y boundary is 1570
    let cfg = standard_config();
    let mut state = GameState::new(&cfg);
    state.level.blocks.clear();
    update(&cfg, &mut state, true, 0, 0, 60);
    assert!(matches!(state.state, State::Game));
    let mut y_flip_seen = false;
    for _ in 0..45 {
        update(&cfg, &mut state, false, 0, 1, 60);
    }
    if state.ball.center.y == 1570 && state.ball.velocity.y == -2100 {
        y_flip_seen = true;
    }
    assert!(y_flip_seen);
    // the x wall was hit earlier: clamped at 870 on tick 25, then moving left
    assert_eq!(state.ball.center.x, 170);
    assert_eq!(state.ball.velocity.x, -2100);
}

#[test]
fn level_is_a_row_major_grid_of_32_blocks() {
    let cfg = standard_config();
    let level = generate_level(&cfg);
    assert_eq!(level.blocks.len(), 32);
    assert_eq!(level.blocks[0].center, pt(-441, 457));
    assert_eq!(level.blocks[3].center, pt(441, 457));
    assert_eq!(level.blocks[4].center, pt(-441, 571));
    assert_eq!(level.blocks[31].center, pt(441, 1255));
}

#[test]
fn paddle_steps_and_clamps() {
    let cfg = standard_config();
    let mut paddle = Paddle { center: pt(0, -1375) };
    // one tick right at 40 units/s: 2400 / 60 = 40 grid units
    move_paddle(&cfg, &mut paddle, 1, 1, 60);
    assert_eq!(paddle.center, pt(40, -1375));
    // a whole second right runs into the clamp at 900 + 150 + 22
    move_paddle(&cfg, &mut paddle, 1, 60, 60);
    assert_eq!(paddle.center, pt(1072, -1375));
    move_paddle(&cfg, &mut paddle, 0, 1, 60);
    assert_eq!(paddle.center, pt(1072, -1375));
}

#[test]
fn menu_does_no_physics_until_started() {
    let cfg = standard_config();
    let mut state = GameState::new(&cfg);
    assert!(matches!(state.state, State::Menu));
    assert_eq!(state.ball.center, pt(0, 0));
    assert_eq!(state.ball.velocity, pt(2100, 2100));
    assert_eq!(state.paddle.center, pt(0, -1375));
    let hit = update(&cfg, &mut state, false, 1, 1, 60);
    assert!(!hit);
    assert!(matches!(state.state, State::Menu));
    assert_eq!(state.ball.center, pt(0, 0));
    assert_eq!(state.level.blocks.len(), 32);
}

#[test]
fn blocks_never_come_back() {
    // drive the ball up through the level for a while: the block count
    // never increases from one tick to the next
    let cfg = standard_config();
    let mut state = GameState::new(&cfg);
    update(&cfg, &mut state, true, 0, 0, 60);
    let mut last = state.level.blocks.len();
    for _ in 0..240 {
        update(&cfg, &mut state, false, 0, 1, 60);
        let now = state.level.blocks.len();
        assert!(now <= last);
        last = now;
    }
    assert!(last < 32);
}

#[test]
fn paddle_bounces_ball_back_up() {
    let cfg = standard_config();
    let paddle = Paddle { center: pt(0, -1375) };
    let mut ball = Ball { center: pt(0, -1290), velocity: pt(0, -2100) };
    let mut new_pos = pt(0, -1325);
    let hit = comfy_breakout::game::collide_ball_with_paddle(&cfg, &paddle, &mut ball, &mut new_pos);
    assert!(hit);
    // reflected straight back up, pushed to the radius sum above the spine
    assert_eq!(ball.velocity, pt(0, 2100));
    assert_eq!(new_pos, pt(0, -1300));
    // a second call sees the ball moving away: no hit, nothing changes
    let hit2 = comfy_breakout::game::collide_ball_with_paddle(&cfg, &paddle, &mut ball, &mut new_pos);
    assert!(!hit2);
    assert_eq!(ball.velocity, pt(0, 2100));
    assert_eq!(new_pos, pt(0, -1300));
}
