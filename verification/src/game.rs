//! Per-tick orchestration: advance the ball, resolve collisions against
//! the destructible blocks (in reverse order), the world walls and the
//! paddle, and commit the corrected state.  Also the session state machine
//! and level generation.

use vstd::prelude::*;
use crate::math::Point2;
use crate::collide::Ball;
use crate::collide::collide_ball_with_capsule;
use crate::collide::hit_spec;
use crate::collide::out_px;
use crate::collide::out_py;
use crate::collide::out_vx;
use crate::collide::out_vy;
use crate::collide::in_geom;
use crate::collide::in_pos;
use crate::collide::in_center;
use crate::collide::vel_wf;
use crate::collide::norm2;
use crate::num::trunc_div;
use crate::num::div_trunc_i128;
use crate::num::lemma_trunc_div_bound;
use crate::num::lemma_mul_bound;
use crate::num::lemma_square_bounds;
use crate::num::lemma_abs_from_sq;

verus! {

/// A destructible obstacle; its capsule is horizontal, centered here.
#[derive(Clone, Copy, PartialEq, Eq, Structural, Debug)]
pub struct Block {
    pub center: Point2,
}

/// The ordered collection of surviving blocks, insertion order row-major.
pub struct Level {
    pub blocks: Vec<Block>,
}

/// The player's paddle; its capsule is horizontal, centered here.
#[derive(Clone, Copy, PartialEq, Eq, Structural, Debug)]
pub struct Paddle {
    pub center: Point2,
}

/// The session state machine: physics runs only in `Game`.
#[derive(Clone, Copy, PartialEq, Eq, Structural, Debug)]
pub enum State {
    Game,
    Menu,
}

/// The fixed session configuration, on the grid.  Extents are stored as
/// half-sizes so that capsule endpoints and wall positions are exact.
#[derive(Clone, Copy, PartialEq, Eq, Structural, Debug)]
pub struct Config {
    pub half_world_w: i64,
    pub half_world_h: i64,
    pub half_paddle_w: i64,
    pub half_paddle_h: i64,
    pub paddle_speed: i64,
    pub paddle_margin: i64,
    pub ball_speed: i64,
    pub ball_radius: i64,
    pub half_block_w: i64,
    pub half_block_h: i64,
    pub gap: i64,
    pub rows: i64,
    pub cols: i64,
    pub top_margin: i64,
}

/// Configuration bounds that keep every derived coordinate on the grid.
pub open spec fn wf_config(cfg: Config) -> bool {
    &&& 1 <= cfg.half_world_w <= 2000
    &&& 1 <= cfg.half_world_h <= 2000
    &&& 1 <= cfg.half_paddle_w <= 1000
    &&& 1 <= cfg.half_paddle_h <= 1000
    &&& 0 <= cfg.paddle_speed <= 40000
    &&& 0 <= cfg.paddle_margin <= 1000
    &&& 0 <= cfg.ball_speed <= 40000
    &&& 1 <= cfg.ball_radius <= 1000
    &&& cfg.ball_radius <= cfg.half_world_w
    &&& cfg.ball_radius <= cfg.half_world_h
    &&& 1 <= cfg.half_block_w <= 1000
    &&& 1 <= cfg.half_block_h <= 1000
    &&& 0 <= cfg.gap <= 1000
    &&& 1 <= cfg.rows <= 32
    &&& 1 <= cfg.cols <= 32
    &&& 0 <= cfg.top_margin <= 2000
    &&& cfg.cols * (2 * cfg.half_block_w + 2 * cfg.half_block_h + cfg.gap) <= 10000
    &&& cfg.rows * (2 * cfg.half_block_h + cfg.gap) <= 10000
    &&& cfg.ball_speed * cfg.ball_speed <= 2147483648
}

/// The session constants of the standard game, at 60 grid units per world
/// unit: a 30 x 53.33 world, 5 x 1.5 paddle, 3 x 1.5 blocks, 0.5-radius
/// ball moving at 35 units per second.
pub fn standard_config() -> (cfg: Config)
    ensures
        cfg == (Config {
            half_world_w: 900,
            half_world_h: 1600,
            half_paddle_w: 150,
            half_paddle_h: 45,
            paddle_speed: 2400,
            paddle_margin: 180,
            ball_speed: 2100,
            ball_radius: 30,
            half_block_w: 90,
            half_block_h: 45,
            gap: 24,
            rows: 8,
            cols: 4,
            top_margin: 300,
        }),
        wf_config(cfg),
{
    Config {
        half_world_w: 900,
        half_world_h: 1600,
        half_paddle_w: 150,
        half_paddle_h: 45,
        paddle_speed: 2400,
        paddle_margin: 180,
        ball_speed: 2100,
        ball_radius: 30,
        half_block_w: 90,
        half_block_h: 45,
        gap: 24,
        rows: 8,
        cols: 4,
        top_margin: 300,
    }
}

/// The whole mutable session: ball, paddle, surviving blocks and the
/// state machine.
pub struct GameState {
    pub ball: Ball,
    pub paddle: Paddle,
    pub level: Level,
    pub state: State,
}

/// Everything the orchestrator relies on between ticks.
pub open spec fn wf_state(s: GameState, cfg: Config) -> bool {
    &&& wf_config(cfg)
    &&& in_center(s.ball.center)
    &&& vel_wf(s.ball.velocity)
    &&& -15000 <= s.paddle.center.x <= 15000
    &&& -15000 <= s.paddle.center.y <= 15000
    &&& forall|i: int|
        0 <= i < s.level.blocks@.len() ==> (-15000 <= #[trigger] s.level.blocks@[i].center.x
            <= 15000 && -15000 <= s.level.blocks@[i].center.y <= 15000)
}

// --- the resolver's outcome, as a value ---------------------------------------

/// The capsule resolver's effect on the ball and the proposed position,
/// as a value: on a hit, the reflected velocity and pushed-out position
/// given by the resolver's exact output formulas; otherwise unchanged.
pub open spec fn capsule_step(cs: Point2, ce: Point2, rb: int, rc: int, ball: Ball, q: Point2) -> (
    Ball,
    Point2,
) {
    if hit_spec(ball.center, q, cs, ce, rb + rc, ball.velocity) {
        (
            (Ball {
                center: ball.center,
                velocity: (Point2 {
                    x: out_vx(ball.center, q, cs, ce, ball.velocity) as i64,
                    y: out_vy(ball.center, q, cs, ce, ball.velocity) as i64,
                }),
            }),
            (Point2 {
                x: out_px(ball.center, q, cs, ce, rb + rc) as i64,
                y: out_py(ball.center, q, cs, ce, rb + rc) as i64,
            }),
        )
    } else {
        (ball, q)
    }
}

/// Left end of the paddle's capsule spine.
pub open spec fn paddle_spine_start(cfg: Config, p: Paddle) -> Point2 {
    (Point2 { x: (p.center.x - cfg.half_paddle_w) as i64, y: p.center.y })
}

/// Right end of the paddle's capsule spine.
pub open spec fn paddle_spine_end(cfg: Config, p: Paddle) -> Point2 {
    (Point2 { x: (p.center.x + cfg.half_paddle_w) as i64, y: p.center.y })
}

/// The resolver's hit condition at the paddle's capsule.
pub open spec fn paddle_hit_spec(cfg: Config, p: Paddle, ball: Ball, q: Point2) -> bool {
    hit_spec(
        ball.center,
        q,
        paddle_spine_start(cfg, p),
        paddle_spine_end(cfg, p),
        cfg.ball_radius + cfg.half_paddle_h,
        ball.velocity,
    )
}

/// The resolver's effect at the paddle's capsule.
pub open spec fn paddle_step(cfg: Config, p: Paddle, ball: Ball, q: Point2) -> (Ball, Point2) {
    capsule_step(
        paddle_spine_start(cfg, p),
        paddle_spine_end(cfg, p),
        cfg.ball_radius as int,
        cfg.half_paddle_h as int,
        ball,
        q,
    )
}

/// Left end of a block's capsule spine.
pub open spec fn block_spine_start(cfg: Config, b: Block) -> Point2 {
    (Point2 { x: (b.center.x - cfg.half_block_w) as i64, y: b.center.y })
}

/// Right end of a block's capsule spine.
pub open spec fn block_spine_end(cfg: Config, b: Block) -> Point2 {
    (Point2 { x: (b.center.x + cfg.half_block_w) as i64, y: b.center.y })
}

/// The resolver's hit condition at a block's capsule.
pub open spec fn block_hit(cfg: Config, b: Block, ball: Ball, q: Point2) -> bool {
    hit_spec(
        ball.center,
        q,
        block_spine_start(cfg, b),
        block_spine_end(cfg, b),
        cfg.ball_radius + cfg.half_block_h,
        ball.velocity,
    )
}

/// The resolver's effect at a block's capsule.
pub open spec fn block_step(cfg: Config, b: Block, ball: Ball, q: Point2) -> (Ball, Point2) {
    capsule_step(
        block_spine_start(cfg, b),
        block_spine_end(cfg, b),
        cfg.ball_radius as int,
        cfg.half_block_h as int,
        ball,
        q,
    )
}

// --- walls -------------------------------------------------------------------

/// The predicted x coordinate clamped to the world's x walls.
pub open spec fn wall_clamp_x(cfg: Config, q: Point2) -> int {
    let min_x = -cfg.half_world_w + cfg.ball_radius;
    let max_x = cfg.half_world_w - cfg.ball_radius;
    if (q.x as int) < min_x {
        min_x
    } else if q.x as int > max_x {
        max_x
    } else {
        q.x as int
    }
}

/// The predicted y coordinate clamped to the world's y walls.
pub open spec fn wall_clamp_y(cfg: Config, q: Point2) -> int {
    let min_y = -cfg.half_world_h + cfg.ball_radius;
    let max_y = cfg.half_world_h - cfg.ball_radius;
    if (q.y as int) < min_y {
        min_y
    } else if q.y as int > max_y {
        max_y
    } else {
        q.y as int
    }
}

/// The x velocity after the wall test: flipped iff the x walls were hit.
pub open spec fn wall_flip_x(cfg: Config, q: Point2, v: Point2) -> int {
    if (q.x as int) < -cfg.half_world_w + cfg.ball_radius || q.x as int > cfg.half_world_w
        - cfg.ball_radius {
        -(v.x as int)
    } else {
        v.x as int
    }
}

/// The y velocity after the wall test: flipped iff the y walls were hit.
pub open spec fn wall_flip_y(cfg: Config, q: Point2, v: Point2) -> int {
    if (q.y as int) < -cfg.half_world_h + cfg.ball_radius || q.y as int > cfg.half_world_h
        - cfg.ball_radius {
        -(v.y as int)
    } else {
        v.y as int
    }
}

/// Some boundary was exceeded by the predicted position.
pub open spec fn wall_was_hit(cfg: Config, q: Point2) -> bool {
    ||| (q.x as int) < -cfg.half_world_w + cfg.ball_radius
    ||| q.x as int > cfg.half_world_w - cfg.ball_radius
    ||| (q.y as int) < -cfg.half_world_h + cfg.ball_radius
    ||| q.y as int > cfg.half_world_h - cfg.ball_radius
}

/// Reflect the ball off the four world boundaries: each out-of-range
/// coordinate of the predicted position is clamped to the boundary and the
/// matching velocity component is flipped.  Exact; returns whether any
/// wall was hit.
pub fn collide_ball_with_wall(cfg: &Config, ball: &mut Ball, new_pos: &mut Point2) -> (hit: bool)
    requires
        wf_config(*cfg),
        in_pos(*old(new_pos)),
        vel_wf(old(ball).velocity),
    ensures
        final(ball).center == old(ball).center,
        final(new_pos).x as int == wall_clamp_x(*cfg, *old(new_pos)),
        final(new_pos).y as int == wall_clamp_y(*cfg, *old(new_pos)),
        final(ball).velocity.x as int == wall_flip_x(*cfg, *old(new_pos), old(ball).velocity),
        final(ball).velocity.y as int == wall_flip_y(*cfg, *old(new_pos), old(ball).velocity),
        hit == wall_was_hit(*cfg, *old(new_pos)),
        norm2(final(ball).velocity) == norm2(old(ball).velocity),
        in_center(*final(new_pos)),
        vel_wf(final(ball).velocity),
{
    let min_x: i64 = -cfg.half_world_w + cfg.ball_radius;
    let max_x: i64 = cfg.half_world_w - cfg.ball_radius;
    let min_y: i64 = -cfg.half_world_h + cfg.ball_radius;
    let max_y: i64 = cfg.half_world_h - cfg.ball_radius;
    let mut was_hit = false;
    let ghost vbx: int = ball.velocity.x as int;
    let ghost vby: int = ball.velocity.y as int;
    proof {
        lemma_square_bounds(vbx);
        lemma_square_bounds(vby);
        lemma_abs_from_sq(vbx, 65536);
        lemma_abs_from_sq(vby, 65536);
    }
    if new_pos.x < min_x {
        new_pos.x = min_x;
        ball.velocity.x = -ball.velocity.x;
        was_hit = true;
    } else if new_pos.x > max_x {
        new_pos.x = max_x;
        ball.velocity.x = -ball.velocity.x;
        was_hit = true;
    }
    if new_pos.y < min_y {
        new_pos.y = min_y;
        ball.velocity.y = -ball.velocity.y;
        was_hit = true;
    } else if new_pos.y > max_y {
        new_pos.y = max_y;
        ball.velocity.y = -ball.velocity.y;
        was_hit = true;
    }
    proof {
        assert((-vbx) * (-vbx) == vbx * vbx) by (nonlinear_arith);
        assert((-vby) * (-vby) == vby * vby) by (nonlinear_arith);
    }
    was_hit
}

// --- paddle ------------------------------------------------------------------

/// Resolve the ball against the paddle's horizontal capsule.
pub fn collide_ball_with_paddle(
    cfg: &Config,
    paddle: &Paddle,
    ball: &mut Ball,
    new_pos: &mut Point2,
) -> (hit: bool)
    requires
        wf_config(*cfg),
        -15000 <= paddle.center.x <= 15000,
        -15000 <= paddle.center.y <= 15000,
        in_pos(old(ball).center),
        in_pos(*old(new_pos)),
        vel_wf(old(ball).velocity),
    ensures
        final(ball).center == old(ball).center,
        hit == paddle_hit_spec(*cfg, *paddle, *old(ball), *old(new_pos)),
        *final(ball) == paddle_step(*cfg, *paddle, *old(ball), *old(new_pos)).0,
        *final(new_pos) == paddle_step(*cfg, *paddle, *old(ball), *old(new_pos)).1,
        !hit ==> *final(ball) == *old(ball) && *final(new_pos) == *old(new_pos),
        hit ==> in_center(*final(new_pos)),
        norm2(final(ball).velocity) <= norm2(old(ball).velocity),
        vel_wf(final(ball).velocity),
{
    let line_start = Point2 { x: paddle.center.x - cfg.half_paddle_w, y: paddle.center.y };
    let line_end = Point2 { x: paddle.center.x + cfg.half_paddle_w, y: paddle.center.y };
    proof {
        assert(line_start == paddle_spine_start(*cfg, *paddle));
        assert(line_end == paddle_spine_end(*cfg, *paddle));
    }
    let hit = collide_ball_with_capsule(
        line_start,
        line_end,
        cfg.half_paddle_h,
        cfg.ball_radius,
        ball,
        new_pos,
    );
    proof {
        if hit {
            lemma_square_bounds(ball.velocity.x as int);
            lemma_square_bounds(ball.velocity.y as int);
            lemma_abs_from_sq(ball.velocity.x as int, 65536);
            lemma_abs_from_sq(ball.velocity.y as int, 65536);
        }
    }
    hit
}

// --- blocks ------------------------------------------------------------------

/// Sweep the ball over a block sequence in reverse index order: the last
/// block is tested first against the current travel state; a hit destroys
/// the block and the corrected ball state feeds the earlier tests.
/// Returns the final ball, the final proposed position, the survivors in
/// their original order, and the number of blocks destroyed.
pub open spec fn sweep(cfg: Config, blocks: Seq<Block>, ball: Ball, q: Point2) -> (
    Ball,
    Point2,
    Seq<Block>,
    int,
)
    decreases blocks.len(),
{
    if blocks.len() == 0 {
        (ball, q, blocks, 0int)
    } else {
        let b = blocks.last();
        if block_hit(cfg, b, ball, q) {
            let stepped = block_step(cfg, b, ball, q);
            let rest = sweep(cfg, blocks.drop_last(), stepped.0, stepped.1);
            (rest.0, rest.1, rest.2, rest.3 + 1)
        } else {
            let rest = sweep(cfg, blocks.drop_last(), ball, q);
            (rest.0, rest.1, rest.2.push(b), rest.3)
        }
    }
}

/// Every block is accounted for by a sweep: the survivors plus the
/// destroyed ones add up to the whole collection, so blocks are only ever
/// removed, never added.
pub proof fn lemma_sweep_conserves_blocks(cfg: Config, blocks: Seq<Block>, ball: Ball, q: Point2)
    ensures
        sweep(cfg, blocks, ball, q).2.len() + sweep(cfg, blocks, ball, q).3 == blocks.len(),
        0 <= sweep(cfg, blocks, ball, q).3,
    decreases blocks.len(),
{
    if blocks.len() > 0 {
        let b = blocks.last();
        if block_hit(cfg, b, ball, q) {
            let stepped = block_step(cfg, b, ball, q);
            lemma_sweep_conserves_blocks(cfg, blocks.drop_last(), stepped.0, stepped.1);
        } else {
            lemma_sweep_conserves_blocks(cfg, blocks.drop_last(), ball, q);
        }
    }
}

/// Resolve the ball against every surviving block, scanning in reverse
/// insertion order so that removal by index stays valid, removing each hit
/// block at once; later tests see the corrected ball state.  The result is
/// exactly the `sweep` of the old state: survivors keep their order, the
/// count of destroyed blocks comes back as the hit signal.
pub fn collide_ball_with_level(
    cfg: &Config,
    level: &mut Level,
    ball: &mut Ball,
    new_pos: &mut Point2,
) -> (hits: u32)
    requires
        wf_config(*cfg),
        in_pos(old(ball).center),
        in_pos(*old(new_pos)),
        vel_wf(old(ball).velocity),
        old(level).blocks@.len() <= 2048,
        forall|i: int|
            0 <= i < old(level).blocks@.len() ==> (-15000 <= #[trigger] old(
                level,
            ).blocks@[i].center.x <= 15000 && -15000 <= old(level).blocks@[i].center.y <= 15000),
    ensures
        ({
            let sw = sweep(*cfg, old(level).blocks@, *old(ball), *old(new_pos));
            &&& *final(ball) == sw.0
            &&& *final(new_pos) == sw.1
            &&& final(level).blocks@ == sw.2
            &&& hits as int == sw.3
        }),
        final(ball).center == old(ball).center,
        final(level).blocks@.len() <= old(level).blocks@.len(),
        forall|i: int|
            0 <= i < final(level).blocks@.len() ==> old(level).blocks@.contains(
                #[trigger] final(level).blocks@[i],
            ),
        hits == 0 ==> *final(ball) == *old(ball) && *final(new_pos) == *old(new_pos)
            && final(level).blocks@ =~= old(level).blocks@,
        in_pos(*final(new_pos)),
        norm2(final(ball).velocity) <= norm2(old(ball).velocity),
        vel_wf(final(ball).velocity),
{
    let ghost sw = sweep(*cfg, old(level).blocks@, *old(ball), *old(new_pos));
    let mut hits: u32 = 0;
    let mut i: usize = level.blocks.len();
    let ghost mut acc: Seq<Block> = Seq::empty();
    proof {
        assert(level.blocks@ == old(level).blocks@);
        assert(level.blocks@ =~= old(level).blocks@.subrange(0, i as int) + acc);
        assert(old(level).blocks@.subrange(0, i as int) =~= old(level).blocks@);
        assert forall|k: int| 0 <= k < level.blocks@.len() implies old(level).blocks@.contains(
            #[trigger] level.blocks@[k],
        ) by {
            assert(old(level).blocks@[k] == level.blocks@[k]);
        }
    }
    while i > 0
        invariant
            i <= level.blocks@.len(),
            level.blocks@.len() <= old(level).blocks@.len(),
            hits as int + i as int <= old(level).blocks@.len(),
            old(level).blocks@.len() <= 2048,
            wf_config(*cfg),
            ball.center == old(ball).center,
            in_pos(ball.center),
            in_pos(*new_pos),
            vel_wf(ball.velocity),
            norm2(ball.velocity) <= norm2(old(ball).velocity),
            level.blocks@ =~= old(level).blocks@.subrange(0, i as int) + acc,
            ({
                let swp = sweep(
                    *cfg,
                    old(level).blocks@.subrange(0, i as int),
                    *ball,
                    *new_pos,
                );
                &&& sw.0 == swp.0
                &&& sw.1 == swp.1
                &&& sw.2 =~= swp.2 + acc
                &&& sw.3 == swp.3 + hits as int
            }),
            forall|k: int|
                0 <= k < level.blocks@.len() ==> (-15000 <= #[trigger] level.blocks@[k].center.x
                    <= 15000 && -15000 <= level.blocks@[k].center.y <= 15000),
            forall|k: int|
                0 <= k < level.blocks@.len() ==> old(level).blocks@.contains(
                    #[trigger] level.blocks@[k],
                ),
            hits == 0 ==> *ball == *old(ball) && *new_pos == *old(new_pos) && level.blocks@
                =~= old(level).blocks@,
        decreases i,
    {
        let ghost pre = old(level).blocks@.subrange(0, i as int);
        i = i - 1;
        let ghost ball_pre = *ball;
        let ghost q_pre = *new_pos;
        let block = level.blocks[i];
        proof {
            assert(block == old(level).blocks@[i as int]);
            assert(pre.drop_last() =~= old(level).blocks@.subrange(0, i as int));
            assert(pre.last() == block);
        }
        let line_start = Point2 { x: block.center.x - cfg.half_block_w, y: block.center.y };
        let line_end = Point2 { x: block.center.x + cfg.half_block_w, y: block.center.y };
        proof {
            assert(line_start == block_spine_start(*cfg, block));
            assert(line_end == block_spine_end(*cfg, block));
        }
        let hit = collide_ball_with_capsule(
            line_start,
            line_end,
            cfg.half_block_h,
            cfg.ball_radius,
            ball,
            new_pos,
        );
        proof {
            assert(hit == block_hit(*cfg, block, ball_pre, q_pre));
            if hit {
                lemma_square_bounds(ball.velocity.x as int);
                lemma_square_bounds(ball.velocity.y as int);
                lemma_abs_from_sq(ball.velocity.x as int, 65536);
                lemma_abs_from_sq(ball.velocity.y as int, 65536);
                assert(*ball == block_step(*cfg, block, ball_pre, q_pre).0);
                assert(*new_pos == block_step(*cfg, block, ball_pre, q_pre).1);
            }
        }
        if hit {
            let ghost before = level.blocks@;
            level.blocks.remove(i);
            proof {
                assert(level.blocks@ =~= old(level).blocks@.subrange(0, i as int) + acc);
                assert forall|k: int| 0 <= k < level.blocks@.len() implies (-15000
                    <= #[trigger] level.blocks@[k].center.x <= 15000 && -15000
                    <= level.blocks@[k].center.y <= 15000) by {
                    if k < i as int {
                        assert(level.blocks@[k] == before[k]);
                    } else {
                        assert(level.blocks@[k] == before[k + 1]);
                    }
                }
                assert forall|k: int| 0 <= k < level.blocks@.len() implies old(
                    level,
                ).blocks@.contains(#[trigger] level.blocks@[k]) by {
                    if k < i as int {
                        assert(level.blocks@[k] == before[k]);
                        assert(old(level).blocks@.contains(before[k]));
                    } else {
                        assert(level.blocks@[k] == before[k + 1]);
                        assert(old(level).blocks@.contains(before[k + 1]));
                    }
                }
            }
            hits = hits + 1;
        } else {
            proof {
                acc = seq![block] + acc;
                assert(level.blocks@ =~= old(level).blocks@.subrange(0, i as int) + acc);
                let swp = sweep(*cfg, old(level).blocks@.subrange(0, i as int), *ball, *new_pos);
                assert(sweep(*cfg, pre, ball_pre, q_pre).2 =~= swp.2.push(block));
                assert(swp.2.push(block) + acc.drop_first() =~= swp.2 + acc);
                assert(sw.2 =~= swp.2 + acc);
            }
        }
    }
    proof {
        assert(old(level).blocks@.subrange(0, 0) =~= Seq::<Block>::empty());
        assert(level.blocks@ =~= acc);
        assert(sw.2 =~= acc);
    }
    hits
}

// --- motion -------------------------------------------------------------------

/// The predicted coordinate after one time step: the current coordinate
/// plus velocity times `dt_num / dt_den`, rounded toward zero.
pub open spec fn predicted(c: int, v: int, dt_num: int, dt_den: int) -> int {
    c + trunc_div(v * dt_num, dt_den)
}

/// The paddle after one movement step: its x coordinate moved by
/// `speed * dt * dir` (rounded toward zero) and clamped to the allowed
/// range; a zero direction leaves it alone.
pub open spec fn paddle_stepped(cfg: Config, p: Paddle, dir: int, dt_num: int, dt_den: int) -> Paddle {
    if dir == 0 {
        p
    } else {
        let jump = trunc_div((cfg.paddle_speed * dt_num) * dir, dt_den);
        let min_x = -cfg.half_world_w - cfg.half_paddle_w - cfg.half_paddle_h / 2;
        let max_x = cfg.half_world_w + cfg.half_paddle_w + cfg.half_paddle_h / 2;
        let nx = if p.center.x + jump < min_x {
            min_x
        } else if p.center.x + jump > max_x {
            max_x
        } else {
            p.center.x + jump
        };
        (Paddle { center: (Point2 { x: nx as i64, y: p.center.y }) })
    }
}

/// The whole per-tick ball pipeline, as a relation between the states
/// before and after: the position predicted from the velocity and the
/// time step is resolved against the blocks (reverse order), then the
/// walls, then the paddle, in that fixed order, and committed; the hit
/// signal aggregates the three stages.
pub open spec fn ball_tick_rel(
    cfg: Config,
    blocks_pre: Seq<Block>,
    paddle: Paddle,
    ball_pre: Ball,
    blocks_post: Seq<Block>,
    ball_post: Ball,
    hit: bool,
    dt_num: int,
    dt_den: int,
) -> bool {
    let pred = (Point2 {
        x: predicted(ball_pre.center.x as int, ball_pre.velocity.x as int, dt_num, dt_den) as i64,
        y: predicted(ball_pre.center.y as int, ball_pre.velocity.y as int, dt_num, dt_den) as i64,
    });
    let sw = sweep(cfg, blocks_pre, ball_pre, pred);
    let wq = (Point2 { x: wall_clamp_x(cfg, sw.1) as i64, y: wall_clamp_y(cfg, sw.1) as i64 });
    let wb = (Ball {
        center: sw.0.center,
        velocity: (Point2 {
            x: wall_flip_x(cfg, sw.1, sw.0.velocity) as i64,
            y: wall_flip_y(cfg, sw.1, sw.0.velocity) as i64,
        }),
    });
    let ps = paddle_step(cfg, paddle, wb, wq);
    &&& blocks_post == sw.2
    &&& ball_post.velocity == ps.0.velocity
    &&& ball_post.center == ps.1
    &&& hit == (sw.3 > 0 || wall_was_hit(cfg, sw.1) || paddle_hit_spec(cfg, paddle, wb, wq))
}

/// Advance the ball one tick: predict the next position from the velocity
/// and the time step, then resolve blocks, then walls, then the paddle, in
/// that fixed order, and commit the final position.  Returns whether
/// anything was hit, as the signal for the audio collaborator.
pub fn move_ball(
    cfg: &Config,
    level: &mut Level,
    paddle: &Paddle,
    ball: &mut Ball,
    dt_num: i64,
    dt_den: i64,
) -> (hit: bool)
    requires
        wf_config(*cfg),
        -15000 <= paddle.center.x <= 15000,
        -15000 <= paddle.center.y <= 15000,
        in_center(old(ball).center),
        vel_wf(old(ball).velocity),
        1 <= dt_den <= 1000000,
        0 <= dt_num <= dt_den,
        old(ball).velocity.x * dt_num <= 8192 * dt_den,
        -(8192 * dt_den) <= old(ball).velocity.x * dt_num,
        old(ball).velocity.y * dt_num <= 8192 * dt_den,
        -(8192 * dt_den) <= old(ball).velocity.y * dt_num,
        old(level).blocks@.len() <= 2048,
        forall|i: int|
            0 <= i < old(level).blocks@.len() ==> (-15000 <= #[trigger] old(
                level,
            ).blocks@[i].center.x <= 15000 && -15000 <= old(level).blocks@[i].center.y <= 15000),
    ensures
        ball_tick_rel(
            *cfg,
            old(level).blocks@,
            *paddle,
            *old(ball),
            final(level).blocks@,
            *final(ball),
            hit,
            dt_num as int,
            dt_den as int,
        ),
        final(level).blocks@.len() <= old(level).blocks@.len(),
        forall|i: int|
            0 <= i < final(level).blocks@.len() ==> old(level).blocks@.contains(
                #[trigger] final(level).blocks@[i],
            ),
        in_center(final(ball).center),
        norm2(final(ball).velocity) <= norm2(old(ball).velocity),
        vel_wf(final(ball).velocity),
        !hit ==> final(ball).velocity == old(ball).velocity && final(level).blocks@ =~= old(
            level,
        ).blocks@ && final(ball).center.x as int == predicted(
            old(ball).center.x as int,
            old(ball).velocity.x as int,
            dt_num as int,
            dt_den as int,
        ) && final(ball).center.y as int == predicted(
            old(ball).center.y as int,
            old(ball).velocity.y as int,
            dt_num as int,
            dt_den as int,
        ),
{
    proof {
        lemma_square_bounds(old(ball).velocity.x as int);
        lemma_square_bounds(old(ball).velocity.y as int);
        lemma_abs_from_sq(old(ball).velocity.x as int, 65536);
        lemma_abs_from_sq(old(ball).velocity.y as int, 65536);
        lemma_mul_bound(old(ball).velocity.x as int, dt_num as int, 65536, 1000000);
        lemma_mul_bound(old(ball).velocity.y as int, dt_num as int, 65536, 1000000);
        lemma_trunc_div_bound(
            old(ball).velocity.x as int * dt_num as int,
            dt_den as int,
            8192,
        );
        lemma_trunc_div_bound(
            old(ball).velocity.y as int * dt_num as int,
            dt_den as int,
            8192,
        );
    }
    let sx: i128 = div_trunc_i128(ball.velocity.x as i128 * dt_num as i128, dt_den as i128);
    let sy: i128 = div_trunc_i128(ball.velocity.y as i128 * dt_num as i128, dt_den as i128);
    let ghost ball0 = *ball;
    let ghost blocks0 = level.blocks@;
    let mut new_pos = Point2 { x: ball.center.x + sx as i64, y: ball.center.y + sy as i64 };
    let ghost predp = new_pos;
    proof {
        assert(predp.x as int == predicted(
            ball0.center.x as int,
            ball0.velocity.x as int,
            dt_num as int,
            dt_den as int,
        ));
        assert(predp.y as int == predicted(
            ball0.center.y as int,
            ball0.velocity.y as int,
            dt_num as int,
            dt_den as int,
        ));
    }
    let block_hits = collide_ball_with_level(cfg, level, ball, &mut new_pos);
    let ghost b1 = *ball;
    let ghost q1 = new_pos;
    let wall_hit = collide_ball_with_wall(cfg, ball, &mut new_pos);
    let ghost b2 = *ball;
    let ghost q2 = new_pos;
    proof {
        lemma_square_bounds(b2.velocity.x as int);
        lemma_square_bounds(b2.velocity.y as int);
        lemma_abs_from_sq(b2.velocity.x as int, 65536);
        lemma_abs_from_sq(b2.velocity.y as int, 65536);
        assert(q2 == (Point2 {
            x: wall_clamp_x(*cfg, q1) as i64,
            y: wall_clamp_y(*cfg, q1) as i64,
        }));
        assert(b2 == (Ball {
            center: b1.center,
            velocity: (Point2 {
                x: wall_flip_x(*cfg, q1, b1.velocity) as i64,
                y: wall_flip_y(*cfg, q1, b1.velocity) as i64,
            }),
        }));
    }
    let paddle_hit = collide_ball_with_paddle(cfg, paddle, ball, &mut new_pos);
    proof {
        assert(*ball == paddle_step(*cfg, *paddle, b2, q2).0);
        assert(new_pos == paddle_step(*cfg, *paddle, b2, q2).1);
        assert(block_hits as int == sweep(*cfg, blocks0, ball0, predp).3);
    }
    ball.center = new_pos;
    block_hits > 0 || wall_hit || paddle_hit
}

// --- paddle movement ----------------------------------------------------------

/// Move the paddle by its speed times the time step in the given
/// direction (-1, 0 or 1, from player input), clamped so the paddle stays
/// near the world: exactly the clamp of the stepped coordinate.
pub fn move_paddle(cfg: &Config, paddle: &mut Paddle, dir: i64, dt_num: i64, dt_den: i64)
    requires
        wf_config(*cfg),
        -15000 <= old(paddle).center.x <= 15000,
        -15000 <= old(paddle).center.y <= 15000,
        dir == -1 || dir == 0 || dir == 1,
        1 <= dt_den <= 1000000,
        0 <= dt_num <= dt_den,
    ensures
        final(paddle).center.y == old(paddle).center.y,
        ({
            let jump = trunc_div((cfg.paddle_speed * dt_num) * dir, dt_den as int);
            let min_x = -cfg.half_world_w - cfg.half_paddle_w - cfg.half_paddle_h / 2;
            let max_x = cfg.half_world_w + cfg.half_paddle_w + cfg.half_paddle_h / 2;
            dir != 0 ==> final(paddle).center.x as int == (if old(paddle).center.x + jump < min_x {
                min_x
            } else if old(paddle).center.x + jump > max_x {
                max_x
            } else {
                old(paddle).center.x + jump
            })
        }),
        dir == 0 ==> *final(paddle) == *old(paddle),
        *final(paddle) == paddle_stepped(*cfg, *old(paddle), dir as int, dt_num as int, dt_den as int),
        -15000 <= final(paddle).center.x <= 15000,
{
    if dir == 0 {
        return ;
    }
    proof {
        lemma_mul_bound(cfg.paddle_speed as int, dt_num as int, 40000, 1000000);
        lemma_mul_bound(cfg.paddle_speed as int * dt_num as int, dir as int, 40000000000, 1);
        assert(-(40000 * (dt_den as int)) <= (cfg.paddle_speed as int * dt_num as int) * dir as int
            <= 40000 * (dt_den as int)) by (nonlinear_arith)
            requires
                0 <= cfg.paddle_speed <= 40000,
                0 <= dt_num <= dt_den,
                dir as int == -1 || dir as int == 1,
        ;
        lemma_trunc_div_bound(
            (cfg.paddle_speed as int * dt_num as int) * dir as int,
            dt_den as int,
            40000,
        );
    }
    let jump: i128 = div_trunc_i128(
        cfg.paddle_speed as i128 * dt_num as i128 * dir as i128,
        dt_den as i128,
    );
    let half_quarter: i64 = (cfg.half_paddle_h as u64 / 2) as i64;
    let min_x: i64 = -cfg.half_world_w - cfg.half_paddle_w - half_quarter;
    let max_x: i64 = cfg.half_world_w + cfg.half_paddle_w + half_quarter;
    let mut nx: i64 = paddle.center.x + jump as i64;
    if nx < min_x {
        nx = min_x;
    }
    if nx > max_x {
        nx = max_x;
    }
    paddle.center.x = nx;
}


// --- level generation ---------------------------------------------------------

/// Horizontal grid pitch of the block layout.
pub open spec fn level_cell_x(cfg: Config) -> int {
    2 * cfg.half_block_w + 2 * cfg.half_block_h + cfg.gap
}

/// Vertical grid pitch of the block layout.
pub open spec fn level_cell_y(cfg: Config) -> int {
    2 * cfg.half_block_h + cfg.gap
}

/// x coordinate of the lower-left corner of the block grid.
pub open spec fn level_start_x(cfg: Config) -> int {
    -cfg.half_world_w + (2 * cfg.half_world_w - (cfg.cols * level_cell_x(cfg) - cfg.gap)) / 2
}

/// y coordinate of the lower-left corner of the block grid.
pub open spec fn level_start_y(cfg: Config) -> int {
    cfg.half_world_h - cfg.top_margin - (cfg.rows * level_cell_y(cfg) - cfg.gap)
}

/// Center of the `k`-th block of the row-major grid.
pub open spec fn block_cx(cfg: Config, k: int) -> int {
    level_start_x(cfg) + cfg.half_block_h + cfg.half_block_w + (k % (cfg.cols as int)) * level_cell_x(cfg)
}

pub open spec fn block_cy(cfg: Config, k: int) -> int {
    level_start_y(cfg) + cfg.half_block_h + (k / (cfg.cols as int)) * level_cell_y(cfg)
}

/// Build the block grid: `rows * cols` blocks in row-major order, each
/// center given by the closed layout formula.
pub fn generate_level(cfg: &Config) -> (r: Level)
    requires
        wf_config(*cfg),
    ensures
        r.blocks@.len() == cfg.rows * cfg.cols,
        forall|k: int|
            0 <= k < r.blocks@.len() ==> (#[trigger] r.blocks@[k].center.x as int == block_cx(
                *cfg,
                k,
            ) && r.blocks@[k].center.y as int == block_cy(*cfg, k)),
        forall|k: int|
            0 <= k < r.blocks@.len() ==> (-15000 <= #[trigger] r.blocks@[k].center.x <= 15000
                && -15000 <= r.blocks@[k].center.y <= 15000),
{
    let cell_x: i64 = 2 * cfg.half_block_w + 2 * cfg.half_block_h + cfg.gap;
    let cell_y: i64 = 2 * cfg.half_block_h + cfg.gap;
    let row_size: i64 = cfg.cols * cell_x - cfg.gap;
    let col_size: i64 = cfg.rows * cell_y - cfg.gap;
    let sx128: i128 = crate::num::div_floor_i128(
        2 * cfg.half_world_w as i128 - row_size as i128,
        2,
    );
    let start_x: i64 = -cfg.half_world_w + sx128 as i64;
    let start_y: i64 = cfg.half_world_h - cfg.top_margin - col_size;
    proof {
        lemma_mul_bound(cfg.rows as int, cfg.cols as int, 32, 32);
    }
    let total: i64 = cfg.rows * cfg.cols;
    let mut blocks: Vec<Block> = Vec::new();
    let mut k: i64 = 0;
    while k < total
        invariant
            wf_config(*cfg),
            0 <= k <= total,
            total == cfg.rows * cfg.cols,
            total <= 1024,
            cell_x as int == level_cell_x(*cfg),
            cell_y as int == level_cell_y(*cfg),
            start_x as int == level_start_x(*cfg),
            start_y as int == level_start_y(*cfg),
            -8000 <= start_x <= 8000,
            -14000 <= start_y <= 14000,
            blocks@.len() == k,
            forall|j: int|
                0 <= j < k ==> (#[trigger] blocks@[j].center.x as int == block_cx(*cfg, j)
                    && blocks@[j].center.y as int == block_cy(*cfg, j)),
            forall|j: int|
                0 <= j < k ==> (-15000 <= #[trigger] blocks@[j].center.x <= 15000 && -15000
                    <= blocks@[j].center.y <= 15000),
        decreases total - k,
    {
        let row: i64 = ((k as u64) / (cfg.cols as u64)) as i64;
        let col: i64 = ((k as u64) % (cfg.cols as u64)) as i64;
        proof {
            vstd::arithmetic::div_mod::lemma_fundamental_div_mod(k as int, cfg.cols as int);
            assert((row as int) < cfg.rows as int && row as int <= 31) by (nonlinear_arith)
                requires
                    row as int == k as int / cfg.cols as int,
                    k as int == cfg.cols as int * (k as int / cfg.cols as int) + k as int
                        % cfg.cols as int,
                    0 <= (k as int % cfg.cols as int) < cfg.cols as int,
                    (k as int) < cfg.rows as int * cfg.cols as int,
                    1 <= cfg.cols as int <= 32,
                    1 <= cfg.rows as int <= 32,
            ;
            assert(0 <= row as int) by (nonlinear_arith)
                requires
                    row as int == k as int / cfg.cols as int,
                    0 <= k as int,
                    1 <= cfg.cols as int,
            ;
            crate::num::lemma_scale_le(0, col as int, cell_x as int);
            crate::num::lemma_scale_le(col as int, cfg.cols as int, cell_x as int);
            crate::num::lemma_scale_le(0, row as int, cell_y as int);
            crate::num::lemma_scale_le(row as int, cfg.rows as int, cell_y as int);
        }
        let cx: i64 = start_x + cfg.half_block_h + cfg.half_block_w + col * cell_x;
        let cy: i64 = start_y + cfg.half_block_h + row * cell_y;
        blocks.push(Block { center: Point2 { x: cx, y: cy } });
        k = k + 1;
    }
    Level { blocks }
}

// --- the session ---------------------------------------------------------------

impl GameState {
    /// A fresh session: menu state, ball at the origin moving diagonally
    /// at the configured speed, paddle at its bottom position, full level.
    pub fn new(cfg: &Config) -> (s: GameState)
        requires
            wf_config(*cfg),
        ensures
            s.state == State::Menu,
            s.ball.center == (Point2 { x: 0, y: 0 }),
            s.ball.velocity == (Point2 { x: cfg.ball_speed, y: cfg.ball_speed }),
            s.paddle.center.x == 0,
            s.paddle.center.y as int == -cfg.half_world_h + cfg.half_paddle_h
                + cfg.paddle_margin,
            s.level.blocks@.len() == cfg.rows * cfg.cols,
            forall|k: int|
                0 <= k < s.level.blocks@.len() ==> (#[trigger] s.level.blocks@[k].center.x as int
                    == block_cx(*cfg, k) && s.level.blocks@[k].center.y as int == block_cy(
                    *cfg,
                    k,
                )),
            wf_state(s, *cfg),
    {
        GameState {
            state: State::Menu,
            ball: Ball {
                center: Point2 { x: 0, y: 0 },
                velocity: Point2 { x: cfg.ball_speed, y: cfg.ball_speed },
            },
            paddle: Paddle {
                center: Point2 {
                    x: 0,
                    y: -cfg.half_world_h + cfg.half_paddle_h + cfg.paddle_margin,
                },
            },
            level: generate_level(cfg),
        }
    }
}

/// The menu does no physics; it only starts the game when asked.
pub fn run_menu(state: &mut GameState, start_pressed: bool)
    ensures
        start_pressed ==> final(state).state == State::Game,
        !start_pressed ==> final(state).state == old(state).state,
        final(state).ball == old(state).ball,
        final(state).paddle == old(state).paddle,
        final(state).level.blocks@ == old(state).level.blocks@,
{
    if start_pressed {
        state.state = State::Game;
    }
}

/// One game tick: move the paddle by the player's direction, then move
/// the ball with full collision resolution.  Returns the hit signal.
pub fn run_game(
    cfg: &Config,
    state: &mut GameState,
    dir: i64,
    dt_num: i64,
    dt_den: i64,
) -> (hit: bool)
    requires
        wf_state(*old(state), *cfg),
        old(state).level.blocks@.len() <= 2048,
        dir == -1 || dir == 0 || dir == 1,
        1 <= dt_den <= 1000000,
        0 <= dt_num,
        // a tick of at most an eighth of a second: caps the per-tick
        // displacement so the predicted position stays on the grid
        8 * dt_num <= dt_den,
    ensures
        wf_state(*final(state), *cfg),
        final(state).level.blocks@.len() <= old(state).level.blocks@.len(),
        forall|i: int|
            0 <= i < final(state).level.blocks@.len() ==> old(state).level.blocks@.contains(
                #[trigger] final(state).level.blocks@[i],
            ),
        norm2(final(state).ball.velocity) <= norm2(old(state).ball.velocity),
        final(state).state == old(state).state,
        final(state).paddle == paddle_stepped(
            *cfg,
            old(state).paddle,
            dir as int,
            dt_num as int,
            dt_den as int,
        ),
        ball_tick_rel(
            *cfg,
            old(state).level.blocks@,
            final(state).paddle,
            old(state).ball,
            final(state).level.blocks@,
            final(state).ball,
            hit,
            dt_num as int,
            dt_den as int,
        ),
{
    proof {
        lemma_square_bounds(state.ball.velocity.x as int);
        lemma_square_bounds(state.ball.velocity.y as int);
        lemma_abs_from_sq(state.ball.velocity.x as int, 65536);
        lemma_abs_from_sq(state.ball.velocity.y as int, 65536);
        crate::num::lemma_scale_le(state.ball.velocity.x as int, 65536, dt_num as int);
        crate::num::lemma_scale_le(-65536, state.ball.velocity.x as int, dt_num as int);
        crate::num::lemma_scale_le(state.ball.velocity.y as int, 65536, dt_num as int);
        crate::num::lemma_scale_le(-65536, state.ball.velocity.y as int, dt_num as int);
    }
    move_paddle(cfg, &mut state.paddle, dir, dt_num, dt_den);
    move_ball(cfg, &mut state.level, &state.paddle, &mut state.ball, dt_num, dt_den)
}

/// One frame: menu frames only watch for the start input; game frames run
/// the physics tick.  The hit signal is for the audio collaborator.
pub fn update(
    cfg: &Config,
    state: &mut GameState,
    start_pressed: bool,
    dir: i64,
    dt_num: i64,
    dt_den: i64,
) -> (hit: bool)
    requires
        wf_state(*old(state), *cfg),
        old(state).level.blocks@.len() <= 2048,
        dir == -1 || dir == 0 || dir == 1,
        1 <= dt_den <= 1000000,
        0 <= dt_num,
        // a tick of at most an eighth of a second: caps the per-tick
        // displacement so the predicted position stays on the grid
        8 * dt_num <= dt_den,
    ensures
        wf_state(*final(state), *cfg),
        final(state).level.blocks@.len() <= old(state).level.blocks@.len(),
        old(state).state == State::Game ==> final(state).state == State::Game
            && final(state).paddle == paddle_stepped(
            *cfg,
            old(state).paddle,
            dir as int,
            dt_num as int,
            dt_den as int,
        ) && ball_tick_rel(
            *cfg,
            old(state).level.blocks@,
            final(state).paddle,
            old(state).ball,
            final(state).level.blocks@,
            final(state).ball,
            hit,
            dt_num as int,
            dt_den as int,
        ),
        old(state).state == State::Menu ==> final(state).state == (if start_pressed {
            State::Game
        } else {
            State::Menu
        }) && final(state).level.blocks@ == old(state).level.blocks@
            && final(state).ball == old(state).ball
            && final(state).paddle == old(state).paddle && !hit,
{
    match state.state {
        State::Game => run_game(cfg, state, dir, dt_num, dt_den),
        State::Menu => {
            run_menu(state, start_pressed);
            false
        },
    }
}

} // verus!
