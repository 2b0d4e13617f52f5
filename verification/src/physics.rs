//! The collision engine: per-tick actor physics over the block grid.
//!
//! Positions, velocities and sizes are fixed-point integers in milli-pixels
//! (one tile is 25 pixels, so 25000 units). Each tick applies the movement
//! intents, damping (rounded toward zero), gravity and the velocity clamps,
//! then integrates and resolves each axis independently: horizontal first,
//! then vertical with the
//! already-updated horizontal position. On each axis the leading edge of the
//! actor's bounding box is converted to a tile lane and the box's full
//! perpendicular span is scanned there; any solid tile zeroes the velocity on
//! that axis and snaps the leading edge onto the tile boundary. Tile
//! coordinates outside the map are passable.

use vstd::prelude::*;
use crate::tile::{is_solid, spec_is_solid};
use crate::world::{MAP_HEIGHT, MAP_WIDTH, World, spec_in_bounds, spec_index};
use vstd::arithmetic::div_mod::{
    lemma_div_is_ordered,
    lemma_fundamental_div_mod,
    lemma_fundamental_div_mod_converse,
    lemma_mod_bound,
};

verus! {

/// One tile in milli-pixels (25-pixel tiles).
pub const TILE_SIZE: i64 = 25000;

/// The actor's hitbox width (40 pixels).
pub const PLAYER_WIDTH: i64 = 40000;

/// The actor's hitbox height (86 pixels).
pub const PLAYER_HEIGHT: i64 = 86000;

/// Horizontal speed cap (0.2 pixels per millisecond).
pub const MAX_X_VELOCITY: i64 = 200;

/// Vertical speed cap (2.0 pixels per millisecond).
pub const MAX_Y_VELOCITY: i64 = 2000;

/// Horizontal acceleration per tick while a direction is held.
pub const MOVEMENT_ACCELERATION: i64 = 10;

/// Upward speed set by a jump (0.45 pixels per millisecond).
pub const JUMP_VELOCITY: i64 = 450;

/// Downward acceleration per tick.
pub const GRAVITY: i64 = 10;

/// Positions saturate at this distance from the origin, far beyond the map,
/// so that every tick keeps the actor's state well formed.
pub const POSITION_LIMIT: i64 = 4_000_000_000_000;

/// Largest tick length for which one tick moves the actor by less than one
/// tile on each axis, so the leading-edge scan cannot be tunnelled through.
pub const MAX_SAFE_STEP_MS: u32 = 12;

/// The movement intents of one tick, as the input collaborator reports them.
#[derive(Clone, Copy, PartialEq, Eq, Structural)]
pub struct PlayerInput {
    /// Move-left is held.
    pub move_left: bool,
    /// Move-right is held.
    pub move_right: bool,
    /// Jump was pressed this tick.
    pub jump: bool,
}

/// The actor: continuous position and velocity in milli-pixels, with a fixed
/// hitbox.
#[derive(Clone, Copy, PartialEq, Eq, Structural)]
pub struct Player {
    pub position_x: i64,
    pub velocity_x: i64,
    pub position_y: i64,
    pub velocity_y: i64,
}

/// The tile lane (column or row index) containing the coordinate: floor
/// division by the tile size.
pub open spec fn tile_floor(a: int) -> int {
    a / (TILE_SIZE as int)
}

/// First tile lane of a bounding box edge at coordinate p.
pub open spec fn box_lo(p: int) -> int {
    tile_floor(p)
}

/// Last tile lane covered by a box spanning [p, p + size): the lane of the
/// trailing edge, exclusive when the edge sits exactly on a boundary.
pub open spec fn box_hi(p: int, size: int) -> int {
    tile_floor(p + size + TILE_SIZE - 1) - 1
}

/// Any solid tile in the rectangle [x0, x1] x [y0, y1] of tile coordinates,
/// intersected with the map: coordinates outside the map are passable.
pub open spec fn spec_solid_in_rect(g: Seq<u16>, x0: int, x1: int, y0: int, y1: int) -> bool {
    exists|tx: int, ty: int|
        x0 <= tx <= x1 && y0 <= ty <= y1 && spec_in_bounds(tx, ty) && spec_is_solid(
            #[trigger] g[spec_index(tx, ty)],
        )
}

/// The rectangle scan, oriented by axis: for the horizontal pass the lanes
/// [a0, a1] are columns and [b0, b1] are rows; for the vertical pass the
/// lanes are rows and [b0, b1] are columns.
pub open spec fn spec_oriented_solid(
    g: Seq<u16>,
    vertical: bool,
    a0: int,
    a1: int,
    b0: int,
    b1: int,
) -> bool {
    if vertical {
        spec_solid_in_rect(g, b0, b1, a0, a1)
    } else {
        spec_solid_in_rect(g, a0, a1, b0, b1)
    }
}

/// The actor's bounding box at (px, py), discretised to tile coordinates,
/// overlaps no solid tile.
pub open spec fn no_overlap(g: Seq<u16>, px: int, py: int) -> bool {
    !spec_solid_in_rect(
        g,
        box_lo(px),
        box_hi(px, PLAYER_WIDTH as int),
        box_lo(py),
        box_hi(py, PLAYER_HEIGHT as int),
    )
}

impl Player {
    /// Validity: velocities within their caps, position within the
    /// saturation limit. Established by the constructor and kept by every
    /// tick.
    pub open spec fn wf(self) -> bool {
        &&& -MAX_X_VELOCITY <= self.velocity_x <= MAX_X_VELOCITY
        &&& -MAX_Y_VELOCITY <= self.velocity_y <= MAX_Y_VELOCITY
        &&& -POSITION_LIMIT <= self.position_x <= POSITION_LIMIT
        &&& -POSITION_LIMIT <= self.position_y <= POSITION_LIMIT
    }
}

/// Clamp to [-m, m].
pub open spec fn spec_clamp(v: int, m: int) -> int {
    if v < -m {
        -m
    } else if v > m {
        m
    } else {
        v
    }
}

/// Jumping is permitted only when the actor's bottom edge sits exactly on a
/// tile row boundary and at least one solid tile lies directly beneath its
/// horizontal footprint at that row.
pub open spec fn spec_can_jump(g: Seq<u16>, p: Player) -> bool {
    let bottom = p.position_y + PLAYER_HEIGHT;
    &&& bottom % (TILE_SIZE as int) == 0
    &&& spec_solid_in_rect(
        g,
        box_lo(p.position_x as int),
        box_hi(p.position_x as int, PLAYER_WIDTH as int),
        tile_floor(bottom),
        tile_floor(bottom),
    )
}

/// A 9/10 damping step, rounded toward zero, so that speed decays toward
/// zero from either sign and the sign never flips.
pub open spec fn spec_damp(v: int) -> int {
    if v >= 0 {
        (v * 9) / 10
    } else {
        -((-v * 9) / 10)
    }
}

/// The velocities after the tick's controls: a permitted jump sets the
/// vertical speed, held directions add horizontal acceleration, then damping
/// (a 9/10 decay, rounded toward zero), gravity and the caps.
pub open spec fn spec_vel_after_controls(g: Seq<u16>, p: Player, inp: PlayerInput) -> (int, int) {
    let vy0 = if inp.jump && spec_can_jump(g, p) {
        -JUMP_VELOCITY as int
    } else {
        p.velocity_y as int
    };
    let vx0 = p.velocity_x + (if inp.move_right {
        MOVEMENT_ACCELERATION as int
    } else {
        0
    }) - (if inp.move_left {
        MOVEMENT_ACCELERATION as int
    } else {
        0
    });
    let vx = spec_clamp(spec_damp(vx0), MAX_X_VELOCITY as int);
    let vy = spec_clamp(vy0 + GRAVITY, MAX_Y_VELOCITY as int);
    (vx, vy)
}

/// One axis pass: integrate the velocity, take the leading edge's tile lane,
/// scan the box's perpendicular span [p0, p1] at that lane; on a hit the
/// velocity zeroes and the leading edge snaps onto the tile boundary.
/// Returns the unclamped new coordinate and the new velocity.
pub open spec fn spec_resolve_axis(
    g: Seq<u16>,
    vertical: bool,
    pos: int,
    size: int,
    v: int,
    dt: int,
    p0: int,
    p1: int,
) -> (int, int) {
    let tent = pos + v * dt;
    if v > 0 {
        let lane = tile_floor(tent + size);
        if spec_oriented_solid(g, vertical, lane, lane, p0, p1) {
            (lane * TILE_SIZE - size, 0)
        } else {
            (tent, v)
        }
    } else {
        let lane = tile_floor(tent);
        if spec_oriented_solid(g, vertical, lane, lane, p0, p1) {
            ((lane + 1) * TILE_SIZE, 0)
        } else {
            (tent, v)
        }
    }
}

/// The actor's state after one tick: controls, damping, gravity and clamps,
/// then the horizontal pass (scanning the rows the box covers before the
/// move), then the vertical pass (scanning the columns of the
/// already-updated horizontal position), each new coordinate saturated at
/// the position limit.
pub open spec fn spec_update(g: Seq<u16>, p: Player, inp: PlayerInput, dt: int) -> Player {
    let (vx, vy) = spec_vel_after_controls(g, p, inp);
    let r0 = box_lo(p.position_y as int);
    let r1 = box_hi(p.position_y as int, PLAYER_HEIGHT as int);
    let (nx_raw, vx2) = spec_resolve_axis(g, false, p.position_x as int, PLAYER_WIDTH as int, vx, dt, r0, r1);
    let nx = spec_clamp(nx_raw, POSITION_LIMIT as int);
    let c0 = box_lo(nx);
    let c1 = box_hi(nx, PLAYER_WIDTH as int);
    let (ny_raw, vy2) = spec_resolve_axis(g, true, p.position_y as int, PLAYER_HEIGHT as int, vy, dt, c0, c1);
    let ny = spec_clamp(ny_raw, POSITION_LIMIT as int);
    Player {
        position_x: nx as i64,
        velocity_x: vx2 as i64,
        position_y: ny as i64,
        velocity_y: vy2 as i64,
    }
}

/// Scans the tile rectangle [x0, x1] x [y0, y1], clipped to the map, for a
/// solid tile.
fn solid_in_rect(w: &World, x0: i64, x1: i64, y0: i64, y1: i64) -> (r: bool)
    requires
        w.wf(),
    ensures
        r == spec_solid_in_rect(w.grid(), x0 as int, x1 as int, y0 as int, y1 as int),
{
    let cx0: i64 = if x0 < 0 {
        0
    } else {
        x0
    };
    let cy0: i64 = if y0 < 0 {
        0
    } else {
        y0
    };
    if x1 < cx0 || y1 < cy0 || cx0 >= MAP_WIDTH as i64 || cy0 >= MAP_HEIGHT as i64 {
        return false;
    }
    let cx1: i64 = if x1 >= MAP_WIDTH as i64 {
        MAP_WIDTH as i64 - 1
    } else {
        x1
    };
    let cy1: i64 = if y1 >= MAP_HEIGHT as i64 {
        MAP_HEIGHT as i64 - 1
    } else {
        y1
    };
    let mut tx: i64 = cx0;
    while tx <= cx1
        invariant
            w.wf(),
            0 <= cx0 <= tx <= cx1 + 1,
            cx1 < MAP_WIDTH,
            0 <= cy0 <= cy1 < MAP_HEIGHT,
            x0 <= cx0 && cx1 <= x1 && y0 <= cy0 && cy1 <= y1,
            forall|ax: int, ay: int|
                cx0 <= ax < tx && cy0 <= ay <= cy1 ==> !spec_is_solid(
                    #[trigger] w.grid()[spec_index(ax, ay)],
                ),
        decreases cx1 + 1 - tx,
    {
        let mut ty: i64 = cy0;
        while ty <= cy1
            invariant
                w.wf(),
                0 <= cx0 <= tx <= cx1,
                cx1 < MAP_WIDTH,
                0 <= cy0 <= ty <= cy1 + 1,
                cy1 < MAP_HEIGHT,
                x0 <= cx0 && cx1 <= x1 && y0 <= cy0 && cy1 <= y1,
                forall|ay: int|
                    cy0 <= ay < ty ==> !spec_is_solid(#[trigger] w.grid()[spec_index(tx as int, ay)]),
            decreases cy1 + 1 - ty,
        {
            let t = match w.get_block(tx as u32, ty as u32) {
                Ok(t) => t,
                Err(_) => 0,
            };
            if is_solid(t) {
                proof {
                    assert(spec_in_bounds(tx as int, ty as int));
                    assert(spec_is_solid(w.grid()[spec_index(tx as int, ty as int)]));
                }
                return true;
            }
            ty = ty + 1;
        }
        proof {
            assert forall|ax: int, ay: int| cx0 <= ax < tx + 1 && cy0 <= ay <= cy1 implies
                !spec_is_solid(#[trigger] w.grid()[spec_index(ax, ay)]) by {
            }
        }
        tx = tx + 1;
    }
    proof {
        if spec_solid_in_rect(w.grid(), x0 as int, x1 as int, y0 as int, y1 as int) {
            let (ax, ay) = choose|ax: int, ay: int|
                x0 <= ax <= x1 && y0 <= ay <= y1 && spec_in_bounds(ax, ay) && spec_is_solid(
                    #[trigger] w.grid()[spec_index(ax, ay)],
                );
            assert(cx0 <= ax <= cx1 && cy0 <= ay <= cy1);
            assert(false);
        }
    }
    false
}

/// Floor division of a coordinate by the tile size.
fn tile_floor_of(a: i64) -> (r: i64)
    ensures
        r == tile_floor(a as int),
{
    match a.checked_div_euclid(TILE_SIZE) {
        Some(q) => q,
        None => 0,
    }
}

/// Clamp to [-m, m].
fn clamp_i64(v: i64, m: i64) -> (r: i64)
    requires
        0 < m,
    ensures
        r == spec_clamp(v as int, m as int),
{
    if v < -m {
        -m
    } else if v > m {
        m
    } else {
        v
    }
}

/// The product of a lane index and the tile size stays near the coordinate
/// the lane came from.
proof fn lemma_lane_scaled(a: int)
    ensures
        a - TILE_SIZE < tile_floor(a) * TILE_SIZE <= a,
        tile_floor(a) * (TILE_SIZE as int) == tile_floor(a) * TILE_SIZE,
{
    lemma_fundamental_div_mod(a, TILE_SIZE as int);
    lemma_mod_bound(a, TILE_SIZE as int);
}

impl Player {
    /// One simulation tick: applies the intents, damping, gravity and the
    /// clamps, then integrates and resolves each axis against the grid,
    /// horizontal before vertical. The new state is exactly `spec_update` of
    /// the old one; `lemma_update_no_penetration` shows that for tick
    /// lengths up to MAX_SAFE_STEP_MS this keeps the actor's box clear of
    /// solid tiles.
    #[verifier::rlimit(50)]
    pub fn update(&mut self, world: &World, input: &PlayerInput, delta_time: u32)
        requires
            old(self).wf(),
            world.wf(),
        ensures
            final(self).wf(),
            *final(self) == spec_update(world.grid(), *old(self), *input, delta_time as int),
            no_overlap(
                world.grid(),
                old(self).position_x as int,
                old(self).position_y as int,
            ) && delta_time <= MAX_SAFE_STEP_MS ==> no_overlap(
                world.grid(),
                final(self).position_x as int,
                final(self).position_y as int,
            ),
    {
        // jump: only from a row boundary with solid ground under the feet
        if input.jump {
            let bottom: i64 = self.position_y + PLAYER_HEIGHT;
            let aligned: bool = match bottom.checked_rem_euclid(TILE_SIZE) {
                Some(r) => r == 0,
                None => false,
            };
            if aligned {
                let row: i64 = tile_floor_of(bottom);
                let c0: i64 = tile_floor_of(self.position_x);
                let c1: i64 = tile_floor_of(self.position_x + PLAYER_WIDTH + TILE_SIZE - 1) - 1;
                if solid_in_rect(world, c0, c1, row, row) {
                    self.velocity_y = -JUMP_VELOCITY;
                }
            }
        }
        // held directions accelerate; damping and gravity follow, then the caps
        if input.move_left {
            self.velocity_x = self.velocity_x - MOVEMENT_ACCELERATION;
        }
        if input.move_right {
            self.velocity_x = self.velocity_x + MOVEMENT_ACCELERATION;
        }
        let damped: i64 = match (self.velocity_x * 9).checked_div(10) {
            Some(q) => q,
            None => 0,
        };
        self.velocity_x = clamp_i64(damped, MAX_X_VELOCITY);
        self.velocity_y = clamp_i64(self.velocity_y + GRAVITY, MAX_Y_VELOCITY);
        let dtl: i64 = delta_time as i64;
        proof {
            assert(forall|v: int, d: int|
                -2000 <= v <= 2000 && 0 <= d < 4294967296 ==> -8589934592000 <= #[trigger] (v * d)
                    <= 8589934592000) by (nonlinear_arith);
        }
        // horizontal pass, scanning the rows the box covers before the move
        let tent_x: i64 = self.position_x + self.velocity_x * dtl;
        let r0: i64 = tile_floor_of(self.position_y);
        let r1: i64 = tile_floor_of(self.position_y + PLAYER_HEIGHT + TILE_SIZE - 1) - 1;
        let mut nx_raw: i64 = tent_x;
        if self.velocity_x > 0 {
            let lane: i64 = tile_floor_of(tent_x + PLAYER_WIDTH);
            if solid_in_rect(world, lane, lane, r0, r1) {
                proof {
                    lemma_lane_scaled(tent_x as int + PLAYER_WIDTH as int);
                }
                self.velocity_x = 0;
                nx_raw = lane * TILE_SIZE - PLAYER_WIDTH;
            }
        } else {
            let lane: i64 = tile_floor_of(tent_x);
            if solid_in_rect(world, lane, lane, r0, r1) {
                proof {
                    lemma_lane_scaled(tent_x as int);
                }
                self.velocity_x = 0;
                nx_raw = (lane + 1) * TILE_SIZE;
            }
        }
        self.position_x = clamp_i64(nx_raw, POSITION_LIMIT);
        // vertical pass, scanning the columns of the updated position
        let tent_y: i64 = self.position_y + self.velocity_y * dtl;
        let c0: i64 = tile_floor_of(self.position_x);
        let c1: i64 = tile_floor_of(self.position_x + PLAYER_WIDTH + TILE_SIZE - 1) - 1;
        let mut ny_raw: i64 = tent_y;
        if self.velocity_y > 0 {
            let lane: i64 = tile_floor_of(tent_y + PLAYER_HEIGHT);
            if solid_in_rect(world, c0, c1, lane, lane) {
                proof {
                    lemma_lane_scaled(tent_y as int + PLAYER_HEIGHT as int);
                }
                self.velocity_y = 0;
                ny_raw = lane * TILE_SIZE - PLAYER_HEIGHT;
            }
        } else {
            let lane: i64 = tile_floor_of(tent_y);
            if solid_in_rect(world, c0, c1, lane, lane) {
                proof {
                    lemma_lane_scaled(tent_y as int);
                }
                self.velocity_y = 0;
                ny_raw = (lane + 1) * TILE_SIZE;
            }
        }
        self.position_y = clamp_i64(ny_raw, POSITION_LIMIT);
        proof {
            if no_overlap(world.grid(), old(self).position_x as int, old(self).position_y as int)
                && delta_time <= MAX_SAFE_STEP_MS {
                lemma_update_no_penetration(world.grid(), *old(self), *input, delta_time);
            }
        }
    }
}

impl Default for Player {
    /// The default spawn: centred horizontally, at a fixed depth above the
    /// surface band, at rest.
    fn default() -> (p: Player)
        ensures
            p.wf(),
            p.position_x == 50_000_000,
            p.position_y == 1_250_000,
            p.velocity_x == 0,
            p.velocity_y == 0,
    {
        Player { position_x: 50_000_000, velocity_x: 0, position_y: 1_250_000, velocity_y: 0 }
    }
}

/// Floor lanes are monotone in the coordinate.
proof fn lemma_floor_mono(a: int, b: int)
    requires
        a <= b,
    ensures
        tile_floor(a) <= tile_floor(b),
{
    lemma_div_is_ordered(a, b, TILE_SIZE as int);
}

/// A coordinate sits inside its lane.
proof fn lemma_floor_bounds(a: int)
    ensures
        tile_floor(a) * (TILE_SIZE as int) <= a < tile_floor(a) * (TILE_SIZE as int) + TILE_SIZE,
{
    lemma_fundamental_div_mod(a, TILE_SIZE as int);
    lemma_mod_bound(a, TILE_SIZE as int);
}

/// Lane of an exact multiple of the tile size, and of the last coordinate in
/// that lane.
proof fn lemma_floor_multiple(q: int)
    ensures
        tile_floor(q * (TILE_SIZE as int)) == q,
        tile_floor(q * (TILE_SIZE as int) + TILE_SIZE - 1) == q,
{
    lemma_fundamental_div_mod_converse(q * (TILE_SIZE as int), TILE_SIZE as int, q, 0);
    lemma_fundamental_div_mod_converse(
        q * (TILE_SIZE as int) + TILE_SIZE - 1,
        TILE_SIZE as int,
        q,
        TILE_SIZE as int - 1,
    );
}

/// Moving by less than one tile changes the lane by at most one.
proof fn lemma_floor_step(a: int, k: int)
    requires
        0 <= k <= TILE_SIZE,
    ensures
        tile_floor(a + k) <= tile_floor(a) + 1,
        tile_floor(a - k) >= tile_floor(a) - 1,
{
    lemma_floor_bounds(a);
    lemma_floor_mono(a + k, tile_floor(a) * (TILE_SIZE as int) + 2 * TILE_SIZE - 1);
    lemma_floor_multiple(tile_floor(a) + 1);
    assert((tile_floor(a) + 1) * (TILE_SIZE as int) + TILE_SIZE - 1 == tile_floor(a) * (
    TILE_SIZE as int) + 2 * TILE_SIZE - 1) by (nonlinear_arith);
    lemma_floor_mono(tile_floor(a) * (TILE_SIZE as int) - TILE_SIZE, a - k);
    lemma_floor_multiple(tile_floor(a) - 1);
    assert((tile_floor(a) - 1) * (TILE_SIZE as int) == tile_floor(a) * (TILE_SIZE as int)
        - TILE_SIZE) by (nonlinear_arith);
}

/// A box of positive size covers at least one lane, and moving its edge to
/// the next boundary moves `box_hi` accordingly.
proof fn lemma_box_nonempty(p: int, size: int)
    requires
        size >= 1,
    ensures
        box_lo(p) <= box_hi(p, size),
        box_lo(p) * (TILE_SIZE as int) <= p,
        (box_hi(p, size) + 1) * (TILE_SIZE as int) >= p + size,
{
    lemma_floor_bounds(p);
    lemma_floor_bounds(p + size + TILE_SIZE - 1);
    lemma_floor_mono(p + TILE_SIZE, p + size + TILE_SIZE - 1);
    lemma_floor_multiple(tile_floor(p) + 1);
    assert((tile_floor(p) + 1) * (TILE_SIZE as int) == tile_floor(p) * (TILE_SIZE as int)
        + TILE_SIZE) by (nonlinear_arith);
    lemma_floor_mono(tile_floor(p) * (TILE_SIZE as int) + TILE_SIZE, p + TILE_SIZE);
}

/// A scan hit over a lane range that is covered by another range plus one
/// extra lane is a hit over that range or at the extra lane.
proof fn lemma_oriented_split(
    g: Seq<u16>,
    vertical: bool,
    n0: int,
    n1: int,
    o0: int,
    o1: int,
    lane: int,
    b0: int,
    b1: int,
)
    requires
        spec_oriented_solid(g, vertical, n0, n1, b0, b1),
        n0 >= o0 - 1,
        n1 <= o1 + 1,
        n0 == o0 - 1 ==> lane == o0 - 1,
        n1 == o1 + 1 ==> lane == o1 + 1,
    ensures
        spec_oriented_solid(g, vertical, o0, o1, b0, b1) || spec_oriented_solid(
            g,
            vertical,
            lane,
            lane,
            b0,
            b1,
        ),
{
    if vertical {
        let (tx, ty) = choose|tx: int, ty: int|
            b0 <= tx <= b1 && n0 <= ty <= n1 && spec_in_bounds(tx, ty) && spec_is_solid(
                #[trigger] g[spec_index(tx, ty)],
            );
        assert(o0 <= ty <= o1 || ty == lane);
    } else {
        let (tx, ty) = choose|tx: int, ty: int|
            n0 <= tx <= n1 && b0 <= ty <= b1 && spec_in_bounds(tx, ty) && spec_is_solid(
                #[trigger] g[spec_index(tx, ty)],
            );
        assert(o0 <= tx <= o1 || tx == lane);
    }
}

/// One axis pass preserves freedom from solid overlap when the tick moves
/// the actor by less than one tile: the only lane the box can newly cover is
/// the leading edge's lane, which the pass scans; on a hit the snap pulls
/// the box back onto lanes it covered before.
proof fn lemma_axis_preserves(
    g: Seq<u16>,
    vertical: bool,
    pos: int,
    size: int,
    v: int,
    dt: int,
    p0: int,
    p1: int,
)
    requires
        size >= 1,
        dt >= 0,
        -(TILE_SIZE as int) < v * dt < TILE_SIZE as int,
        !spec_oriented_solid(g, vertical, box_lo(pos), box_hi(pos, size), p0, p1),
    ensures
        ({
            let r = spec_resolve_axis(g, vertical, pos, size, v, dt, p0, p1);
            !spec_oriented_solid(g, vertical, box_lo(r.0), box_hi(r.0, size), p0, p1)
        }),
{
    let t = TILE_SIZE as int;
    let tent = pos + v * dt;
    let l0 = box_lo(pos);
    let h0 = box_hi(pos, size);
    lemma_box_nonempty(pos, size);
    let r = spec_resolve_axis(g, vertical, pos, size, v, dt, p0, p1);
    if v > 0 {
        assert(v * dt >= 0) by (nonlinear_arith)
            requires
                v > 0,
                dt >= 0,
        ;
        let lane = tile_floor(tent + size);
        lemma_floor_mono(pos + size, tent + size);
        lemma_floor_step(pos + size, t - 1);
        assert(h0 <= lane);
        lemma_floor_mono(tent + size, pos + size + t - 1);
        assert(lane <= h0 + 1);
        if spec_oriented_solid(g, vertical, lane, lane, p0, p1) {
            // a hit: the lane is new, so it is exactly one past the box
            if lane <= h0 {
                lemma_floor_mono(pos, pos + size);
                lemma_floor_mono(pos + size, tent + size);
                assert(l0 <= lane);
                lemma_oriented_split(g, vertical, lane, lane, l0, h0, h0 + 1, p0, p1);
                assert(false);
            }
            assert(lane == h0 + 1);
            assert(r.0 == lane * t - size);
            assert(r.0 >= pos);
            lemma_floor_mono(pos, r.0);
            lemma_floor_multiple(lane);
            assert(lane * t + t - 1 == (r.0 + size) + t - 1);
            assert(box_hi(r.0, size) == lane - 1);
            if spec_oriented_solid(g, vertical, box_lo(r.0), box_hi(r.0, size), p0, p1) {
                lemma_oriented_split(g, vertical, box_lo(r.0), box_hi(r.0, size), l0, h0, h0, p0, p1);
                assert(false);
            }
        } else {
            assert(r.0 == tent);
            lemma_floor_mono(pos, tent);
            lemma_floor_bounds(tent + size);
            lemma_floor_mono(tent + size + t - 1, lane * t + 2 * t - 1);
            lemma_floor_multiple(lane + 1);
            assert((lane + 1) * t + t - 1 == lane * t + 2 * t - 1) by (nonlinear_arith);
            assert(box_hi(tent, size) <= lane);
            if spec_oriented_solid(g, vertical, box_lo(tent), box_hi(tent, size), p0, p1) {
                lemma_oriented_split(g, vertical, box_lo(tent), box_hi(tent, size), l0, h0, lane, p0, p1);
                assert(false);
            }
        }
    } else {
        assert(v * dt <= 0) by (nonlinear_arith)
            requires
                v <= 0,
                dt >= 0,
        ;
        let lane = tile_floor(tent);
        lemma_floor_mono(tent, pos);
        lemma_floor_step(pos, t - 1);
        lemma_floor_mono(pos - (t - 1), tent);
        assert(l0 - 1 <= lane <= l0);
        if spec_oriented_solid(g, vertical, lane, lane, p0, p1) {
            if lane >= l0 {
                lemma_oriented_split(g, vertical, lane, lane, l0, h0, l0 - 1, p0, p1);
                assert(false);
            }
            assert(lane == l0 - 1);
            assert(r.0 == (lane + 1) * t);
            assert((lane + 1) * t == l0 * t);
            lemma_floor_bounds(pos);
            assert(r.0 <= pos);
            lemma_floor_multiple(l0);
            assert(box_lo(r.0) == l0);
            lemma_floor_mono(r.0 + size + t - 1, pos + size + t - 1);
            assert(box_hi(r.0, size) <= h0);
            if spec_oriented_solid(g, vertical, box_lo(r.0), box_hi(r.0, size), p0, p1) {
                lemma_oriented_split(g, vertical, box_lo(r.0), box_hi(r.0, size), l0, h0, l0, p0, p1);
                assert(false);
            }
        } else {
            assert(r.0 == tent);
            lemma_floor_mono(tent + size + t - 1, pos + size + t - 1);
            assert(box_hi(tent, size) <= h0);
            assert(box_lo(tent) == lane);
            if spec_oriented_solid(g, vertical, box_lo(tent), box_hi(tent, size), p0, p1) {
                lemma_oriented_split(g, vertical, box_lo(tent), box_hi(tent, size), l0, h0, lane, p0, p1);
                assert(false);
            }
        }
    }
}

/// A coordinate clamped at the position limit is so far outside the map that
/// its box covers no map lane at all.
proof fn lemma_clamped_far_out(p: int, size: int)
    requires
        size >= 1,
        size <= 100_000,
        p == POSITION_LIMIT as int || p == -(POSITION_LIMIT as int),
    ensures
        box_lo(p) > MAP_WIDTH as int + MAP_HEIGHT as int || box_hi(p, size) < 0,
{
    if p == POSITION_LIMIT as int {
        lemma_fundamental_div_mod_converse(p, TILE_SIZE as int, 160_000_000, 0);
    } else {
        lemma_floor_mono(p + size + TILE_SIZE - 1, -1);
        lemma_fundamental_div_mod_converse(-1, TILE_SIZE as int, -1, TILE_SIZE as int - 1);
    }
}

/// Saturating a coordinate at the position limit keeps the box clear of
/// solid tiles: the saturated box lies wholly outside the map.
proof fn lemma_clamp_keeps_clear(
    g: Seq<u16>,
    vertical: bool,
    p: int,
    size: int,
    b0: int,
    b1: int,
)
    requires
        size >= 1,
        size <= 100_000,
        !spec_oriented_solid(g, vertical, box_lo(p), box_hi(p, size), b0, b1),
    ensures
        !spec_oriented_solid(
            g,
            vertical,
            box_lo(spec_clamp(p, POSITION_LIMIT as int)),
            box_hi(spec_clamp(p, POSITION_LIMIT as int), size),
            b0,
            b1,
        ),
{
    let c = spec_clamp(p, POSITION_LIMIT as int);
    if c != p {
        lemma_clamped_far_out(c, size);
        if spec_oriented_solid(g, vertical, box_lo(c), box_hi(c, size), b0, b1) {
            if vertical {
                let (tx, ty) = choose|tx: int, ty: int|
                    b0 <= tx <= b1 && box_lo(c) <= ty <= box_hi(c, size) && spec_in_bounds(
                        tx,
                        ty,
                    ) && spec_is_solid(#[trigger] g[spec_index(tx, ty)]);
                assert(false);
            } else {
                let (tx, ty) = choose|tx: int, ty: int|
                    box_lo(c) <= tx <= box_hi(c, size) && b0 <= ty <= b1 && spec_in_bounds(
                        tx,
                        ty,
                    ) && spec_is_solid(#[trigger] g[spec_index(tx, ty)]);
                assert(false);
            }
        }
    }
}

/// No-penetration: one tick of at most MAX_SAFE_STEP_MS, started from a
/// state whose bounding box overlaps no solid tile, ends in a state whose
/// bounding box overlaps no solid tile.
pub proof fn lemma_update_no_penetration(g: Seq<u16>, p: Player, inp: PlayerInput, dt: u32)
    requires
        p.wf(),
        dt <= MAX_SAFE_STEP_MS,
        no_overlap(g, p.position_x as int, p.position_y as int),
    ensures
        ({
            let p2 = spec_update(g, p, inp, dt as int);
            no_overlap(g, p2.position_x as int, p2.position_y as int)
        }),
{
    let sv = spec_vel_after_controls(g, p, inp);
    let vx = sv.0;
    let vy = sv.1;
    assert(-(TILE_SIZE as int) < vx * dt < TILE_SIZE as int && -(TILE_SIZE as int) < vy * dt
        < TILE_SIZE as int) by (nonlinear_arith)
        requires
            -200 <= vx <= 200,
            -2000 <= vy <= 2000,
            0 <= dt <= 12,
    ;
    let px = p.position_x as int;
    let py = p.position_y as int;
    let r0 = box_lo(py);
    let r1 = box_hi(py, PLAYER_HEIGHT as int);
    lemma_box_nonempty(py, PLAYER_HEIGHT as int);
    lemma_axis_preserves(g, false, px, PLAYER_WIDTH as int, vx, dt as int, r0, r1);
    let rx = spec_resolve_axis(g, false, px, PLAYER_WIDTH as int, vx, dt as int, r0, r1);
    lemma_clamp_keeps_clear(g, false, rx.0, PLAYER_WIDTH as int, r0, r1);
    let nx = spec_clamp(rx.0, POSITION_LIMIT as int);
    let c0 = box_lo(nx);
    let c1 = box_hi(nx, PLAYER_WIDTH as int);
    lemma_axis_preserves(g, true, py, PLAYER_HEIGHT as int, vy, dt as int, c0, c1);
    let ry = spec_resolve_axis(g, true, py, PLAYER_HEIGHT as int, vy, dt as int, c0, c1);
    lemma_clamp_keeps_clear(g, true, ry.0, PLAYER_HEIGHT as int, c0, c1);
}

/// Every tick keeps the actor's state well formed, whatever the tick length.
pub proof fn lemma_update_wf(g: Seq<u16>, p: Player, inp: PlayerInput, dt: u32)
    requires
        p.wf(),
    ensures
        spec_update(g, p, inp, dt as int).wf(),
{
}

/// The actor's state after a whole script of ticks, each an intent set and a
/// tick length, applied in order.
pub open spec fn spec_run(g: Seq<u16>, p: Player, script: Seq<(PlayerInput, u32)>) -> Player
    decreases script.len(),
{
    if script.len() == 0 {
        p
    } else {
        spec_run(
            g,
            spec_update(g, p, script[0].0, script[0].1 as int),
            script.subrange(1, script.len() as int),
        )
    }
}

/// No-penetration over any sequence of ticks: starting well formed and clear
/// of solid tiles, and ticking any number of times with tick lengths of at
/// most MAX_SAFE_STEP_MS, the actor's bounding box never overlaps a solid
/// tile.
pub proof fn lemma_run_no_penetration(g: Seq<u16>, p: Player, script: Seq<(PlayerInput, u32)>)
    requires
        p.wf(),
        no_overlap(g, p.position_x as int, p.position_y as int),
        forall|i: int| 0 <= i < script.len() ==> (#[trigger] script[i]).1 <= MAX_SAFE_STEP_MS,
    ensures
        spec_run(g, p, script).wf(),
        no_overlap(
            g,
            spec_run(g, p, script).position_x as int,
            spec_run(g, p, script).position_y as int,
        ),
    decreases script.len(),
{
    if script.len() > 0 {
        lemma_update_wf(g, p, script[0].0, script[0].1);
        lemma_update_no_penetration(g, p, script[0].0, script[0].1);
        let p1 = spec_update(g, p, script[0].0, script[0].1 as int);
        let rest = script.subrange(1, script.len() as int);
        assert(forall|i: int|
            0 <= i < rest.len() ==> (#[trigger] rest[i]).1 <= MAX_SAFE_STEP_MS);
        lemma_run_no_penetration(g, p1, rest);
    }
}

/// The default spawn starts clear of the generated terrain: its bounding box
/// lies wholly in the sky band that generation leaves as air, so the
/// no-penetration law applies to a session from its first tick on.
pub proof fn lemma_spawn_no_overlap(seed: Seq<u8>)
    requires
        crate::gen::points_in_band(crate::gen::spec_points(seed)),
        crate::gen::tree_draws_in_range(
            seed,
            crate::gen::spec_layered_grid(crate::gen::spec_points(seed)),
            crate::gen::point_history(crate::gen::HEIGHT_POINT_COUNT as int),
            crate::gen::TREE_ATTEMPTS as int,
        ),
    ensures
        no_overlap(crate::gen::spec_generate(seed), 50_000_000, 1_250_000),
{
    let g = crate::gen::spec_generate(seed);
    lemma_fundamental_div_mod_converse(50_000_000, TILE_SIZE as int, 2000, 0);
    lemma_fundamental_div_mod_converse(
        50_000_000 + PLAYER_WIDTH as int + TILE_SIZE as int - 1,
        TILE_SIZE as int,
        2002,
        14999,
    );
    lemma_fundamental_div_mod_converse(1_250_000, TILE_SIZE as int, 50, 0);
    lemma_fundamental_div_mod_converse(
        1_250_000 + PLAYER_HEIGHT as int + TILE_SIZE as int - 1,
        TILE_SIZE as int,
        54,
        10999,
    );
    if spec_solid_in_rect(g, 2000, 2001, 50, 53) {
        let (tx, ty) = choose|tx: int, ty: int|
            2000 <= tx <= 2001 && 50 <= ty <= 53 && spec_in_bounds(tx, ty) && spec_is_solid(
                #[trigger] g[spec_index(tx, ty)],
            );
        crate::gen::lemma_sky_is_clear(seed, tx, ty);
        assert(false);
    }
}

/// Friction: with no horizontal input the x-velocity the tick integrates is
/// the damped old one — its magnitude decays by the 9/10 factor (rounded
/// toward zero) and its sign never flips — and the tick ends with exactly
/// that x-velocity, or zero when the horizontal scan hit a solid tile.
pub proof fn lemma_friction_decays(g: Seq<u16>, p: Player, inp: PlayerInput, dt: u32)
    requires
        p.wf(),
        !inp.move_left,
        !inp.move_right,
    ensures
        ({
            let vx = spec_vel_after_controls(g, p, inp).0;
            let p2 = spec_update(g, p, inp, dt as int);
            &&& p.velocity_x >= 0 ==> 0 <= vx && 10 * vx <= 9 * p.velocity_x
            &&& p.velocity_x <= 0 ==> vx <= 0 && 10 * vx >= 9 * p.velocity_x
            &&& p2.velocity_x == vx || p2.velocity_x == 0
        }),
{
    let v = p.velocity_x as int;
    if v >= 0 {
        vstd::arithmetic::div_mod::lemma_div_pos_is_pos(v * 9, 10);
        lemma_fundamental_div_mod(v * 9, 10);
        lemma_mod_bound(v * 9, 10);
    } else {
        vstd::arithmetic::div_mod::lemma_div_pos_is_pos(-v * 9, 10);
        lemma_fundamental_div_mod(-v * 9, 10);
        lemma_mod_bound(-v * 9, 10);
    }
}

/// Resting on a floor is a fixed point of the tick: standing still with the
/// bottom edge exactly on a tile row boundary, solid ground somewhere under
/// the footprint at the row below it, and the box clear of solids, a tick
/// without input changes nothing — gravity pulls, the floor scan fires, and
/// the snap puts the bottom edge back on the boundary with zero vertical
/// speed. Together with the per-tick contract this pins the whole trajectory
/// of an actor at rest.
pub proof fn lemma_rest_on_floor_is_fixed_point(g: Seq<u16>, p: Player, dt: u32)
    requires
        p.wf(),
        1 <= dt <= MAX_SAFE_STEP_MS,
        p.velocity_x == 0,
        p.velocity_y == 0,
        (p.position_y + PLAYER_HEIGHT) % (TILE_SIZE as int) == 0,
        no_overlap(g, p.position_x as int, p.position_y as int),
        spec_solid_in_rect(
            g,
            box_lo(p.position_x as int),
            box_hi(p.position_x as int, PLAYER_WIDTH as int),
            tile_floor(p.position_y + PLAYER_HEIGHT),
            tile_floor(p.position_y + PLAYER_HEIGHT),
        ),
    ensures
        spec_update(
            g,
            p,
            PlayerInput { move_left: false, move_right: false, jump: false },
            dt as int,
        ) == p,
{
    let inp = PlayerInput { move_left: false, move_right: false, jump: false };
    let t = TILE_SIZE as int;
    let px = p.position_x as int;
    let py = p.position_y as int;
    let k = tile_floor(py + PLAYER_HEIGHT);
    lemma_fundamental_div_mod(py + PLAYER_HEIGHT as int, t);
    assert(py + PLAYER_HEIGHT == k * t);
    // the controls leave the actor still but for gravity
    assert(spec_vel_after_controls(g, p, inp) == (0int, GRAVITY as int));
    // horizontal pass: zero velocity scans the box's own leftmost lane
    let r0 = box_lo(py);
    let r1 = box_hi(py, PLAYER_HEIGHT as int);
    lemma_box_nonempty(px, PLAYER_WIDTH as int);
    if spec_oriented_solid(g, false, box_lo(px), box_lo(px), r0, r1) {
        let (tx, ty) = choose|tx: int, ty: int|
            box_lo(px) <= tx <= box_lo(px) && r0 <= ty <= r1 && spec_in_bounds(tx, ty)
                && spec_is_solid(#[trigger] g[spec_index(tx, ty)]);
        assert(spec_solid_in_rect(g, box_lo(px), box_hi(px, PLAYER_WIDTH as int), r0, r1));
        assert(false);
    }
    // vertical pass: the leading edge falls by less than a tile, lands in the
    // floor row, and the snap returns the bottom edge onto the boundary
    assert(10 <= (GRAVITY as int) * (dt as int) <= 120) by (nonlinear_arith)
        requires
            1 <= dt <= 12,
    ;
    let drop = (GRAVITY as int) * (dt as int);
    lemma_fundamental_div_mod_converse(k * t + drop, t, k, drop);
    assert(tile_floor(py + drop + PLAYER_HEIGHT) == k);
    assert(k * t - PLAYER_HEIGHT == py);
}

/// Holding move-right with no obstacle drives the x-velocity up toward the
/// damping fixed point (0.081 pixels per millisecond): from any speed
/// between rest and that point the next tick's speed never decreases,
/// strictly increases below the point, never passes it, and in particular
/// never exceeds the cap.
pub proof fn lemma_rightward_speed_approaches_cap(g: Seq<u16>, p: Player, inp: PlayerInput)
    requires
        p.wf(),
        inp.move_right,
        !inp.move_left,
        0 <= p.velocity_x <= 81,
    ensures
        ({
            let vx = spec_vel_after_controls(g, p, inp).0;
            &&& p.velocity_x <= vx <= 81
            &&& p.velocity_x < 81 ==> p.velocity_x < vx
            &&& vx <= MAX_X_VELOCITY
        }),
{
    let v = p.velocity_x as int;
    vstd::arithmetic::div_mod::lemma_div_pos_is_pos((v + 10) * 9, 10);
    lemma_fundamental_div_mod((v + 10) * 9, 10);
    lemma_mod_bound((v + 10) * 9, 10);
}

} // verus!
