use terrarius::gen::generate_world;
use terrarius::physics::{
    Player, PlayerInput, MAX_X_VELOCITY, PLAYER_HEIGHT, PLAYER_WIDTH, TILE_SIZE,
};
use terrarius::tile::{GRASS, DIRT, STONE, PLANKS};
use terrarius::world::{World, MAP_HEIGHT, MAP_WIDTH};

const NO_INPUT: PlayerInput = PlayerInput { move_left: false, move_right: false, jump: false };

const HOLD_RIGHT: PlayerInput = PlayerInput { move_left: false, move_right: true, jump: false };

const PRESS_JUMP: PlayerInput = PlayerInput { move_left: false, move_right: false, jump: true };

fn solid(t: u16) -> bool {
    t == GRASS || t == DIRT || t == STONE || t == PLANKS
}

/// The actor's box, discretised to tile coordinates, overlaps no solid tile.
fn box_is_clear(w: &World, p: &Player) -> bool {
    let c0 = p.position_x.div_euclid(TILE_SIZE);
    let c1 = (p.position_x + PLAYER_WIDTH + TILE_SIZE - 1).div_euclid(TILE_SIZE) - 1;
    let r0 = p.position_y.div_euclid(TILE_SIZE);
    let r1 = (p.position_y + PLAYER_HEIGHT + TILE_SIZE - 1).div_euclid(TILE_SIZE) - 1;
    for tx in c0..=c1 {
        for ty in r0..=r1 {
            if tx >= 0 && ty >= 0 && tx < MAP_WIDTH as i64 && ty < MAP_HEIGHT as i64 {
                if solid(w.get_block(tx as u32, ty as u32).unwrap()) {
                    return false;
                }
            }
        }
    }
    true
}

/// A world that is all air except a stone floor whose top boundary is at
/// row 40, spanning the given columns.
fn world_with_floor(col_from: u32, col_to: u32) -> World {
    let mut w = World::new_empty();
    for x in col_from..=col_to {
        w.set_block(x, 40, STONE).unwrap();
    }
    w
}

fn standing_player() -> Player {
    // column 2000, bottom edge exactly on the floor's top boundary
    Player {
        position_x: 2000 * TILE_SIZE,
        velocity_x: 0,
        position_y: 40 * TILE_SIZE - PLAYER_HEIGHT,
        velocity_y: 0,
    }
}

#[test]
fn gravity_brings_the_actor_to_rest_on_the_floor() {
    let w = world_with_floor(1995, 2005);
    let mut p = Player {
        position_x: 2000 * TILE_SIZE,
        velocity_x: 0,
        position_y: 39 * TILE_SIZE - PLAYER_HEIGHT,
        velocity_y: 0,
    };
    for _ in 0..500 {
        p.update(&w, &NO_INPUT, 10);
    }
    assert_eq!(p.velocity_y, 0);
    assert_eq!(p.position_y + PLAYER_HEIGHT, 40 * TILE_SIZE);
    assert!(box_is_clear(&w, &p));
}

#[test]
fn holding_right_approaches_a_speed_cap_and_never_exceeds_it() {
    let w = World::new_empty();
    let mut p = Player::default();
    let mut last = 0i64;
    for _ in 0..300 {
        p.update(&w, &HOLD_RIGHT, 1);
        assert!(p.velocity_x <= MAX_X_VELOCITY);
        assert!(p.velocity_x >= last);
        last = p.velocity_x;
    }
    let settled = p.velocity_x;
    assert!(settled > 0);
    p.update(&w, &HOLD_RIGHT, 1);
    assert_eq!(p.velocity_x, settled);
}

#[test]
fn walking_into_a_wall_stops_at_its_boundary() {
    let mut w = world_with_floor(1995, 2015);
    for y in 36..40 {
        w.set_block(2005, y, STONE).unwrap();
    }
    let mut p = standing_player();
    for _ in 0..400 {
        p.update(&w, &HOLD_RIGHT, 10);
        assert!(p.position_x + PLAYER_WIDTH <= 2005 * TILE_SIZE);
        assert!(box_is_clear(&w, &p));
    }
    assert_eq!(p.position_x + PLAYER_WIDTH, 2005 * TILE_SIZE);
    assert_eq!(p.velocity_x, 0);
}

#[test]
fn jump_works_only_from_solid_ground() {
    let w = world_with_floor(1995, 2005);
    let mut p = standing_player();
    p.update(&w, &PRESS_JUMP, 10);
    // jump speed, with one tick of gravity already applied
    assert_eq!(p.velocity_y, -440);
    assert!(p.position_y < 40 * TILE_SIZE - PLAYER_HEIGHT);

    // in mid-air the bottom edge is not on a row boundary: only gravity acts
    let empty = World::new_empty();
    let mut q = Player::default();
    q.update(&empty, &PRESS_JUMP, 10);
    assert_eq!(q.velocity_y, 10);
}

#[test]
fn jump_needs_a_solid_tile_under_the_footprint() {
    // aligned bottom edge but nothing beneath: the jump is refused
    let w = World::new_empty();
    let mut p = standing_player();
    p.update(&w, &PRESS_JUMP, 10);
    assert_eq!(p.velocity_y, 10);
}

#[test]
fn no_penetration_over_generated_terrain() {
    let w = generate_world([1; 32]);
    let mut p = Player {
        position_x: 2000 * TILE_SIZE,
        velocity_x: 0,
        position_y: 20 * TILE_SIZE,
        velocity_y: 0,
    };
    assert!(box_is_clear(&w, &p));
    for _ in 0..2000 {
        p.update(&w, &HOLD_RIGHT, 10);
        assert!(box_is_clear(&w, &p));
    }
}

#[test]
fn default_spawn_is_centred_and_at_rest() {
    let p = Player::default();
    assert_eq!(p.position_x, (MAP_WIDTH as i64 / 2) * TILE_SIZE);
    assert_eq!(p.position_y, 50 * TILE_SIZE);
    assert_eq!(p.velocity_x, 0);
    assert_eq!(p.velocity_y, 0);
}

#[test]
fn friction_decays_leftward_speed_to_rest() {
    let w = World::new_empty();
    let mut p = Player::default();
    p.velocity_x = -MAX_X_VELOCITY;
    let mut last = p.velocity_x;
    let mut at_rest = 0u32;
    for _ in 0..100 {
        p.update(&w, &NO_INPUT, 1);
        // decays toward zero and the sign never flips
        assert!(p.velocity_x >= last && p.velocity_x <= 0);
        last = p.velocity_x;
        if p.velocity_x == 0 {
            at_rest += 1;
        }
    }
    assert_eq!(p.velocity_x, 0);
    assert!(at_rest > 1);
}

#[test]
fn friction_is_symmetric_in_the_sign() {
    let w = World::new_empty();
    let mut l = Player::default();
    let mut r = Player::default();
    l.velocity_x = -137;
    r.velocity_x = 137;
    for _ in 0..60 {
        l.update(&w, &NO_INPUT, 1);
        r.update(&w, &NO_INPUT, 1);
        assert_eq!(-l.velocity_x, r.velocity_x);
    }
    assert_eq!(l.velocity_x, 0);
    assert_eq!(r.velocity_x, 0);
}
