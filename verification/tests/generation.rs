use terrarius::gen::{generate_world, surface_row, HEIGHT_MAX, HEIGHT_MIN, HEIGHT_POINT_COUNT};
use terrarius::rng::SeededRng;
use terrarius::tile::{AIR, DIRT, GRASS, LEAVES, LOG, STONE};
use terrarius::world::{World, MAP_HEIGHT, MAP_WIDTH};

fn control_points(seed: [u8; 32]) -> Vec<u32> {
    let mut rng = SeededRng::from_seed(seed);
    let mut pts: Vec<u32> = Vec::new();
    for _ in 0..HEIGHT_POINT_COUNT {
        pts.push(rng.gen_range(HEIGHT_MIN, HEIGHT_MAX));
    }
    pts
}

#[test]
fn generation_is_deterministic() {
    let seed: [u8; 32] = [7; 32];
    let w1 = generate_world(seed);
    let w2 = generate_world(seed);
    for x in 0..MAP_WIDTH {
        for y in 0..MAP_HEIGHT {
            assert_eq!(w1.get_block(x, y), w2.get_block(x, y));
        }
    }
}

#[test]
fn default_world_uses_the_fixed_seed() {
    let w1 = World::default();
    let w2 = generate_world([1; 32]);
    for x in (0..MAP_WIDTH).step_by(13) {
        for y in 0..MAP_HEIGHT {
            assert_eq!(w1.get_block(x, y), w2.get_block(x, y));
        }
    }
}

#[test]
fn control_points_and_surface_stay_in_band() {
    let pts = control_points([1; 32]);
    assert_eq!(pts.len(), HEIGHT_POINT_COUNT as usize);
    for &p in pts.iter() {
        assert!((HEIGHT_MIN..=HEIGHT_MAX).contains(&p));
    }
    // the edge column gets no smoothing contribution from outside the map
    let s0 = surface_row(&pts, 0);
    assert!((HEIGHT_MIN..=HEIGHT_MAX).contains(&s0));
    for x in 0..MAP_WIDTH {
        let s = surface_row(&pts, x);
        assert!((HEIGHT_MIN..=HEIGHT_MAX).contains(&s));
    }
}

#[test]
fn edge_column_surface_equals_its_control_point() {
    let pts = control_points([1; 32]);
    assert_eq!(surface_row(&pts, 0), pts[0]);
    assert_eq!(surface_row(&pts, MAP_WIDTH - 1), pts[pts.len() - 1]);
}

#[test]
fn columns_are_layered_or_tree_overwritten() {
    let seed: [u8; 32] = [1; 32];
    let w = generate_world(seed);
    let pts = control_points(seed);
    for x in (0..MAP_WIDTH).step_by(11) {
        let s = surface_row(&pts, x);
        for y in 0..MAP_HEIGHT {
            let t = w.get_block(x, y).unwrap();
            let pristine = if y < s {
                AIR
            } else if y == s {
                GRASS
            } else if y <= s + 5 {
                DIRT
            } else {
                STONE
            };
            assert!(
                t == pristine || t == DIRT || t == LOG || t == LEAVES,
                "column {} row {} holds {} where the layer tile is {}",
                x,
                y,
                t,
                pristine
            );
        }
    }
}

#[test]
fn some_grass_and_stone_exist() {
    let w = generate_world([1; 32]);
    let mut grass = 0u32;
    let mut stone = 0u32;
    for x in (0..MAP_WIDTH).step_by(3) {
        for y in 0..MAP_HEIGHT {
            match w.get_block(x, y).unwrap() {
                t if t == GRASS => grass += 1,
                t if t == STONE => stone += 1,
                _ => {}
            }
        }
    }
    assert!(grass > 100);
    assert!(stone > 100_000);
}

#[test]
fn tree_trunks_are_contiguous_log_runs_of_five_to_ten() {
    let w = generate_world([1; 32]);
    let mut trunks = 0u32;
    for x in 0..MAP_WIDTH {
        let mut y = 0u32;
        while y < MAP_HEIGHT {
            if w.get_block(x, y).unwrap() == LOG {
                let start = y;
                while y < MAP_HEIGHT && w.get_block(x, y).unwrap() == LOG {
                    y += 1;
                }
                let run = y - start;
                assert!(
                    (5..=10).contains(&run),
                    "column {} has a log run of {}",
                    x,
                    run
                );
                // the trunk replaced the grass blade at its base with dirt
                assert_eq!(w.get_block(x, y).unwrap(), DIRT);
                trunks += 1;
            } else {
                y += 1;
            }
        }
    }
    assert!(trunks > 10, "only {} trunks were placed", trunks);
}

#[test]
fn different_seeds_differ_somewhere() {
    let w1 = generate_world([1; 32]);
    let w2 = generate_world([2; 32]);
    let mut differs = false;
    'outer: for x in (0..MAP_WIDTH).step_by(17) {
        for y in 0..200 {
            if w1.get_block(x, y) != w2.get_block(x, y) {
                differs = true;
                break 'outer;
            }
        }
    }
    assert!(differs);
}
