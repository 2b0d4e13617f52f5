use terrarius::tile::{DIRT, STONE};
use terrarius::world::{World, WorldError, MAP_HEIGHT, MAP_WIDTH};

#[test]
fn get_and_set_succeed_at_last_cell() {
    let mut w = World::new_empty();
    assert_eq!(w.get_block(MAP_WIDTH - 1, MAP_HEIGHT - 1), Ok(0));
    assert_eq!(w.set_block(MAP_WIDTH - 1, MAP_HEIGHT - 1, STONE), Ok(()));
    assert_eq!(w.get_block(MAP_WIDTH - 1, MAP_HEIGHT - 1), Ok(STONE));
}

#[test]
fn get_fails_out_of_bounds() {
    let w = World::new_empty();
    assert_eq!(w.get_block(MAP_WIDTH, 0), Err(WorldError::OutOfBounds));
    assert_eq!(w.get_block(0, MAP_HEIGHT), Err(WorldError::OutOfBounds));
    // negative coordinates wrapped into u32 are far out of range
    assert_eq!(w.get_block(u32::MAX, 0), Err(WorldError::OutOfBounds));
    assert_eq!(w.get_block(0, u32::MAX), Err(WorldError::OutOfBounds));
    assert_eq!(w.get_block(u32::MAX, u32::MAX), Err(WorldError::OutOfBounds));
}

#[test]
fn set_fails_out_of_bounds_and_changes_nothing() {
    let mut w = World::new_empty();
    assert_eq!(w.set_block(MAP_WIDTH, 0, STONE), Err(WorldError::OutOfBounds));
    assert_eq!(w.set_block(0, MAP_HEIGHT, STONE), Err(WorldError::OutOfBounds));
    assert_eq!(w.set_block(u32::MAX, 5, STONE), Err(WorldError::OutOfBounds));
    for x in 0..MAP_WIDTH {
        assert_eq!(w.get_block(x, 0), Ok(0));
    }
}

#[test]
fn set_is_visible_to_later_reads() {
    let mut w = World::new_empty();
    assert_eq!(w.set_block(17, 23, DIRT), Ok(()));
    assert_eq!(w.get_block(17, 23), Ok(DIRT));
    assert_eq!(w.get_block(18, 23), Ok(0));
    assert_eq!(w.get_block(17, 24), Ok(0));
    assert_eq!(w.set_block(17, 23, STONE), Ok(()));
    assert_eq!(w.get_block(17, 23), Ok(STONE));
}

#[test]
fn reads_are_idempotent() {
    let mut w = World::new_empty();
    assert_eq!(w.set_block(100, 200, STONE), Ok(()));
    let first = w.get_block(100, 200);
    let second = w.get_block(100, 200);
    assert_eq!(first, second);
    let first_err = w.get_block(MAP_WIDTH, 0);
    let second_err = w.get_block(MAP_WIDTH, 0);
    assert_eq!(first_err, second_err);
}
