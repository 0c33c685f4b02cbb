use snake::arena::{Arena, Tile, TileWrite, HEIGHT, WIDTH};

#[test]
fn new_arena_is_empty() {
    let a = Arena::new();
    for y in 0..HEIGHT {
        for x in 0..WIDTH {
            assert_eq!(a.get(x, y), Tile::Empty);
        }
    }
}

#[test]
fn set_then_get() {
    let mut a = Arena::new();
    a.set(3, 4, Tile::Food);
    a.set(29, 19, Tile::Snake);
    assert_eq!(a.get(3, 4), Tile::Food);
    assert_eq!(a.get(29, 19), Tile::Snake);
    assert_eq!(a.get(4, 3), Tile::Empty);
    a.set(3, 4, Tile::Empty);
    assert_eq!(a.get(3, 4), Tile::Empty);
}

#[test]
fn outside_reads_as_snake() {
    let a = Arena::new();
    assert_eq!(a.get(WIDTH, 0), Tile::Snake);
    assert_eq!(a.get(0, HEIGHT), Tile::Snake);
    assert_eq!(a.get(usize::MAX, 5), Tile::Snake);
    assert_eq!(a.get(5, usize::MAX), Tile::Snake);
    assert_eq!(a.get(0usize.wrapping_sub(1), 0usize.wrapping_sub(1)), Tile::Snake);
}

#[test]
fn set_outside_is_ignored() {
    let mut a = Arena::new();
    a.set(WIDTH, 0, Tile::Food);
    a.set(0, HEIGHT, Tile::Food);
    a.set(usize::MAX, usize::MAX, Tile::Food);
    assert!(a.take_writes().is_empty());
    for y in 0..HEIGHT {
        for x in 0..WIDTH {
            assert_eq!(a.get(x, y), Tile::Empty);
        }
    }
}

#[test]
fn set_issues_one_tile_write() {
    let mut a = Arena::new();
    a.set(2, 3, Tile::Food);
    a.set(0, 0, Tile::Empty);
    a.set(29, 19, Tile::Snake);
    let w = a.take_writes();
    assert_eq!(
        w,
        vec![
            TileWrite { slot: 0x400 + 2 + 3 * 32, code: 0x1000 },
            TileWrite { slot: 0x400, code: 1 },
            TileWrite { slot: 0x400 + 29 + 19 * 32, code: 0 },
        ]
    );
    assert!(a.take_writes().is_empty());
    assert_eq!(a.get(2, 3), Tile::Food);
}
