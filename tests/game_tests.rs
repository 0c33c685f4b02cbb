use snake::arena::{Tile, HEIGHT, WIDTH};
use snake::game::{Dir, Game, Keys, Pos, MAX_LENGTH};

fn no_keys() -> Keys {
    Keys { up: false, down: false, left: false, right: false }
}

fn count(g: &Game, t: Tile) -> usize {
    let mut n = 0;
    for y in 0..HEIGHT {
        for x in 0..WIDTH {
            if g.arena.get(x, y) == t {
                n += 1;
            }
        }
    }
    n
}

fn fresh() -> Game {
    let mut g = Game::new();
    g.reset();
    g
}

fn assert_initial(g: &Game) {
    assert_eq!(g.pos, Pos { x: 15, y: 10 });
    assert_eq!(g.length, 0);
    assert_eq!(g.target_length, 5);
    assert_eq!(g.dir, Dir::Up);
    assert_eq!(g.food_count, 0);
    for y in 0..HEIGHT {
        for x in 0..WIDTH {
            let want = if (x, y) == (15, 10) { Tile::Snake } else { Tile::Empty };
            assert_eq!(g.arena.get(x, y), want);
        }
    }
}

#[test]
fn new_game_state() {
    let g = Game::new();
    assert_eq!(g.pos, Pos { x: 15, y: 12 });
    assert_eq!(g.length, 0);
    assert_eq!(g.target_length, 5);
    assert_eq!(g.dir, Dir::Up);
    assert_eq!(g.food_count, 0);
    assert_eq!(count(&g, Tile::Empty), WIDTH * HEIGHT);
}

#[test]
fn reset_state() {
    let mut g = Game::new();
    g.reset();
    assert_initial(&g);
    // Every in-grid cell is cleared once, then the head is drawn.
    assert_eq!(g.arena.take_writes().len(), WIDTH * HEIGHT + 1);
}

#[test]
fn first_tick_grows() {
    let mut g = fresh();
    g.update(no_keys());
    assert_eq!(g.length, 1);
    assert_eq!(g.snake[0], Pos { x: 15, y: 10 });
    assert_eq!(g.pos, Pos { x: 15, y: 9 });
    assert_eq!(g.arena.get(15, 10), Tile::Snake);
    assert_eq!(g.arena.get(15, 9), Tile::Snake);
    assert_eq!(g.target_length, 5);
}

#[test]
fn first_tick_places_food() {
    let mut g = fresh();
    g.update(no_keys());
    // The first two bytes of seed 1234 are 21 and 204: cell (21, 12).
    assert_eq!(g.arena.get(21, 12), Tile::Food);
    assert_eq!(g.food_count, 1);
}

#[test]
fn left_wall_resets() {
    let mut g = fresh();
    let left = Keys { up: false, down: false, left: true, right: false };
    g.update(left);
    assert_eq!(g.pos, Pos { x: 14, y: 10 });
    for _ in 0..14 {
        g.update(no_keys());
    }
    assert_eq!(g.pos, Pos { x: 0, y: 10 });
    assert_eq!(g.dir, Dir::Left);
    assert_eq!(g.arena.get(0usize.wrapping_sub(1), 10), Tile::Snake);
    g.update(no_keys());
    assert_initial(&g);
}

#[test]
fn bottom_wall_resets() {
    let mut g = fresh();
    let down = Keys { up: false, down: true, left: false, right: false };
    g.update(down);
    for _ in 0..8 {
        g.update(no_keys());
    }
    assert_eq!(g.pos, Pos { x: 15, y: 19 });
    g.update(no_keys());
    assert_initial(&g);
}

#[test]
fn eating_food() {
    let mut g = fresh();
    g.place_food(15, 9);
    g.place_food(0, 19);
    g.place_food(1, 19);
    g.place_food(2, 19);
    assert_eq!(g.food_count, 4);
    g.update(no_keys());
    assert_eq!(g.food_count, 3);
    assert_eq!(g.target_length, 10);
    assert_eq!(g.pos, Pos { x: 15, y: 9 });
    assert_eq!(g.arena.get(15, 9), Tile::Snake);
    assert_eq!(count(&g, Tile::Food), 3);
}

#[test]
fn target_saturates() {
    let mut g = fresh();
    g.target_length = MAX_LENGTH - 1;
    g.place_food(15, 9);
    g.update(no_keys());
    assert_eq!(g.target_length, MAX_LENGTH - 1);
    assert_eq!(g.arena.get(15, 9), Tile::Snake);
}

#[test]
fn target_clamps_below_capacity() {
    let mut g = fresh();
    g.target_length = 97;
    g.place_food(15, 9);
    g.update(no_keys());
    assert_eq!(g.target_length, 99);
}

#[test]
fn mature_snake_slides() {
    let mut g = fresh();
    for x in 0..4 {
        g.place_food(x, 19);
    }
    for _ in 0..5 {
        g.update(no_keys());
    }
    assert_eq!(g.length, 5);
    assert_eq!(g.length, g.target_length);
    let before = count(&g, Tile::Snake);
    assert_eq!(before, 6);
    let old_body: Vec<Pos> = g.snake[..5].to_vec();
    let old_head = g.pos;
    g.update(no_keys());
    assert_eq!(g.length, 5);
    assert_eq!(g.arena.get(old_body[0].x, old_body[0].y), Tile::Empty);
    for i in 0..4 {
        assert_eq!(g.snake[i], old_body[i + 1]);
    }
    assert_eq!(g.snake[4], old_head);
    assert_eq!(g.pos, Pos { x: 15, y: 4 });
    assert_eq!(g.arena.get(15, 4), Tile::Snake);
    assert_eq!(count(&g, Tile::Snake), before);
}

#[test]
fn reset_after_play_matches_fresh() {
    let mut g = fresh();
    let seq = [
        Keys { up: false, down: false, left: true, right: false },
        no_keys(),
        Keys { up: false, down: true, left: false, right: false },
        no_keys(),
        Keys { up: false, down: false, left: false, right: true },
    ];
    for k in 0..40 {
        g.update(seq[k % seq.len()]);
    }
    g.reset();
    let f = fresh();
    assert_eq!(g.pos, f.pos);
    assert_eq!(g.length, f.length);
    assert_eq!(g.target_length, f.target_length);
    assert_eq!(g.dir, f.dir);
    assert_eq!(g.food_count, f.food_count);
    for y in 0..HEIGHT {
        for x in 0..WIDTH {
            assert_eq!(g.arena.get(x, y), f.arena.get(x, y));
        }
    }
    assert_initial(&g);
}

#[test]
fn last_key_wins() {
    let mut g = fresh();
    g.update(Keys { up: true, down: false, left: false, right: true });
    assert_eq!(g.dir, Dir::Right);
    assert_eq!(g.pos, Pos { x: 16, y: 10 });
    g.update(Keys { up: true, down: true, left: false, right: false });
    assert_eq!(g.dir, Dir::Down);
    assert_eq!(g.pos, Pos { x: 16, y: 11 });
}

#[test]
fn reversal_into_neck_resets() {
    let mut g = fresh();
    g.update(no_keys());
    assert_eq!(g.pos, Pos { x: 15, y: 9 });
    g.update(Keys { up: false, down: true, left: false, right: false });
    assert_initial(&g);
}

#[test]
fn food_only_on_empty_cells_and_at_most_four() {
    let mut g = fresh();
    g.place_food(15, 10);
    assert_eq!(g.arena.get(15, 10), Tile::Snake);
    g.place_food(WIDTH, 3);
    g.place_food(3, HEIGHT);
    assert_eq!(g.food_count, 0);
    for x in 0..5 {
        g.place_food(x, 0);
    }
    assert_eq!(g.food_count, 4);
    assert_eq!(g.arena.get(4, 0), Tile::Empty);
    g.place_food(0, 0);
    assert_eq!(g.food_count, 4);
}

#[test]
fn invariants_hold_over_long_play() {
    let mut g = fresh();
    let keys = [
        no_keys(),
        Keys { up: false, down: false, left: true, right: false },
        no_keys(),
        no_keys(),
        Keys { up: true, down: false, left: false, right: false },
        no_keys(),
        Keys { up: false, down: false, left: false, right: true },
        no_keys(),
        no_keys(),
        Keys { up: false, down: true, left: false, right: false },
    ];
    for k in 0..3000 {
        g.update(keys[(k * 7 + k / 13) % keys.len()]);
        assert!(g.food_count <= 4);
        assert!(g.length <= g.target_length);
        assert!(g.target_length <= MAX_LENGTH - 1);
        assert_eq!(count(&g, Tile::Food), g.food_count);
        assert_eq!(count(&g, Tile::Snake), g.length + 1);
    }
}

#[test]
fn tile_map_mirrors_grid() {
    let mut g = fresh();
    let mut screen = std::collections::HashMap::new();
    for k in 0..200 {
        for w in g.arena.take_writes() {
            screen.insert(w.slot, w.code);
        }
        for y in 0..HEIGHT {
            for x in 0..WIDTH {
                let code = match g.arena.get(x, y) {
                    Tile::Empty => 1u16,
                    Tile::Snake => 0,
                    Tile::Food => 0x1000,
                };
                assert_eq!(screen.get(&((0x400 + x + y * 32) as u32)), Some(&code));
            }
        }
        let keys = if k % 9 == 4 {
            Keys { up: false, down: false, left: true, right: false }
        } else if k % 9 == 8 {
            Keys { up: true, down: false, left: false, right: false }
        } else {
            no_keys()
        };
        g.update(keys);
    }
}
