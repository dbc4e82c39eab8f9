use snake_game::{next_direction, point, Cell, GameStatus, OutOfBounds, RandomSource, Snake};

/// Hands out a fixed list of values, starting over at the end.
struct Scripted {
    values: Vec<u16>,
    next: usize,
}

impl Scripted {
    fn new(values: Vec<u16>) -> Scripted {
        Scripted { values, next: 0 }
    }
}

impl RandomSource for Scripted {
    fn next_u16(&mut self) -> u16 {
        let v = self.values[self.next % self.values.len()];
        self.next += 1;
        v
    }
}

/// Successive values 0, 7000, 14000, ... wrapping at 65536.
struct Counter(u32);

impl RandomSource for Counter {
    fn next_u16(&mut self) -> u16 {
        self.0 = (self.0 + 7000) % 65536;
        self.0 as u16
    }
}

#[test]
fn set_then_get_returns_written_cell() {
    let mut g = GameStatus::new(4, 6);
    for x in 0..6 {
        for y in 0..4 {
            for c in [Cell::Food, Cell::Snake, Cell::Empty, Cell::Food] {
                assert_eq!(g.set_cell(point(x, y), c), Ok(()));
                assert_eq!(g.get_cell(point(x, y)), Ok(c));
            }
        }
    }
}

#[test]
fn writes_do_not_disturb_other_cells() {
    let mut g = GameStatus::new(3, 5);
    assert_eq!(g.set_cell(point(4, 2), Cell::Food), Ok(()));
    assert_eq!(g.set_cell(point(0, 1), Cell::Snake), Ok(()));
    for x in 0..5 {
        for y in 0..3 {
            let expected = if (x, y) == (4, 2) {
                Cell::Food
            } else if (x, y) == (0, 1) {
                Cell::Snake
            } else {
                Cell::Empty
            };
            assert_eq!(g.get_cell(point(x, y)), Ok(expected));
        }
    }
}

#[test]
fn edges_are_out_of_bounds() {
    for (h, w) in [(1u32, 1u32), (10, 10), (3, 7), (7, 3)] {
        let mut g = GameStatus::new(h, w);
        let (wi, hi) = (w as i32, h as i32);
        for p in [point(-1, 0), point(wi, 0), point(0, -1), point(0, hi), point(wi, hi)] {
            assert_eq!(g.get_cell(p), Err(OutOfBounds));
            assert_eq!(g.set_cell(p, Cell::Food), Err(OutOfBounds));
        }
        assert_eq!(g.get_cell(point(wi - 1, hi - 1)), Ok(Cell::Empty));
    }
}

#[test]
fn new_board_is_empty() {
    let g = GameStatus::new(10, 10);
    assert_eq!(g.height, 10);
    assert_eq!(g.width, 10);
    assert_eq!(g.snake.get_head(), point(0, 0));
    assert_eq!(g.snake.get_tail(), &vec![point(0, 0)]);
    for x in 0..10 {
        for y in 0..10 {
            assert_eq!(g.get_cell(point(x, y)), Ok(Cell::Empty));
        }
    }
}

#[test]
fn three_moves_slide_body() {
    let mut s = Snake::new((0, 0));
    for _ in 0..3 {
        assert!(s.move_snake(point(1, 0)));
    }
    assert_eq!(s.get_head(), point(3, 0));
    assert_eq!(s.get_tail(), &vec![point(2, 0)]);
    assert_eq!(s.get_tail_len(), 1);
    assert!(!s.is_self_eating());
}

#[test]
fn grown_snake_slides_oldest_segment_off() {
    let mut s = Snake::new((0, 0));
    s.grow_at_head();
    s.grow_at_head();
    assert_eq!(s.get_tail_len(), 3);
    for _ in 0..3 {
        assert!(s.move_snake(point(1, 0)));
    }
    assert_eq!(s.get_head(), point(3, 0));
    assert_eq!(s.get_tail(), &vec![point(0, 0), point(1, 0), point(2, 0)]);
}

#[test]
fn moving_onto_body_is_self_collision() {
    let mut s = Snake::new((0, 0));
    s.grow_at_head();
    s.grow_at_head();
    assert!(s.move_snake(point(0, 1)));
    assert!(s.move_snake(point(1, 0)));
    assert!(s.move_snake(point(0, -1)));
    // Body is now [(0,0),(0,1),(1,1)] with head (1,0); going right drops
    // (0,0) and lands on (1,1).
    assert!(!s.move_snake(point(0, 1)));
    assert_eq!(s.get_head(), point(1, 1));
    assert!(s.is_self_eating());
}

#[test]
fn standing_still_after_growing_collides() {
    let mut t = Snake::new((5, 5));
    t.grow_at_head();
    assert!(!t.move_snake(point(0, 0)));
}

#[test]
fn reversal_is_ignored() {
    assert_eq!(next_direction(point(1, 0), Some(b'w')), point(1, 0));
    assert_eq!(next_direction(point(-1, 0), Some(b's')), point(-1, 0));
    assert_eq!(next_direction(point(0, 1), Some(b'a')), point(0, 1));
    assert_eq!(next_direction(point(0, -1), Some(b'd')), point(0, -1));
}

#[test]
fn keys_turn_the_snake() {
    assert_eq!(next_direction(point(1, 0), Some(b'd')), point(0, 1));
    assert_eq!(next_direction(point(1, 0), Some(b'a')), point(0, -1));
    assert_eq!(next_direction(point(0, 1), Some(b's')), point(1, 0));
    assert_eq!(next_direction(point(0, 1), Some(b'w')), point(-1, 0));
    assert_eq!(next_direction(point(0, 1), Some(b'x')), point(0, 1));
    assert_eq!(next_direction(point(0, 1), None), point(0, 1));
}

#[test]
fn food_positions_never_repeat() {
    let mut g = GameStatus::new(10, 10);
    // Each pair of draws names a cell twice in a row; the repeat is redrawn.
    let mut rng = Scripted::new(vec![
        6554, 6554, 6554, 6554, 13108, 13108, 13108, 13108, 19662, 19662,
    ]);
    for _ in 0..3 {
        assert!(g.generate_food(&mut rng));
    }
    assert_eq!(rng.next, 10);
    g.update_matrix();
    let mut food = Vec::new();
    for x in 0..10 {
        for y in 0..10 {
            if g.get_cell(point(x, y)) == Ok(Cell::Food) {
                food.push((x, y));
            }
        }
    }
    assert_eq!(food, vec![(1, 1), (2, 2), (3, 3)]);
}

#[test]
fn draws_off_the_board_are_redrawn() {
    let mut g = GameStatus::new(10, 10);
    let mut rng = Scripted::new(vec![6553, 13107, 6553, 13107, 65535, 0, 0, 0]);
    // (0, 2); then (0, 2) again and (10, 0) off the board are redrawn, and
    // (0, 0) is taken.
    assert!(g.generate_food(&mut rng));
    assert!(g.generate_food(&mut rng));
    assert_eq!(rng.next, 8);
    g.update_matrix();
    assert_eq!(g.get_cell(point(0, 2)), Ok(Cell::Food));
    assert_eq!(g.get_cell(point(10, 0)), Err(OutOfBounds));
    assert_eq!(g.get_cell(point(0, 0)), Ok(Cell::Snake));
}

#[test]
fn placement_falls_back_to_first_free_square() {
    let mut g = GameStatus::new(10, 10);
    let mut rng = Scripted::new(vec![0]);
    assert!(g.generate_food(&mut rng));
    assert_eq!(rng.next, 2);
    // Every further draw names (0, 0): after the budget of rejected draws
    // the first free square in storage order is taken.
    assert!(g.generate_food(&mut rng));
    assert_eq!(rng.next, 2 + 2 * 65536);
    g.snake = Snake::new((5, 5));
    g.update_matrix();
    assert_eq!(g.get_cell(point(0, 0)), Ok(Cell::Food));
    assert_eq!(g.get_cell(point(0, 1)), Ok(Cell::Food));
    assert_eq!(g.get_cell(point(0, 2)), Ok(Cell::Empty));
}

#[test]
fn full_board_takes_no_more_food() {
    let mut g = GameStatus::new(2, 2);
    g.snake = Snake::new((-5, -5));
    let mut rng = Scripted::new(vec![0]);
    g.generate_food_if_empty(&mut rng);
    g.update_matrix();
    for x in 0..2 {
        for y in 0..2 {
            assert_eq!(g.get_cell(point(x, y)), Ok(Cell::Food));
        }
    }
    assert!(!g.generate_food(&mut rng));
}

#[test]
fn engine_move_and_snake_access() {
    let mut g = GameStatus::new(10, 10);
    for _ in 0..9 {
        assert!(g.move_snake(point(1, 0)));
        assert!(!g.is_gameover());
    }
    assert!(g.move_snake(point(1, 0)));
    assert_eq!(g.get_snake().get_head(), point(10, 0));
    assert!(g.is_gameover());

    let mut g = GameStatus::new(10, 10);
    assert!(g.move_snake(point(0, -1)));
    assert_eq!(g.get_snake().get_head(), point(0, -1));
    assert!(g.is_gameover());
}

#[test]
fn repaint_after_one_step() {
    let mut g = GameStatus::new(10, 10);
    g.snake.grow_at_head();
    assert!(g.move_snake(point(1, 0)));
    g.update_matrix();
    assert_eq!(g.get_cell(point(1, 0)), Ok(Cell::Snake));
    assert_eq!(g.get_cell(point(0, 0)), Ok(Cell::Snake));
    assert_eq!(g.get_cell(point(2, 0)), Ok(Cell::Empty));
    g.update_matrix();
    assert_eq!(g.get_cell(point(1, 0)), Ok(Cell::Snake));
    assert_eq!(g.get_cell(point(0, 0)), Ok(Cell::Snake));
}

#[test]
fn non_square_board_keeps_cells_apart() {
    let mut g = GameStatus::new(3, 2);
    assert_eq!(g.set_cell(point(1, 0), Cell::Food), Ok(()));
    assert_eq!(g.get_cell(point(0, 2)), Ok(Cell::Empty));
    let mut g = GameStatus::new(2, 3);
    assert_eq!(g.set_cell(point(2, 1), Cell::Snake), Ok(()));
    assert_eq!(g.get_cell(point(2, 1)), Ok(Cell::Snake));
}

#[test]
fn default_values_are_empty() {
    let g = GameStatus::default();
    assert_eq!(g.width, 0);
    assert_eq!(g.height, 0);
    assert_eq!(g.get_cell(point(0, 0)), Err(OutOfBounds));
    let s = Snake::default();
    assert_eq!(s.get_head(), point(0, 0));
    assert_eq!(s.get_tail_len(), 0);
}

#[test]
fn place_food_scales_raw_draws() {
    let mut g = GameStatus::new(20, 10);
    // floor(32767 / 65535 * 10) = 4 and floor(65534 / 65535 * 20) = 19;
    // floor(65535 / 65535 * 20) = 20 is off the board.
    assert!(!g.place_food(32767, 65535));
    assert!(g.place_food(32767, 65534));
    assert!(!g.place_food(32767, 65534));
    assert!(g.place_food(65534, 0));
    g.update_matrix();
    // floor(65534 / 65535 * 10) = 9.
    assert_eq!(g.get_cell(point(9, 0)), Ok(Cell::Food));
    assert_eq!(g.get_cell(point(4, 19)), Ok(Cell::Food));
}

#[test]
fn refill_places_a_batch_only_when_empty() {
    let mut g = GameStatus::new(10, 10);
    let mut rng = Counter(0);
    g.generate_food_if_empty(&mut rng);
    g.update_matrix();
    let mut food = 0;
    for x in 0..10 {
        for y in 0..10 {
            if g.get_cell(point(x, y)) != Ok(Cell::Empty) {
                food += 1;
            }
        }
    }
    assert!(food >= 10);
    let drawn = rng.0;
    g.generate_food_if_empty(&mut rng);
    assert_eq!(rng.0, drawn);
}

#[test]
fn refill_batch_has_ten_items() {
    let mut g = GameStatus::new(10, 10);
    g.snake = Snake::new((-5, -5));
    let mut rng = Counter(0);
    g.generate_food_if_empty(&mut rng);
    g.update_matrix();
    let mut food = 0;
    for x in 0..10 {
        for y in 0..10 {
            if g.get_cell(point(x, y)) == Ok(Cell::Food) {
                food += 1;
            }
        }
    }
    assert_eq!(food, 10);
}

#[test]
fn eating_removes_food_and_grows() {
    let mut g = GameStatus::new(10, 10);
    // Food at (0, 1) and (4, 4).
    assert!(g.place_food(0, 6554));
    assert!(g.place_food(26214, 26214));
    g.snake.move_snake(point(0, 1));
    g.eat();
    assert_eq!(g.snake.get_tail_len(), 2);
    assert_eq!(g.snake.get_tail(), &vec![point(0, 0), point(0, 1)]);
    g.update_matrix();
    assert_eq!(g.get_cell(point(4, 4)), Ok(Cell::Food));
    assert_eq!(g.get_cell(point(0, 1)), Ok(Cell::Snake));
    // The food under the head is gone: once the body has moved on the cell
    // is empty.
    g.snake.move_snake(point(1, 0));
    g.snake.move_snake(point(1, 0));
    g.snake.move_snake(point(1, 0));
    g.update_matrix();
    assert_eq!(g.get_cell(point(0, 1)), Ok(Cell::Empty));
}

#[test]
fn eating_elsewhere_changes_nothing() {
    let mut g = GameStatus::new(10, 10);
    assert!(g.place_food(26214, 26214));
    g.snake.move_snake(point(0, 1));
    g.eat();
    assert_eq!(g.snake.get_tail_len(), 1);
    g.update_matrix();
    assert_eq!(g.get_cell(point(4, 4)), Ok(Cell::Food));
}

#[test]
fn leaving_the_board_ends_the_game() {
    for (start, dir) in [
        ((8, 3), point(1, 0)),
        ((1, 3), point(-1, 0)),
        ((3, 8), point(0, 1)),
        ((3, 1), point(0, -1)),
    ] {
        let mut g = GameStatus::new(10, 10);
        g.snake = Snake::new(start);
        assert!(g.snake.move_snake(dir));
        assert!(!g.is_gameover());
        assert!(g.snake.move_snake(dir));
        assert!(g.is_gameover());
    }
}

#[test]
fn fresh_snake_sits_on_its_own_segment() {
    let g = GameStatus::new(10, 10);
    assert!(g.snake.is_self_eating());
    assert!(g.is_gameover());
}

#[test]
fn self_collision_ends_the_game() {
    let mut g = GameStatus::new(10, 10);
    g.snake = Snake::new((5, 5));
    g.snake.grow_at_head();
    assert!(g.is_gameover());
}

#[test]
fn repaint_draws_snake_over_food() {
    let mut g = GameStatus::new(10, 10);
    assert!(g.place_food(0, 0));
    assert!(g.place_food(6554, 6554));
    assert_eq!(g.set_cell(point(7, 7), Cell::Food), Ok(()));
    g.update_matrix();
    assert_eq!(g.get_cell(point(0, 0)), Ok(Cell::Snake));
    assert_eq!(g.get_cell(point(1, 1)), Ok(Cell::Food));
    assert_eq!(g.get_cell(point(7, 7)), Ok(Cell::Empty));
}

#[test]
fn tick_runs_until_the_wall() {
    let mut g = GameStatus::new(5, 5);
    let mut rng = Counter(0);
    let mut ticks = 0;
    while g.tick(point(1, 0), &mut rng) {
        ticks += 1;
        assert_eq!(g.get_cell(g.snake.get_head()), Ok(Cell::Snake));
    }
    assert_eq!(ticks, 4);
    assert_eq!(g.snake.get_head(), point(5, 0));
    assert!(g.is_gameover());
}

#[test]
fn tick_eats_food_in_the_way() {
    let mut g = GameStatus::new(10, 10);
    // Food at (1, 0), then at (1, 9) to (9, 9).
    let mut rng = Scripted::new(vec![
        6554, 0, 6554, 58986, 13108, 58986, 19662, 58986, 26216, 58986, 32770, 58986, 39324,
        58986, 45878, 58986, 52432, 58986, 58986, 58986,
    ]);
    assert!(g.tick(point(1, 0), &mut rng));
    assert_eq!(g.snake.get_head(), point(1, 0));
    assert_eq!(g.snake.get_tail(), &vec![point(0, 0), point(1, 0)]);
    assert!(g.tick(point(1, 0), &mut rng));
    assert_eq!(g.snake.get_tail(), &vec![point(1, 0), point(1, 0)]);
    assert_eq!(g.get_cell(point(9, 9)), Ok(Cell::Food));
    assert_eq!(g.get_cell(point(0, 0)), Ok(Cell::Empty));
    assert_eq!(g.get_cell(point(1, 0)), Ok(Cell::Snake));
}
