use small_apps::draw::to_coord_u32;
use small_apps::game::Game;
use small_apps::snake::{Direction, Snake};

#[test]
fn new_game_starts_with_three_cells_heading_right() {
    let g = Game::new(20, 20);
    assert_eq!(g.snake_body(), &vec![(4, 2), (3, 2), (2, 2)]);
    assert_eq!(g.food(), None);
    assert!(!g.is_game_over());
    assert_eq!(g.width(), 20);
    assert_eq!(g.height(), 20);
}

#[test]
fn reverse_key_is_ignored() {
    let mut g = Game::new(20, 20);
    g.key_pressed(Some(Direction::Left));
    assert_eq!(g.snake_body(), &vec![(4, 2), (3, 2), (2, 2)]);
}

#[test]
fn keys_turn_and_move() {
    let mut g = Game::new(20, 20);
    g.key_pressed(None);
    assert_eq!(g.snake_body(), &vec![(5, 2), (4, 2), (3, 2)]);
    g.key_pressed(Some(Direction::Down));
    assert_eq!(g.snake_body(), &vec![(5, 3), (5, 2), (4, 2)]);
    g.key_pressed(Some(Direction::Up));
    assert_eq!(g.snake_body(), &vec![(5, 3), (5, 2), (4, 2)]);
    g.key_pressed(Some(Direction::Left));
    assert_eq!(g.snake_body(), &vec![(4, 3), (5, 3), (5, 2)]);
}

#[test]
fn wall_ends_the_game_and_nothing_moves_after() {
    let mut g = Game::new(7, 20);
    g.key_pressed(None);
    g.key_pressed(None);
    assert_eq!(g.snake_body()[0], (6, 2));
    assert!(!g.is_game_over());
    g.key_pressed(None);
    assert!(g.is_game_over());
    assert_eq!(g.snake_body()[0], (6, 2));
    g.key_pressed(Some(Direction::Down));
    assert_eq!(g.snake_body()[0], (6, 2));
    g.update();
    assert_eq!(g.snake_body()[0], (6, 2));
    g.restart();
    assert!(!g.is_game_over());
    assert_eq!(g.snake_body(), &vec![(4, 2), (3, 2), (2, 2)]);
}

#[test]
fn turning_three_times_circles_back() {
    let mut g = Game::new(20, 20);
    g.key_pressed(Some(Direction::Down));
    g.key_pressed(Some(Direction::Left));
    g.key_pressed(Some(Direction::Up));
    assert!(!g.is_game_over());
    assert_eq!(g.snake_body(), &vec![(3, 2), (3, 3), (4, 3)]);
}

#[test]
fn only_free_cell_gets_the_food() {
    let mut g = Game::new(3, 3);
    g.update();
    assert_eq!(g.food(), Some((1, 1)));
    assert!(g.is_game_over());
}

#[test]
fn free_cells_are_found() {
    let g = Game::new(3, 3);
    assert!(g.free_cell_exists());
    assert!(!Game::new(2, 9).free_cell_exists());
    assert!(!Game::new(9, 2).free_cell_exists());
    assert!(!Game::new(u32::MAX, 9).free_cell_exists());
    let mut g = Game::new(6, 3);
    g.key_pressed(Some(Direction::Up));
    g.key_pressed(Some(Direction::Left));
    g.key_pressed(Some(Direction::Left));
    assert!(g.free_cell_exists());
    g.update();
    assert_eq!(g.snake_body().len(), 4);
    assert!(!g.free_cell_exists());
}

#[test]
fn eating_grows_the_snake() {
    let mut g = Game::new(6, 3);
    g.key_pressed(Some(Direction::Up));
    g.key_pressed(Some(Direction::Left));
    g.key_pressed(Some(Direction::Left));
    assert_eq!(g.snake_body(), &vec![(2, 1), (3, 1), (4, 1)]);
    g.update();
    assert_eq!(g.food(), None);
    assert!(!g.is_game_over());
    assert_eq!(g.snake_body(), &vec![(1, 1), (2, 1), (3, 1), (4, 1)]);
}

#[test]
fn food_lands_inside_walls_off_the_snake() {
    for _ in 0..50 {
        let mut g = Game::new(8, 6);
        g.update();
        match g.food() {
            Some((fx, fy)) => {
                assert!(1 <= fx && fx < 7 && 1 <= fy && fy < 5);
                assert!(!g.snake_body().contains(&(fx, fy)));
                assert_eq!(g.snake_body().len(), 3);
            }
            None => assert_eq!(g.snake_body(), &vec![(5, 2), (4, 2), (3, 2), (2, 2)]),
        }
    }
}

#[test]
fn opposite_directions() {
    assert_eq!(Direction::Up.opposite(), Direction::Down);
    assert_eq!(Direction::Down.opposite(), Direction::Up);
    assert_eq!(Direction::Left.opposite(), Direction::Right);
    assert_eq!(Direction::Right.opposite(), Direction::Left);
}

#[test]
fn snake_moves_and_regrows_its_tail() {
    let mut s = Snake::new(2, 2);
    assert_eq!(s.head_position(), (4, 2));
    assert_eq!(s.head_direction(), Direction::Right);
    assert_eq!(s.next_head(Some(Direction::Up)), (4, 1));
    s.move_forward(Some(Direction::Up));
    assert_eq!(s.body(), &vec![(4, 1), (4, 2), (3, 2)]);
    assert_eq!(s.head_direction(), Direction::Up);
    s.restore_tail();
    assert_eq!(s.body(), &vec![(4, 1), (4, 2), (3, 2), (2, 2)]);
    assert!(s.inside_snake(4, 2));
    assert!(!s.inside_snake(2, 2));
    assert!(s.overlap_with_self(2, 2));
    assert!(!s.overlap_with_self(9, 9));
}

#[test]
fn grid_to_pixels() {
    assert_eq!(to_coord_u32(-1), 0);
    assert_eq!(to_coord_u32(0), 0);
    assert_eq!(to_coord_u32(3), 75);
    assert_eq!(to_coord_u32(171_798_691), 4_294_967_275);
    assert_eq!(to_coord_u32(171_798_692), u32::MAX);
    assert_eq!(to_coord_u32(i32::MAX), u32::MAX);
}
