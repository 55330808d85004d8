use tile_merge::{lines, lines_to_vec, merge, merge_line, predict_merge, Direction, Axis, Game};

#[test]
fn merge_three_equal_toward_origin() {
    assert_eq!(merge_line(&vec![1, 1, 1], Direction::Left), vec![2, 1]);
}

#[test]
fn merge_four_equal_toward_origin() {
    assert_eq!(merge_line(&vec![1, 1, 1, 1], Direction::Up), vec![2, 2]);
}

#[test]
fn merge_without_equal_neighbours_keeps_line() {
    assert_eq!(merge_line(&vec![1, 2, 1], Direction::Left), vec![1, 2, 1]);
}

#[test]
fn merge_from_far_end() {
    assert_eq!(merge_line(&vec![1, 1, 1], Direction::Right), vec![1, 2]);
    assert_eq!(merge_line(&vec![3, 3, 2, 2], Direction::Down), vec![4, 3]);
}

#[test]
fn merge_result_is_not_merged_again() {
    assert_eq!(merge_line(&vec![2, 1, 1], Direction::Left), vec![2, 2]);
    assert_eq!(merge_line(&vec![], Direction::Left), Vec::<u8>::new());
}

#[test]
fn lines_drop_empty_cells() {
    let cells = vec![1, 0, 2, 3];
    assert_eq!(lines(&cells, 2, Axis::Vertical), vec![vec![1, 2], vec![3]]);
    assert_eq!(lines(&cells, 2, Axis::Horizontal), vec![vec![1], vec![2, 3]]);
}

#[test]
fn lines_to_vec_packs_toward_origin() {
    let ls = vec![vec![1, 2], vec![3]];
    assert_eq!(lines_to_vec(&ls, 2, Direction::Up), vec![1, 3, 2, 0]);
    assert_eq!(lines_to_vec(&ls, 2, Direction::Down), vec![1, 0, 2, 3]);
    assert_eq!(lines_to_vec(&ls, 2, Direction::Left), vec![1, 2, 3, 0]);
    assert_eq!(lines_to_vec(&ls, 2, Direction::Right), vec![1, 2, 0, 3]);
}

#[test]
fn packed_grid_round_trips() {
    let cells = vec![1, 2, 0, 3, 1, 0, 0, 0, 0];
    let ls = lines(&cells, 3, Axis::Vertical);
    assert_eq!(lines_to_vec(&ls, 3, Direction::Up), cells);
    let merged = merge(&ls, Direction::Up);
    assert_eq!(lines_to_vec(&merged, 3, Direction::Up), cells);
}

#[test]
fn predictions_of_each_direction() {
    let p = predict_merge(&vec![1, 0, 0, 1], 2);
    assert_eq!(p.get(Direction::Up), &vec![1, 1, 0, 0]);
    assert_eq!(p.get(Direction::Down), &vec![0, 0, 1, 1]);
    assert_eq!(p.get(Direction::Left), &vec![1, 0, 1, 0]);
    assert_eq!(p.get(Direction::Right), &vec![0, 1, 0, 1]);
}

#[test]
fn settled_prediction_is_stable() {
    let first = predict_merge(&vec![1, 1, 1, 0], 2);
    let left = first.get(Direction::Left).clone();
    assert_eq!(left, vec![2, 0, 1, 0]);
    let again = predict_merge(&left, 2);
    assert_eq!(again.get(Direction::Left), &left);
}

#[test]
fn end_to_end_merge_left() {
    let mut game = Game::new(4);
    let mut cells = vec![0u8; 16];
    cells[0] = 1;
    cells[1] = 1;
    game.set_cells(&cells);
    game.move_cells(Direction::Left, false);
    let mut expected = vec![0u8; 16];
    expected[0] = 2;
    assert_eq!(game.vec_cells(), expected);
    assert_eq!(game.empty_cells_qty(), 15);
}

#[test]
fn full_grid_without_pairs_is_over() {
    let mut game = Game::new(2);
    game.set_cells(&vec![1, 2, 2, 1]);
    assert!(game.is_game_over());
    game.move_cells(Direction::Up, true);
    assert_eq!(game.cells(), &vec![1, 2, 2, 1]);
}

#[test]
fn grid_with_empty_cell_is_not_over() {
    let mut game = Game::new(2);
    game.set_cells(&vec![1, 2, 0, 1]);
    assert!(!game.is_game_over());
    game.set_cells(&vec![1, 0, 0, 0]);
    assert!(!game.is_game_over());
}

#[test]
fn full_grid_with_pair_is_not_over() {
    let mut game = Game::new(2);
    game.set_cells(&vec![1, 1, 2, 3]);
    assert!(!game.is_game_over());
}

#[test]
fn single_cell_grid_is_over() {
    let mut game = Game::new(1);
    assert!(game.is_game_over());
    game.set_cells(&vec![5]);
    assert!(game.is_game_over());
}

#[test]
fn fresh_game_is_empty() {
    let game = Game::new(4);
    assert_eq!(game.size(), 4);
    assert_eq!(game.cells(), &vec![0u8; 16]);
    assert_eq!(game.empty_cells_qty(), 16);
    assert!(!game.is_game_win());
    assert!(game.movement_prediction().is_empty());
}

#[test]
fn illegal_move_changes_nothing() {
    let mut game = Game::new(2);
    game.set_cells(&vec![1, 0, 0, 0]);
    game.move_cells(Direction::Up, true);
    assert_eq!(game.vec_cells(), vec![1, 0, 0, 0]);
    game.move_cells(Direction::Left, true);
    assert_eq!(game.vec_cells(), vec![1, 0, 0, 0]);
}

#[test]
fn moves_toward_far_edges() {
    let mut game = Game::new(2);
    game.set_cells(&vec![1, 0, 0, 0]);
    game.move_cells(Direction::Down, false);
    assert_eq!(game.vec_cells(), vec![0, 0, 1, 0]);
    game.move_cells(Direction::Right, false);
    assert_eq!(game.vec_cells(), vec![0, 0, 0, 1]);
}

#[test]
fn legal_move_with_spawn_adds_a_tile() {
    let mut game = Game::new(3);
    let mut cells = vec![0u8; 9];
    cells[8] = 3;
    game.set_cells(&cells);
    game.move_cells(Direction::Up, true);
    assert_eq!(game.vec_cells()[2], 3);
    assert_eq!(game.empty_cells_qty(), 7);
}

#[test]
fn place_tile_fills_chosen_empty_cell() {
    let mut game = Game::new(3);
    game.set_cells(&vec![1, 0, 1, 0, 0, 0, 0, 0, 0]);
    game.place_tile(1, true);
    assert_eq!(game.vec_cells(), vec![1, 0, 1, 2, 0, 0, 0, 0, 0]);
    game.place_tile(0, false);
    assert_eq!(game.vec_cells(), vec![1, 1, 1, 2, 0, 0, 0, 0, 0]);
    assert_eq!(game.empty_cells_qty(), 5);
}

#[test]
fn generate_fills_one_empty_cell() {
    let mut game = Game::new(4);
    game.generate();
    assert_eq!(game.empty_cells_qty(), 15);
    let placed: Vec<u8> = game.vec_cells().into_iter().filter(|c| *c != 0).collect();
    assert_eq!(placed.len(), 1);
    assert!(placed[0] == 1 || placed[0] == 2);
}

#[test]
fn generate_never_overwrites_a_tile() {
    let mut game = Game::new(3);
    let cells = vec![5, 6, 7, 0, 8, 9, 10, 3, 4];
    game.set_cells(&cells);
    game.generate();
    let after = game.vec_cells();
    for i in 0..9 {
        if cells[i] != 0 {
            assert_eq!(after[i], cells[i]);
        }
    }
    assert!(after[3] == 1 || after[3] == 2);
    assert_eq!(game.empty_cells_qty(), 0);
}

#[test]
fn generate_fills_both_of_two_empty_cells() {
    let mut game = Game::new(2);
    game.set_cells(&vec![3, 0, 0, 4]);
    game.generate();
    assert_eq!(game.empty_cells_qty(), 0);
    let after = game.vec_cells();
    assert_eq!(after[0], 3);
    assert_eq!(after[3], 4);
}

#[test]
fn win_rank_is_detected() {
    let mut game = Game::new(2);
    game.set_cells(&vec![11, 0, 0, 0]);
    assert!(game.is_game_win());
    game.set_cells(&vec![10, 10, 0, 0]);
    assert!(!game.is_game_win());
    game.move_cells(Direction::Left, false);
    assert!(game.is_game_win());
}

#[test]
fn merge_prediction_matches_cells() {
    let mut game = Game::new(2);
    game.set_cells(&vec![1, 1, 0, 0]);
    assert_eq!(game.merge_prediction().get(Direction::Left), &vec![2, 0, 0, 0]);
    assert_eq!(game.merge_prediction().get(Direction::Up), &vec![1, 1, 0, 0]);
}
