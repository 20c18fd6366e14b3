use tetrs::deal::{
    generate_bag, next_piece, next_piece_with, solidify_tetrimino, solidify_tetrimino_with,
};
use tetrs::piece::{generate_offset_tetrimino, generate_tetrimino, generate_tetrimino_iterable};
use tetrs::state::{
    check_tetrimino_overlap, clear_row, is_row_full, lock_tetrimino, move_tetrimino,
    transform_tetrimino, GameState,
};
use tetrs::sweep::clear_full_rows;
use tetrs::tile::{Direction, Point, Tile};

const FIRST: [Tile; 7] = [Tile::I, Tile::O, Tile::T, Tile::S, Tile::Z, Tile::J, Tile::L];
const SECOND: [Tile; 7] = [Tile::L, Tile::J, Tile::Z, Tile::S, Tile::T, Tile::O, Tile::I];
const THIRD: [Tile; 7] = [Tile::T, Tile::I, Tile::L, Tile::O, Tile::J, Tile::S, Tile::Z];

fn blank() -> GameState {
    GameState {
        matrix: [[Tile::Empty; 20]; 10],
        tetrimino: generate_tetrimino(Tile::Empty),
        game_over: false,
        can_hold: true,
        held: Tile::Empty,
        bag1: FIRST,
        bag2: SECOND,
        index: 0,
        lines_cleared: 0,
    }
}

fn fill_row(state: &mut GameState, row: usize, tile: Tile) {
    for col in 0..10 {
        state.matrix[col][row] = tile;
    }
}

fn is_permutation(bag: &[Tile; 7]) -> bool {
    FIRST.iter().all(|kind| bag.iter().filter(|t| *t == kind).count() == 1)
}

#[test]
fn spawn_on_an_empty_board_is_legal() {
    let state = blank();
    for kind in FIRST {
        assert!(!check_tetrimino_overlap(&generate_tetrimino(kind), &state));
    }
    assert!(!check_tetrimino_overlap(&generate_tetrimino(Tile::Empty), &state));
}

#[test]
fn overlap_left_of_the_board() {
    let state = blank();
    let piece = generate_offset_tetrimino(&generate_tetrimino(Tile::T), Point(-3, 0));
    assert!(!check_tetrimino_overlap(&piece, &state));
    let piece = generate_offset_tetrimino(&generate_tetrimino(Tile::T), Point(-4, 0));
    assert!(generate_tetrimino_iterable(&piece).contains(&Point(-1, 1)));
    assert!(check_tetrimino_overlap(&piece, &state));
}

#[test]
fn overlap_right_of_the_board() {
    let state = blank();
    let piece = generate_offset_tetrimino(&generate_tetrimino(Tile::T), Point(4, 0));
    assert!(!check_tetrimino_overlap(&piece, &state));
    let piece = generate_offset_tetrimino(&generate_tetrimino(Tile::T), Point(5, 0));
    assert!(generate_tetrimino_iterable(&piece).contains(&Point(10, 1)));
    assert!(check_tetrimino_overlap(&piece, &state));
}

#[test]
fn overlap_above_the_board() {
    let state = blank();
    let piece = generate_offset_tetrimino(&generate_tetrimino(Tile::O), Point(0, -1));
    assert!(generate_tetrimino_iterable(&piece).contains(&Point(4, -1)));
    assert!(check_tetrimino_overlap(&piece, &state));
}

#[test]
fn overlap_below_the_board() {
    let state = blank();
    let piece = generate_offset_tetrimino(&generate_tetrimino(Tile::O), Point(0, 18));
    assert!(!check_tetrimino_overlap(&piece, &state));
    let piece = generate_offset_tetrimino(&generate_tetrimino(Tile::O), Point(0, 19));
    assert!(generate_tetrimino_iterable(&piece).contains(&Point(4, 20)));
    assert!(check_tetrimino_overlap(&piece, &state));
}

#[test]
fn overlap_far_off_the_board() {
    let state = blank();
    for (dx, dy) in [(-100, 0), (100, 0), (0, -100), (0, 100), (-120, -120), (120, 120)] {
        let piece = generate_offset_tetrimino(&generate_tetrimino(Tile::I), Point(dx, dy));
        assert!(check_tetrimino_overlap(&piece, &state));
    }
}

#[test]
fn overlap_with_a_tile() {
    let mut state = blank();
    state.matrix[5][1] = Tile::Z;
    assert!(check_tetrimino_overlap(&generate_tetrimino(Tile::T), &state));
    assert!(!check_tetrimino_overlap(&generate_tetrimino(Tile::S), &state));
    assert!(!check_tetrimino_overlap(&generate_tetrimino(Tile::I), &state));
}

#[test]
fn a_legal_move_is_made() {
    let mut state = blank();
    state.tetrimino = generate_tetrimino(Tile::T);
    let mut expected = state.clone();
    expected.tetrimino.position = Point(5, 0);
    assert!(move_tetrimino(&mut state, Point(1, 0)));
    assert_eq!(state, expected);
}

#[test]
fn an_illegal_move_changes_nothing() {
    let mut state = blank();
    state.tetrimino = generate_tetrimino(Tile::T);
    state.matrix[4][2] = Tile::J;
    let expected = state.clone();
    assert!(!move_tetrimino(&mut state, Point(0, 1)));
    assert_eq!(state, expected);
    assert!(!move_tetrimino(&mut state, Point(0, -1)));
    assert_eq!(state, expected);
}

#[test]
fn a_legal_turn_is_made() {
    let mut state = blank();
    state.tetrimino = generate_tetrimino(Tile::L);
    assert!(transform_tetrimino(&mut state, Point(0, 1), Direction::Right));
    assert_eq!(state.tetrimino.position, Point(4, 1));
    assert_eq!(
        state.tetrimino.shape,
        vec![vec![false, false, false], vec![true, true, true], vec![false, false, true]]
    );
}

#[test]
fn an_illegal_turn_changes_nothing() {
    let mut state = blank();
    state.tetrimino = generate_tetrimino(Tile::I);
    let expected = state.clone();
    assert!(!transform_tetrimino(&mut state, Point(0, 0), Direction::Right));
    assert_eq!(state, expected);
}

#[test]
fn lock_writes_the_blocks_and_nothing_else() {
    let mut state = blank();
    state.matrix[0][19] = Tile::S;
    state.matrix[4][2] = Tile::O;
    state.tetrimino = generate_offset_tetrimino(&generate_tetrimino(Tile::T), Point(2, 17));
    let cells = generate_tetrimino_iterable(&state.tetrimino);
    assert_eq!(cells, vec![Point(5, 18), Point(6, 17), Point(6, 18), Point(7, 18)]);
    let before = state.clone();
    lock_tetrimino(&mut state);
    for x in 0..10usize {
        for y in 0..20usize {
            if cells.contains(&Point(x as i8, y as i8)) {
                assert_eq!(state.matrix[x][y], Tile::T);
            } else {
                assert_eq!(state.matrix[x][y], before.matrix[x][y]);
            }
        }
    }
    let mut expected = before.clone();
    expected.matrix = state.matrix;
    assert_eq!(state, expected);
}

#[test]
fn lock_overwrites_a_tile_under_the_piece() {
    let mut state = blank();
    state.matrix[4][0] = Tile::Z;
    state.tetrimino = generate_tetrimino(Tile::O);
    lock_tetrimino(&mut state);
    assert_eq!(state.matrix[4][0], Tile::O);
    assert_eq!(state.matrix[5][1], Tile::O);
}

#[test]
fn lock_of_no_piece_changes_nothing() {
    let mut state = blank();
    state.matrix[3][3] = Tile::L;
    let expected = state.clone();
    lock_tetrimino(&mut state);
    assert_eq!(state, expected);
}

#[test]
fn a_row_is_full_when_no_column_is_empty() {
    let mut state = blank();
    fill_row(&mut state, 7, Tile::J);
    assert!(is_row_full(&state, 7));
    assert!(!is_row_full(&state, 6));
    state.matrix[9][7] = Tile::Empty;
    assert!(!is_row_full(&state, 7));
}

#[test]
fn clearing_the_only_full_row() {
    let mut state = blank();
    fill_row(&mut state, 12, Tile::I);
    state.matrix[2][11] = Tile::T;
    state.matrix[3][0] = Tile::S;
    state.matrix[7][5] = Tile::Z;
    state.matrix[1][13] = Tile::L;
    state.matrix[8][19] = Tile::J;
    state.lines_cleared = 41;
    let before = state.clone();
    clear_row(&mut state, 12);
    assert_eq!(state.lines_cleared, 42);
    for x in 0..10 {
        assert_eq!(state.matrix[x][0], Tile::Empty);
        for y in 1..=12 {
            assert_eq!(state.matrix[x][y], before.matrix[x][y - 1]);
        }
        for y in 13..20 {
            assert_eq!(state.matrix[x][y], before.matrix[x][y]);
        }
    }
    assert_eq!(state.matrix[2][12], Tile::T);
    assert_eq!(state.matrix[3][1], Tile::S);
    assert_eq!(state.matrix[7][6], Tile::Z);
    assert_eq!(state.matrix[1][13], Tile::L);
    assert_eq!(state.matrix[8][19], Tile::J);
    assert_eq!(state.tetrimino, before.tetrimino);
    assert_eq!(state.index, before.index);
}

#[test]
fn clearing_the_top_row_empties_it() {
    let mut state = blank();
    fill_row(&mut state, 0, Tile::O);
    state.matrix[5][1] = Tile::T;
    clear_row(&mut state, 0);
    assert_eq!(state.lines_cleared, 1);
    for x in 0..10 {
        assert_eq!(state.matrix[x][0], Tile::Empty);
    }
    assert_eq!(state.matrix[5][1], Tile::T);
}

#[test]
fn clearing_the_bottom_row_moves_every_row() {
    let mut state = blank();
    for y in 0..20 {
        state.matrix[y % 10][y] = Tile::S;
    }
    let before = state.clone();
    clear_row(&mut state, 19);
    for x in 0..10 {
        assert_eq!(state.matrix[x][0], Tile::Empty);
        for y in 1..20 {
            assert_eq!(state.matrix[x][y], before.matrix[x][y - 1]);
        }
    }
}

#[test]
fn clearing_a_row_above_the_board_empties_the_top_row() {
    let mut state = blank();
    state.matrix[4][0] = Tile::I;
    state.matrix[4][1] = Tile::J;
    clear_row(&mut state, -3);
    assert_eq!(state.matrix[4][0], Tile::Empty);
    assert_eq!(state.matrix[4][1], Tile::J);
    assert_eq!(state.lines_cleared, 1);
}

#[test]
fn sweep_of_a_board_without_full_rows() {
    let mut state = blank();
    state.matrix[0][19] = Tile::I;
    state.matrix[9][0] = Tile::O;
    let expected = state.clone();
    clear_full_rows(&mut state);
    assert_eq!(state, expected);
}

#[test]
fn sweep_of_a_single_full_row() {
    let mut state = blank();
    fill_row(&mut state, 19, Tile::I);
    state.matrix[3][18] = Tile::T;
    state.matrix[6][17] = Tile::Z;
    let mut expected = state.clone();
    clear_row(&mut expected, 19);
    clear_full_rows(&mut state);
    assert_eq!(state, expected);
    assert_eq!(state.lines_cleared, 1);
    assert_eq!(state.matrix[3][19], Tile::T);
    assert_eq!(state.matrix[6][18], Tile::Z);
}

#[test]
fn sweep_of_two_adjacent_full_rows() {
    let mut state = blank();
    fill_row(&mut state, 18, Tile::I);
    fill_row(&mut state, 19, Tile::O);
    state.matrix[2][17] = Tile::T;
    state.matrix[5][16] = Tile::S;
    clear_full_rows(&mut state);
    assert_eq!(state.lines_cleared, 2);
    for y in 0..20 {
        assert!(!is_row_full(&state, y));
    }
    let mut expected = blank();
    expected.matrix[2][19] = Tile::T;
    expected.matrix[5][18] = Tile::S;
    expected.lines_cleared = 2;
    assert_eq!(state, expected);
}

#[test]
fn sweep_of_four_full_rows_with_gaps_between() {
    let mut state = blank();
    fill_row(&mut state, 19, Tile::I);
    fill_row(&mut state, 18, Tile::I);
    state.matrix[0][17] = Tile::J;
    fill_row(&mut state, 16, Tile::I);
    state.matrix[1][15] = Tile::L;
    state.matrix[2][14] = Tile::T;
    fill_row(&mut state, 13, Tile::I);
    state.matrix[3][12] = Tile::Z;
    state.lines_cleared = 10;
    clear_full_rows(&mut state);
    let mut expected = blank();
    expected.matrix[0][19] = Tile::J;
    expected.matrix[1][18] = Tile::L;
    expected.matrix[2][17] = Tile::T;
    expected.matrix[3][16] = Tile::Z;
    expected.lines_cleared = 14;
    assert_eq!(state, expected);
}

#[test]
fn sweep_of_a_board_of_full_rows() {
    let mut state = blank();
    for y in 0..20 {
        fill_row(&mut state, y, Tile::S);
    }
    clear_full_rows(&mut state);
    let mut expected = blank();
    expected.lines_cleared = 20;
    assert_eq!(state, expected);
}

#[test]
fn a_new_bag_holds_every_kind_once() {
    for _ in 0..200 {
        let bag = generate_bag();
        assert!(is_permutation(&bag));
    }
}

#[test]
fn new_bags_come_in_different_orders() {
    let mut changed = false;
    for _ in 0..200 {
        if generate_bag() != FIRST {
            changed = true;
        }
    }
    assert!(changed);
}

#[test]
fn a_deal_takes_the_kind_under_the_cursor() {
    let mut state = blank();
    state.can_hold = false;
    state.index = 3;
    next_piece_with(&mut state, THIRD);
    assert_eq!(state.tetrimino, generate_tetrimino(Tile::S));
    assert_eq!(state.index, 4);
    assert!(state.can_hold);
    assert!(!state.game_over);
    assert_eq!(state.bag1, FIRST);
    assert_eq!(state.bag2, SECOND);
}

#[test]
fn the_eighth_deal_comes_from_the_second_bag() {
    let mut state = blank();
    for i in 0..7 {
        next_piece_with(&mut state, THIRD);
        assert_eq!(state.tetrimino.name, FIRST[i]);
        assert_eq!(state.index as usize, i + 1);
        assert_eq!(state.bag1, FIRST);
        assert_eq!(state.bag2, SECOND);
    }
    next_piece_with(&mut state, THIRD);
    assert_eq!(state.tetrimino, generate_tetrimino(Tile::L));
    assert_eq!(state.bag1, SECOND);
    assert_eq!(state.bag2, THIRD);
    assert_eq!(state.index, 1);
    assert!(!state.game_over);
}

#[test]
fn eight_deals_with_shuffled_bags() {
    let mut state = blank();
    for _ in 0..7 {
        next_piece(&mut state);
    }
    assert_eq!(state.index, 7);
    assert_eq!(state.bag2, SECOND);
    next_piece(&mut state);
    assert_eq!(state.tetrimino.name, Tile::L);
    assert_eq!(state.bag1, SECOND);
    assert!(is_permutation(&state.bag2));
    assert_eq!(state.index, 1);
    for _ in 0..30 {
        next_piece(&mut state);
        assert!(is_permutation(&state.bag1));
        assert!(is_permutation(&state.bag2));
        assert!(state.index >= 1 && state.index <= 7);
    }
}

#[test]
fn a_deal_with_a_cursor_far_out_starts_the_second_bag() {
    let mut state = blank();
    state.index = 200;
    next_piece_with(&mut state, THIRD);
    assert_eq!(state.tetrimino.name, Tile::L);
    assert_eq!(state.index, 1);
    assert_eq!(state.bag2, THIRD);
}

#[test]
fn a_deal_onto_a_tile_ends_the_game() {
    let mut state = blank();
    state.matrix[4][0] = Tile::Z;
    next_piece_with(&mut state, THIRD);
    assert!(state.game_over);
    assert_eq!(state.tetrimino, generate_tetrimino(Tile::I));
    assert_eq!(state.index, 1);
}

#[test]
fn a_deal_beside_a_tile_goes_on() {
    let mut state = blank();
    state.matrix[4][1] = Tile::Z;
    state.matrix[2][0] = Tile::Z;
    state.matrix[7][0] = Tile::Z;
    next_piece_with(&mut state, THIRD);
    assert!(!state.game_over);
}

#[test]
fn solidify_locks_and_deals() {
    let mut state = blank();
    state.tetrimino = generate_offset_tetrimino(&generate_tetrimino(Tile::O), Point(0, 18));
    state.index = 2;
    state.can_hold = false;
    solidify_tetrimino_with(&mut state, THIRD);
    assert_eq!(state.matrix[4][18], Tile::O);
    assert_eq!(state.matrix[5][18], Tile::O);
    assert_eq!(state.matrix[4][19], Tile::O);
    assert_eq!(state.matrix[5][19], Tile::O);
    assert_eq!(state.tetrimino, generate_tetrimino(Tile::T));
    assert_eq!(state.index, 3);
    assert!(state.can_hold);
    assert!(!state.game_over);
}

#[test]
fn solidify_at_the_top_ends_the_game() {
    let mut state = blank();
    state.tetrimino = generate_tetrimino(Tile::O);
    solidify_tetrimino(&mut state);
    assert_eq!(state.matrix[4][0], Tile::O);
    assert_eq!(state.tetrimino.name, Tile::I);
    assert!(state.game_over);
}
