use tetrs::engine::{apply_action_with, new_game_with, Action};
use tetrs::piece::generate_tetrimino;
use tetrs::render::{get_next_5, push_decimal, state_to_string};
use tetrs::state::GameState;
use tetrs::tile::{Point, Tile};

const ONE: [Tile; 7] = [Tile::I, Tile::O, Tile::T, Tile::S, Tile::Z, Tile::J, Tile::L];
const TWO: [Tile; 7] = [Tile::L, Tile::J, Tile::Z, Tile::S, Tile::T, Tile::O, Tile::I];

fn plain() -> GameState {
    GameState {
        matrix: [[Tile::Empty; 20]; 10],
        tetrimino: generate_tetrimino(Tile::Empty),
        game_over: false,
        can_hold: true,
        held: Tile::Empty,
        bag1: ONE,
        bag2: TWO,
        index: 0,
        lines_cleared: 0,
    }
}

fn number(n: i32) -> String {
    let mut out = String::new();
    push_decimal(&mut out, n);
    out
}

#[test]
fn lookahead_from_the_start_of_the_bag() {
    assert_eq!(get_next_5(&plain()), "I O T S Z ");
}

#[test]
fn lookahead_across_the_bags() {
    let mut state = plain();
    state.index = 2;
    assert_eq!(get_next_5(&state), "T S Z J L ");
    state.index = 3;
    assert_eq!(get_next_5(&state), "S Z J L L ");
    state.index = 5;
    assert_eq!(get_next_5(&state), "J L L J Z ");
    state.index = 7;
    assert_eq!(get_next_5(&state), "L J Z S T ");
    state.index = 9;
    assert_eq!(get_next_5(&state), "Z S T O I ");
}

#[test]
fn numbers_in_decimal() {
    assert_eq!(number(0), "0");
    assert_eq!(number(7), "7");
    assert_eq!(number(10), "10");
    assert_eq!(number(42), "42");
    assert_eq!(number(1609), "1609");
    assert_eq!(number(i32::MAX), "2147483647");
    assert_eq!(number(-1), "-1");
    assert_eq!(number(-350), "-350");
    assert_eq!(number(i32::MIN), "-2147483648");
}

#[test]
fn a_number_is_put_after_what_is_there() {
    let mut out = String::from("Lines: ");
    push_decimal(&mut out, 120);
    assert_eq!(out, "Lines: 120");
}

#[test]
fn screen_of_an_empty_game() {
    let state = plain();
    let blank = "| | | | | | | | | | |";
    let mut lines: Vec<String> = (0..20).map(|_| blank.to_string()).collect();
    lines[0].push_str(" Next: I O T S Z ");
    lines[2].push_str(" Held: None, Can hold: true");
    lines[4].push_str(" Lines cleared: 0");
    assert_eq!(state_to_string(&state), lines.join("\r\n"));
}

#[test]
fn screen_with_piece_and_tiles() {
    let mut state = plain();
    state.tetrimino = generate_tetrimino(Tile::T);
    state.index = 3;
    state.held = Tile::O;
    state.can_hold = false;
    state.lines_cleared = 17;
    state.matrix[0][19] = Tile::J;
    state.matrix[1][19] = Tile::J;
    state.matrix[9][19] = Tile::Z;
    state.matrix[9][18] = Tile::L;
    state.matrix[4][1] = Tile::S;
    state.matrix[6][6] = Tile::I;
    let expected = [
        "| | | | |T| | | | | | Next: S Z J L L ",
        "| | | |T|T|T| | | | |",
        "| | | | | | | | | | | Held: O, Can hold: false",
        "| | | | | | | | | | |",
        "| | | | | | | | | | | Lines cleared: 17",
        "| | | | | | | | | | |",
        "| | | | | | |I| | | |",
        "| | | | | | | | | | |",
        "| | | | | | | | | | |",
        "| | | | | | | | | | |",
        "| | | | | | | | | | |",
        "| | | | | | | | | | |",
        "| | | | | | | | | | |",
        "| | | | | | | | | | |",
        "| | | | | | | | | | |",
        "| | | | | | | | | | |",
        "| | | | | | | | | | |",
        "| | | | | | | | | | |",
        "| | | | | | | | | |L|",
        "|J|J| | | | | | | |Z|",
    ]
    .join("\r\n");
    assert_eq!(state_to_string(&state), expected);
}

#[test]
fn screen_of_a_game_that_is_over() {
    let mut state = plain();
    state.game_over = true;
    state.tetrimino = generate_tetrimino(Tile::I);
    state.tetrimino.position = Point(4, 8);
    let text = state_to_string(&state);
    let lines: Vec<&str> = text.split("\r\n").collect();
    assert_eq!(lines.len(), 20);
    assert_eq!(lines[6], "| | | | | | | | | | | Game over! Press enter to continue.");
    assert_eq!(lines[7], "| | | |I|I|I|I| | | |");
    assert_eq!(lines[5], "| | | | | | | | | | |");
}

#[test]
fn screen_draws_the_piece_over_the_board() {
    let mut state = plain();
    state.tetrimino = generate_tetrimino(Tile::O);
    state.matrix[4][0] = Tile::Z;
    state.matrix[6][0] = Tile::Z;
    let text = state_to_string(&state);
    let lines: Vec<&str> = text.split("\r\n").collect();
    assert_eq!(lines[0], "| | | | |O|O|Z| | | | Next: I O T S Z ");
    assert_eq!(lines[1], "| | | | |O|O| | | | |");
}

#[test]
fn screen_after_a_hard_drop() {
    let mut session = new_game_with(ONE, TWO);
    apply_action_with(&mut session, Action::HardDrop, TWO);
    let text = state_to_string(&session.state);
    let lines: Vec<&str> = text.split("\r\n").collect();
    assert_eq!(lines[0], "| | | | |O|O| | | | | Next: T S Z J L ");
    assert_eq!(lines[1], "| | | | |O|O| | | | |");
    assert_eq!(lines[2], "| | | | | | | | | | | Held: None, Can hold: true");
    assert_eq!(lines[4], "| | | | | | | | | | | Lines cleared: 0");
    assert_eq!(lines[19], "| | | |I|I|I|I| | | |");
}
