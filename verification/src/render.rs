use vstd::prelude::*;
use vstd::string::StringExecFns;
use crate::tile::{Tile, Point, tile_symbol, tile_to_char};
use crate::piece::tetrimino_at_coords;
use crate::state::{GameState, Game};

verus! {

/// Assumed of std, not proved here: `String::push` puts the character at the
/// end of the string.
pub assume_specification[ String::push ](s: &mut String, ch: char)
    ensures
        final(s)@ == old(s)@.push(ch),
;

/// The kind that will be dealt after `k` more deals: the first bag from the
/// cursor on, and then the second bag from its start.
pub open spec fn upcoming(s: Game, k: int) -> Tile {
    if s.index + k < 7 {
        s.bag1[s.index + k]
    } else {
        s.bag2[s.index + k - 7]
    }
}

/// The next five kinds as text: the letter of each, with a blank after it.
pub open spec fn lookahead_text(s: Game) -> Seq<char> {
    Seq::new(
        10,
        |i: int|
            if i % 2 == 0 {
                tile_symbol(upcoming(s, i / 2))
            } else {
                ' '
            },
    )
}

/// The character shown for a board position: the letter of the piece in play
/// where it has a block, and else what the board holds.
pub open spec fn shown(s: Game, x: int, y: int) -> char {
    if s.tetrimino.occupies((x, y)) {
        tile_symbol(s.tetrimino.name)
    } else {
        tile_symbol(s.matrix[x][y])
    }
}

/// The first `columns` positions of row `y` as text, each between two bars.
pub open spec fn board_line(s: Game, y: int, columns: int) -> Seq<char> {
    Seq::new(
        (2 * columns + 1) as nat,
        |i: int|
            if i % 2 == 0 {
                '|'
            } else {
                shown(s, i / 2, y)
            },
    )
}

/// The digit for a number below ten.
pub open spec fn digit_char(d: int) -> char {
    seq!['0', '1', '2', '3', '4', '5', '6', '7', '8', '9'][d]
}

/// The decimal digits of a number, without leading zeros.
pub open spec fn digits(n: nat) -> Seq<char>
    decreases n,
{
    if n < 10 {
        seq![digit_char(n as int)]
    } else {
        digits(n / 10).push(digit_char((n % 10) as int))
    }
}

/// A number in decimal, with a minus sign before a negative one.
pub open spec fn decimal(n: int) -> Seq<char> {
    if n < 0 {
        seq!['-'] + digits((-n) as nat)
    } else {
        digits(n as nat)
    }
}

/// The hold slot as text.
pub open spec fn held_text(held: Tile) -> Seq<char> {
    if held == Tile::Empty {
        "None"@
    } else {
        seq![tile_symbol(held)]
    }
}

/// A flag as text.
pub open spec fn flag_text(flag: bool) -> Seq<char> {
    if flag {
        "true"@
    } else {
        "false"@
    }
}

/// What stands to the right of row `y` of the board.
pub open spec fn side_note(s: Game, y: int) -> Seq<char> {
    if y == 0 {
        " Next: "@ + lookahead_text(s)
    } else if y == 2 {
        " Held: "@ + held_text(s.held) + ", Can hold: "@ + flag_text(s.can_hold)
    } else if y == 4 {
        " Lines cleared: "@ + decimal(s.lines_cleared)
    } else if y == 6 && s.game_over {
        " Game over! Press enter to continue."@
    } else {
        Seq::empty()
    }
}

/// The first `rows` rows of the screen, each a board row with its side note,
/// with a line break between two rows.
pub open spec fn screen(s: Game, rows: int) -> Seq<char>
    decreases rows,
{
    if rows <= 0 {
        Seq::empty()
    } else if rows == 1 {
        board_line(s, 0, 10) + side_note(s, 0)
    } else {
        screen(s, rows - 1) + "\r\n"@ + board_line(s, rows - 1, 10) + side_note(s, rows - 1)
    }
}

/// The next five kinds to be dealt, as text. The five must lie within the two
/// bags, which they do as long as the cursor is not more than two past the
/// end of the first.
pub fn get_next_5(state: &GameState) -> (string: String)
    requires
        state.index <= 9,
    ensures
        string@ == lookahead_text(state@),
{
    let mut string = String::new();
    let mut i: u8 = state.index;
    while i < state.index + 5
        invariant
            state.index <= 9,
            state.index <= i <= state.index + 5,
            string@.len() == 2 * (i - state.index),
            forall|j: int| 0 <= j < string@.len() ==> string@[j] == lookahead_text(state@)[j],
        decreases state.index + 5 - i,
    {
        let tile = if i < 7 {
            state.bag1[i as usize]
        } else {
            state.bag2[i as usize - 7]
        };
        assert(tile == upcoming(state@, i - state.index));
        string.push(tile_to_char(&tile));
        string.push(' ');
        i += 1;
    }
    assert(string@ =~= lookahead_text(state@));
    string
}

/// The digit for a number below ten.
fn digit(d: u32) -> (c: char)
    requires
        d < 10,
    ensures
        c == digit_char(d as int),
{
    match d {
        0 => '0',
        1 => '1',
        2 => '2',
        3 => '3',
        4 => '4',
        5 => '5',
        6 => '6',
        7 => '7',
        8 => '8',
        _ => '9',
    }
}

/// Appends the decimal digits of the number.
fn push_digits(out: &mut String, n: u32)
    ensures
        final(out)@ == old(out)@ + digits(n as nat),
    decreases n,
{
    if n >= 10 {
        push_digits(out, n / 10);
    }
    out.push(digit(n % 10));
    assert(out@ =~= old(out)@ + digits(n as nat));
}

/// Appends the number in decimal.
pub fn push_decimal(out: &mut String, n: i32)
    ensures
        final(out)@ == old(out)@ + decimal(n as int),
{
    if n < 0 {
        out.push('-');
        let size: u32 = (-(n as i64)) as u32;
        push_digits(out, size);
        assert(out@ =~= old(out)@ + decimal(n as int));
    } else {
        push_digits(out, n as u32);
    }
}

/// The screen as text: twenty rows of the board, from the top, with the piece
/// in play drawn over the board; beside them the next five kinds, the hold
/// slot and whether holding is allowed, the count of cleared lines, and, once
/// the game is over, a note that says so. The rows are parted by a carriage
/// return and a line feed.
pub fn state_to_string(state: &GameState) -> (out: String)
    requires
        state.index <= 9,
    ensures
        out@ == screen(state@, 20),
{
    let mut out = String::new();
    let mut row: usize = 0;
    while row < 20
        invariant
            state.index <= 9,
            row <= 20,
            out@ == screen(state@, row as int),
        decreases 20 - row,
    {
        if row > 0 {
            out.append("\r\n");
        }
        let ghost start = out@;
        out.push('|');
        let mut col: i8 = 0;
        while col < 10
            invariant
                row < 20,
                0 <= col <= 10,
                out@ == start + board_line(state@, row as int, col as int),
            decreases 10 - col,
        {
            if tetrimino_at_coords(&state.tetrimino, Point(col, row as i8)) {
                out.push(tile_to_char(&state.tetrimino.name));
            } else {
                let cell = state.matrix[col as usize][row];
                out.push(tile_to_char(&cell));
            }
            out.push('|');
            assert(out@ =~= start + board_line(state@, row as int, col + 1));
            col += 1;
        }
        let ghost drawn = out@;
        if row == 0 {
            out.append(" Next: ");
            let next = get_next_5(state);
            out.append(next.as_str());
        } else if row == 2 {
            out.append(" Held: ");
            match state.held {
                Tile::Empty => {
                    out.append("None");
                },
                _ => {
                    out.push(tile_to_char(&state.held));
                },
            }
            out.append(", Can hold: ");
            if state.can_hold {
                out.append("true");
            } else {
                out.append("false");
            }
        } else if row == 4 {
            out.append(" Lines cleared: ");
            push_decimal(&mut out, state.lines_cleared);
        } else if row == 6 && state.game_over {
            out.append(" Game over! Press enter to continue.");
        }
        assert(out@ =~= drawn + side_note(state@, row as int));
        assert(out@ =~= screen(state@, row + 1));
        row += 1;
    }
    out
}

} // verus!
