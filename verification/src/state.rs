use vstd::prelude::*;
use crate::tile::{Tile, Point, Direction};
use crate::grid::filled;
use crate::piece::{
    Tetrimino, Piece, generate_offset_tetrimino, generate_transformed_tetrimino,
    generate_tetrimino_iterable, lists,
};

verus! {

/// All that a game in progress holds: the board (indexed by column, then row,
/// from the top left), the piece in play, the hold slot, the two bags from which
/// pieces are dealt with the cursor into the first, and the count of cleared lines.
#[derive(Clone, Debug, PartialEq, Eq)]
pub struct GameState {
    pub matrix: [[Tile; 20]; 10],
    pub tetrimino: Tetrimino,
    pub game_over: bool,
    pub can_hold: bool,
    pub held: Tile,
    pub bag1: [Tile; 7],
    pub bag2: [Tile; 7],
    pub index: u8,
    pub lines_cleared: i32,
}

/// The mathematical value of a game state.
pub struct Game {
    pub matrix: Seq<Seq<Tile>>,
    pub tetrimino: Piece,
    pub game_over: bool,
    pub can_hold: bool,
    pub held: Tile,
    pub bag1: Seq<Tile>,
    pub bag2: Seq<Tile>,
    pub index: int,
    pub lines_cleared: int,
}

/// The board as ten columns of twenty tiles each.
pub open spec fn board_view(matrix: [[Tile; 20]; 10]) -> Seq<Seq<Tile>> {
    Seq::new(10, |x: int| matrix@[x]@)
}

impl View for GameState {
    type V = Game;

    open spec fn view(&self) -> Game {
        Game {
            matrix: board_view(self.matrix),
            tetrimino: self.tetrimino@,
            game_over: self.game_over,
            can_hold: self.can_hold,
            held: self.held,
            bag1: self.bag1@,
            bag2: self.bag2@,
            index: self.index as int,
            lines_cleared: self.lines_cleared as int,
        }
    }
}

/// Whether the position lies on the board.
pub open spec fn in_bounds(c: (int, int)) -> bool {
    0 <= c.0 < 10 && 0 <= c.1 < 20
}

/// Whether a block cannot go to the position: it lies off the board, or the
/// board holds a tile there.
pub open spec fn blocked(board: Seq<Seq<Tile>>, c: (int, int)) -> bool {
    !in_bounds(c) || board[c.0][c.1] != Tile::Empty
}

/// Whether the placement of the piece is illegal: one of its blocks lies off
/// the board or on a tile of the board.
pub open spec fn overlaps(piece: Piece, board: Seq<Seq<Tile>>) -> bool {
    exists|x: int, y: int|
        #[trigger] filled(piece.shape, x, y) && blocked(board, piece.absolute(x, y))
}

/// Whether every block of the piece lies on the board.
pub open spec fn on_board(piece: Piece) -> bool {
    forall|x: int, y: int| #[trigger] filled(piece.shape, x, y) ==> in_bounds(piece.absolute(x, y))
}

/// Whether the piece overlaps the board: true if any of its blocks falls
/// outside the ten columns and twenty rows, or on a position that holds a tile.
pub fn check_tetrimino_overlap(tetrimino: &Tetrimino, state: &GameState) -> (overlap: bool)
    ensures
        overlap == overlaps(tetrimino@, state@.matrix),
{
    let ghost piece = tetrimino@;
    let ghost board = state@.matrix;
    let mut x: usize = 0;
    while x < tetrimino.shape.len()
        invariant
            piece == tetrimino@,
            board == state@.matrix,
            x <= tetrimino.shape@.len(),
            forall|a: int, b: int| #[trigger]
                filled(piece.shape, a, b) && a < x ==> !blocked(board, piece.absolute(a, b)),
        decreases tetrimino.shape@.len() - x,
    {
        let mut y: usize = 0;
        while y < tetrimino.shape[x].len()
            invariant
                piece == tetrimino@,
                board == state@.matrix,
                x < tetrimino.shape@.len(),
                y <= tetrimino.shape@[x as int]@.len(),
                forall|a: int, b: int| #[trigger]
                    filled(piece.shape, a, b) && (a < x || (a == x && b < y)) ==> !blocked(
                        board,
                        piece.absolute(a, b),
                    ),
            decreases tetrimino.shape@[x as int]@.len() - y,
        {
            if tetrimino.shape[x][y] {
                let column: i128 = x as i128 + tetrimino.position.0 as i128
                    - tetrimino.center.0 as i128;
                let row: i128 = y as i128 + tetrimino.position.1 as i128
                    - tetrimino.center.1 as i128;
                assert(filled(piece.shape, x as int, y as int));
                assert((column as int, row as int) == piece.absolute(x as int, y as int));
                if column >= 10 || column < 0 || row >= 20 || row < 0 {
                    return true;
                } else if state.matrix[column as usize][row as usize] != Tile::Empty {
                    return true;
                }
            }
            y += 1;
        }
        x += 1;
    }
    false
}

/// Moves the piece in play by `offset` if the new placement is legal, and says
/// whether it did. An illegal move leaves the state as it was.
pub fn move_tetrimino(state: &mut GameState, offset: Point) -> (moved: bool)
    requires
        i8::MIN <= old(state).tetrimino.position.0 + offset.0 <= i8::MAX,
        i8::MIN <= old(state).tetrimino.position.1 + offset.1 <= i8::MAX,
    ensures
        moved == !overlaps(
            old(state)@.tetrimino.translated(offset.0 as int, offset.1 as int),
            old(state)@.matrix,
        ),
        moved ==> final(state)@ == (Game {
            tetrimino: old(state)@.tetrimino.translated(offset.0 as int, offset.1 as int),
            ..old(state)@
        }),
        !moved ==> final(state)@ == old(state)@,
{
    let possible_tetrimino = generate_offset_tetrimino(&state.tetrimino, offset);
    if !check_tetrimino_overlap(&possible_tetrimino, state) {
        state.tetrimino = possible_tetrimino;
        return true;
    }
    false
}

/// Turns the piece in play, and moves it by `offset`, if the new placement is
/// legal, and says whether it did. An illegal turn leaves the state as it was.
pub fn transform_tetrimino(state: &mut GameState, offset: Point, rotation: Direction) -> (turned:
    bool)
    requires
        i8::MIN <= old(state).tetrimino.position.0 + offset.0 <= i8::MAX,
        i8::MIN <= old(state).tetrimino.position.1 + offset.1 <= i8::MAX,
    ensures
        turned == !overlaps(
            old(state)@.tetrimino.turned(rotation).translated(offset.0 as int, offset.1 as int),
            old(state)@.matrix,
        ),
        turned ==> final(state)@ == (Game {
            tetrimino: old(state)@.tetrimino.turned(rotation).translated(
                offset.0 as int,
                offset.1 as int,
            ),
            ..old(state)@
        }),
        !turned ==> final(state)@ == old(state)@,
{
    let possible_tetrimino = generate_transformed_tetrimino(&state.tetrimino, offset, rotation);
    if !check_tetrimino_overlap(&possible_tetrimino, state) {
        state.tetrimino = possible_tetrimino;
        return true;
    }
    false
}

/// The board after the piece has been set into it: every position under a
/// block of the piece holds the kind of the piece, every other position holds
/// what it held.
pub open spec fn locked(board: Seq<Seq<Tile>>, piece: Piece) -> Seq<Seq<Tile>> {
    Seq::new(
        10,
        |x: int|
            Seq::new(
                20,
                |y: int|
                    if piece.occupies((x, y)) {
                        piece.name
                    } else {
                        board[x][y]
                    },
            ),
    )
}

/// Whether every column holds a tile at the row.
pub open spec fn row_full(board: Seq<Seq<Tile>>, row: int) -> bool {
    forall|x: int| 0 <= x < 10 ==> (#[trigger] board[x])[row] != Tile::Empty
}

/// The board after the row has been taken out: the rows above it have come
/// down by one, the top row is empty, the rows below it are as they were.
pub open spec fn row_cleared(board: Seq<Seq<Tile>>, row: int) -> Seq<Seq<Tile>> {
    Seq::new(
        10,
        |x: int|
            Seq::new(
                20,
                |y: int|
                    if y == 0 {
                        Tile::Empty
                    } else if y <= row {
                        board[x][y - 1]
                    } else {
                        board[x][y]
                    },
            ),
    )
}

/// Sets the piece in play into the board: the position under each of its blocks
/// takes the kind of the piece, and nothing else changes. The blocks must lie on
/// the board, as those of a legally placed piece do.
pub fn lock_tetrimino(state: &mut GameState)
    requires
        on_board(old(state)@.tetrimino),
    ensures
        final(state)@ == (Game {
            matrix: locked(old(state)@.matrix, old(state)@.tetrimino),
            ..old(state)@
        }),
{
    let ghost before = old(state)@;
    let ghost piece = before.tetrimino;
    assert(piece.fits_points()) by {
        assert forall|x: int, y: int| #[trigger] filled(piece.shape, x, y) implies {
            &&& i8::MIN <= piece.absolute(x, y).0 <= i8::MAX
            &&& i8::MIN <= piece.absolute(x, y).1 <= i8::MAX
        } by {
            assert(in_bounds(piece.absolute(x, y)));
        }
    }
    let cells = generate_tetrimino_iterable(&state.tetrimino);
    let mut i: usize = 0;
    while i < cells.len()
        invariant
            i <= cells@.len(),
            before == old(state)@,
            piece == before.tetrimino,
            on_board(piece),
            forall|c: (int, int)| piece.occupies(c) <==> lists(cells@, c),
            state@ == (Game { matrix: state@.matrix, ..before }),
            state@.matrix.len() == 10,
            forall|x: int, y: int|
                0 <= x < 10 && 0 <= y < 20 ==> #[trigger] state@.matrix[x][y] == if lists(
                    cells@.take(i as int),
                    (x, y),
                ) {
                    piece.name
                } else {
                    before.matrix[x][y]
                },
        decreases cells@.len() - i,
    {
        let Point(x, y) = cells[i];
        proof {
            let c = (x as int, y as int);
            assert(cells@[i as int]@ == c);
            assert(lists(cells@, c));
            assert(piece.occupies(c));
            assert(filled(piece.shape, piece.local(c).0, piece.local(c).1));
            assert(in_bounds(piece.absolute(piece.local(c).0, piece.local(c).1)));
        }
        let ghost earlier = state@.matrix;
        state.matrix[x as usize][y as usize] = state.tetrimino.name;
        proof {
            let done = cells@.take(i as int);
            let more = cells@.take(i + 1);
            assert forall|a: int, b: int|
                0 <= a < 10 && 0 <= b < 20 implies #[trigger] state@.matrix[a][b]
                == if lists(more, (a, b)) {
                piece.name
            } else {
                before.matrix[a][b]
            } by {
                assert(earlier[a][b] == if lists(done, (a, b)) {
                    piece.name
                } else {
                    before.matrix[a][b]
                });
                if a == x && b == y {
                    assert(more[i as int]@ == (a, b));
                } else if lists(done, (a, b)) {
                    let j = choose|j: int| 0 <= j < done.len() && (#[trigger] done[j])@ == (a, b);
                    assert(more[j]@ == (a, b));
                } else if lists(more, (a, b)) {
                    let j = choose|j: int| 0 <= j < more.len() && (#[trigger] more[j])@ == (a, b);
                    assert(done[j]@ == (a, b));
                }
            }
        }
        i += 1;
    }
    proof {
        assert(cells@.take(i as int) =~= cells@);
        assert(state@.matrix =~~= locked(before.matrix, piece));
    }
}

/// Whether every column of the board holds a tile at the row.
pub fn is_row_full(state: &GameState, row: usize) -> (full: bool)
    requires
        row < 20,
    ensures
        full == row_full(state@.matrix, row as int),
{
    let mut col: usize = 0;
    while col < 10
        invariant
            row < 20,
            col <= 10,
            forall|x: int|
                0 <= x < col ==> (#[trigger] state@.matrix[x])[row as int] != Tile::Empty,
        decreases 10 - col,
    {
        if state.matrix[col][row] == Tile::Empty {
            assert(state@.matrix[col as int][row as int] == Tile::Empty);
            return false;
        }
        col += 1;
    }
    true
}

/// Takes the row out of the board and counts it: every row above it comes down
/// by one and the top row becomes empty. For a row above the board only the
/// top row is emptied.
pub fn clear_row(state: &mut GameState, row: i8)
    requires
        row < 20,
        old(state).lines_cleared < i32::MAX,
    ensures
        final(state)@ == (Game {
            matrix: row_cleared(old(state)@.matrix, row as int),
            lines_cleared: old(state)@.lines_cleared + 1,
            ..old(state)@
        }),
{
    let ghost before = old(state)@;
    state.lines_cleared += 1;
    let mut x: usize = 0;
    while x < 10
        invariant
            row < 20,
            x <= 10,
            before == old(state)@,
            state@ == (Game {
                matrix: state@.matrix,
                lines_cleared: before.lines_cleared + 1,
                ..before
            }),
            forall|a: int, b: int|
                0 <= a < x && 0 <= b < 20 ==> #[trigger] state@.matrix[a][b] == row_cleared(
                    before.matrix,
                    row as int,
                )[a][b],
            forall|a: int, b: int|
                x <= a < 10 && 0 <= b < 20 ==> #[trigger] state@.matrix[a][b]
                    == before.matrix[a][b],
        decreases 10 - x,
    {
        let mut y: i8 = if row > 0 {
            row
        } else {
            0
        };
        while y > 0
            invariant
                row < 20,
                x < 10,
                0 <= y <= 19,
                y <= row || y == 0,
                before == old(state)@,
                state@ == (Game {
                    matrix: state@.matrix,
                    lines_cleared: before.lines_cleared + 1,
                    ..before
                }),
                forall|a: int, b: int|
                    0 <= a < x && 0 <= b < 20 ==> #[trigger] state@.matrix[a][b] == row_cleared(
                        before.matrix,
                        row as int,
                    )[a][b],
                forall|a: int, b: int|
                    x < a < 10 && 0 <= b < 20 ==> #[trigger] state@.matrix[a][b]
                        == before.matrix[a][b],
                forall|b: int|
                    0 <= b < 20 ==> state@.matrix[x as int][b] == if y < b <= row {
                        before.matrix[x as int][b - 1]
                    } else {
                        before.matrix[x as int][b]
                    },
            decreases y,
        {
            y -= 1;
            let ghost earlier = state@.matrix;
            state.matrix[x][y as usize + 1] = state.matrix[x][y as usize];
            assert forall|a: int, b: int|
                0 <= a < 10 && 0 <= b < 20 implies #[trigger] state@.matrix[a][b]
                == if a == x && b == y + 1 {
                earlier[a][y as int]
            } else {
                earlier[a][b]
            } by {}
        }
        let ghost earlier = state@.matrix;
        state.matrix[x][0] = Tile::Empty;
        assert forall|a: int, b: int|
            0 <= a < 10 && 0 <= b < 20 implies #[trigger] state@.matrix[a][b]
            == if a == x && b == 0 {
            Tile::Empty
        } else {
            earlier[a][b]
        } by {}
        x += 1;
    }
    assert(state@.matrix =~~= row_cleared(before.matrix, row as int));
}

/// What taking a row out does to the board, whatever the count of lines
/// stands at: every row from the top down to the row taken out holds what
/// the row above it held, the top row is empty, and the rows below are as
/// they were.
pub proof fn lemma_row_cleared(board: Seq<Seq<Tile>>, row: int)
    requires
        0 <= row < 20,
    ensures
        forall|x: int, y: int|
            0 <= x < 10 && 1 <= y <= row ==> #[trigger] row_cleared(board, row)[x][y]
                == board[x][y - 1],
        forall|x: int| 0 <= x < 10 ==> (#[trigger] row_cleared(board, row)[x])[0] == Tile::Empty,
        forall|x: int, y: int|
            0 <= x < 10 && row < y < 20 ==> #[trigger] row_cleared(board, row)[x][y] == board[x][y],
        forall|y: int| 0 <= y < 20 ==> (#[trigger] row_full(row_cleared(board, row), y) <==> {
            if y == 0 {
                false
            } else if y <= row {
                row_full(board, y - 1)
            } else {
                row_full(board, y)
            }
        }),
{
    let after = row_cleared(board, row);
    assert forall|y: int| 0 <= y < 20 implies (#[trigger] row_full(after, y) <==> {
        if y == 0 {
            false
        } else if y <= row {
            row_full(board, y - 1)
        } else {
            row_full(board, y)
        }
    }) by {
        let from = if y <= row {
            y - 1
        } else {
            y
        };
        if y == 0 {
            assert(after[0][0] == Tile::Empty);
        } else {
            assert forall|x: int| 0 <= x < 10 implies (#[trigger] after[x])[y]
                == board[x][from] by {}
            if row_full(after, y) {
                assert forall|x: int| 0 <= x < 10 implies (#[trigger] board[x])[from]
                    != Tile::Empty by {
                    assert(after[x][y] != Tile::Empty);
                }
            }
            if row_full(board, from) {
                assert forall|x: int| 0 <= x < 10 implies (#[trigger] after[x])[y]
                    != Tile::Empty by {
                    assert(board[x][from] != Tile::Empty);
                }
            }
        }
    }
}

/// A piece overlaps the board exactly if one of the positions it covers is
/// off the board or holds a tile.
pub proof fn lemma_overlaps_by_cells(piece: Piece, board: Seq<Seq<Tile>>)
    ensures
        overlaps(piece, board) <==> exists|c: (int, int)| #[trigger]
            piece.occupies(c) && blocked(board, c),
{
    if overlaps(piece, board) {
        let (x, y) = choose|x: int, y: int| #[trigger]
            filled(piece.shape, x, y) && blocked(board, piece.absolute(x, y));
        let c = piece.absolute(x, y);
        assert(piece.local(c) == (x, y));
        assert(piece.occupies(c) && blocked(board, c));
    }
    if exists|c: (int, int)| #[trigger] piece.occupies(c) && blocked(board, c) {
        let c = choose|c: (int, int)| #[trigger] piece.occupies(c) && blocked(board, c);
        let l = piece.local(c);
        assert(piece.absolute(l.0, l.1) == c);
        assert(filled(piece.shape, l.0, l.1) && blocked(board, piece.absolute(l.0, l.1)));
    }
}

/// A piece with a block left of the first column, right of the last, above
/// the top row or below the bottom row overlaps, whatever the board holds.
pub proof fn lemma_off_board_overlaps(piece: Piece, board: Seq<Seq<Tile>>, c: (int, int))
    requires
        piece.occupies(c),
        c.0 < 0 || c.0 >= 10 || c.1 < 0 || c.1 >= 20,
    ensures
        overlaps(piece, board),
{
    assert(blocked(board, c));
    lemma_overlaps_by_cells(piece, board);
}

} // verus!
