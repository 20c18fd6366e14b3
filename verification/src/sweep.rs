use vstd::prelude::*;
use crate::tile::Tile;
use crate::state::{GameState, Game, row_full, row_cleared, is_row_full, clear_row};

verus! {

/// The nearest row at or above `row` that is not full, and -1 where every row
/// from `row` up to the top is full. Rows are counted from the top, so "above"
/// means a smaller number.
pub open spec fn kept_at_or_above(board: Seq<Seq<Tile>>, row: int) -> int
    decreases row + 1,
{
    if row < 0 {
        -1
    } else if !row_full(board, row) {
        row
    } else {
        kept_at_or_above(board, row - 1)
    }
}

/// The row that comes to lie at row `y` when the full rows among the top `n`
/// rows are taken out and the others slide down to fill the gaps, and -1 where
/// no row is left for that place. The lowest place takes the lowest row that is
/// not full, the place above it the next such row, and so on.
pub open spec fn settled_from(board: Seq<Seq<Tile>>, y: int, n: int) -> int
    decreases n - y,
{
    if y >= n - 1 {
        kept_at_or_above(board, n - 1)
    } else {
        kept_at_or_above(board, settled_from(board, y + 1, n) - 1)
    }
}

/// The tile of column `x` in the given row, and `Empty` for the row -1.
pub open spec fn tile_or_empty(board: Seq<Seq<Tile>>, x: int, row: int) -> Tile {
    if row < 0 {
        Tile::Empty
    } else {
        board[x][row]
    }
}

/// The board with the full rows among its top `n` rows taken out: the other
/// rows of that part keep their order and lie as low as they can, empty rows
/// fill the top, and the rows from `n` on are as they were.
pub open spec fn swept_to(board: Seq<Seq<Tile>>, n: int) -> Seq<Seq<Tile>> {
    Seq::new(
        10,
        |x: int|
            Seq::new(
                20,
                |y: int|
                    if y < n {
                        tile_or_empty(board, x, settled_from(board, y, n))
                    } else {
                        board[x][y]
                    },
            ),
    )
}

/// The board with all its full rows taken out.
pub open spec fn swept(board: Seq<Seq<Tile>>) -> Seq<Seq<Tile>> {
    swept_to(board, 20)
}

/// The number of full rows among the top `n` rows.
pub open spec fn full_rows(board: Seq<Seq<Tile>>, n: int) -> int
    decreases n,
{
    if n <= 0 {
        0
    } else if row_full(board, n - 1) {
        full_rows(board, n - 1) + 1
    } else {
        full_rows(board, n - 1)
    }
}

/// The nearest kept row lies at or above the row asked for, and is not full.
pub proof fn lemma_kept_at_or_above(board: Seq<Seq<Tile>>, row: int)
    ensures
        -1 <= kept_at_or_above(board, row),
        kept_at_or_above(board, row) <= row || row < -1,
        kept_at_or_above(board, row) >= 0 ==> !row_full(board, kept_at_or_above(board, row)),
    decreases row + 1,
{
    if row >= 0 && row_full(board, row) {
        lemma_kept_at_or_above(board, row - 1);
    }
}

/// A row never settles above where it was: place `y` takes a row at or above
/// `y`, one that is not full, or none.
pub proof fn lemma_settled_from(board: Seq<Seq<Tile>>, y: int, n: int)
    requires
        0 <= y < n,
    ensures
        -1 <= settled_from(board, y, n) <= y,
        settled_from(board, y, n) >= 0 ==> !row_full(board, settled_from(board, y, n)),
    decreases n - y,
{
    if y >= n - 1 {
        lemma_kept_at_or_above(board, n - 1);
    } else {
        lemma_settled_from(board, y + 1, n);
        lemma_kept_at_or_above(board, settled_from(board, y + 1, n) - 1);
    }
}

/// Taking a row that is not full into the part that is swept changes nothing
/// above it: the row stays, and every place above takes the row it took before.
pub proof fn lemma_settled_next_kept(board: Seq<Seq<Tile>>, y: int, n: int)
    requires
        0 <= y <= n,
        !row_full(board, n),
    ensures
        settled_from(board, y, n + 1) == if y == n {
            n
        } else {
            settled_from(board, y, n)
        },
    decreases n - y,
{
    if y < n {
        lemma_settled_next_kept(board, y + 1, n);
    }
}

/// Taking a full row into the part that is swept moves everything above it
/// down by one: every place takes the row that the place above it took before,
/// and the top place takes none.
pub proof fn lemma_settled_next_full(board: Seq<Seq<Tile>>, y: int, n: int)
    requires
        0 <= y <= n,
        row_full(board, n),
    ensures
        settled_from(board, y, n + 1) == if y == 0 {
            -1
        } else {
            settled_from(board, y - 1, n)
        },
    decreases n - y,
{
    if y < n {
        lemma_settled_next_full(board, y + 1, n);
        if y == 0 {
            lemma_settled_from(board, 0, n);
        }
    }
}

/// The count of full rows among the top `n` rows lies between 0 and `n`, and
/// does not go down when more rows are counted.
pub proof fn lemma_full_rows_bounds(board: Seq<Seq<Tile>>, m: int, n: int)
    requires
        0 <= m <= n,
    ensures
        0 <= full_rows(board, m) <= m,
        full_rows(board, m) <= full_rows(board, n),
        full_rows(board, n) <= n,
    decreases n,
{
    if m < n {
        lemma_full_rows_bounds(board, m, n - 1);
    } else if n > 0 {
        lemma_full_rows_bounds(board, n - 1, n - 1);
    }
}

/// After the sweep no row of the board is full.
pub proof fn lemma_swept_has_no_full_row(board: Seq<Seq<Tile>>, row: int)
    requires
        0 <= row < 20,
    ensures
        !row_full(swept(board), row),
{
    lemma_settled_from(board, row, 20);
    let from = settled_from(board, row, 20);
    if from < 0 {
        assert(swept(board)[0][row] == Tile::Empty);
    } else {
        let x = choose|x: int| 0 <= x < 10 && (#[trigger] board[x])[from] == Tile::Empty;
        assert(swept(board)[x][row] == Tile::Empty);
    }
}

/// Where `row` is the only full row of the board, the sweep is the clearing of
/// that row: the rows above it come down by one, the top row is empty, and one
/// row is counted.
pub proof fn lemma_swept_single_full_row(board: Seq<Seq<Tile>>, row: int)
    requires
        board.len() == 10,
        forall|x: int| 0 <= x < 10 ==> (#[trigger] board[x]).len() == 20,
        0 <= row < 20,
        forall|r: int| 0 <= r < 20 ==> (row_full(board, r) <==> r == row),
    ensures
        swept(board) == row_cleared(board, row),
        full_rows(board, 20) == 1,
{
    lemma_single_full_row_to(board, row, 20);
    assert(swept(board) =~~= row_cleared(board, row));
}

/// The state of the sweep after `n` rows, where `row` is the only full row.
proof fn lemma_single_full_row_to(board: Seq<Seq<Tile>>, row: int, n: int)
    requires
        0 <= row < 20,
        0 <= n <= 20,
        forall|r: int| 0 <= r < 20 ==> (row_full(board, r) <==> r == row),
    ensures
        full_rows(board, n) == if n > row {
            1int
        } else {
            0int
        },
        forall|y: int|
            0 <= y < n ==> #[trigger] settled_from(board, y, n) == if n <= row || y > row {
                y
            } else {
                y - 1
            },
    decreases n,
{
    if n > 0 {
        lemma_single_full_row_to(board, row, n - 1);
        assert forall|y: int| 0 <= y < n implies #[trigger] settled_from(board, y, n) == if n <= row
            || y > row {
            y
        } else {
            y - 1
        } by {
            if n - 1 == row {
                lemma_settled_next_full(board, y, n - 1);
                if y > 0 {
                    assert(settled_from(board, y - 1, n - 1) == y - 1);
                }
            } else {
                lemma_settled_next_kept(board, y, n - 1);
                if y < n - 1 {
                    assert(settled_from(board, y, n - 1) == if n - 1 <= row || y > row {
                        y
                    } else {
                        y - 1
                    });
                }
            }
        }
    }
}

/// Takes every full row out of the board and counts each. The rows are tried
/// from the top down, and a full row is cleared as soon as it is found: what
/// comes down into its place has been tried before and was not full, so that
/// no full row is passed over, adjacent ones included.
pub fn clear_full_rows(state: &mut GameState)
    requires
        old(state).lines_cleared + full_rows(old(state)@.matrix, 20) <= i32::MAX,
    ensures
        final(state)@ == (Game {
            matrix: swept(old(state)@.matrix),
            lines_cleared: old(state)@.lines_cleared + full_rows(old(state)@.matrix, 20),
            ..old(state)@
        }),
{
    let ghost before = old(state)@;
    assert(state@.matrix =~~= swept_to(before.matrix, 0));
    let mut row: usize = 0;
    while row < 20
        invariant
            row <= 20,
            before == old(state)@,
            before.lines_cleared + full_rows(before.matrix, 20) <= i32::MAX,
            state@ == (Game {
                matrix: swept_to(before.matrix, row as int),
                lines_cleared: before.lines_cleared + full_rows(before.matrix, row as int),
                ..before
            }),
        decreases 20 - row,
    {
        let ghost current = state@.matrix;
        assert(row_full(current, row as int) == row_full(before.matrix, row as int)) by {
            assert forall|x: int| 0 <= x < 10 implies (#[trigger] current[x])[row as int]
                == before.matrix[x][row as int] by {}
            if row_full(current, row as int) {
                assert forall|x: int| 0 <= x < 10 implies (#[trigger] before.matrix[x])[row as int]
                    != Tile::Empty by {
                    assert(current[x][row as int] != Tile::Empty);
                }
            }
        }
        if is_row_full(state, row) {
            proof {
                lemma_full_rows_bounds(before.matrix, row + 1, 20);
            }
            clear_row(state, row as i8);
            proof {
                assert forall|x: int, y: int|
                    0 <= x < 10 && 0 <= y < 20 implies #[trigger] row_cleared(
                    current,
                    row as int,
                )[x][y] == swept_to(before.matrix, row + 1)[x][y] by {
                    if y <= row {
                        lemma_settled_next_full(before.matrix, y, row as int);
                    }
                }
                assert(state@.matrix =~~= swept_to(before.matrix, row + 1));
            }
        } else {
            proof {
                assert forall|x: int, y: int|
                    0 <= x < 10 && 0 <= y < 20 implies #[trigger] current[x][y]
                    == swept_to(before.matrix, row + 1)[x][y] by {
                    if y <= row {
                        lemma_settled_next_kept(before.matrix, y, row as int);
                    }
                }
                assert(state@.matrix =~~= swept_to(before.matrix, row + 1));
            }
        }
        row += 1;
    }
}

} // verus!
