use vstd::prelude::*;
use crate::tile::Direction;

verus! {

/// Assumed of std, not proved here: `reverse` on a slice turns the order of its
/// elements around, in place.
pub assume_specification<E>[ <[E]>::reverse ](slice: &mut [E])
    ensures
        final(slice)@ == old(slice)@.reverse(),
;

/// The mathematical value of a shape grid: its lines, each a sequence of flags.
pub open spec fn grid_view(g: &Vec<Vec<bool>>) -> Seq<Seq<bool>> {
    Seq::new(g@.len(), |x: int| g@[x]@)
}

/// Whether the grid has a set flag at line `x`, place `y`.
pub open spec fn filled(g: Seq<Seq<bool>>, x: int, y: int) -> bool {
    0 <= x < g.len() && 0 <= y < g[x].len() && g[x][y]
}

/// Whether all lines of the grid have the same length.
pub open spec fn rectangular(g: Seq<Seq<bool>>) -> bool {
    forall|x: int| 0 <= x < g.len() ==> (#[trigger] g[x]).len() == breadth(g)
}

/// The length of the first line, and 0 for a grid without lines.
pub open spec fn breadth(g: Seq<Seq<bool>>) -> nat {
    if g.len() == 0 {
        0
    } else {
        g[0].len()
    }
}

/// The length of the longest line.
pub open spec fn span(g: Seq<Seq<bool>>) -> nat
    decreases g.len(),
{
    if g.len() == 0 {
        0
    } else if g.last().len() > span(g.drop_last()) {
        g.last().len()
    } else {
        span(g.drop_last())
    }
}

/// The flags at place `y` of those lines that reach as far as `y`, in the order of the lines.
pub open spec fn cross_line(g: Seq<Seq<bool>>, y: int) -> Seq<bool>
    decreases g.len(),
{
    if g.len() == 0 {
        Seq::empty()
    } else if y < g.last().len() {
        cross_line(g.drop_last(), y).push(g.last()[y])
    } else {
        cross_line(g.drop_last(), y)
    }
}

/// The number of lines of the transposed grid: one for each place of the longest
/// line, and a single line where there is no place at all.
pub open spec fn transposed_len(g: Seq<Seq<bool>>) -> nat {
    if span(g) == 0 {
        1
    } else {
        span(g)
    }
}

/// The grid with lines and places exchanged. Line `y` of the result gathers place
/// `y` of every line that has one.
pub open spec fn transposed(g: Seq<Seq<bool>>) -> Seq<Seq<bool>> {
    Seq::new(transposed_len(g), |y: int| cross_line(g, y))
}

/// The grid with every line turned around.
pub open spec fn each_reversed(g: Seq<Seq<bool>>) -> Seq<Seq<bool>> {
    Seq::new(g.len(), |x: int| g[x].reverse())
}

/// The shape grid after a turn: the transposed grid with every line turned around
/// (left), with the order of its lines turned around (right), or, for the double
/// turn, the grid transposed twice with both done to it.
pub open spec fn rotated(g: Seq<Seq<bool>>, rotation: Direction) -> Seq<Seq<bool>> {
    match rotation {
        Direction::Left => each_reversed(transposed(g)),
        Direction::Right => transposed(g).reverse(),
        Direction::Double => each_reversed(transposed(transposed(g))).reverse(),
    }
}

/// Beyond the span no line has a place, so the cross line is empty.
pub proof fn lemma_cross_line_beyond_span(g: Seq<Seq<bool>>, y: int)
    requires
        span(g) <= y,
    ensures
        cross_line(g, y) == Seq::<bool>::empty(),
    decreases g.len(),
{
    if g.len() > 0 {
        lemma_cross_line_beyond_span(g.drop_last(), y);
    }
}

/// In a rectangular grid every line reaches every place below the breadth, so
/// the cross line at such a place has one flag from each line.
pub proof fn lemma_cross_line_rectangular(g: Seq<Seq<bool>>, y: int)
    requires
        rectangular(g),
        0 <= y < breadth(g),
    ensures
        cross_line(g, y).len() == g.len(),
        forall|x: int| 0 <= x < g.len() ==> cross_line(g, y)[x] == #[trigger] g[x][y],
    decreases g.len(),
{
    if g.len() > 1 {
        let rest = g.drop_last();
        assert(rest[0] == g[0]);
        assert forall|x: int| 0 <= x < rest.len() implies (#[trigger] rest[x]).len() == breadth(
            rest,
        ) by {
            assert(rest[x] == g[x]);
        }
        lemma_cross_line_rectangular(rest, y);
        assert forall|x: int| 0 <= x < g.len() implies cross_line(g, y)[x]
            == #[trigger] g[x][y] by {
            if x < g.len() - 1 {
                assert(rest[x] == g[x]);
            }
        }
    } else if g.len() == 1 {
        assert(cross_line(g.drop_last(), y) == Seq::<bool>::empty());
    }
}

/// The span of a rectangular grid is its breadth.
pub proof fn lemma_span_rectangular(g: Seq<Seq<bool>>)
    requires
        rectangular(g),
    ensures
        span(g) == breadth(g),
    decreases g.len(),
{
    if g.len() > 1 {
        let rest = g.drop_last();
        assert(rest[0] == g[0]);
        assert forall|x: int| 0 <= x < rest.len() implies (#[trigger] rest[x]).len() == breadth(
            rest,
        ) by {
            assert(rest[x] == g[x]);
        }
        lemma_span_rectangular(rest);
    } else if g.len() == 1 {
        assert(span(g.drop_last()) == 0);
    }
}

/// Transposing a rectangular grid that has a line and a place exchanges the two
/// indices: the result is rectangular, as long as the grid was broad and as broad
/// as the grid was long, and holds at `[y][x]` what the grid held at `[x][y]`.
pub proof fn lemma_transposed_rectangular(g: Seq<Seq<bool>>)
    requires
        rectangular(g),
        g.len() > 0,
        breadth(g) > 0,
    ensures
        transposed(g).len() == breadth(g),
        rectangular(transposed(g)),
        breadth(transposed(g)) == g.len(),
        forall|x: int, y: int|
            0 <= x < g.len() && 0 <= y < breadth(g) ==> #[trigger] transposed(g)[y][x] == g[x][y],
{
    lemma_span_rectangular(g);
    let t = transposed(g);
    assert forall|y: int| 0 <= y < t.len() implies (#[trigger] t[y]).len() == g.len() by {
        lemma_cross_line_rectangular(g, y);
    }
    assert forall|x: int, y: int| 0 <= x < g.len() && 0 <= y < breadth(g) implies #[trigger] t[y][x]
        == g[x][y] by {
        lemma_cross_line_rectangular(g, y);
    }
}

/// A rectangular grid without a line, or without a place in its lines, has no
/// flag at all, and transposes to the grid of one empty line.
pub proof fn lemma_transposed_degenerate(g: Seq<Seq<bool>>)
    requires
        rectangular(g),
        g.len() == 0 || breadth(g) == 0,
    ensures
        transposed(g) == seq![Seq::<bool>::empty()],
{
    lemma_span_rectangular(g);
    lemma_cross_line_beyond_span(g, 0);
    assert(transposed(g) =~= seq![Seq::<bool>::empty()]);
}

/// What a turn does to a rectangular grid that has a line and a place. A quarter
/// turn exchanges length and breadth, the double turn keeps them. The flag at
/// `[x][y]` goes to `[y][last line - x]` in a left turn, to `[last place - y][x]` in
/// a right turn and to `[last line - x][last place - y]` in the double turn.
pub proof fn lemma_rotated_rectangular(g: Seq<Seq<bool>>, rotation: Direction)
    requires
        rectangular(g),
        g.len() > 0,
        breadth(g) > 0,
    ensures
        rectangular(rotated(g, rotation)),
        rotation != Direction::Double ==> rotated(g, rotation).len() == breadth(g) && breadth(
            rotated(g, rotation),
        ) == g.len(),
        rotation == Direction::Double ==> rotated(g, rotation).len() == g.len() && breadth(
            rotated(g, rotation),
        ) == breadth(g),
        forall|x: int, y: int|
            0 <= x < g.len() && 0 <= y < breadth(g) ==> #[trigger] g[x][y] == match rotation {
                Direction::Left => rotated(g, rotation)[y][g.len() - 1 - x],
                Direction::Right => rotated(g, rotation)[breadth(g) - 1 - y][x],
                Direction::Double => rotated(g, rotation)[g.len() - 1 - x][breadth(g) - 1 - y],
            },
{
    let t = transposed(g);
    let r = rotated(g, rotation);
    lemma_transposed_rectangular(g);
    match rotation {
        Direction::Left => {
            assert forall|y: int| 0 <= y < r.len() implies (#[trigger] r[y]).len()
                == breadth(r) by {
                assert(t[y].len() == g.len());
                assert(t[0].len() == g.len());
            }
            assert forall|x: int, y: int|
                0 <= x < g.len() && 0 <= y < breadth(g) implies #[trigger] g[x][y]
                == r[y][g.len() - 1 - x] by {
                assert(t[y].len() == g.len());
                assert(t[y][x] == g[x][y]);
            }
        },
        Direction::Right => {
            assert forall|j: int| 0 <= j < r.len() implies (#[trigger] r[j]).len()
                == breadth(r) by {
                assert(t[breadth(g) - 1 - j].len() == g.len());
                assert(t[breadth(g) - 1].len() == g.len());
            }
            assert forall|x: int, y: int|
                0 <= x < g.len() && 0 <= y < breadth(g) implies #[trigger] g[x][y]
                == r[breadth(g) - 1 - y][x] by {
                assert(t[y][x] == g[x][y]);
            }
        },
        Direction::Double => {
            lemma_transposed_rectangular(t);
            let tt = transposed(t);
            assert forall|x: int| 0 <= x < tt.len() implies (#[trigger] tt[x]).len()
                == breadth(g) by {
                assert(tt[0].len() == breadth(tt));
            }
            assert forall|x: int, y: int|
                0 <= x < g.len() && 0 <= y < breadth(g) implies #[trigger] tt[x][y]
                == g[x][y] by {
                assert(tt[x][y] == t[y][x]);
                assert(t[y][x] == g[x][y]);
            }
            let e = each_reversed(tt);
            assert forall|i: int| 0 <= i < r.len() implies (#[trigger] r[i]).len()
                == breadth(r) by {
                assert(tt[g.len() - 1 - i].len() == breadth(g));
                assert(tt[g.len() - 1].len() == breadth(g));
            }
            assert forall|x: int, y: int|
                0 <= x < g.len() && 0 <= y < breadth(g) implies #[trigger] g[x][y]
                == r[g.len() - 1 - x][breadth(g) - 1 - y] by {
                assert(tt[x].len() == breadth(g));
                assert(tt[x][y] == g[x][y]);
                assert(e[x][breadth(g) - 1 - y] == tt[x][y]);
            }
        },
    }
}

/// Every turn takes a rectangular grid without a line, or without a place in
/// its lines, to the grid of one empty line.
pub proof fn lemma_rotated_degenerate(g: Seq<Seq<bool>>, rotation: Direction)
    requires
        rectangular(g),
        g.len() == 0 || breadth(g) == 0,
    ensures
        rotated(g, rotation) == seq![Seq::<bool>::empty()],
{
    let hollow = seq![Seq::<bool>::empty()];
    lemma_transposed_degenerate(g);
    assert(rectangular(hollow));
    lemma_transposed_degenerate(hollow);
    assert(hollow.reverse() =~~= hollow);
    assert(each_reversed(hollow) =~~= hollow);
}

/// Four quarter turns the same way bring a rectangular grid with a line and a
/// place back to itself.
pub proof fn lemma_four_quarter_turns(g: Seq<Seq<bool>>, rotation: Direction)
    requires
        rectangular(g),
        g.len() > 0,
        breadth(g) > 0,
        rotation != Direction::Double,
    ensures
        rotated(rotated(rotated(rotated(g, rotation), rotation), rotation), rotation) == g,
{
    let g1 = rotated(g, rotation);
    lemma_rotated_rectangular(g, rotation);
    let g2 = rotated(g1, rotation);
    lemma_rotated_rectangular(g1, rotation);
    let g3 = rotated(g2, rotation);
    lemma_rotated_rectangular(g2, rotation);
    let g4 = rotated(g3, rotation);
    lemma_rotated_rectangular(g3, rotation);
    let l = g.len() as int;
    let w = breadth(g) as int;
    assert(g4.len() == g.len());
    assert forall|x: int| 0 <= x < g.len() implies #[trigger] g4[x] =~= g[x] by {
        assert(g4[x].len() == breadth(g4));
        assert(g[x].len() == breadth(g));
        assert forall|y: int| 0 <= y < w implies g4[x][y] == g[x][y] by {
            if rotation == Direction::Left {
                assert(g[x][y] == g1[y][l - 1 - x]);
                assert(g1[y][l - 1 - x] == g2[l - 1 - x][w - 1 - y]);
                assert(g2[l - 1 - x][w - 1 - y] == g3[w - 1 - y][x]);
                assert(g3[w - 1 - y][x] == g4[x][y]);
            } else {
                assert(g[x][y] == g1[w - 1 - y][x]);
                assert(g1[w - 1 - y][x] == g2[l - 1 - x][w - 1 - y]);
                assert(g2[l - 1 - x][w - 1 - y] == g3[y][l - 1 - x]);
                assert(g3[y][l - 1 - x] == g4[x][y]);
            }
        }
    }
    assert(g4 =~= g);
}

/// Two double turns bring a rectangular grid with a line and a place back to itself.
pub proof fn lemma_two_double_turns(g: Seq<Seq<bool>>)
    requires
        rectangular(g),
        g.len() > 0,
        breadth(g) > 0,
    ensures
        rotated(rotated(g, Direction::Double), Direction::Double) == g,
{
    let g1 = rotated(g, Direction::Double);
    lemma_rotated_rectangular(g, Direction::Double);
    let g2 = rotated(g1, Direction::Double);
    lemma_rotated_rectangular(g1, Direction::Double);
    let l = g.len() as int;
    let w = breadth(g) as int;
    assert forall|x: int| 0 <= x < g.len() implies #[trigger] g2[x] =~= g[x] by {
        assert(g2[x].len() == breadth(g2));
        assert(g[x].len() == breadth(g));
        assert forall|y: int| 0 <= y < w implies g2[x][y] == g[x][y] by {
            assert(g[x][y] == g1[l - 1 - x][w - 1 - y]);
            assert(g1[l - 1 - x][w - 1 - y] == g2[x][y]);
        }
    }
    assert(g2 =~= g);
}

/// The grid with lines and places exchanged. A ragged grid is taken as it is:
/// each line of the result gathers one place from the lines that reach it.
pub fn transpose_matrix(m: &Vec<Vec<bool>>) -> (t: Vec<Vec<bool>>)
    ensures
        grid_view(&t) == transposed(grid_view(m)),
{
    let ghost g = grid_view(m);
    let mut t: Vec<Vec<bool>> = vec![vec![]];
    proof {
        lemma_cross_line_beyond_span(g.take(0), 0);
    }
    let mut col: usize = 0;
    while col < m.len()
        invariant
            g == grid_view(m),
            col <= m.len(),
            t@.len() == transposed_len(g.take(col as int)),
            forall|y: int|
                0 <= y < t@.len() ==> (#[trigger] t@[y])@ == cross_line(g.take(col as int), y),
        decreases m.len() - col,
    {
        let ghost before = g.take(col as int);
        let ghost after = g.take(col + 1);
        assert(after.drop_last() =~= before);
        assert(after.last() == m@[col as int]@);
        let mut row: usize = 0;
        while row < m[col].len()
            invariant
                g == grid_view(m),
                col < m.len(),
                before == g.take(col as int),
                row <= m@[col as int]@.len(),
                t@.len() == if row > transposed_len(before) {
                    row as nat
                } else {
                    transposed_len(before)
                },
                forall|y: int|
                    0 <= y < row ==> (#[trigger] t@[y])@ == cross_line(before, y).push(
                        m@[col as int]@[y],
                    ),
                forall|y: int| row <= y < t@.len() ==> (#[trigger] t@[y])@ == cross_line(before, y),
            decreases m@[col as int]@.len() - row,
        {
            if t.len() <= row {
                proof {
                    lemma_cross_line_beyond_span(before, row as int);
                }
                t.push(vec![]);
            }
            t[row].push(m[col][row]);
            row += 1;
        }
        col += 1;
    }
    assert(g.take(col as int) =~= g);
    assert(grid_view(&t) =~~= transposed(g));
    t
}

} // verus!
