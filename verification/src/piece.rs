use vstd::prelude::*;
use crate::tile::{Tile, Point, Direction};
use crate::grid::{
    grid_view, filled, rotated, transpose_matrix, rectangular, breadth, each_reversed,
    lemma_rotated_rectangular, lemma_rotated_degenerate, lemma_four_quarter_turns,
    lemma_two_double_turns,
};

verus! {

/// A piece in play: its kind, its shape grid in the current rotation, the pivot
/// inside the grid and the board position at which the pivot lies.
#[derive(Clone, Debug, PartialEq, Eq)]
pub struct Tetrimino {
    pub name: Tile,
    pub shape: Vec<Vec<bool>>,
    pub center: Point,
    pub position: Point,
}

/// The mathematical value of a piece.
pub struct Piece {
    pub name: Tile,
    pub shape: Seq<Seq<bool>>,
    pub center: (int, int),
    pub position: (int, int),
}

impl View for Tetrimino {
    type V = Piece;

    open spec fn view(&self) -> Piece {
        Piece {
            name: self.name,
            shape: grid_view(&self.shape),
            center: self.center@,
            position: self.position@,
        }
    }
}

impl Piece {
    /// The place in the shape grid that lies over the board position `c`.
    pub open spec fn local(self, c: (int, int)) -> (int, int) {
        (c.0 - self.position.0 + self.center.0, c.1 - self.position.1 + self.center.1)
    }

    /// The board position over which the place `[x][y]` of the shape grid lies:
    /// the anchor, moved by the distance of the place from the pivot.
    pub open spec fn absolute(self, x: int, y: int) -> (int, int) {
        (x + self.position.0 - self.center.0, y + self.position.1 - self.center.1)
    }

    /// Whether the piece has a block on the board position `c`.
    pub open spec fn occupies(self, c: (int, int)) -> bool {
        filled(self.shape, self.local(c).0, self.local(c).1)
    }

    /// The board positions of the blocks of the piece.
    pub open spec fn occupied_cells(self) -> Set<(int, int)> {
        Set::new(|c: (int, int)| self.occupies(c))
    }

    /// Whether the piece has a block at all.
    pub open spec fn has_block(self) -> bool {
        exists|x: int, y: int| filled(self.shape, x, y)
    }

    /// Whether every block lies on a position that a `Point` can hold.
    pub open spec fn fits_points(self) -> bool {
        forall|x: int, y: int| #[trigger]
            filled(self.shape, x, y) ==> {
                &&& i8::MIN <= self.absolute(x, y).0 <= i8::MAX
                &&& i8::MIN <= self.absolute(x, y).1 <= i8::MAX
            }
    }

    /// Whether the piece is well formed: its grid is rectangular with one to
    /// four lines of at most four places, the pivot lies within those bounds,
    /// and a piece of a real kind has a block.
    pub open spec fn wf(self) -> bool {
        &&& rectangular(self.shape)
        &&& 1 <= self.shape.len() <= 4
        &&& breadth(self.shape) <= 4
        &&& 0 <= self.center.0 < 4
        &&& 0 <= self.center.1 < 4
        &&& self.name != Tile::Empty ==> self.has_block()
    }

    /// The piece with its anchor moved by `(dx, dy)`.
    pub open spec fn translated(self, dx: int, dy: int) -> Piece {
        Piece { position: (self.position.0 + dx, self.position.1 + dy), ..self }
    }

    /// The piece with its shape grid turned. Pivot and anchor stay.
    pub open spec fn turned(self, rotation: Direction) -> Piece {
        Piece { shape: rotated(self.shape, rotation), ..self }
    }
}

/// The order in which the blocks of a piece are listed: by column, and by row
/// within a column.
pub open spec fn precedes(a: (int, int), b: (int, int)) -> bool {
    a.0 < b.0 || (a.0 == b.0 && a.1 < b.1)
}

/// Whether `c` is among the points of the list.
pub open spec fn lists(cells: Seq<Point>, c: (int, int)) -> bool {
    exists|i: int| 0 <= i < cells.len() && (#[trigger] cells[i])@ == c
}

/// The shape grid with which a kind enters the board. The first index runs along
/// the columns of the board, the second along its rows.
pub open spec fn spawn_shape(name: Tile) -> Seq<Seq<bool>> {
    match name {
        Tile::I => seq![
            seq![false, true, false, false],
            seq![false, true, false, false],
            seq![false, true, false, false],
            seq![false, true, false, false],
        ],
        Tile::O => seq![seq![true, true], seq![true, true]],
        Tile::T => seq![
            seq![false, true, false],
            seq![true, true, false],
            seq![false, true, false],
        ],
        Tile::S => seq![
            seq![false, true, false],
            seq![true, true, false],
            seq![true, false, false],
        ],
        Tile::Z => seq![
            seq![true, false, false],
            seq![true, true, false],
            seq![false, true, false],
        ],
        Tile::J => seq![
            seq![true, true, false],
            seq![false, true, false],
            seq![false, true, false],
        ],
        Tile::L => seq![
            seq![false, true, false],
            seq![false, true, false],
            seq![true, true, false],
        ],
        Tile::Empty => seq![Seq::<bool>::empty()],
    }
}

/// The pivot of a kind inside its spawn grid.
pub open spec fn spawn_center(name: Tile) -> (int, int) {
    match name {
        Tile::I => (1, 2),
        Tile::O | Tile::Empty => (0, 0),
        _ => (1, 0),
    }
}

/// The board position of the pivot when a kind enters: column 4 in the top row,
/// and one row lower for the I piece, whose grid is one line taller.
pub open spec fn spawn_position(name: Tile) -> (int, int) {
    match name {
        Tile::I => (4, 1),
        _ => (4, 0),
    }
}

/// The piece of the given kind as it enters the board.
pub open spec fn spawned(name: Tile) -> Piece {
    Piece {
        name,
        shape: spawn_shape(name),
        center: spawn_center(name),
        position: spawn_position(name),
    }
}

/// The board positions that a kind covers when it enters: its four blocks in
/// the two top rows, around the middle of the board.
pub open spec fn spawn_cells(name: Tile) -> Set<(int, int)> {
    match name {
        Tile::I => set![(3, 0), (4, 0), (5, 0), (6, 0)],
        Tile::O => set![(4, 0), (5, 0), (4, 1), (5, 1)],
        Tile::T => set![(4, 0), (3, 1), (4, 1), (5, 1)],
        Tile::S => set![(4, 0), (5, 0), (3, 1), (4, 1)],
        Tile::Z => set![(3, 0), (4, 0), (4, 1), (5, 1)],
        Tile::J => set![(3, 0), (3, 1), (4, 1), (5, 1)],
        Tile::L => set![(5, 0), (3, 1), (4, 1), (5, 1)],
        Tile::Empty => Set::empty(),
    }
}

/// A fresh piece of the given kind at its spawn position. For `Tile::Empty` the
/// piece has no set flag at all and stands for "no piece in play".
pub fn generate_tetrimino(name: Tile) -> (piece: Tetrimino)
    ensures
        piece@ == spawned(name),
{
    let piece = match name {
        Tile::I => Tetrimino {
            name,
            shape: vec![
                vec![false, true, false, false],
                vec![false, true, false, false],
                vec![false, true, false, false],
                vec![false, true, false, false],
            ],
            center: Point(1, 2),
            position: Point(4, 1),
        },
        Tile::O => Tetrimino {
            name,
            shape: vec![vec![true, true], vec![true, true]],
            center: Point(0, 0),
            position: Point(4, 0),
        },
        Tile::T => Tetrimino {
            name,
            shape: vec![
                vec![false, true, false],
                vec![true, true, false],
                vec![false, true, false],
            ],
            center: Point(1, 0),
            position: Point(4, 0),
        },
        Tile::S => Tetrimino {
            name,
            shape: vec![
                vec![false, true, false],
                vec![true, true, false],
                vec![true, false, false],
            ],
            center: Point(1, 0),
            position: Point(4, 0),
        },
        Tile::Z => Tetrimino {
            name,
            shape: vec![
                vec![true, false, false],
                vec![true, true, false],
                vec![false, true, false],
            ],
            center: Point(1, 0),
            position: Point(4, 0),
        },
        Tile::J => Tetrimino {
            name,
            shape: vec![
                vec![true, true, false],
                vec![false, true, false],
                vec![false, true, false],
            ],
            center: Point(1, 0),
            position: Point(4, 0),
        },
        Tile::L => Tetrimino {
            name,
            shape: vec![
                vec![false, true, false],
                vec![false, true, false],
                vec![true, true, false],
            ],
            center: Point(1, 0),
            position: Point(4, 0),
        },
        Tile::Empty => Tetrimino {
            name,
            shape: vec![vec![]],
            center: Point(0, 0),
            position: Point(4, 0),
        },
    };
    assert(piece@.shape =~~= spawn_shape(name));
    piece
}

/// Whether the piece has a block on the board position `coords`. The position is
/// carried back into the shape grid and looked up there.
pub fn tetrimino_at_coords(tetrimino: &Tetrimino, coords: Point) -> (covered: bool)
    ensures
        covered == tetrimino@.occupies(coords@),
{
    let x: i64 = coords.0 as i64 - tetrimino.position.0 as i64 + tetrimino.center.0 as i64;
    if x >= 0 && (x as usize) < tetrimino.shape.len() {
        let y: i64 = coords.1 as i64 - tetrimino.position.1 as i64 + tetrimino.center.1 as i64;
        if y >= 0 && (y as usize) < tetrimino.shape[x as usize].len() {
            return tetrimino.shape[x as usize][y as usize];
        }
    }
    false
}

/// A copy of the piece with its anchor moved by `offset`. Whether the new
/// placement is legal is for the caller to find out.
pub fn generate_offset_tetrimino(tetrimino: &Tetrimino, offset: Point) -> (moved: Tetrimino)
    requires
        i8::MIN <= tetrimino.position.0 + offset.0 <= i8::MAX,
        i8::MIN <= tetrimino.position.1 + offset.1 <= i8::MAX,
    ensures
        moved@ == tetrimino@.translated(offset.0 as int, offset.1 as int),
{
    let moved = Tetrimino {
        name: tetrimino.name,
        shape: tetrimino.shape.clone(),
        center: tetrimino.center,
        position: Point(tetrimino.position.0 + offset.0, tetrimino.position.1 + offset.1),
    };
    assert(moved@.shape =~~= tetrimino@.shape);
    moved
}

/// A copy of the piece with its shape grid turned and its anchor moved by
/// `transform`. No correction is made for walls: whether the new placement is
/// legal is for the caller to find out.
pub fn generate_transformed_tetrimino(
    tetrimino: &Tetrimino,
    transform: Point,
    rotation: Direction,
) -> (turned: Tetrimino)
    requires
        i8::MIN <= tetrimino.position.0 + transform.0 <= i8::MAX,
        i8::MIN <= tetrimino.position.1 + transform.1 <= i8::MAX,
    ensures
        turned@ == tetrimino@.turned(rotation).translated(transform.0 as int, transform.1 as int),
{
    let mut shape = transpose_matrix(&tetrimino.shape);
    let position = Point(
        tetrimino.position.0 + transform.0,
        tetrimino.position.1 + transform.1,
    );
    let ghost flipped = grid_view(&shape);

    match rotation {
        Direction::Left => {
            reverse_each_line(&mut shape);
        },
        Direction::Right => {
            shape.reverse();
            assert(grid_view(&shape) =~~= flipped.reverse());
        },
        Direction::Double => {
            shape = transpose_matrix(&shape);
            reverse_each_line(&mut shape);
            let ghost lines = grid_view(&shape);
            shape.reverse();
            assert(grid_view(&shape) =~~= lines.reverse());
        },
    }

    Tetrimino { name: tetrimino.name, shape, center: tetrimino.center, position }
}

/// Turns every line of the grid around.
fn reverse_each_line(shape: &mut Vec<Vec<bool>>)
    ensures
        grid_view(final(shape)) == each_reversed(grid_view(old(shape))),
{
    let ghost before = grid_view(shape);
    let mut row: usize = 0;
    while row < shape.len()
        invariant
            before == grid_view(old(shape)),
            row <= shape@.len(),
            shape@.len() == before.len(),
            forall|x: int| 0 <= x < row ==> (#[trigger] shape@[x])@ == before[x].reverse(),
            forall|x: int| row <= x < shape@.len() ==> (#[trigger] shape@[x])@ == before[x],
        decreases shape@.len() - row,
    {
        shape[row].reverse();
        row += 1;
    }
    assert(grid_view(shape) =~~= each_reversed(before));
}

/// What holds of the list of blocks while the grid is scanned: the list holds
/// the blocks found before place `[x][y]`, each once and in the order of the scan.
spec fn listed_up_to(
    piece: Piece,
    cells: Seq<Point>,
    places: Seq<(int, int)>,
    x: int,
    y: int,
) -> bool {
    &&& places.len() == cells.len()
    &&& forall|i: int|
        0 <= i < places.len() ==> {
            &&& filled(piece.shape, (#[trigger] places[i]).0, places[i].1)
            &&& precedes(places[i], (x, y))
            &&& cells[i]@ == piece.absolute(places[i].0, places[i].1)
        }
    &&& forall|i: int, j: int|
        0 <= i < j < places.len() ==> precedes(#[trigger] places[i], #[trigger] places[j])
    &&& forall|a: int, b: int|
        filled(piece.shape, a, b) && precedes((a, b), (x, y)) ==> exists|i: int|
            0 <= i < places.len() && #[trigger] places[i] == (a, b)
}

/// The board positions of the blocks of the piece, column by column and from the
/// top down within a column.
pub fn generate_tetrimino_iterable(tetrimino: &Tetrimino) -> (cells: Vec<Point>)
    requires
        tetrimino@.fits_points(),
    ensures
        forall|c: (int, int)| tetrimino@.occupies(c) <==> lists(cells@, c),
        forall|i: int, j: int|
            0 <= i < j < cells@.len() ==> precedes(
                (#[trigger] cells@[i])@,
                (#[trigger] cells@[j])@,
            ),
{
    let ghost piece = tetrimino@;
    let mut vec: Vec<Point> = Vec::new();
    let ghost mut places: Seq<(int, int)> = Seq::empty();
    let mut x: usize = 0;
    while x < tetrimino.shape.len()
        invariant
            piece == tetrimino@,
            piece.fits_points(),
            x <= tetrimino.shape@.len(),
            listed_up_to(piece, vec@, places, x as int, 0),
        decreases tetrimino.shape@.len() - x,
    {
        let mut y: usize = 0;
        while y < tetrimino.shape[x].len()
            invariant
                piece == tetrimino@,
                piece.fits_points(),
                x < tetrimino.shape@.len(),
                y <= tetrimino.shape@[x as int]@.len(),
                listed_up_to(piece, vec@, places, x as int, y as int),
            decreases tetrimino.shape@[x as int]@.len() - y,
        {
            if tetrimino.shape[x][y] {
                assert(filled(piece.shape, x as int, y as int));
                let ax: i64 = x as i64 + tetrimino.position.0 as i64 - tetrimino.center.0 as i64;
                let ay: i64 = y as i64 + tetrimino.position.1 as i64 - tetrimino.center.1 as i64;
                let point = Point(ax as i8, ay as i8);
                assert(point@ == piece.absolute(x as int, y as int));
                let ghost earlier = places;
                vec.push(point);
                proof {
                    places = places.push((x as int, y as int));
                    assert forall|a: int, b: int|
                        filled(piece.shape, a, b) && precedes(
                            (a, b),
                            (x as int, y + 1),
                        ) implies exists|i: int|
                        0 <= i < places.len() && #[trigger] places[i] == (a, b) by {
                        if a == x && b == y {
                            assert(places[places.len() - 1] == (a, b));
                        } else {
                            assert(precedes((a, b), (x as int, y as int)));
                            let i = choose|i: int|
                                0 <= i < earlier.len() && #[trigger] earlier[i] == (a, b);
                            assert(places[i] == (a, b));
                        }
                    }
                }
            }
            y += 1;
        }
        proof {
            assert forall|a: int, b: int|
                filled(piece.shape, a, b) && precedes((a, b), (x + 1, 0)) implies exists|i: int|
                0 <= i < places.len() && #[trigger] places[i] == (a, b) by {
                assert(precedes((a, b), (x as int, y as int)));
            }
        }
        x += 1;
    }
    proof {
        assert forall|c: (int, int)| piece.occupies(c) implies lists(vec@, c) by {
            let l = piece.local(c);
            assert(filled(piece.shape, l.0, l.1));
            assert(precedes(l, (x as int, 0)));
            let i = choose|i: int| 0 <= i < places.len() && #[trigger] places[i] == l;
            assert(vec@[i]@ == c);
        }
        assert forall|c: (int, int)| lists(vec@, c) implies piece.occupies(c) by {
            let i = choose|i: int| 0 <= i < vec@.len() && (#[trigger] vec@[i])@ == c;
            assert(filled(piece.shape, places[i].0, places[i].1));
        }
        assert forall|i: int, j: int| 0 <= i < j < vec@.len() implies precedes(
            (#[trigger] vec@[i])@,
            (#[trigger] vec@[j])@,
        ) by {
            assert(precedes(places[i], places[j]));
        }
    }
    vec
}

/// Moving a piece moves its blocks by the same distance: the moved piece has a
/// block on a position exactly if the piece had one on the position that far back.
pub proof fn lemma_translation_shifts_cells(piece: Piece, dx: int, dy: int)
    ensures
        forall|c: (int, int)| #[trigger]
            piece.translated(dx, dy).occupies(c) <==> piece.occupies((c.0 - dx, c.1 - dy)),
        piece.translated(dx, dy).occupied_cells() == piece.occupied_cells().map(
            |c: (int, int)| (c.0 + dx, c.1 + dy),
        ),
{
    let moved = piece.translated(dx, dy);
    let shift = |c: (int, int)| (c.0 + dx, c.1 + dy);
    assert forall|c: (int, int)| #[trigger]
        moved.occupies(c) <==> piece.occupies((c.0 - dx, c.1 - dy)) by {
        assert(moved.local(c) == piece.local((c.0 - dx, c.1 - dy)));
    }
    assert forall|c: (int, int)|
        moved.occupied_cells().contains(c) <==> piece.occupied_cells().map(shift).contains(c) by {
        let back = (c.0 - dx, c.1 - dy);
        if moved.occupies(c) {
            assert(piece.occupied_cells().contains(back) && shift(back) == c);
        }
        if piece.occupied_cells().map(shift).contains(c) {
            let b = choose|b: (int, int)| piece.occupied_cells().contains(b) && shift(b) == c;
            assert(b == back);
        }
    }
    assert(moved.occupied_cells() =~= piece.occupied_cells().map(shift));
}

/// A piece whose grid has no line, or no place in its lines, has no block.
proof fn lemma_hollow_has_no_cells(piece: Piece)
    requires
        rectangular(piece.shape),
        piece.shape.len() == 0 || breadth(piece.shape) == 0,
    ensures
        piece.occupied_cells() == Set::<(int, int)>::empty(),
{
    assert forall|c: (int, int)| !piece.occupies(c) by {
        let l = piece.local(c);
        if 0 <= l.0 < piece.shape.len() {
            assert(piece.shape[l.0].len() == breadth(piece.shape));
        }
    }
    assert(piece.occupied_cells() =~= Set::<(int, int)>::empty());
}

/// Four quarter turns the same way, left or right, bring back the blocks of a
/// piece with a rectangular grid: the piece covers the positions it covered.
pub proof fn lemma_four_turns_restore_cells(piece: Piece, rotation: Direction)
    requires
        rectangular(piece.shape),
        rotation != Direction::Double,
    ensures
        piece.turned(rotation).turned(rotation).turned(rotation).turned(rotation).occupied_cells()
            == piece.occupied_cells(),
{
    let last = piece.turned(rotation).turned(rotation).turned(rotation).turned(rotation);
    if piece.shape.len() > 0 && breadth(piece.shape) > 0 {
        lemma_four_quarter_turns(piece.shape, rotation);
        assert(last == piece);
    } else {
        let hollow = seq![Seq::<bool>::empty()];
        lemma_rotated_degenerate(piece.shape, rotation);
        assert(rectangular(hollow));
        lemma_rotated_degenerate(hollow, rotation);
        assert(last.shape == hollow);
        lemma_hollow_has_no_cells(piece);
        lemma_hollow_has_no_cells(last);
    }
}

/// Two double turns bring back the blocks of a piece with a rectangular grid.
pub proof fn lemma_two_double_turns_restore_cells(piece: Piece)
    requires
        rectangular(piece.shape),
    ensures
        piece.turned(Direction::Double).turned(Direction::Double).occupied_cells()
            == piece.occupied_cells(),
{
    let last = piece.turned(Direction::Double).turned(Direction::Double);
    if piece.shape.len() > 0 && breadth(piece.shape) > 0 {
        lemma_two_double_turns(piece.shape);
        assert(last == piece);
    } else {
        let hollow = seq![Seq::<bool>::empty()];
        lemma_rotated_degenerate(piece.shape, Direction::Double);
        assert(rectangular(hollow));
        lemma_rotated_degenerate(hollow, Direction::Double);
        assert(last.shape == hollow);
        lemma_hollow_has_no_cells(piece);
        lemma_hollow_has_no_cells(last);
    }
}

/// A move keeps a piece well formed.
pub proof fn lemma_translated_wf(piece: Piece, dx: int, dy: int)
    requires
        piece.wf(),
    ensures
        piece.translated(dx, dy).wf(),
        piece.has_block() ==> piece.translated(dx, dy).has_block(),
{
    let moved = piece.translated(dx, dy);
    assert(moved.shape == piece.shape);
    if piece.has_block() {
        let (x, y) = choose|x: int, y: int| filled(piece.shape, x, y);
        assert(filled(moved.shape, x, y));
    }
}

/// A turn keeps a piece well formed.
pub proof fn lemma_turned_wf(piece: Piece, rotation: Direction)
    requires
        piece.wf(),
    ensures
        piece.turned(rotation).wf(),
{
    let turned = piece.turned(rotation);
    if breadth(piece.shape) > 0 {
        lemma_rotated_rectangular(piece.shape, rotation);
        if piece.name != Tile::Empty {
            let (x, y) = choose|x: int, y: int| filled(piece.shape, x, y);
            assert(piece.shape[x].len() == breadth(piece.shape));
            assert(piece.shape[x][y]);
            let l = piece.shape.len() as int;
            let w = breadth(piece.shape) as int;
            match rotation {
                Direction::Left => {
                    assert(turned.shape[y].len() == breadth(turned.shape));
                    assert(filled(turned.shape, y, l - 1 - x));
                },
                Direction::Right => {
                    assert(turned.shape[w - 1 - y].len() == breadth(turned.shape));
                    assert(filled(turned.shape, w - 1 - y, x));
                },
                Direction::Double => {
                    assert(turned.shape[l - 1 - x].len() == breadth(turned.shape));
                    assert(filled(turned.shape, l - 1 - x, w - 1 - y));
                },
            }
        }
    } else {
        lemma_rotated_degenerate(piece.shape, rotation);
        if piece.name != Tile::Empty {
            let (x, y) = choose|x: int, y: int| filled(piece.shape, x, y);
            assert(piece.shape[x].len() == breadth(piece.shape));
        }
    }
}

/// Every kind enters the board well formed, and a real kind with four blocks,
/// which are those at the listed positions.
pub proof fn lemma_spawned_wf(name: Tile)
    ensures
        spawned(name).wf(),
        name != Tile::Empty ==> spawned(name).has_block(),
        name == Tile::Empty ==> spawned(name).occupied_cells() == Set::<(int, int)>::empty(),
        spawned(name).occupied_cells() == spawn_cells(name),
{
    let piece = spawned(name);
    assert(rectangular(piece.shape));
    match name {
        Tile::I => {
            assert(filled(piece.shape, 0, 1));
        },
        Tile::O => {
            assert(filled(piece.shape, 0, 0));
        },
        Tile::T => {
            assert(filled(piece.shape, 0, 1));
        },
        Tile::S => {
            assert(filled(piece.shape, 0, 1));
        },
        Tile::Z => {
            assert(filled(piece.shape, 0, 0));
        },
        Tile::J => {
            assert(filled(piece.shape, 0, 0));
        },
        Tile::L => {
            assert(filled(piece.shape, 0, 1));
        },
        Tile::Empty => {},
    }
    assert forall|c: (int, int)| piece.occupies(c) <==> spawn_cells(name).contains(c) by {
        let l = piece.local(c);
        if 0 <= l.0 < piece.shape.len() {
            assert(piece.shape[l.0].len() == breadth(piece.shape));
        }
    }
    assert(piece.occupied_cells() =~= spawn_cells(name));
}

} // verus!
