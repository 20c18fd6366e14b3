use vstd::prelude::*;
use crate::tile::{Tile, Point, Direction};
use crate::grid::{filled, breadth};
use crate::piece::{
    Tetrimino, Piece, spawned, generate_tetrimino, lemma_spawned_wf, lemma_turned_wf,
    lemma_translated_wf,
};
use crate::state::{
    GameState, Game, overlaps, on_board, in_bounds, blocked, locked, check_tetrimino_overlap,
    move_tetrimino, transform_tetrimino, is_row_full,
};
use crate::deal::{
    is_bag, is_valid_bag, at_hand, some_bag_at_hand, dealt, solidified, generate_bag,
    next_piece_with, next_piece_from, solidify_tetrimino_from, lemma_bag_contents,
    lemma_bag_taken_in_once,
};
use crate::sweep::{swept, full_rows, clear_full_rows};

verus! {

/// The number of frames between two falls of the piece.
pub const GRAVITY_TICKS: i32 = 60;

/// What the player can ask for. At most one action is applied in a frame.
#[derive(Copy, Clone, PartialEq, Eq, Structural, Debug)]
pub enum Action {
    MoveLeft,
    MoveRight,
    SoftDrop,
    HardLeft,
    HardRight,
    HardDrop,
    RotateLeft,
    RotateRight,
    RotateDouble,
    Hold,
    Quit,
}

/// The three ways a piece can be pushed.
#[derive(Copy, Clone, PartialEq, Eq, Structural, Debug)]
pub enum Way {
    Left,
    Right,
    Down,
}

/// A game with its gravity countdown.
#[derive(Clone, Debug, PartialEq, Eq)]
pub struct Session {
    pub state: GameState,
    pub ticks_till_next_gravity: i32,
}

/// The mathematical value of a session.
pub struct Play {
    pub state: Game,
    pub ticks: int,
}

impl View for Session {
    type V = Play;

    open spec fn view(&self) -> Play {
        Play { state: self.state@, ticks: self.ticks_till_next_gravity as int }
    }
}

impl Game {
    /// Whether the state is one that play can reach: the board has its ten
    /// columns of twenty rows, the piece in play is well formed and lies on the
    /// board, the cursor is within or just past the first bag, and both bags
    /// are rearrangements of the seven kinds.
    pub open spec fn wf(self) -> bool {
        &&& self.matrix.len() == 10
        &&& forall|x: int| 0 <= x < 10 ==> (#[trigger] self.matrix[x]).len() == 20
        &&& self.tetrimino.wf()
        &&& on_board(self.tetrimino)
        &&& 0 <= self.index <= 7
        &&& is_bag(self.bag1)
        &&& is_bag(self.bag2)
    }

    /// Whether a piece is in play.
    pub open spec fn has_piece(self) -> bool {
        self.tetrimino.name != Tile::Empty
    }

    /// Whether the count of cleared lines can take the full rows of the board
    /// without running over. A game that is over clears no rows.
    pub open spec fn has_room(self) -> bool {
        self.game_over || self.lines_cleared + full_rows(self.matrix, 20) <= i32::MAX
    }
}

/// The piece pushed `k` steps the given way.
pub open spec fn stepped(piece: Piece, way: Way, k: int) -> Piece {
    match way {
        Way::Left => piece.translated(-k, 0),
        Way::Right => piece.translated(k, 0),
        Way::Down => piece.translated(0, k),
    }
}

/// Whether the piece can take exactly `k` steps the given way: each of the
/// first `k` steps leads to a legal placement, and the next one does not.
pub open spec fn free_run(piece: Piece, board: Seq<Seq<Tile>>, way: Way, k: int) -> bool {
    &&& 0 <= k
    &&& forall|j: int| 1 <= j <= k ==> !overlaps(#[trigger] stepped(piece, way, j), board)
    &&& overlaps(stepped(piece, way, k + 1), board)
}

/// The number of steps the piece can take the given way before it is stopped.
pub open spec fn run_length(piece: Piece, board: Seq<Seq<Tile>>, way: Way) -> int {
    choose|k: int| free_run(piece, board, way, k)
}

/// The state after one step of the piece the given way, taken only if it
/// leads to a legal placement.
pub open spec fn shifted(s: Game, way: Way) -> Game {
    if overlaps(stepped(s.tetrimino, way, 1), s.matrix) {
        s
    } else {
        Game { tetrimino: stepped(s.tetrimino, way, 1), ..s }
    }
}

/// The state after the piece has been pushed the given way as far as it goes.
pub open spec fn slid(s: Game, way: Way) -> Game {
    Game { tetrimino: stepped(s.tetrimino, way, run_length(s.tetrimino, s.matrix, way)), ..s }
}

/// The state after a turn of the piece, made only if it leads to a legal placement.
pub open spec fn spun(s: Game, rotation: Direction) -> Game {
    if overlaps(s.tetrimino.turned(rotation), s.matrix) {
        s
    } else {
        Game { tetrimino: s.tetrimino.turned(rotation), ..s }
    }
}

/// The state after a request to hold. Where holding is allowed, the kind in
/// play goes to the hold slot and the kind that was there enters the board (no
/// piece, if the slot was empty); holding is then barred until the next piece
/// is dealt. The game is over if the piece that enters overlaps the board.
pub open spec fn held_swapped(s: Game) -> Game {
    if s.can_hold {
        Game {
            can_hold: false,
            held: s.tetrimino.name,
            tetrimino: spawned(s.held),
            game_over: s.game_over || overlaps(spawned(s.held), s.matrix),
            ..s
        }
    } else {
        s
    }
}

/// The state after the fall that gravity asks for: the piece goes down by one
/// if it can, and else is set into the board, with the next piece dealt.
pub open spec fn fallen(s: Game, fresh: Seq<Tile>) -> Game {
    if overlaps(stepped(s.tetrimino, Way::Down, 1), s.matrix) {
        solidified(s, fresh)
    } else {
        Game { tetrimino: stepped(s.tetrimino, Way::Down, 1), ..s }
    }
}

/// The state with the full rows taken out and counted.
pub open spec fn rows_cleared(s: Game) -> Game {
    Game {
        matrix: swept(s.matrix),
        lines_cleared: s.lines_cleared + full_rows(s.matrix, 20),
        ..s
    }
}

/// The state after a piece has been dealt if none was in play. The deal is
/// like any other: the kind under the cursor enters the board, the cursor
/// moves on, holding is allowed again, and the game is over if the new piece
/// overlaps the board.
pub open spec fn supplied(s: Game, fresh: Seq<Tile>) -> Game {
    if s.has_piece() {
        s
    } else {
        dealt(s, fresh)
    }
}

/// The session after the part of a frame that needs no input. A game that is
/// over stays as it is. Else a piece is dealt if none is in play; unless that
/// ended the game, the full rows are taken out, and the countdown goes down by
/// one, or, where it has run out, starts again while the piece falls.
pub open spec fn advanced(p: Play, fresh: Seq<Tile>) -> Play {
    if p.state.game_over {
        p
    } else {
        let s1 = supplied(p.state, fresh);
        if s1.game_over {
            Play { state: s1, ..p }
        } else {
            let s2 = rows_cleared(s1);
            if p.ticks <= 0 {
                Play { state: fallen(s2, fresh), ticks: GRAVITY_TICKS as int }
            } else {
                Play { state: s2, ticks: p.ticks - 1 }
            }
        }
    }
}

/// The session after an action of the player. A game that is over stays as it is.
pub open spec fn acted(p: Play, action: Action, fresh: Seq<Tile>) -> Play {
    if p.state.game_over {
        p
    } else {
        match action {
            Action::MoveLeft => Play { state: shifted(p.state, Way::Left), ..p },
            Action::MoveRight => Play { state: shifted(p.state, Way::Right), ..p },
            Action::SoftDrop => Play { state: shifted(p.state, Way::Down), ..p },
            Action::HardLeft => Play { state: slid(p.state, Way::Left), ..p },
            Action::HardRight => Play { state: slid(p.state, Way::Right), ..p },
            Action::HardDrop => Play {
                state: solidified(slid(p.state, Way::Down), fresh),
                ticks: GRAVITY_TICKS as int,
            },
            Action::RotateLeft => Play { state: spun(p.state, Direction::Left), ..p },
            Action::RotateRight => Play { state: spun(p.state, Direction::Right), ..p },
            Action::RotateDouble => Play { state: spun(p.state, Direction::Double), ..p },
            Action::Hold => Play { state: held_swapped(p.state), ..p },
            Action::Quit => Play { state: Game { game_over: true, ..p.state }, ..p },
        }
    }
}

/// The session after one frame: the part that needs no input, then the action
/// of the player, if there is one.
pub open spec fn ticked(p: Play, input: Option<Action>, fresh: Seq<Tile>) -> Play {
    match input {
        Some(action) => acted(advanced(p, fresh), action, fresh),
        None => advanced(p, fresh),
    }
}

/// The state in which a game starts: an empty board, nothing held, and the
/// first kind of the first bag in play.
pub open spec fn started(bag1: Seq<Tile>, bag2: Seq<Tile>) -> Play {
    Play {
        state: dealt(
            Game {
                matrix: Seq::new(10, |x: int| Seq::new(20, |y: int| Tile::Empty)),
                tetrimino: spawned(Tile::Empty),
                game_over: false,
                can_hold: true,
                held: Tile::Empty,
                bag1,
                bag2,
                index: 0,
                lines_cleared: 0,
            },
            bag2,
        ),
        ticks: GRAVITY_TICKS as int,
    }
}

/// A piece that is placed legally lies on the board.
pub proof fn lemma_legal_is_on_board(piece: Piece, board: Seq<Seq<Tile>>)
    requires
        !overlaps(piece, board),
    ensures
        on_board(piece),
{
    assert forall|x: int, y: int| #[trigger] filled(piece.shape, x, y) implies in_bounds(
        piece.absolute(x, y),
    ) by {
        assert(!blocked(board, piece.absolute(x, y)));
    }
}

/// Every kind enters on the board.
pub proof fn lemma_spawned_on_board(name: Tile)
    ensures
        on_board(spawned(name)),
{
    let piece = spawned(name);
    lemma_spawned_wf(name);
    assert forall|x: int, y: int| #[trigger] filled(piece.shape, x, y) implies in_bounds(
        piece.absolute(x, y),
    ) by {
        let c = piece.absolute(x, y);
        assert(piece.local(c) == (x, y));
        assert(piece.occupied_cells().contains(c));
    }
}

/// A piece with a block that lies on the board has its anchor near the board.
pub proof fn lemma_anchor_near_board(piece: Piece)
    requires
        piece.wf(),
        piece.has_block(),
        on_board(piece),
    ensures
        -3 <= piece.position.0 <= 12,
        -3 <= piece.position.1 <= 22,
{
    let (x, y) = choose|x: int, y: int| filled(piece.shape, x, y);
    assert(in_bounds(piece.absolute(x, y)));
    assert(piece.shape[x].len() == breadth(piece.shape));
}

/// There is only one number of steps that a piece can take before it is stopped.
pub proof fn lemma_free_run_unique(piece: Piece, board: Seq<Seq<Tile>>, way: Way, k: int)
    requires
        free_run(piece, board, way, k),
    ensures
        run_length(piece, board, way) == k,
{
    let r = run_length(piece, board, way);
    assert(free_run(piece, board, way, r));
    if r < k {
        assert(!overlaps(stepped(piece, way, r + 1), board));
    }
    if k < r {
        assert(!overlaps(stepped(piece, way, k + 1), board));
    }
}

/// Dealing keeps the state well formed and puts a piece in play.
pub proof fn lemma_dealt_wf(s: Game, fresh: Seq<Tile>)
    requires
        s.wf(),
        is_bag(fresh),
    ensures
        dealt(s, fresh).wf(),
        dealt(s, fresh).has_piece(),
{
    let d = dealt(s, fresh);
    lemma_bag_contents(d.bag1);
    lemma_spawned_wf(d.bag1[d.index - 1]);
    lemma_spawned_on_board(d.bag1[d.index - 1]);
}

/// The step of one place that belongs to a way.
fn way_offset(way: Way) -> (offset: Point)
    ensures
        offset@ == match way {
            Way::Left => (-1int, 0int),
            Way::Right => (1int, 0int),
            Way::Down => (0int, 1int),
        },
{
    match way {
        Way::Left => Point(-1, 0),
        Way::Right => Point(1, 0),
        Way::Down => Point(0, 1),
    }
}

/// Pushes the piece in play one step the given way, if that leads to a legal
/// placement, and says whether it did.
fn step_piece(state: &mut GameState, way: Way) -> (moved: bool)
    requires
        old(state)@.wf(),
        old(state)@.has_piece(),
    ensures
        moved == !overlaps(stepped(old(state)@.tetrimino, way, 1), old(state)@.matrix),
        final(state)@ == shifted(old(state)@, way),
        final(state)@.wf(),
{
    let ghost before = state@;
    let offset = way_offset(way);
    proof {
        lemma_anchor_near_board(before.tetrimino);
    }
    let moved = move_tetrimino(state, offset);
    proof {
        assert(before.tetrimino.translated(offset@.0, offset@.1) == stepped(
            before.tetrimino,
            way,
            1,
        ));
        if moved {
            lemma_translated_wf(before.tetrimino, offset@.0, offset@.1);
            lemma_legal_is_on_board(state@.tetrimino, before.matrix);
        }
    }
    moved
}

/// Pushes the piece in play the given way until the next step would be
/// illegal: up to the wall, the floor, or a tile in its way.
pub fn hard_shift(state: &mut GameState, way: Way)
    requires
        old(state)@.wf(),
        old(state)@.has_piece(),
    ensures
        final(state)@ == slid(old(state)@, way),
        final(state)@.wf(),
        free_run(
            old(state)@.tetrimino,
            old(state)@.matrix,
            way,
            run_length(old(state)@.tetrimino, old(state)@.matrix, way),
        ),
{
    let ghost before = old(state)@;
    let ghost mut steps: int = 0;
    assert(stepped(before.tetrimino, way, 0) == before.tetrimino);
    loop
        invariant_except_break
            0 <= steps <= 19,
            forall|j: int|
                1 <= j <= steps ==> !overlaps(
                    #[trigger] stepped(before.tetrimino, way, j),
                    before.matrix,
                ),
            state@ == (Game { tetrimino: stepped(before.tetrimino, way, steps), ..before }),
        invariant
            before == old(state)@,
            before.wf(),
            before.has_piece(),
            state@.wf(),
        ensures
            free_run(before.tetrimino, before.matrix, way, steps),
            state@ == (Game { tetrimino: stepped(before.tetrimino, way, steps), ..before }),
        decreases 19 - steps,
    {
        let ghost current = state@.tetrimino;
        assert(stepped(current, way, 1) == stepped(before.tetrimino, way, steps + 1));
        if !step_piece(state, way) {
            break ;
        }
        proof {
            steps = steps + 1;
            let next = stepped(before.tetrimino, way, steps);
            let (x, y) = choose|x: int, y: int| filled(before.tetrimino.shape, x, y);
            assert(filled(next.shape, x, y));
            assert(in_bounds(next.absolute(x, y)));
            assert(in_bounds(before.tetrimino.absolute(x, y)));
        }
    }
    proof {
        lemma_free_run_unique(before.tetrimino, before.matrix, way, steps);
    }
}

/// Holds the piece in play, if holding is allowed: its kind goes to the hold
/// slot, and the kind that was held enters the board in its place. With an
/// empty slot no piece is in play afterwards. Holding is barred until the
/// next piece is dealt.
pub fn hold_piece(state: &mut GameState)
    ensures
        final(state)@ == held_swapped(old(state)@),
        old(state)@.wf() ==> final(state)@.wf(),
{
    if state.can_hold {
        state.can_hold = false;
        let kind = state.held;
        state.held = state.tetrimino.name;
        let possible_tetrimino = generate_tetrimino(kind);
        if check_tetrimino_overlap(&possible_tetrimino, state) {
            state.game_over = true
        }
        state.tetrimino = possible_tetrimino;
        proof {
            lemma_spawned_wf(kind);
            lemma_spawned_on_board(kind);
        }
    }
}

/// The part of a frame that needs no input, with the bag at hand that was
/// given or, where none was given, with a new bag shuffled when the first bag
/// is used up. Whatever is dealt in the frame, one bag at hand accounts for it.
fn advance_from(session: &mut Session, given: Option<[Tile; 7]>)
    requires
        old(session)@.state.wf(),
        old(session)@.state.has_room(),
        given matches Some(bag) ==> is_bag(bag@),
    ensures
        exists|fresh: Seq<Tile>|
            at_hand(given, fresh) && is_bag(fresh) && final(session)@ == advanced(
                old(session)@,
                fresh,
            ),
        final(session)@.state.wf(),
        final(session)@.state.game_over || final(session)@.state.has_piece(),
{
    let ghost start = session@;
    let ghost mut fresh = some_bag_at_hand(given);
    if session.state.game_over {
        assert(at_hand(given, fresh) && is_bag(fresh) && session@ == advanced(start, fresh));
        return ;
    }
    if session.state.tetrimino.name == Tile::Empty {
        next_piece_from(&mut session.state, given);
        proof {
            fresh = choose|fresh: Seq<Tile>|
                at_hand(given, fresh) && session@.state == dealt(start.state, fresh);
            lemma_dealt_wf(start.state, fresh);
        }
    }
    let ghost dealt_to = session@.state;
    assert(dealt_to == supplied(start.state, fresh));
    if session.state.game_over {
        assert(at_hand(given, fresh) && is_bag(fresh) && session@ == advanced(start, fresh));
        return ;
    }
    assert(dealt_to.wf() && dealt_to.has_piece());
    clear_full_rows(&mut session.state);
    let ghost cleared = session@.state;
    assert(cleared == rows_cleared(dealt_to));
    assert(cleared.wf() && cleared.has_piece());
    if session.ticks_till_next_gravity <= 0 {
        session.ticks_till_next_gravity = GRAVITY_TICKS;
        if !step_piece(&mut session.state, Way::Down) {
            let ghost set = Game { matrix: locked(cleared.matrix, cleared.tetrimino), ..cleared };
            solidify_tetrimino_from(&mut session.state, given);
            proof {
                let second = choose|second: Seq<Tile>|
                    at_hand(given, second) && session@.state == solidified(cleared, second);
                lemma_bag_taken_in_once(start.state, fresh, second);
                lemma_bag_taken_in_once(set, second, fresh);
                if start.state.has_piece() || start.state.index <= 6 {
                    fresh = second;
                }
                lemma_dealt_wf(set, fresh);
            }
        }
        assert(dealt_to == supplied(start.state, fresh));
        assert(session@.state == fallen(cleared, fresh));
        assert(session@.state.wf());
    } else {
        session.ticks_till_next_gravity -= 1;
    }
    assert(at_hand(given, fresh) && is_bag(fresh) && session@ == advanced(start, fresh));
}

/// The part of a frame that needs no input, with `fresh` at hand as the bag to
/// take in if the first bag is used up.
pub fn advance_with(session: &mut Session, fresh: [Tile; 7])
    requires
        old(session)@.state.wf(),
        is_bag(fresh@),
        old(session)@.state.has_room(),
    ensures
        final(session)@ == advanced(old(session)@, fresh@),
        final(session)@.state.wf(),
        final(session)@.state.game_over || final(session)@.state.has_piece(),
{
    advance_from(session, Some(fresh));
}

/// The part of a frame that needs no input. A new bag is shuffled when the
/// first bag is used up.
pub fn advance(session: &mut Session)
    requires
        old(session)@.state.wf(),
        old(session)@.state.has_room(),
    ensures
        exists|fresh: Seq<Tile>| is_bag(fresh) && final(session)@ == advanced(old(session)@, fresh),
        final(session)@.state.wf(),
        final(session)@.state.game_over || final(session)@.state.has_piece(),
{
    advance_from(session, None);
}

/// Applies an action of the player, with the bag at hand that was given or,
/// where none was given, with a new bag shuffled when the first bag is used up.
fn apply_action_from(session: &mut Session, action: Action, given: Option<[Tile; 7]>)
    requires
        old(session)@.state.wf(),
        given matches Some(bag) ==> is_bag(bag@),
        old(session)@.state.game_over || old(session)@.state.has_piece() || action == Action::Hold
            || action == Action::Quit,
    ensures
        exists|fresh: Seq<Tile>|
            at_hand(given, fresh) && is_bag(fresh) && final(session)@ == acted(
                old(session)@,
                action,
                fresh,
            ),
        final(session)@.state.wf(),
{
    let ghost start = session@;
    let ghost mut fresh = some_bag_at_hand(given);
    if session.state.game_over {
        assert(at_hand(given, fresh) && is_bag(fresh) && session@ == acted(start, action, fresh));
        return ;
    }
    match action {
        Action::MoveLeft => {
            step_piece(&mut session.state, Way::Left);
        },
        Action::MoveRight => {
            step_piece(&mut session.state, Way::Right);
        },
        Action::SoftDrop => {
            step_piece(&mut session.state, Way::Down);
        },
        Action::HardLeft => {
            hard_shift(&mut session.state, Way::Left);
        },
        Action::HardRight => {
            hard_shift(&mut session.state, Way::Right);
        },
        Action::HardDrop => {
            hard_shift(&mut session.state, Way::Down);
            let ghost landed = session@.state;
            solidify_tetrimino_from(&mut session.state, given);
            proof {
                fresh = choose|fresh: Seq<Tile>|
                    at_hand(given, fresh) && session@.state == solidified(landed, fresh);
                lemma_dealt_wf(
                    Game { matrix: locked(landed.matrix, landed.tetrimino), ..landed },
                    fresh,
                );
            }
            session.ticks_till_next_gravity = GRAVITY_TICKS;
        },
        Action::RotateLeft => {
            turn_piece(&mut session.state, Direction::Left);
        },
        Action::RotateRight => {
            turn_piece(&mut session.state, Direction::Right);
        },
        Action::RotateDouble => {
            turn_piece(&mut session.state, Direction::Double);
        },
        Action::Hold => {
            hold_piece(&mut session.state);
        },
        Action::Quit => {
            session.state.game_over = true;
        },
    }
    assert(at_hand(given, fresh) && is_bag(fresh) && session@ == acted(start, action, fresh));
}

/// Applies an action of the player, with `fresh` at hand as the bag to take
/// in if the first bag is used up. A move or turn that is not legal is not
/// made, which is no error. Moves, turns and drops need a piece in play.
pub fn apply_action_with(session: &mut Session, action: Action, fresh: [Tile; 7])
    requires
        old(session)@.state.wf(),
        is_bag(fresh@),
        old(session)@.state.game_over || old(session)@.state.has_piece() || action == Action::Hold
            || action == Action::Quit,
    ensures
        final(session)@ == acted(old(session)@, action, fresh@),
        final(session)@.state.wf(),
{
    apply_action_from(session, action, Some(fresh));
}

/// Turns the piece in play where it stands, if the turned piece is placed legally.
fn turn_piece(state: &mut GameState, rotation: Direction)
    requires
        old(state)@.wf(),
    ensures
        final(state)@ == spun(old(state)@, rotation),
        final(state)@.wf(),
{
    let ghost before = state@;
    let turned = transform_tetrimino(state, Point(0, 0), rotation);
    proof {
        let candidate = before.tetrimino.turned(rotation);
        assert(candidate.translated(0, 0) == candidate);
        if turned {
            lemma_turned_wf(before.tetrimino, rotation);
            lemma_legal_is_on_board(candidate, before.matrix);
        }
    }
}

/// Applies an action of the player. A new bag is shuffled when the first bag
/// is used up. A move or turn that is not legal is not made, which is no
/// error. Moves, turns and drops need a piece in play.
pub fn apply_action(session: &mut Session, action: Action)
    requires
        old(session)@.state.wf(),
        old(session)@.state.game_over || old(session)@.state.has_piece() || action == Action::Hold
            || action == Action::Quit,
    ensures
        exists|fresh: Seq<Tile>|
            is_bag(fresh) && final(session)@ == acted(old(session)@, action, fresh),
        final(session)@.state.wf(),
{
    apply_action_from(session, action, None);
}

/// Whatever bag is at hand, the part of a frame that needs no input takes it
/// in at most once, and the cursor then stands at 1 or 2. Else the bag at hand
/// makes no difference.
pub proof fn lemma_frame_takes_in_one_bag(p: Play, fresh: Seq<Tile>, other: Seq<Tile>)
    requires
        0 <= p.state.index <= 7,
    ensures
        advanced(p, fresh) == advanced(p, other) || 1 <= advanced(p, fresh).state.index <= 2,
{
    let s1 = supplied(p.state, fresh);
    let t1 = supplied(p.state, other);
    lemma_bag_taken_in_once(p.state, fresh, other);
    let s2 = rows_cleared(s1);
    let set = Game { matrix: locked(s2.matrix, s2.tetrimino), ..s2 };
    lemma_bag_taken_in_once(set, fresh, other);
}

/// An action of the player takes in the bag at hand only where the cursor has
/// run past the first bag. Else the bag at hand makes no difference.
pub proof fn lemma_action_ignores_spare_bag(
    p: Play,
    action: Action,
    fresh: Seq<Tile>,
    other: Seq<Tile>,
)
    requires
        p.state.index <= 6,
    ensures
        acted(p, action, fresh) == acted(p, action, other),
{
    let landed = slid(p.state, Way::Down);
    let set = Game { matrix: locked(landed.matrix, landed.tetrimino), ..landed };
    lemma_bag_taken_in_once(set, fresh, other);
}

/// One frame of play, with the bag at hand that was given or, where none was
/// given, with a new bag shuffled when the first bag is used up.
fn tick_from(session: &mut Session, input: Option<Action>, given: Option<[Tile; 7]>)
    requires
        old(session)@.state.wf(),
        old(session)@.state.has_room(),
        given matches Some(bag) ==> is_bag(bag@),
    ensures
        exists|fresh: Seq<Tile>|
            at_hand(given, fresh) && is_bag(fresh) && final(session)@ == ticked(
                old(session)@,
                input,
                fresh,
            ),
        final(session)@.state.wf(),
{
    let ghost start = session@;
    advance_from(session, given);
    let ghost first = choose|fresh: Seq<Tile>|
        at_hand(given, fresh) && is_bag(fresh) && session@ == advanced(start, fresh);
    let ghost middle = session@;
    match input {
        Some(action) => {
            apply_action_from(session, action, given);
            proof {
                let second = choose|fresh: Seq<Tile>|
                    at_hand(given, fresh) && is_bag(fresh) && session@ == acted(
                        middle,
                        action,
                        fresh,
                    );
                lemma_frame_takes_in_one_bag(start, first, second);
                if advanced(start, first) == advanced(start, second) {
                    assert(session@ == ticked(start, input, second));
                } else {
                    lemma_action_ignores_spare_bag(middle, action, second, first);
                    assert(session@ == ticked(start, input, first));
                }
            }
        },
        None => {
            assert(session@ == ticked(start, input, first));
        },
    }
}

/// One frame of play, with `fresh` at hand as the bag to take in if the first
/// bag is used up: the part that needs no input, then the action of the
/// player, if there is one.
pub fn tick_with(session: &mut Session, input: Option<Action>, fresh: [Tile; 7])
    requires
        old(session)@.state.wf(),
        is_bag(fresh@),
        old(session)@.state.has_room(),
    ensures
        final(session)@ == ticked(old(session)@, input, fresh@),
        final(session)@.state.wf(),
{
    tick_from(session, input, Some(fresh));
}

/// One frame of play. A new bag is shuffled when the first bag is used up,
/// which happens at most once in a frame.
pub fn tick(session: &mut Session, input: Option<Action>)
    requires
        old(session)@.state.wf(),
        old(session)@.state.has_room(),
    ensures
        exists|fresh: Seq<Tile>|
            is_bag(fresh) && final(session)@ == ticked(old(session)@, input, fresh),
        final(session)@.state.wf(),
{
    tick_from(session, input, None);
}

/// A game at its start, dealt from the two bags given.
pub fn new_game_with(bag1: [Tile; 7], bag2: [Tile; 7]) -> (session: Session)
    ensures
        session@ == started(bag1@, bag2@),
        is_bag(bag1@) && is_bag(bag2@) ==> session@.state.wf() && session@.state.has_piece()
            && !session@.state.game_over,
{
    let mut state = GameState {
        matrix: [[Tile::Empty; 20]; 10],
        tetrimino: generate_tetrimino(Tile::Empty),
        game_over: false,
        can_hold: true,
        held: Tile::Empty,
        bag1,
        bag2,
        index: 0,
        lines_cleared: 0,
    };
    assert(state@.matrix =~~= Seq::new(10, |x: int| Seq::new(20, |y: int| Tile::Empty)));
    proof {
        if is_bag(bag1@) && is_bag(bag2@) {
            lemma_spawned_wf(Tile::Empty);
            lemma_spawned_on_board(Tile::Empty);
            lemma_dealt_wf(state@, bag2@);
            lemma_bag_contents(bag1@);
            lemma_spawn_is_free(bag1@[0], state@.matrix);
        }
    }
    next_piece_with(&mut state, bag2);
    Session { state, ticks_till_next_gravity: GRAVITY_TICKS }
}

/// A game at its start, dealt from two bags shuffled here.
pub fn new_game() -> (session: Session)
    ensures
        exists|bag1: Seq<Tile>, bag2: Seq<Tile>|
            is_bag(bag1) && is_bag(bag2) && session@ == started(bag1, bag2),
        session@.state.wf(),
        session@.state.has_piece(),
        !session@.state.game_over,
{
    let bag1 = generate_bag();
    let bag2 = generate_bag();
    let session = new_game_with(bag1, bag2);
    assert(is_bag(bag1@) && is_bag(bag2@) && session@ == started(bag1@, bag2@));
    session
}

/// On a board without tiles in its two top rows every kind enters legally.
pub proof fn lemma_spawn_is_free(name: Tile, board: Seq<Seq<Tile>>)
    requires
        forall|x: int, y: int| 0 <= x < 10 && 0 <= y < 2 ==> #[trigger] board[x][y] == Tile::Empty,
    ensures
        !overlaps(spawned(name), board),
{
    let piece = spawned(name);
    lemma_spawned_wf(name);
    assert forall|x: int, y: int| #[trigger] filled(piece.shape, x, y) implies !blocked(
        board,
        piece.absolute(x, y),
    ) by {
        let c = piece.absolute(x, y);
        assert(piece.local(c) == (x, y));
        assert(piece.occupied_cells().contains(c));
        assert(board[c.0][c.1] == Tile::Empty);
    }
}

/// A second request to hold, with no piece dealt in between, does nothing:
/// the first request bars holding, and a barred request leaves the state as it is.
pub proof fn lemma_second_hold_is_idle(s: Game)
    ensures
        !held_swapped(s).can_hold,
        s.can_hold ==> held_swapped(s).held == s.tetrimino.name && held_swapped(s).tetrimino
            == spawned(s.held),
        held_swapped(held_swapped(s)) == held_swapped(s),
{
}

/// A deal allows holding again, the deal of a frame that finds no piece in
/// play among them: after a hold into an empty slot has left no piece in play,
/// the next frame deals one, and that piece can be held in its turn. A frame
/// that finds a piece in play deals none and leaves holding as it is.
pub proof fn lemma_deal_allows_hold(s: Game, fresh: Seq<Tile>)
    ensures
        dealt(s, fresh).can_hold,
        !s.has_piece() ==> supplied(s, fresh).can_hold,
        s.has_piece() ==> supplied(s, fresh) == s,
        s.can_hold && s.held == Tile::Empty ==> supplied(held_swapped(s), fresh).can_hold,
{
}

/// The same of the action: `Hold` twice is `Hold` once.
pub proof fn lemma_hold_twice(p: Play, first: Seq<Tile>, second: Seq<Tile>)
    ensures
        acted(acted(p, Action::Hold, first), Action::Hold, second) == acted(p, Action::Hold, first),
{
}

/// A piece with a block that lies on the board is stopped, whichever way it
/// is pushed, after nineteen steps at most.
pub proof fn lemma_run_is_stopped(piece: Piece, board: Seq<Seq<Tile>>, way: Way)
    requires
        piece.has_block(),
        on_board(piece),
    ensures
        free_run(piece, board, way, run_length(piece, board, way)),
        0 <= run_length(piece, board, way) <= 19,
{
    assert(stepped(piece, way, 0) == piece);
    lemma_run_is_stopped_from(piece, board, way, 0);
    let k = choose|k: int| 0 <= k <= 19 && free_run(piece, board, way, k);
    lemma_free_run_unique(piece, board, way, k);
}

/// The same, for a piece that has taken `j` legal steps.
proof fn lemma_run_is_stopped_from(piece: Piece, board: Seq<Seq<Tile>>, way: Way, j: int)
    requires
        piece.has_block(),
        on_board(piece),
        0 <= j <= 19,
        forall|i: int| 1 <= i <= j ==> !overlaps(#[trigger] stepped(piece, way, i), board),
    ensures
        exists|k: int| j <= k <= 19 && free_run(piece, board, way, k),
    decreases 19 - j,
{
    let next = stepped(piece, way, j + 1);
    if overlaps(next, board) {
        assert(free_run(piece, board, way, j));
    } else {
        lemma_legal_is_on_board(next, board);
        let (x, y) = choose|x: int, y: int| filled(piece.shape, x, y);
        assert(filled(next.shape, x, y));
        assert(in_bounds(next.absolute(x, y)));
        assert(in_bounds(piece.absolute(x, y)));
        lemma_run_is_stopped_from(piece, board, way, j + 1);
    }
}

/// A hard drop sets the piece into the board at the lowest row that it
/// reaches by falling straight down from where it is, turned as it is, and
/// starts the gravity countdown again. For some `k` from 0 to 19 the piece can
/// fall `k` rows and no further, and the board takes the piece at `k` rows
/// below its place.
pub proof fn lemma_hard_drop_locks_lowest(p: Play, fresh: Seq<Tile>)
    requires
        p.state.wf(),
        p.state.has_piece(),
        !p.state.game_over,
    ensures
        ({
            let k = run_length(p.state.tetrimino, p.state.matrix, Way::Down);
            &&& 0 <= k <= 19
            &&& forall|j: int|
                1 <= j <= k ==> !overlaps(
                    #[trigger] p.state.tetrimino.translated(0, j),
                    p.state.matrix,
                )
            &&& overlaps(p.state.tetrimino.translated(0, k + 1), p.state.matrix)
            &&& acted(p, Action::HardDrop, fresh).state.matrix == locked(
                p.state.matrix,
                p.state.tetrimino.translated(0, k),
            )
            &&& acted(p, Action::HardDrop, fresh).ticks == GRAVITY_TICKS
        }),
{
    let piece = p.state.tetrimino;
    let k = run_length(piece, p.state.matrix, Way::Down);
    lemma_run_is_stopped(piece, p.state.matrix, Way::Down);
    assert forall|j: int| 1 <= j <= k implies !overlaps(
        #[trigger] piece.translated(0, j),
        p.state.matrix,
    ) by {
        assert(stepped(piece, Way::Down, j) == piece.translated(0, j));
    }
    assert(stepped(piece, Way::Down, k + 1) == piece.translated(0, k + 1));
}

/// Whether the piece is well formed and lies on the board.
fn is_sound_piece(piece: &Tetrimino) -> (sound: bool)
    ensures
        sound == (piece@.wf() && on_board(piece@)),
{
    let ghost p = piece@;
    let lines = piece.shape.len();
    if lines < 1 || lines > 4 {
        return false;
    }
    let places = piece.shape[0].len();
    if places > 4 {
        return false;
    }
    if piece.center.0 < 0 || piece.center.0 >= 4 || piece.center.1 < 0 || piece.center.1 >= 4 {
        return false;
    }
    let mut any = false;
    let ghost mut at: (int, int) = (0, 0);
    let mut x: usize = 0;
    while x < lines
        invariant
            p == piece@,
            lines == piece.shape@.len(),
            1 <= lines <= 4,
            places == breadth(p.shape),
            places <= 4,
            x <= lines,
            forall|a: int| 0 <= a < x ==> (#[trigger] p.shape[a]).len() == places,
            forall|a: int, b: int| #[trigger]
                filled(p.shape, a, b) && a < x ==> in_bounds(p.absolute(a, b)),
            any ==> filled(p.shape, at.0, at.1),
            !any ==> forall|a: int, b: int| #[trigger] filled(p.shape, a, b) ==> a >= x,
        decreases lines - x,
    {
        if piece.shape[x].len() != places {
            assert(p.shape[x as int].len() != breadth(p.shape));
            return false;
        }
        let mut y: usize = 0;
        while y < places
            invariant
                p == piece@,
                lines == piece.shape@.len(),
                x < lines <= 4,
                places == p.shape[x as int].len(),
                places <= 4,
                y <= places,
                forall|a: int, b: int| #[trigger]
                    filled(p.shape, a, b) && (a < x || (a == x && b < y)) ==> in_bounds(
                        p.absolute(a, b),
                    ),
                any ==> filled(p.shape, at.0, at.1),
                !any ==> forall|a: int, b: int| #[trigger]
                    filled(p.shape, a, b) ==> a > x || (a == x && b >= y),
            decreases places - y,
        {
            if piece.shape[x][y] {
                assert(filled(p.shape, x as int, y as int));
                any = true;
                proof {
                    at = (x as int, y as int);
                }
                let column: i32 = x as i32 + piece.position.0 as i32 - piece.center.0 as i32;
                let row: i32 = y as i32 + piece.position.1 as i32 - piece.center.1 as i32;
                if column < 0 || column >= 10 || row < 0 || row >= 20 {
                    assert(!in_bounds(p.absolute(x as int, y as int)));
                    return false;
                }
            }
            y += 1;
        }
        x += 1;
    }
    if piece.name != Tile::Empty && !any {
        return false;
    }
    true
}

/// Whether the state is well formed, so that play can go on from it.
pub fn is_well_formed(state: &GameState) -> (sound: bool)
    ensures
        sound == state@.wf(),
{
    state.index <= 7 && is_valid_bag(&state.bag1) && is_valid_bag(&state.bag2) && is_sound_piece(
        &state.tetrimino,
    )
}

/// Whether the count of cleared lines can take the full rows of the board.
pub fn has_room(state: &GameState) -> (room: bool)
    ensures
        room == state@.has_room(),
{
    if state.game_over {
        return true;
    }
    let mut full: i32 = 0;
    let mut row: usize = 0;
    while row < 20
        invariant
            row <= 20,
            full == full_rows(state@.matrix, row as int),
            0 <= full <= row,
        decreases 20 - row,
    {
        if is_row_full(state, row) {
            full += 1;
        }
        row += 1;
    }
    state.lines_cleared <= i32::MAX - full
}

/// Whether the action can be applied: always once the game is over, and to
/// hold or to quit; a move, a turn or a drop needs a piece in play.
pub fn accepts(session: &Session, action: Action) -> (accepted: bool)
    ensures
        accepted == (session@.state.game_over || session@.state.has_piece() || action
            == Action::Hold || action == Action::Quit),
{
    session.state.game_over || session.state.tetrimino.name != Tile::Empty || action
        == Action::Hold || action == Action::Quit
}

} // verus!
