use vstd::prelude::*;
use crate::tile::Tile;
use crate::piece::{spawned, generate_tetrimino};
use crate::state::{
    GameState, Game, overlaps, on_board, locked, lock_tetrimino, check_tetrimino_overlap,
};

verus! {

/// Assumed of the `fastrand` crate, not proved here: `fastrand::shuffle` walks
/// the slice once and swaps each element with one at a random earlier place or
/// with itself. Which places it draws is left open. That it only swaps means
/// that the slice holds afterwards the elements it held before, each as often
/// as before.
pub assume_specification<E>[ fastrand::shuffle::<E> ](slice: &mut [E])
    ensures
        final(slice)@.to_multiset() == old(slice)@.to_multiset(),
;

/// The seven kinds in their fixed order.
pub open spec fn canonical_bag() -> Seq<Tile> {
    seq![Tile::I, Tile::O, Tile::T, Tile::S, Tile::Z, Tile::J, Tile::L]
}

/// Whether the sequence is a bag: a rearrangement of the seven kinds.
pub open spec fn is_bag(bag: Seq<Tile>) -> bool {
    bag.to_multiset() == canonical_bag().to_multiset()
}

/// A bag holds seven tiles, none of them `Empty` and no kind twice.
pub proof fn lemma_bag_contents(bag: Seq<Tile>)
    requires
        is_bag(bag),
    ensures
        bag.len() == 7,
        forall|i: int| 0 <= i < 7 ==> #[trigger] bag[i] != Tile::Empty,
        forall|i: int, j: int| 0 <= i < j < 7 ==> #[trigger] bag[i] != #[trigger] bag[j],
{
    broadcast use vstd::seq_lib::group_to_multiset_ensures;

    let canon = canonical_bag();
    bag.to_multiset_ensures();
    canon.to_multiset_ensures();
    assert(canon.len() == 7);
    assert(canon.no_duplicates());
    assert forall|i: int| 0 <= i < 7 implies #[trigger] bag[i] != Tile::Empty by {
        assert(bag.contains(bag[i]));
        assert(canon.to_multiset().count(bag[i]) > 0);
        assert(canon.contains(bag[i]));
    }
    canon.lemma_multiset_has_no_duplicates();
    assert forall|t: Tile| bag.to_multiset().count(t) <= 1 by {
        assert(canon.to_multiset().count(t) <= 1);
    }
    bag.lemma_multiset_has_no_duplicates_conv();
}

/// A fresh bag: the seven kinds in an order that `fastrand::shuffle` draws.
pub fn generate_bag() -> (bag: [Tile; 7])
    ensures
        is_bag(bag@),
{
    let mut bag = [Tile::I, Tile::O, Tile::T, Tile::S, Tile::Z, Tile::J, Tile::L];
    assert(bag@ =~= canonical_bag());
    fastrand::shuffle(&mut bag);
    bag
}

/// The state after the next piece has been dealt. Where the cursor has run past
/// the first bag, the second bag takes its place and `fresh` becomes the second
/// bag. The kind under the cursor enters the board, the cursor moves on, and
/// holding is allowed again. The game is over if the new piece overlaps the board.
pub open spec fn dealt(s: Game, fresh: Seq<Tile>) -> Game {
    let swap = s.index > 6;
    let bag1 = if swap {
        s.bag2
    } else {
        s.bag1
    };
    let bag2 = if swap {
        fresh
    } else {
        s.bag2
    };
    let index = if swap {
        0
    } else {
        s.index
    };
    let piece = spawned(bag1[index]);
    Game {
        tetrimino: piece,
        game_over: s.game_over || overlaps(piece, s.matrix),
        can_hold: true,
        bag1,
        bag2,
        index: index + 1,
        ..s
    }
}

/// A deal takes in the bag at hand only when the cursor has run past the first
/// bag, and leaves the cursor at 1. While the cursor is within the first bag a
/// deal moves it on by one and is the same whatever bag is at hand. So the six
/// deals that follow one that took in a bag take in none, and one bag at hand
/// is enough for a frame of play, in which at most three pieces are dealt.
pub proof fn lemma_bag_taken_in_once(s: Game, fresh: Seq<Tile>, other: Seq<Tile>)
    ensures
        s.index > 6 ==> dealt(s, fresh).bag2 == fresh && dealt(s, fresh).index == 1,
        s.index <= 6 ==> dealt(s, fresh) == dealt(s, other) && dealt(s, fresh).index == s.index
            + 1,
{
}

/// Deals the next piece, with `fresh` at hand as the bag to take in if the
/// first bag is used up.
pub fn next_piece_with(state: &mut GameState, fresh: [Tile; 7])
    ensures
        final(state)@ == dealt(old(state)@, fresh@),
{
    state.can_hold = true;
    if state.index > 6 {
        state.index = 0;
        state.bag1 = state.bag2;
        state.bag2 = fresh;
    }
    let possible_tetrimino = generate_tetrimino(state.bag1[state.index as usize]);
    if check_tetrimino_overlap(&possible_tetrimino, state) {
        state.game_over = true
    }
    state.tetrimino = possible_tetrimino;
    state.index += 1;
}

/// Deals the next piece. A new bag is shuffled when the first bag is used up.
pub fn next_piece(state: &mut GameState)
    ensures
        exists|fresh: Seq<Tile>| is_bag(fresh) && final(state)@ == dealt(old(state)@, fresh),
{
    if state.index > 6 {
        let fresh = generate_bag();
        next_piece_with(state, fresh);
        assert(is_bag(fresh@) && state@ == dealt(old(state)@, fresh@));
    } else {
        let spare = state.bag2;
        next_piece_with(state, spare);
        assert(is_bag(canonical_bag()) && state@ == dealt(old(state)@, canonical_bag()));
    }
}

/// Whether `fresh` can be the bag at hand for a deal: it is the bag that was
/// given or, where none was given, any bag, since one is then shuffled at the
/// time it is needed.
pub open spec fn at_hand(given: Option<[Tile; 7]>, fresh: Seq<Tile>) -> bool {
    match given {
        Some(bag) => fresh == bag@,
        None => is_bag(fresh),
    }
}

/// A bag that can be at hand: the one that was given, or the seven kinds in
/// their fixed order.
pub open spec fn some_bag_at_hand(given: Option<[Tile; 7]>) -> Seq<Tile> {
    match given {
        Some(bag) => bag@,
        None => canonical_bag(),
    }
}

/// Deals the next piece, with the bag at hand that was given, or, where none
/// was given, with a new bag shuffled when the first bag is used up.
pub(crate) fn next_piece_from(state: &mut GameState, given: Option<[Tile; 7]>)
    ensures
        exists|fresh: Seq<Tile>|
            at_hand(given, fresh) && final(state)@ == dealt(old(state)@, fresh),
{
    match given {
        Some(bag) => {
            next_piece_with(state, bag);
            assert(at_hand(given, bag@) && state@ == dealt(old(state)@, bag@));
        },
        None => {
            next_piece(state);
            let ghost fresh = choose|fresh: Seq<Tile>|
                is_bag(fresh) && state@ == dealt(old(state)@, fresh);
            assert(at_hand(given, fresh) && state@ == dealt(old(state)@, fresh));
        },
    }
}

/// The state after the piece in play has been set into the board and the next
/// piece dealt.
pub open spec fn solidified(s: Game, fresh: Seq<Tile>) -> Game {
    dealt(Game { matrix: locked(s.matrix, s.tetrimino), ..s }, fresh)
}

/// Sets the piece in play into the board and deals the next piece, with `fresh`
/// at hand as the bag to take in if the first bag is used up.
pub fn solidify_tetrimino_with(state: &mut GameState, fresh: [Tile; 7])
    requires
        on_board(old(state)@.tetrimino),
    ensures
        final(state)@ == solidified(old(state)@, fresh@),
{
    lock_tetrimino(state);
    next_piece_with(state, fresh);
}

/// Sets the piece in play into the board and deals the next piece.
pub fn solidify_tetrimino(state: &mut GameState)
    requires
        on_board(old(state)@.tetrimino),
    ensures
        exists|fresh: Seq<Tile>| is_bag(fresh) && final(state)@ == solidified(old(state)@, fresh),
{
    lock_tetrimino(state);
    next_piece(state);
}

/// Sets the piece in play into the board and deals the next piece, with the
/// bag at hand that was given, or, where none was given, with a new bag
/// shuffled when the first bag is used up.
pub(crate) fn solidify_tetrimino_from(state: &mut GameState, given: Option<[Tile; 7]>)
    requires
        on_board(old(state)@.tetrimino),
    ensures
        exists|fresh: Seq<Tile>|
            at_hand(given, fresh) && final(state)@ == solidified(old(state)@, fresh),
{
    lock_tetrimino(state);
    next_piece_from(state, given);
}

/// The state after one piece has been dealt for each of the bags listed, the
/// first of them at hand for the first deal.
pub open spec fn dealt_all(s: Game, fresh: Seq<Seq<Tile>>) -> Game
    decreases fresh.len(),
{
    if fresh.len() == 0 {
        s
    } else {
        dealt(dealt_all(s, fresh.drop_last()), fresh.last())
    }
}

/// The first seven deals of a game go through the first bag in its order and
/// leave both bags as they are, whatever bags are at hand.
pub proof fn lemma_first_bag_deals(s: Game, fresh: Seq<Seq<Tile>>)
    requires
        s.index == 0,
        1 <= fresh.len() <= 7,
    ensures
        dealt_all(s, fresh).tetrimino == spawned(s.bag1[fresh.len() - 1]),
        dealt_all(s, fresh).index == fresh.len(),
        dealt_all(s, fresh).bag1 == s.bag1,
        dealt_all(s, fresh).bag2 == s.bag2,
        dealt_all(s, fresh).matrix == s.matrix,
    decreases fresh.len(),
{
    if fresh.len() > 1 {
        lemma_first_bag_deals(s, fresh.drop_last());
    } else {
        assert(dealt_all(s, fresh.drop_last()) == s);
    }
}

/// The eighth deal of a game finds the first bag used up: the piece is the
/// first of what was the second bag, that bag is now the first, and the bag
/// at hand has become the second.
pub proof fn lemma_eighth_deal(s: Game, fresh: Seq<Seq<Tile>>)
    requires
        s.index == 0,
        fresh.len() == 8,
    ensures
        dealt_all(s, fresh).tetrimino == spawned(s.bag2[0]),
        dealt_all(s, fresh).bag1 == s.bag2,
        dealt_all(s, fresh).bag2 == fresh[7],
        dealt_all(s, fresh).index == 1,
{
    lemma_first_bag_deals(s, fresh.drop_last());
}

/// Seven tiles that hold every kind, none of them `Empty` and no kind twice,
/// are a bag.
pub proof fn lemma_bag_by_contents(bag: Seq<Tile>)
    requires
        bag.len() == 7,
        bag.no_duplicates(),
        !bag.contains(Tile::Empty),
        forall|j: int| 0 <= j < 7 ==> bag.contains(#[trigger] canonical_bag()[j]),
    ensures
        is_bag(bag),
{
    broadcast use vstd::seq_lib::group_to_multiset_ensures;

    let canon = canonical_bag();
    bag.to_multiset_ensures();
    canon.to_multiset_ensures();
    assert(canon.no_duplicates());
    bag.lemma_multiset_has_no_duplicates();
    canon.lemma_multiset_has_no_duplicates();
    assert forall|t: Tile| bag.to_multiset().count(t) == canon.to_multiset().count(t) by {
        if t == Tile::Empty {
            assert(!canon.contains(t));
        } else {
            let j: int = match t {
                Tile::I => 0,
                Tile::O => 1,
                Tile::T => 2,
                Tile::S => 3,
                Tile::Z => 4,
                Tile::J => 5,
                _ => 6,
            };
            assert(canon[j] == t);
            assert(canon.contains(t));
            assert(bag.contains(t));
        }
    }
    assert(bag.to_multiset() =~= canon.to_multiset());
}

/// Whether the seven tiles are a bag.
pub fn is_valid_bag(bag: &[Tile; 7]) -> (valid: bool)
    ensures
        valid == is_bag(bag@),
{
    let kinds = [Tile::I, Tile::O, Tile::T, Tile::S, Tile::Z, Tile::J, Tile::L];
    assert(kinds@ =~= canonical_bag());
    let mut i: usize = 0;
    while i < 7
        invariant
            i <= 7,
            kinds@ == canonical_bag(),
            forall|a: int| 0 <= a < i ==> #[trigger] bag@[a] != Tile::Empty,
            forall|a: int, b: int|
                0 <= a < b < 7 && a < i ==> #[trigger] bag@[a] != #[trigger] bag@[b],
            forall|j: int| 0 <= j < i ==> bag@.contains(#[trigger] canonical_bag()[j]),
        decreases 7 - i,
    {
        if bag[i] == Tile::Empty {
            proof {
                if is_bag(bag@) {
                    lemma_bag_contents(bag@);
                }
            }
            return false;
        }
        let mut k: usize = i + 1;
        while k < 7
            invariant
                i < k <= 7,
                forall|b: int| i < b < k ==> bag@[i as int] != #[trigger] bag@[b],
            decreases 7 - k,
        {
            if bag[i] == bag[k] {
                proof {
                    if is_bag(bag@) {
                        lemma_bag_contents(bag@);
                    }
                }
                return false;
            }
            k += 1;
        }
        let mut found = false;
        let mut k: usize = 0;
        while k < 7
            invariant
                i < 7,
                k <= 7,
                kinds@ == canonical_bag(),
                found ==> bag@.contains(kinds@[i as int]),
                !found ==> forall|b: int| 0 <= b < k ==> #[trigger] bag@[b] != kinds@[i as int],
            decreases 7 - k,
        {
            if bag[k] == kinds[i] {
                found = true;
                assert(bag@[k as int] == kinds@[i as int]);
            }
            k += 1;
        }
        if !found {
            proof {
                if is_bag(bag@) {
                    broadcast use vstd::seq_lib::group_to_multiset_ensures;

                    let t = canonical_bag()[i as int];
                    bag@.to_multiset_ensures();
                    canonical_bag().to_multiset_ensures();
                    assert(canonical_bag().contains(t));
                    assert(canonical_bag().to_multiset().count(t) > 0);
                    assert(bag@.to_multiset().count(t) > 0);
                    assert(bag@.contains(t));
                    let b = choose|b: int| 0 <= b < bag@.len() && bag@[b] == t;
                    assert(bag@[b] != kinds@[i as int]);
                }
            }
            return false;
        }
        i += 1;
    }
    proof {
        assert(!bag@.contains(Tile::Empty));
        lemma_bag_by_contents(bag@);
    }
    true
}

} // verus!
