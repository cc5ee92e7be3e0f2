//! What holds of the game as a whole: the laws of the trick, and what every
//! sequence of moves preserves.

use vstd::prelude::*;
use vstd::seq_lib::lemma_multiset_commutative;
use vstd::seq_lib::to_multiset_build;
use crate::cards::{
    deck_points, lemma_points_concat, lemma_points_permutation, points_total, Card, Rank, Suit,
};
use crate::game::{
    at_most, holds_suit, lemma_fresh_deal_wf, takes, trick_cards, trick_points, winner_index,
    without, GameView,
};
use crate::position::{PerSeat, PlayerPosition};

verus! {

/// Taking a card out of a hand that does not hold it leaves the hand as it is.
pub proof fn lemma_without_absent(hand: Seq<Card>, card: Card)
    requires
        !hand.contains(card),
    ensures
        without(hand, card) == hand,
    decreases hand.len(),
{
    reveal(Seq::filter);
    if hand.len() > 0 {
        assert(hand[hand.len() - 1] != card);
        assert forall|c: Card| hand.drop_last().contains(c) implies hand.contains(c) by {
            let i = choose|i: int| 0 <= i < hand.drop_last().len() && hand.drop_last()[i] == c;
            assert(hand[i] == c);
        }
        lemma_without_absent(hand.drop_last(), card);
        assert(hand.drop_last().push(hand.last()) =~= hand);
    }
}

/// Taking a card out of a hand that holds it once leaves the other cards,
/// each as often as before.
pub proof fn lemma_without_single(hand: Seq<Card>, card: Card)
    requires
        hand.no_duplicates(),
        hand.contains(card),
    ensures
        without(hand, card).to_multiset().insert(card) == hand.to_multiset(),
        without(hand, card).len() + 1 == hand.len(),
    decreases hand.len(),
{
    reveal(Seq::filter);
    let rest = hand.drop_last();
    let last = hand.last();
    assert(rest.push(last) =~= hand);
    to_multiset_build(rest, last);
    if last == card {
        assert(!rest.contains(card)) by {
            if rest.contains(card) {
                let i = choose|i: int| 0 <= i < rest.len() && rest[i] == card;
                assert(hand[i] == hand[hand.len() - 1]);
            }
        }
        lemma_without_absent(rest, card);
    } else {
        let i = choose|i: int| 0 <= i < hand.len() && hand[i] == card;
        assert(rest[i] == card);
        lemma_without_single(rest, card);
        to_multiset_build(without(rest, card), last);
        assert(without(rest, card).push(last).to_multiset().insert(card) =~= without(
            rest,
            card,
        ).to_multiset().insert(card).insert(last));
    }
    assert(without(hand, card).to_multiset().insert(card) =~= hand.to_multiset());
}

/// An accepted move takes one card from a hand to the table and leaves every
/// other card where it was.
pub proof fn lemma_play_moves_one_card(game: GameView, seat: PlayerPosition, card: Card)
    requires
        game.cards_in_play().no_duplicates(),
        game.hand(seat).contains(card),
    ensures
        game.after_play(seat, card).cards_in_play().to_multiset()
            == game.cards_in_play().to_multiset(),
        game.after_play(seat, card).cards_in_play().len() == game.cards_in_play().len(),
        game.after_play(seat, card).cards_in_play().no_duplicates(),
        points_total(game.after_play(seat, card).cards_in_play(), game.trump) == points_total(
            game.cards_in_play(),
            game.trump,
        ),
{
    let after = game.after_play(seat, card);
    let table = trick_cards(game.current_trick);
    let n = game.hands.north;
    let e = game.hands.east;
    let s = game.hands.south;
    let w = game.hands.west;
    let all = game.cards_in_play();
    assert(all =~= n + e + s + w + table);
    assert(trick_cards(after.current_trick) =~= table.push(card));
    to_multiset_build(table, card);
    lemma_multiset_commutative(n + e + s + w, table);
    lemma_multiset_commutative(n + e + s, w);
    lemma_multiset_commutative(n + e, s);
    lemma_multiset_commutative(n, e);
    let hand = game.hand(seat);
    assert(hand.no_duplicates()) by {
        assert forall|i: int, j: int|
            0 <= i < hand.len() && 0 <= j < hand.len() && i != j implies hand[i] != hand[j] by {
            match seat {
                PlayerPosition::North => {
                    assert(all[i] == hand[i] && all[j] == hand[j]);
                },
                PlayerPosition::East => {
                    assert(all[n.len() + i] == hand[i] && all[n.len() + j] == hand[j]);
                },
                PlayerPosition::South => {
                    assert(all[n.len() + e.len() + i] == hand[i]);
                    assert(all[n.len() + e.len() + j] == hand[j]);
                },
                PlayerPosition::West => {
                    assert(all[n.len() + e.len() + s.len() + i] == hand[i]);
                    assert(all[n.len() + e.len() + s.len() + j] == hand[j]);
                },
            }
        }
    }
    lemma_without_single(hand, card);
    let an = after.hands.north;
    let ae = after.hands.east;
    let a_s = after.hands.south;
    let aw = after.hands.west;
    assert(after.cards_in_play() =~= an + ae + a_s + aw + table.push(card));
    lemma_multiset_commutative(an + ae + a_s + aw, table.push(card));
    lemma_multiset_commutative(an + ae + a_s, aw);
    lemma_multiset_commutative(an + ae, a_s);
    lemma_multiset_commutative(an, ae);
    assert(after.cards_in_play().to_multiset() =~= all.to_multiset());
    all.lemma_multiset_has_no_duplicates();
    after.cards_in_play().lemma_multiset_has_no_duplicates_conv();
    lemma_points_permutation(after.cards_in_play(), all, game.trump);
    vstd::seq_lib::to_multiset_len(after.cards_in_play());
    vstd::seq_lib::to_multiset_len(all);
}

/// An accepted move keeps a round in good order.
pub proof fn lemma_play_keeps_wf(game: GameView, seat: PlayerPosition, card: Card)
    requires
        game.wf(),
        game.play_verdict(seat, card) is Ok,
    ensures
        game.after_play(seat, card).wf(),
{
    let after = game.after_play(seat, card);
    lemma_play_moves_one_card(game, seat, card);
    let len = game.current_trick.len();
    assert(after.trick_in_order()) by {
        reveal_with_fuel(PlayerPosition::spec_advance, 2);
        assert forall|i: int| 0 <= i < after.current_trick.len() implies (
        #[trigger] after.current_trick[i]).0 == after.current_trick[0].0.spec_advance(
            i as nat,
        ) by {
            if i < len {
                assert(after.current_trick[i] == game.current_trick[i]);
            }
        }
    }
}

/// The points lying in the trick are part of the points in play.
pub proof fn lemma_points_split(game: GameView)
    ensures
        points_total(game.cards_in_play(), game.trump) == points_total(
            game.cards_in_hands(),
            game.trump,
        ) + trick_points(game.current_trick, game.trump),
{
    lemma_points_concat(game.cards_in_hands(), trick_cards(game.current_trick), game.trump);
}

/// Settling a full trick keeps a round in good order, and the winner's team
/// never holds more than the deck is worth.
pub proof fn lemma_resolve_keeps_wf(game: GameView)
    requires
        game.wf(),
        game.current_trick.len() == 4,
    ensures
        game.score(game.winner().spec_team()) + trick_points(game.current_trick, game.trump)
            <= deck_points(),
        game.after_resolve().wf(),
        game.after_resolve().cards_in_play().len() + 4 == game.cards_in_play().len(),
{
    let after = game.after_resolve();
    lemma_points_split(game);
    lemma_points_split(after);
    assert(trick_cards(after.current_trick) =~= Seq::<Card>::empty());
    assert(after.cards_in_play() =~= game.cards_in_hands());
    let all = game.cards_in_play();
    assert forall|i: int, j: int|
        0 <= i < after.cards_in_play().len() && 0 <= j < after.cards_in_play().len() && i
            != j implies after.cards_in_play()[i] != after.cards_in_play()[j] by {
        assert(all[i] == after.cards_in_play()[i]);
        assert(all[j] == after.cards_in_play()[j]);
    }
    let team = game.winner().spec_team();
    lemma_seat_team(game.winner());
    assert(after.score(1) + after.score(2) == game.score(1) + game.score(2) + trick_points(
        game.current_trick,
        game.trump,
    ));
}

/// Every seat belongs to team 1 or team 2.
pub proof fn lemma_seat_team(seat: PlayerPosition)
    ensures
        seat.spec_team() == 1 || seat.spec_team() == 2,
{
}

/// Every trick that holds a card is taken by one of its cards.
pub proof fn lemma_winner_exists(trick: Seq<(PlayerPosition, Card)>, trump: Suit)
    requires
        trick.len() > 0,
    ensures
        takes(trick, trump, trick.len() as int, winner_index(trick, trump)),
{
    let w = lemma_prefix_taken(trick, trump, trick.len() as int);
}

proof fn lemma_prefix_taken(trick: Seq<(PlayerPosition, Card)>, trump: Suit, n: int) -> (w: int)
    requires
        0 < n <= trick.len(),
    ensures
        takes(trick, trump, n, w),
    decreases n,
{
    if n == 1 {
        0
    } else {
        let lead = trick[0].1.suit;
        let before = lemma_prefix_taken(trick, trump, n - 1);
        if at_most(trick[before].1, trick[n - 1].1, trump, lead) {
            assert forall|j: int| 0 <= j < n implies at_most(
                #[trigger] trick[j].1,
                trick[n - 1].1,
                trump,
                lead,
            ) by {
                if j < n - 1 {
                    assert(at_most(trick[j].1, trick[before].1, trump, lead));
                }
            }
            n - 1
        } else {
            before
        }
    }
}

/// The same trump and the same trick always give the same winner.
pub proof fn lemma_winner_determined(a: GameView, b: GameView)
    requires
        a.trump == b.trump,
        a.current_trick == b.current_trick,
    ensures
        a.winner() == b.winner(),
        trick_points(a.current_trick, a.trump) == trick_points(b.current_trick, b.trump),
{
}

/// A Jack is stronger than any card that is no Jack, whatever the trump and
/// the suit led.
pub proof fn lemma_jack_beats_plain(jack: Card, plain: Card, trump: Suit, lead: Suit)
    requires
        jack.rank == Rank::Jack,
        plain.rank != Rank::Jack,
    ensures
        at_most(plain, jack, trump, lead),
        !at_most(jack, plain, trump, lead),
{
}

/// A trick that holds a Jack is taken by a Jack.
pub proof fn lemma_jack_takes_trick(trick: Seq<(PlayerPosition, Card)>, trump: Suit, i: int)
    requires
        0 <= i < trick.len(),
        trick[i].1.rank == Rank::Jack,
    ensures
        trick[winner_index(trick, trump)].1.rank == Rank::Jack,
{
    lemma_winner_exists(trick, trump);
    let w = winner_index(trick, trump);
    assert(at_most(trick[i].1, trick[w].1, trump, trick[0].1.suit));
}

/// A seat that holds a card of the suit led has no other move accepted than
/// a card of that suit.
pub proof fn lemma_follow_suit(game: GameView, seat: PlayerPosition, card: Card)
    requires
        game.current_trick.len() > 0,
        holds_suit(game.hand(seat), game.lead_suit()),
        game.play_verdict(seat, card) is Ok,
    ensures
        card.suit == game.lead_suit(),
{
}

/// In a round in good order, the seats of the trick on the table follow one
/// another round the table from the seat that led.
pub proof fn lemma_trick_seats_cycle(game: GameView, i: int)
    requires
        game.wf(),
        0 <= i < game.current_trick.len(),
    ensures
        game.current_trick[i].0 == game.current_trick[0].0.spec_advance(i as nat),
        i + 1 < game.current_trick.len() ==> game.current_trick[i + 1].0
            == game.current_trick[i].0.spec_next(),
{
    if i + 1 < game.current_trick.len() {
        assert(game.current_trick[i + 1].0 == game.current_trick[0].0.spec_advance(
            (i + 1) as nat,
        ));
    }
}

/// When the last trick of a round has been settled, the two teams hold the
/// points of the whole deck between them.
pub proof fn lemma_round_points(game: GameView)
    requires
        game.wf(),
        game.hands_empty(),
        game.current_trick.len() == 0,
    ensures
        game.score(1) + game.score(2) == deck_points(),
{
    assert(game.cards_in_play() =~= Seq::<Card>::empty());
}

/// One call on the state of a table.
pub enum Move {
    /// A seat offers a card.
    Play { seat: PlayerPosition, card: Card },
    /// The trick on the table is settled, if it is full.
    Resolve,
    /// The round is closed and the next is dealt.
    NextRound { trump: Suit, hands: PerSeat<Seq<Card>> },
}

/// True when `step` may be made in `game`. A card may always be offered and a
/// trick may always be settled; a round is closed only over an empty table,
/// with a proper deal, while the eyes still fit their counter.
pub open spec fn allowed(game: GameView, step: Move) -> bool {
    match step {
        Move::Play { seat, card } => true,
        Move::Resolve => true,
        Move::NextRound { trump, hands } => {
            &&& game.current_trick.len() == 0
            &&& game.hands_empty()
            &&& crate::cards::is_deal(hands.north, hands.east, hands.south, hands.west)
            &&& game.eye(game.round_winner()) + game.round_eyes() <= u32::MAX
        },
    }
}

/// The state that `step` leaves. A refused card and a trick that is not full
/// leave the state as it is.
pub open spec fn apply(game: GameView, step: Move) -> GameView {
    match step {
        Move::Play { seat, card } => if game.play_verdict(seat, card) is Ok {
            game.after_play(seat, card)
        } else {
            game
        },
        Move::Resolve => if game.current_trick.len() == 4 {
            game.after_resolve()
        } else {
            game
        },
        Move::NextRound { trump, hands } => game.after_next_round(trump, hands),
    }
}

/// The state after all of `steps`, made one after the other.
pub open spec fn run(game: GameView, steps: Seq<Move>) -> GameView
    decreases steps.len(),
{
    if steps.len() == 0 {
        game
    } else {
        apply(run(game, steps.drop_last()), steps.last())
    }
}

/// True when each of `steps` is allowed in the state in which it is made.
pub open spec fn all_allowed(game: GameView, steps: Seq<Move>) -> bool
    decreases steps.len(),
{
    steps.len() == 0 || (all_allowed(game, steps.drop_last()) && allowed(
        run(game, steps.drop_last()),
        steps.last(),
    ))
}

/// True when none of `steps` closes a round.
pub open spec fn within_round(steps: Seq<Move>) -> bool {
    forall|i: int| 0 <= i < steps.len() ==> !(#[trigger] steps[i] is NextRound)
}

/// How many tricks were settled in the course of `steps`.
pub open spec fn tricks_taken(game: GameView, steps: Seq<Move>) -> nat
    decreases steps.len(),
{
    if steps.len() == 0 {
        0
    } else {
        let before = run(game, steps.drop_last());
        tricks_taken(game, steps.drop_last()) + (if steps.last() is Resolve
            && before.current_trick.len() == 4 {
            1nat
        } else {
            0nat
        })
    }
}

/// Closing a round leaves a round in good order.
pub proof fn lemma_next_round_wf(game: GameView, trump: Suit, hands: PerSeat<Seq<Card>>)
    requires
        allowed(game, Move::NextRound { trump, hands }),
    ensures
        game.after_next_round(trump, hands).wf(),
        game.after_next_round(trump, hands).freshly_dealt(),
{
    lemma_fresh_deal_wf(game.after_next_round(trump, hands));
}

/// Every allowed step keeps a round in good order.
pub proof fn lemma_step_keeps_wf(game: GameView, step: Move)
    requires
        game.wf(),
        allowed(game, step),
    ensures
        apply(game, step).wf(),
{
    match step {
        Move::Play { seat, card } => {
            if game.play_verdict(seat, card) is Ok {
                lemma_play_keeps_wf(game, seat, card);
            }
        },
        Move::Resolve => {
            if game.current_trick.len() == 4 {
                lemma_resolve_keeps_wf(game);
            }
        },
        Move::NextRound { trump, hands } => {
            lemma_next_round_wf(game, trump, hands);
        },
    }
}

/// A table that starts in good order stays so whatever is played on it.
pub proof fn lemma_run_keeps_wf(game: GameView, steps: Seq<Move>)
    requires
        game.wf(),
        all_allowed(game, steps),
    ensures
        run(game, steps).wf(),
    decreases steps.len(),
{
    if steps.len() > 0 {
        lemma_run_keeps_wf(game, steps.drop_last());
        lemma_step_keeps_wf(run(game, steps.drop_last()), steps.last());
    }
}

/// From a fresh deal on, after every call within the round, the cards in the
/// hands and on the table together with four for every trick taken make up
/// the 32 cards of the deck.
pub proof fn lemma_cards_conserved(game: GameView, steps: Seq<Move>)
    requires
        game.freshly_dealt(),
        within_round(steps),
    ensures
        run(game, steps).wf(),
        run(game, steps).cards_in_play().len() + 4 * tricks_taken(game, steps) == 32,
    decreases steps.len(),
{
    if steps.len() == 0 {
        lemma_fresh_deal_wf(game);
        assert(trick_cards(game.current_trick) =~= Seq::<Card>::empty());
    } else {
        let earlier = steps.drop_last();
        assert(within_round(earlier)) by {
            assert forall|i: int| 0 <= i < earlier.len() implies !(
            #[trigger] earlier[i] is NextRound) by {
                assert(earlier[i] == steps[i]);
            }
        }
        lemma_cards_conserved(game, earlier);
        let before = run(game, earlier);
        assert(!(steps[steps.len() - 1] is NextRound));
        match steps.last() {
            Move::Play { seat, card } => {
                if before.play_verdict(seat, card) is Ok {
                    lemma_play_moves_one_card(before, seat, card);
                    lemma_play_keeps_wf(before, seat, card);
                }
            },
            Move::Resolve => {
                if before.current_trick.len() == 4 {
                    lemma_resolve_keeps_wf(before);
                }
            },
            Move::NextRound { trump, hands } => {},
        }
    }
}

/// No step lowers the eyes of a team.
pub proof fn lemma_step_keeps_eyes(game: GameView, step: Move, team: u8)
    requires
        allowed(game, step),
    ensures
        apply(game, step).eye(team) >= game.eye(team),
{
}

/// The eyes of a team never fall, from round to round and within a round.
pub proof fn lemma_eyes_never_fall(game: GameView, steps: Seq<Move>, team: u8)
    requires
        all_allowed(game, steps),
    ensures
        run(game, steps).eye(team) >= game.eye(team),
    decreases steps.len(),
{
    if steps.len() > 0 {
        lemma_eyes_never_fall(game, steps.drop_last(), team);
        lemma_step_keeps_eyes(run(game, steps.drop_last()), steps.last(), team);
    }
}

} // verus!
