//! The open lobby: a queue that seats four players at a time round a deck
//! of 36 cards, and the engine that opens their game.

use std::collections::VecDeque;
use vstd::prelude::*;
use crate::cards::Suit;
use crate::chance::shuffle;
use crate::duel::{full_deck, spec_full_deck, Card};

verus! {

/// Cards each player draws when a game opens.
pub const OPENING_HAND: usize = 6;

/// A player in the lobby: a name, a hand, and the channel to the client.
#[derive(Debug)]
pub struct Player {
    pub username: String,
    pub hand: Vec<Card>,
    pub client_writer: u64,
}

/// Four players, their deck, the trump and the engine that runs the game.
#[derive(Debug)]
pub struct Room {
    pub players: Vec<Player>,
    pub deck: Vec<Card>,
    pub trump_suit: Option<Suit>,
    pub engine: SquirrelEngine,
}

/// The kind of an event in a game.
#[derive(Debug, Clone, Copy, PartialEq, Eq, Structural)]
pub enum EventType {
    BeginGame,
    Hand,
    Other,
}

/// An event in a game.
#[derive(Debug, Clone, Copy, PartialEq, Eq, Structural)]
pub struct GameEvent {
    pub event_type: EventType,
}

/// What is told of the events of a game.
pub trait EventSubscriber {
    /// Takes note of `event`.
    fn on_update(&self, event: GameEvent) -> Result<(), ()>;
}

/// A set of rules: how a game opens and what deck it is played with.
pub trait GameEngine: EventSubscriber {
    /// Opens the game in `room`.
    fn start_game(&self, room: &mut Room);

    /// A shuffled deck for a new game.
    fn create_deck(&self) -> Vec<Card>;
}

/// The rules of Squirrel.
#[derive(Debug)]
pub struct SquirrelEngine {}

/// How many cards a player draws from a deck of `len` cards.
pub open spec fn draw_count(len: nat) -> nat {
    if len < OPENING_HAND {
        len
    } else {
        OPENING_HAND as nat
    }
}

/// What a player draws from `deck`: cards from its end, the last card first.
pub open spec fn drawn(deck: Seq<Card>) -> Seq<Card> {
    Seq::new(draw_count(deck.len()), |k: int| deck[deck.len() - 1 - k])
}

/// What a player's draw leaves of `deck`.
pub open spec fn left(deck: Seq<Card>) -> Seq<Card> {
    deck.take(deck.len() - draw_count(deck.len()))
}

/// The hands after every player in turn has drawn from `deck`, and what is
/// left of the deck.
pub open spec fn dealt(hands: Seq<Seq<Card>>, deck: Seq<Card>) -> (Seq<Seq<Card>>, Seq<Card>)
    decreases hands.len(),
{
    if hands.len() == 0 {
        (hands, deck)
    } else {
        let (earlier, rest) = dealt(hands.drop_last(), deck);
        (earlier.push(hands.last() + drawn(rest)), left(rest))
    }
}

/// The hands of a list of players, in order.
pub open spec fn hands_of(players: Seq<Player>) -> Seq<Seq<Card>> {
    Seq::new(players.len(), |i: int| players[i].hand@)
}

/// The names of a list of players, in order.
pub open spec fn names_of(players: Seq<Player>) -> Seq<Seq<char>> {
    Seq::new(players.len(), |i: int| players[i].username@)
}

/// The channels of a list of players, in order.
pub open spec fn writers_of(players: Seq<Player>) -> Seq<u64> {
    Seq::new(players.len(), |i: int| players[i].client_writer)
}

impl SquirrelEngine {
    /// The engine.
    pub fn new() -> SquirrelEngine {
        SquirrelEngine {  }
    }
}

impl EventSubscriber for SquirrelEngine {
    /// Takes note of `event`; every event is accepted.
    fn on_update(&self, event: GameEvent) -> (outcome: Result<(), ()>)
        ensures
            outcome is Ok,
    {
        match event.event_type {
            EventType::BeginGame => Ok(()),
            EventType::Hand => Ok(()),
            _ => Ok(()),
        }
    }
}

/// Lets one player draw: up to six cards go from the end of `deck` to the
/// end of `hand`, the last card of the deck first.
fn draw_hand(deck: &mut Vec<Card>, hand: &mut Vec<Card>)
    ensures
        final(hand)@ == old(hand)@ + drawn(old(deck)@),
        final(deck)@ == left(old(deck)@),
{
    let mut taken: usize = 0;
    assert(deck@.take(deck@.len() as int) =~= deck@);
    while taken < OPENING_HAND && deck.len() > 0
        invariant
            taken <= OPENING_HAND,
            taken <= old(deck)@.len(),
            deck@ == old(deck)@.take(old(deck)@.len() - taken),
            hand@ == old(hand)@ + Seq::new(
                taken as nat,
                |k: int| old(deck)@[old(deck)@.len() - 1 - k],
            ),
        decreases OPENING_HAND - taken,
    {
        let card = deck.pop().unwrap();
        hand.push(card);
        taken = taken + 1;
        assert(deck@ =~= old(deck)@.take(old(deck)@.len() - taken));
        assert(hand@ =~= old(hand)@ + Seq::new(
            taken as nat,
            |k: int| old(deck)@[old(deck)@.len() - 1 - k],
        ));
    }
    assert(hand@ =~= old(hand)@ + drawn(old(deck)@));
}

impl GameEngine for SquirrelEngine {
    /// Opens the game in `room`: every player in turn draws six cards from
    /// the end of the deck, or as many as are left.
    fn start_game(&self, room: &mut Room)
        ensures
            dealt(hands_of(old(room).players@), old(room).deck@) == (
                hands_of(final(room).players@),
                final(room).deck@,
            ),
            names_of(final(room).players@) == names_of(old(room).players@),
            writers_of(final(room).players@) == writers_of(old(room).players@),
            final(room).trump_suit == old(room).trump_suit,
    {
        let _ = self.on_update(GameEvent { event_type: EventType::BeginGame });
        let ghost hands = hands_of(room.players@);
        let mut i: usize = 0;
        proof {
            assert(hands.take(0) =~= Seq::<Seq<Card>>::empty());
            assert(hands_of(room.players@).take(0) =~= Seq::<Seq<Card>>::empty());
        }
        while i < room.players.len()
            invariant
                i <= room.players@.len(),
                room.players@.len() == old(room).players@.len(),
                hands == hands_of(old(room).players@),
                dealt(hands.take(i as int), old(room).deck@) == (
                    hands_of(room.players@).take(i as int),
                    room.deck@,
                ),
                forall|k: int|
                    i <= k < hands.len() ==> (#[trigger] room.players@[k]).hand@ == hands[k],
                names_of(room.players@) == names_of(old(room).players@),
                writers_of(room.players@) == writers_of(old(room).players@),
                room.trump_suit == old(room).trump_suit,
            decreases room.players@.len() - i,
        {
            let ghost before = room.players@;
            let ghost deck_before = room.deck@;
            draw_hand(&mut room.deck, &mut room.players[i].hand);
            proof {
                let now = hands_of(room.players@);
                assert(hands.take(i + 1).drop_last() =~= hands.take(i as int));
                assert(hands.take(i + 1).last() == hands[i as int]);
                assert(now.take(i as int) =~= hands_of(before).take(i as int));
                assert(now.take(i + 1) =~= now.take(i as int).push(
                    hands[i as int] + drawn(deck_before),
                ));
                assert(names_of(room.players@) =~= names_of(before));
                assert(writers_of(room.players@) =~= writers_of(before));
            }
            i = i + 1;
        }
        proof {
            assert(hands.take(i as int) =~= hands);
            assert(hands_of(room.players@).take(i as int) =~= hands_of(room.players@));
        }
    }

    /// A shuffled deck for a new game: the 36 cards in an order left to
    /// chance.
    fn create_deck(&self) -> (deck: Vec<Card>)
        ensures
            deck@.to_multiset() == spec_full_deck().to_multiset(),
    {
        let mut deck = full_deck();
        shuffle(&mut deck);
        deck
    }
}

/// The queue of the lobby and the rooms it has formed.
#[derive(Debug)]
pub struct SearchEngine {
    pub player_queue: VecDeque<Player>,
    pub rooms: Vec<Room>,
}

/// True when a player called `username` is among `players`.
pub open spec fn has_name(players: Seq<Player>, username: Seq<char>) -> bool {
    exists|i: int| 0 <= i < players.len() && (#[trigger] players[i]).username@ == username
}

impl SearchEngine {
    /// A lobby with nobody waiting and no room.
    pub fn new() -> (lobby: SearchEngine)
        ensures
            lobby.player_queue@.len() == 0,
            lobby.rooms@.len() == 0,
    {
        SearchEngine { player_queue: VecDeque::new(), rooms: Vec::new() }
    }

    /// Puts `player` at the end of the queue, unless a player of the same
    /// name waits already. Returns whether the player was admitted.
    pub fn add_player(&mut self, player: Player) -> (admitted: bool)
        ensures
            admitted == !has_name(old(self).player_queue@, player.username@),
            admitted ==> final(self).player_queue@ == old(self).player_queue@.push(player),
            !admitted ==> final(self).player_queue@ == old(self).player_queue@,
            final(self).rooms@ == old(self).rooms@,
    {
        let mut i: usize = 0;
        while i < self.player_queue.len()
            invariant
                i <= self.player_queue@.len(),
                forall|k: int| 0 <= k < i ==> (#[trigger] self.player_queue@[k]).username@
                    != player.username@,
            decreases self.player_queue@.len() - i,
        {
            if self.player_queue[i].username == player.username {
                return false;
            }
            i = i + 1;
        }
        self.player_queue.push_back(player);
        true
    }

    /// One pass over the queue: when four players or more wait, the first
    /// four leave the queue for a new room with a shuffled deck and Clubs
    /// for trump. Returns whether a room was formed; the room stands last.
    pub fn process_queue(&mut self) -> (formed: bool)
        ensures
            formed == (old(self).player_queue@.len() >= 4),
            !formed ==> final(self).player_queue@ == old(self).player_queue@ && final(self).rooms@
                == old(self).rooms@,
            formed ==> {
                let room = final(self).rooms@.last();
                &&& final(self).player_queue@ == old(self).player_queue@.skip(4)
                &&& final(self).rooms@.len() == old(self).rooms@.len() + 1
                &&& final(self).rooms@.drop_last() == old(self).rooms@
                &&& room.players@ == old(self).player_queue@.take(4)
                &&& room.deck@.to_multiset() == spec_full_deck().to_multiset()
                &&& room.trump_suit == Some(Suit::Clubs)
            },
    {
        if self.player_queue.len() < 4 {
            return false;
        }
        let engine = SquirrelEngine::new();
        let mut players: Vec<Player> = Vec::new();
        let mut taken: usize = 0;
        while taken < 4
            invariant
                taken <= 4,
                old(self).player_queue@.len() >= 4,
                self.rooms@ == old(self).rooms@,
                players@ == old(self).player_queue@.take(taken as int),
                self.player_queue@ == old(self).player_queue@.skip(taken as int),
            decreases 4 - taken,
        {
            let player = self.player_queue.pop_front().unwrap();
            players.push(player);
            taken = taken + 1;
            assert(players@ =~= old(self).player_queue@.take(taken as int));
            assert(self.player_queue@ =~= old(self).player_queue@.skip(taken as int));
        }
        let deck = engine.create_deck();
        self.rooms.push(Room { players, deck, trump_suit: Some(Suit::Clubs), engine });
        assert(self.rooms@.drop_last() =~= old(self).rooms@);
        true
    }
}

} // verus!
