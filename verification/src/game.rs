//! The state of one table: hands, trump, the trick on the table, the turn,
//! the card points of the round and the eyes of the match, with the moves
//! that change it.

use std::collections::HashMap;
use vstd::prelude::*;
use crate::cards::{
    copy_cards, deal_cards, deck_points, is_deal, jack_priority, lemma_deal_is_whole_deck,
    points_total, spec_jack_priority, Card, Rank, Suit, DECK_POINTS,
};
use crate::position::{PerSeat, PlayerPosition};

verus! {

/// Why a card was not accepted.
#[derive(Debug, Clone, Copy, PartialEq, Eq, Structural)]
pub enum PlayError {
    /// The seat is not the one whose turn it is.
    NotYourTurn,
    /// The seat does not hold the card.
    CardNotInHand,
    /// The seat holds a card of the suit that was led and played another suit.
    MustFollowSuit,
}

/// Eyes needed to win the match.
pub const EYES_TO_WIN: u32 = 12;

/// The authoritative state of one table.
#[derive(Debug)]
pub struct GameState {
    /// The cards each seat holds, in the order they were dealt.
    pub hands: PerSeat<Vec<Card>>,
    /// The trump suit of the round.
    pub trump: Suit,
    /// The cards on the table, each with the seat that played it.
    pub current_trick: Vec<(PlayerPosition, Card)>,
    /// Card points each team has taken in the round, by team number.
    pub team_scores: HashMap<u8, u32>,
    /// Eyes each team has won in the match, by team number.
    pub team_eye: HashMap<u8, u32>,
    /// The seat that plays next.
    pub current_turn: PlayerPosition,
    /// True until the first round of the match has been settled.
    pub is_first_round: bool,
}

/// What the close of a round came to.
#[derive(Debug)]
pub struct RoundSummary {
    /// The team that won the round, or `None` for a round level at 60 each.
    pub winner_team: Option<u8>,
    /// The eyes of team 1 after the round.
    pub team_a: u32,
    /// The eyes of team 2 after the round.
    pub team_b: u32,
    /// The trump of the round that now begins.
    pub trump: Suit,
    /// The card points with which the round ended, by team number.
    pub scores: HashMap<u8, u32>,
    /// True when a team has reached the eyes that win the match.
    pub match_over: bool,
}

/// The mathematical value of a [`GameState`].
#[verifier::ext_equal]
pub struct GameView {
    pub hands: PerSeat<Seq<Card>>,
    pub trump: Suit,
    pub current_trick: Seq<(PlayerPosition, Card)>,
    pub team_scores: Map<u8, u32>,
    pub team_eye: Map<u8, u32>,
    pub current_turn: PlayerPosition,
    pub is_first_round: bool,
}

impl View for GameState {
    type V = GameView;

    open spec fn view(&self) -> GameView {
        GameView {
            hands: PerSeat {
                north: self.hands.north@,
                east: self.hands.east@,
                south: self.hands.south@,
                west: self.hands.west@,
            },
            trump: self.trump,
            current_trick: self.current_trick@,
            team_scores: self.team_scores@,
            team_eye: self.team_eye@,
            current_turn: self.current_turn,
            is_first_round: self.is_first_round,
        }
    }
}

/// What a tally holds for `team`: its entry, or nothing where it has none.
pub open spec fn tally_of(tally: Map<u8, u32>, team: u8) -> nat {
    if tally.contains_key(team) {
        tally[team] as nat
    } else {
        0
    }
}

/// A tally in which both teams stand at zero.
pub open spec fn zero_tally() -> Map<u8, u32> {
    Map::<u8, u32>::empty().insert(1u8, 0u32).insert(2u8, 0u32)
}

/// True when `hand` holds at least one card of `suit`.
pub open spec fn holds_suit(hand: Seq<Card>, suit: Suit) -> bool {
    exists|i: int| 0 <= i < hand.len() && (#[trigger] hand[i]).suit == suit
}

/// The test that a card is another one than `card`.
pub open spec fn other_than(card: Card) -> spec_fn(Card) -> bool {
    |c: Card| c != card
}

/// `hand` with every copy of `card` taken out.
pub open spec fn without(hand: Seq<Card>, card: Card) -> Seq<Card> {
    hand.filter(other_than(card))
}

/// The cards of a trick, without the seats.
pub open spec fn trick_cards(trick: Seq<(PlayerPosition, Card)>) -> Seq<Card> {
    Seq::new(trick.len(), |i: int| trick[i].1)
}

/// The class of a card in a trick: 3 for a Jack, 2 for a trump that is no
/// Jack, 1 for a card of the suit led that is neither, 0 for the rest.
pub open spec fn trick_class(card: Card, trump: Suit, lead: Suit) -> nat {
    if card.rank == Rank::Jack {
        3
    } else if card.suit == trump {
        2
    } else if card.suit == lead {
        1
    } else {
        0
    }
}

/// What ranks Jacks among themselves: the strength of the Jack's suit, and
/// nothing for a card that is no Jack.
pub open spec fn jack_rank(card: Card) -> nat {
    if card.rank == Rank::Jack {
        spec_jack_priority(card.suit)
    } else {
        0
    }
}

/// The key by which the cards of a trick are compared: class, then the
/// ranking of Jacks, then the natural rank.
pub open spec fn trick_key(card: Card, trump: Suit, lead: Suit) -> (nat, nat, nat) {
    (trick_class(card, trump, lead), jack_rank(card), card.rank.spec_order())
}

/// Lexicographic `a <= b` on keys.
pub open spec fn key_le(a: (nat, nat, nat), b: (nat, nat, nat)) -> bool {
    a.0 < b.0 || (a.0 == b.0 && (a.1 < b.1 || (a.1 == b.1 && a.2 <= b.2)))
}

/// True when card `b` is at least as strong as card `a` in a trick with the
/// given trump and suit led.
pub open spec fn at_most(a: Card, b: Card, trump: Suit, lead: Suit) -> bool {
    key_le(trick_key(a, trump, lead), trick_key(b, trump, lead))
}

/// True when the card at place `w` takes the first `n` cards of `trick`: no
/// card among them is stronger, and none played after it is as strong.
pub open spec fn takes(trick: Seq<(PlayerPosition, Card)>, trump: Suit, n: int, w: int) -> bool {
    let lead = trick[0].1.suit;
    &&& 0 <= w < n <= trick.len()
    &&& forall|j: int| 0 <= j < n ==> at_most(#[trigger] trick[j].1, trick[w].1, trump, lead)
    &&& forall|j: int| w < j < n ==> !at_most(trick[w].1, #[trigger] trick[j].1, trump, lead)
}

/// The place in `trick` of the card that takes it.
pub open spec fn winner_index(trick: Seq<(PlayerPosition, Card)>, trump: Suit) -> int {
    choose|w: int| takes(trick, trump, trick.len() as int, w)
}

/// The seat that takes `trick`.
pub open spec fn trick_winner(trick: Seq<(PlayerPosition, Card)>, trump: Suit) -> PlayerPosition {
    trick[winner_index(trick, trump)].0
}

/// The card points lying in `trick`.
pub open spec fn trick_points(trick: Seq<(PlayerPosition, Card)>, trump: Suit) -> nat {
    points_total(trick_cards(trick), trump)
}

/// The eyes a round is worth to its winner: one, one more in the first round
/// of the match, one more when the losers took fewer than 30 points.
pub open spec fn eyes_for(is_first_round: bool, loser_score: nat) -> nat {
    1 + (if is_first_round { 1nat } else { 0nat }) + (if loser_score < 30 { 1nat } else { 0nat })
}

impl GameView {
    /// The cards that `pos` holds.
    pub open spec fn hand(self, pos: PlayerPosition) -> Seq<Card> {
        self.hands.at(pos)
    }

    /// The card points `team` has taken in the round.
    pub open spec fn score(self, team: u8) -> nat {
        tally_of(self.team_scores, team)
    }

    /// The eyes `team` has won in the match.
    pub open spec fn eye(self, team: u8) -> nat {
        tally_of(self.team_eye, team)
    }

    /// The suit of the first card of the trick on the table.
    pub open spec fn lead_suit(self) -> Suit {
        self.current_trick[0].1.suit
    }

    /// Whether `card` from `pos` is accepted, and if not, why.
    pub open spec fn play_verdict(self, pos: PlayerPosition, card: Card) -> Result<(), PlayError> {
        if pos != self.current_turn {
            Err(PlayError::NotYourTurn)
        } else if !self.hand(pos).contains(card) {
            Err(PlayError::CardNotInHand)
        } else if self.current_trick.len() > 0 && card.suit != self.lead_suit() && holds_suit(
            self.hand(pos),
            self.lead_suit(),
        ) {
            Err(PlayError::MustFollowSuit)
        } else {
            Ok(())
        }
    }

    /// The state after `pos` has played `card`: the card has left the hand
    /// and lies last in the trick, and the turn has passed on.
    pub open spec fn after_play(self, pos: PlayerPosition, card: Card) -> GameView {
        GameView {
            hands: self.hands.with(pos, without(self.hand(pos), card)),
            current_trick: self.current_trick.push((pos, card)),
            current_turn: pos.spec_next(),
            ..self
        }
    }

    /// The seat that takes a full trick on the table.
    pub open spec fn winner(self) -> PlayerPosition {
        trick_winner(self.current_trick, self.trump)
    }

    /// The state after a full trick has been settled: its points are with the
    /// winner's team, the table is empty and the winner leads.
    pub open spec fn after_resolve(self) -> GameView {
        let team = self.winner().spec_team();
        GameView {
            team_scores: self.team_scores.insert(
                team,
                (self.score(team) + trick_points(self.current_trick, self.trump)) as u32,
            ),
            current_trick: Seq::empty(),
            current_turn: self.winner(),
            ..self
        }
    }

    /// True when the round ended level at 60 points each.
    pub open spec fn is_draw(self) -> bool {
        self.score(1) == 60 && self.score(2) == 60
    }

    /// The team with more card points; team 2 where team 1 has no more than it.
    pub open spec fn round_winner(self) -> u8 {
        if self.score(1) > self.score(2) {
            1
        } else {
            2
        }
    }

    /// The eyes that the round gives to its winner.
    pub open spec fn round_eyes(self) -> nat {
        let loser: u8 = if self.round_winner() == 1 { 2 } else { 1 };
        eyes_for(self.is_first_round, self.score(loser))
    }

    /// The state after the round's eyes have been awarded.
    pub open spec fn after_round_eyes(self) -> GameView {
        if self.is_draw() {
            self
        } else {
            GameView {
                team_eye: self.team_eye.insert(
                    self.round_winner(),
                    (self.eye(self.round_winner()) + self.round_eyes()) as u32,
                ),
                is_first_round: false,
                ..self
            }
        }
    }

    /// The state after a round has been closed: its eyes are awarded, the
    /// card points are back at zero, and `hands` lie dealt under `trump`.
    pub open spec fn after_next_round(self, trump: Suit, hands: PerSeat<Seq<Card>>) -> GameView {
        GameView {
            hands,
            trump,
            team_scores: zero_tally(),
            team_eye: self.after_round_eyes().team_eye,
            is_first_round: self.after_round_eyes().is_first_round,
            ..self
        }
    }

    /// True when every hand is empty.
    pub open spec fn hands_empty(self) -> bool {
        &&& self.hands.north.len() == 0
        &&& self.hands.east.len() == 0
        &&& self.hands.south.len() == 0
        &&& self.hands.west.len() == 0
    }

    /// True when a team has the eyes that win the match.
    pub open spec fn match_over(self) -> bool {
        self.eye(1) >= EYES_TO_WIN || self.eye(2) >= EYES_TO_WIN
    }

    /// The cards held in the four hands, one hand after the other.
    pub open spec fn cards_in_hands(self) -> Seq<Card> {
        self.hands.north + self.hands.east + self.hands.south + self.hands.west
    }

    /// All the cards not yet taken: those in the hands, then those on the table.
    pub open spec fn cards_in_play(self) -> Seq<Card> {
        self.cards_in_hands() + trick_cards(self.current_trick)
    }

    /// True for a state as a deal leaves it: four dealt hands, nothing on the
    /// table, no card points taken.
    pub open spec fn freshly_dealt(self) -> bool {
        &&& is_deal(self.hands.north, self.hands.east, self.hands.south, self.hands.west)
        &&& self.current_trick.len() == 0
        &&& self.team_scores == zero_tally()
    }

    /// True for a state as a new match begins with: a fresh deal, no eyes,
    /// North to lead, the first round still to be settled.
    pub open spec fn is_new_match(self) -> bool {
        &&& self.freshly_dealt()
        &&& self.team_eye == zero_tally()
        &&& self.current_turn == PlayerPosition::North
        &&& self.is_first_round
    }

    /// True when the seats of the trick on the table follow one another round
    /// the table from the seat that led, and the turn is with the seat after
    /// the last of them.
    pub open spec fn trick_in_order(self) -> bool {
        &&& forall|i: int|
            0 <= i < self.current_trick.len() ==> (#[trigger] self.current_trick[i]).0
                == self.current_trick[0].0.spec_advance(i as nat)
        &&& self.current_trick.len() > 0 ==> self.current_turn
            == self.current_trick[0].0.spec_advance(self.current_trick.len())
    }

    /// The invariant of a round in progress: the trick is in order, no card
    /// lies in two places, and the points taken and the points still in play
    /// make up the deck.
    pub open spec fn wf(self) -> bool {
        &&& self.trick_in_order()
        &&& self.cards_in_play().no_duplicates()
        &&& self.score(1) + self.score(2) + points_total(self.cards_in_play(), self.trump)
            == deck_points()
    }
}

/// What a tally holds for `team`: its entry, or nothing where it has none.
pub fn tally(counts: &HashMap<u8, u32>, team: u8) -> (n: u32)
    ensures
        n as nat == tally_of(counts@, team),
{
    match counts.get(&team) {
        Some(n) => *n,
        None => 0,
    }
}

/// True when `hand` holds `card`.
fn hand_contains(hand: &Vec<Card>, card: Card) -> (found: bool)
    ensures
        found == hand@.contains(card),
{
    let mut i: usize = 0;
    while i < hand.len()
        invariant
            i <= hand@.len(),
            forall|k: int| 0 <= k < i ==> hand@[k] != card,
        decreases hand@.len() - i,
    {
        if hand[i] == card {
            return true;
        }
        i = i + 1;
    }
    false
}

/// True when `hand` holds a card of `suit`.
fn hand_holds_suit(hand: &Vec<Card>, suit: Suit) -> (found: bool)
    ensures
        found == holds_suit(hand@, suit),
{
    let mut i: usize = 0;
    while i < hand.len()
        invariant
            i <= hand@.len(),
            forall|k: int| 0 <= k < i ==> (#[trigger] hand@[k]).suit != suit,
        decreases hand@.len() - i,
    {
        if hand[i].suit == suit {
            return true;
        }
        i = i + 1;
    }
    false
}

/// `hand` with every copy of `card` taken out, the rest in their order.
fn hand_without(hand: &Vec<Card>, card: Card) -> (rest: Vec<Card>)
    ensures
        rest@ == without(hand@, card),
{
    let mut rest: Vec<Card> = Vec::new();
    let mut i: usize = 0;
    proof {
        reveal(Seq::filter);
        assert(hand@.take(0) =~= Seq::<Card>::empty());
    }
    while i < hand.len()
        invariant
            i <= hand@.len(),
            rest@ == without(hand@.take(i as int), card),
        decreases hand@.len() - i,
    {
        proof {
            assert(hand@.take(i + 1) =~= hand@.take(i as int).push(hand@[i as int]));
            hand@.take(i as int).lemma_filter_push(hand@[i as int], other_than(card));
        }
        if hand[i] != card {
            rest.push(hand[i]);
        }
        i = i + 1;
    }
    proof {
        assert(hand@.take(hand@.len() as int) =~= hand@);
    }
    rest
}

impl PlayError {
    /// The text sent to the client for this refusal.
    pub open spec fn spec_detail(self) -> Seq<char> {
        match self {
            PlayError::NotYourTurn => "Not your turn"@,
            PlayError::CardNotInHand => "Card not in hand"@,
            PlayError::MustFollowSuit => "Must follow suit"@,
        }
    }

    /// The text sent to the client for this refusal.
    pub fn detail(&self) -> (text: String)
        ensures
            text@ == self.spec_detail(),
    {
        match self {
            PlayError::NotYourTurn => "Not your turn".to_owned(),
            PlayError::CardNotInHand => "Card not in hand".to_owned(),
            PlayError::MustFollowSuit => "Must follow suit".to_owned(),
        }
    }
}

/// The key of `card` in a trick with the given trump and suit led.
fn card_key(card: Card, trump: Suit, lead: Suit) -> (key: (u8, u8, u8))
    ensures
        (key.0 as nat, key.1 as nat, key.2 as nat) == trick_key(card, trump, lead),
{
    if card.rank == Rank::Jack {
        (3, jack_priority(card.suit), card.rank.order())
    } else if card.suit == trump {
        (2, 0, card.rank.order())
    } else if card.suit == lead {
        (1, 0, card.rank.order())
    } else {
        (0, 0, card.rank.order())
    }
}

/// Lexicographic `a <= b` on keys.
fn key_at_most(a: (u8, u8, u8), b: (u8, u8, u8)) -> (le: bool)
    ensures
        le == key_le((a.0 as nat, a.1 as nat, a.2 as nat), (b.0 as nat, b.1 as nat, b.2 as nat)),
{
    a.0 < b.0 || (a.0 == b.0 && (a.1 < b.1 || (a.1 == b.1 && a.2 <= b.2)))
}

/// Only one card takes a trick.
pub proof fn lemma_taker_unique(
    trick: Seq<(PlayerPosition, Card)>,
    trump: Suit,
    n: int,
    a: int,
    b: int,
)
    requires
        takes(trick, trump, n, a),
        takes(trick, trump, n, b),
    ensures
        a == b,
{
    if a < b {
        assert(at_most(trick[a].1, trick[b].1, trump, trick[0].1.suit));
    } else if b < a {
        assert(at_most(trick[b].1, trick[a].1, trump, trick[0].1.suit));
    }
}

/// The place of the card that takes `trick`, which is not empty.
fn find_winner(trick: &Vec<(PlayerPosition, Card)>, trump: Suit) -> (best: usize)
    requires
        trick@.len() > 0,
    ensures
        takes(trick@, trump, trick@.len() as int, best as int),
        best as int == winner_index(trick@, trump),
{
    let lead = trick[0].1.suit;
    let mut best: usize = 0;
    let mut best_key = card_key(trick[0].1, trump, lead);
    let mut i: usize = 1;
    while i < trick.len()
        invariant
            1 <= i <= trick@.len(),
            lead == trick@[0].1.suit,
            takes(trick@, trump, i as int, best as int),
            (best_key.0 as nat, best_key.1 as nat, best_key.2 as nat) == trick_key(
                trick@[best as int].1,
                trump,
                lead,
            ),
        decreases trick@.len() - i,
    {
        let key = card_key(trick[i].1, trump, lead);
        if key_at_most(best_key, key) {
            best = i;
            best_key = key;
        }
        i = i + 1;
    }
    proof {
        lemma_taker_unique(
            trick@,
            trump,
            trick@.len() as int,
            best as int,
            winner_index(trick@, trump),
        );
    }
    best
}

/// The card points lying in `trick`.
fn count_trick_points(trick: &Vec<(PlayerPosition, Card)>, trump: Suit) -> (total: u32)
    requires
        trick@.len() <= 1000,
    ensures
        total as nat == trick_points(trick@, trump),
{
    let mut total: u32 = 0;
    let mut i: usize = 0;
    proof {
        assert(trick_cards(trick@).take(0) =~= Seq::<Card>::empty());
    }
    while i < trick.len()
        invariant
            i <= trick@.len() <= 1000,
            total as nat == points_total(trick_cards(trick@).take(i as int), trump),
            total <= 20 * i,
        decreases trick@.len() - i,
    {
        proof {
            let cards = trick_cards(trick@);
            assert(cards.take(i + 1).drop_last() =~= cards.take(i as int));
            assert(cards.take(i + 1).last() == trick@[i as int].1);
        }
        let p: u8 = trick[i].1.points(trump);
        total = total + p as u32;
        i = i + 1;
    }
    proof {
        assert(trick_cards(trick@).take(trick@.len() as int) =~= trick_cards(trick@));
    }
    total
}

impl GameState {
    /// A new match: a fresh deal under `trump`, North to lead, no points and
    /// no eyes yet.
    pub fn new(trump: Suit) -> (state: GameState)
        ensures
            state@.is_new_match(),
            state@.trump == trump,
            state@.wf(),
    {
        let mut dealt = deal_cards();
        let west = dealt.pop().unwrap();
        let south = dealt.pop().unwrap();
        let east = dealt.pop().unwrap();
        let north = dealt.pop().unwrap();
        let mut team_scores: HashMap<u8, u32> = HashMap::new();
        team_scores.insert(1, 0);
        team_scores.insert(2, 0);
        let mut team_eye: HashMap<u8, u32> = HashMap::new();
        team_eye.insert(1, 0);
        team_eye.insert(2, 0);
        let state = GameState {
            hands: PerSeat { north, east, south, west },
            trump,
            current_trick: Vec::new(),
            team_scores,
            team_eye,
            current_turn: PlayerPosition::North,
            is_first_round: true,
        };
        proof {
            lemma_fresh_deal_wf(state@);
        }
        state
    }

    /// Shuffles and deals anew, replacing the four hands. The table must be
    /// empty; nothing else changes.
    pub fn update_hands(&mut self)
        requires
            old(self)@.current_trick.len() == 0,
        ensures
            is_deal(
                final(self)@.hands.north,
                final(self)@.hands.east,
                final(self)@.hands.south,
                final(self)@.hands.west,
            ),
            final(self)@ == (GameView { hands: final(self)@.hands, ..old(self)@ }),
    {
        let mut dealt = deal_cards();
        let west = dealt.pop().unwrap();
        let south = dealt.pop().unwrap();
        let east = dealt.pop().unwrap();
        let north = dealt.pop().unwrap();
        self.hands = PerSeat { north, east, south, west };
    }

    /// Awards the eyes of a finished round. A round level at 60 points each
    /// awards nothing and returns `None`; otherwise the team with more points
    /// (team 2 where team 1 has no more) gets the eyes of the round, the first
    /// round of the match is over, and the team is returned.
    pub fn update_eye_after_round(&mut self) -> (winner: Option<u8>)
        requires
            !old(self)@.is_draw() ==> old(self)@.eye(old(self)@.round_winner()) + old(
                self,
            )@.round_eyes() <= u32::MAX,
        ensures
            final(self)@ == old(self)@.after_round_eyes(),
            winner == (if old(self)@.is_draw() {
                None
            } else {
                Some(old(self)@.round_winner())
            }),
            forall|team: u8| final(self)@.eye(team) >= old(self)@.eye(team),
    {
        let a = tally(&self.team_scores, 1);
        let b = tally(&self.team_scores, 2);
        if a == 60 && b == 60 {
            return None;
        }
        let (winner_team, loser_score): (u8, u32) = if a > b { (1, b) } else { (2, a) };
        let mut eyes: u32 = 1;
        if self.is_first_round {
            eyes = eyes + 1;
        }
        if loser_score < 30 {
            eyes = eyes + 1;
        }
        let before = tally(&self.team_eye, winner_team);
        self.team_eye.insert(winner_team, before + eyes);
        self.is_first_round = false;
        Some(winner_team)
    }

    /// True when every hand is empty: the round is played out.
    pub fn round_is_over(&self) -> (over: bool)
        ensures
            over == self@.hands_empty(),
    {
        self.hands.north.len() == 0 && self.hands.east.len() == 0 && self.hands.south.len() == 0
            && self.hands.west.len() == 0
    }

    /// True when a team has the eyes that win the match.
    pub fn is_match_over(&self) -> (over: bool)
        ensures
            over == self@.match_over(),
    {
        tally(&self.team_eye, 1) >= EYES_TO_WIN || tally(&self.team_eye, 2) >= EYES_TO_WIN
    }

    /// Closes a round that has been played out and opens the next: awards
    /// the eyes, draws a new trump, deals anew and puts the card points back
    /// to zero. The seat that took the last trick keeps the lead.
    pub fn finish_round(&mut self) -> (summary: RoundSummary)
        requires
            old(self)@.current_trick.len() == 0,
            !old(self)@.is_draw() ==> old(self)@.eye(old(self)@.round_winner()) + old(
                self,
            )@.round_eyes() <= u32::MAX,
        ensures
            final(self)@ == old(self)@.after_next_round(summary.trump, final(self)@.hands),
            final(self)@.freshly_dealt(),
            final(self)@.wf(),
            summary.winner_team == (if old(self)@.is_draw() {
                None
            } else {
                Some(old(self)@.round_winner())
            }),
            summary.team_a as nat == final(self)@.eye(1),
            summary.team_b as nat == final(self)@.eye(2),
            summary.scores@ == old(self)@.team_scores,
            summary.match_over == final(self)@.match_over(),
    {
        let winner_team = self.update_eye_after_round();
        let trump = Suit::random_suit();
        self.trump = trump;
        self.update_hands();
        let scores = self.team_scores.clone();
        let mut zero: HashMap<u8, u32> = HashMap::new();
        zero.insert(1, 0);
        zero.insert(2, 0);
        self.team_scores = zero;
        proof {
            lemma_fresh_deal_wf(self@);
        }
        RoundSummary {
            winner_team,
            team_a: tally(&self.team_eye, 1),
            team_b: tally(&self.team_eye, 2),
            trump,
            scores,
            match_over: self.is_match_over(),
        }
    }

    /// Plays `card` from seat `player`.
    ///
    /// The move is refused, and nothing changes, when it is not the seat's
    /// turn, when the seat does not hold the card, or when the seat holds a
    /// card of the suit led and `card` is of another suit. Otherwise the card
    /// leaves the hand, joins the trick, and the turn passes on.
    pub fn play_card(&mut self, player: PlayerPosition, card: Card) -> (outcome: Result<
        (),
        PlayError,
    >)
        ensures
            outcome == old(self)@.play_verdict(player, card),
            outcome is Ok ==> final(self)@ == old(self)@.after_play(player, card),
            outcome is Err ==> *final(self) == *old(self),
            outcome is Ok && old(self)@.current_trick.len() > 0 && holds_suit(
                old(self)@.hand(player),
                old(self)@.lead_suit(),
            ) ==> card.suit == old(self)@.lead_suit(),
    {
        if player != self.current_turn {
            return Err(PlayError::NotYourTurn);
        }
        let hand = self.hands.get(player);
        if !hand_contains(hand, card) {
            return Err(PlayError::CardNotInHand);
        }
        if self.current_trick.len() > 0 {
            let lead_suit = self.current_trick[0].1.suit;
            if card.suit != lead_suit && hand_holds_suit(hand, lead_suit) {
                return Err(PlayError::MustFollowSuit);
            }
        }
        let rest = hand_without(hand, card);
        self.hands.set(player, rest);
        self.current_trick.push((player, card));
        self.current_turn = self.current_turn.next();
        Ok(())
    }

    /// Settles the trick on the table once it holds four cards: its points go
    /// to the team of the seat that takes it, the table is cleared and that
    /// seat leads. With any other number of cards on the table nothing
    /// happens and `None` is returned.
    pub fn resolve_trick(&mut self) -> (winner: Option<PlayerPosition>)
        requires
            old(self)@.current_trick.len() == 4 ==> old(self)@.score(
                old(self)@.winner().spec_team(),
            ) + trick_points(old(self)@.current_trick, old(self)@.trump) <= u32::MAX,
        ensures
            old(self)@.current_trick.len() != 4 ==> winner is None && *final(self) == *old(self),
            old(self)@.current_trick.len() == 4 ==> winner == Some(old(self)@.winner())
                && final(self)@ == old(self)@.after_resolve(),
    {
        if self.current_trick.len() != 4 {
            return None;
        }
        let best = find_winner(&self.current_trick, self.trump);
        let winner = self.current_trick[best].0;
        let points = count_trick_points(&self.current_trick, self.trump);
        let team = winner.team();
        let before = tally(&self.team_scores, team);
        self.team_scores.insert(team, before + points);
        self.current_trick.clear();
        self.current_turn = winner;
        Some(winner)
    }
}

/// True when no card occurs twice in `cards`.
fn all_distinct(cards: &Vec<Card>) -> (ok: bool)
    ensures
        ok == cards@.no_duplicates(),
{
    let mut i: usize = 0;
    while i < cards.len()
        invariant
            i <= cards@.len(),
            forall|a: int, b: int| 0 <= a < b < i ==> cards@[a] != cards@[b],
        decreases cards@.len() - i,
    {
        let mut j: usize = 0;
        while j < i
            invariant
                j <= i < cards@.len(),
                forall|a: int, b: int| 0 <= a < b < i ==> cards@[a] != cards@[b],
                forall|a: int| 0 <= a < j ==> cards@[a] != cards@[i as int],
            decreases i - j,
        {
            if cards[j] == cards[i] {
                return false;
            }
            j = j + 1;
        }
        i = i + 1;
    }
    assert forall|a: int, b: int| 0 <= a < cards@.len() && 0 <= b < cards@.len() && a
        != b implies cards@[a] != cards@[b] by {
        if a < b {
            assert(cards@[a] != cards@[b]);
        } else {
            assert(cards@[b] != cards@[a]);
        }
    }
    true
}

/// The points of all `cards` together under `trump`.
fn count_points(cards: &Vec<Card>, trump: Suit) -> (total: u128)
    ensures
        total == points_total(cards@, trump),
        total <= 20 * cards@.len(),
{
    let mut total: u128 = 0;
    let mut i: usize = 0;
    proof {
        assert(cards@.take(0) =~= Seq::<Card>::empty());
    }
    while i < cards.len()
        invariant
            i <= cards@.len(),
            total == points_total(cards@.take(i as int), trump),
            total <= 20 * i,
        decreases cards@.len() - i,
    {
        proof {
            assert(cards@.take(i + 1).drop_last() =~= cards@.take(i as int));
            assert(cards@.take(i + 1).last() == cards@[i as int]);
        }
        let p: u8 = cards[i].points(trump);
        total = total + p as u128;
        i = i + 1;
    }
    proof {
        assert(cards@.take(cards@.len() as int) =~= cards@);
    }
    total
}

impl GameState {
    /// All the cards not yet taken: those in the hands, seat by seat, then
    /// those on the table.
    pub fn cards_in_play(&self) -> (all: Vec<Card>)
        ensures
            all@ == self@.cards_in_play(),
    {
        let mut all: Vec<Card> = copy_cards(&self.hands.north);
        let mut more = copy_cards(&self.hands.east);
        all.append(&mut more);
        let mut more = copy_cards(&self.hands.south);
        all.append(&mut more);
        let mut more = copy_cards(&self.hands.west);
        all.append(&mut more);
        let ghost hands = all@;
        let mut i: usize = 0;
        assert(trick_cards(self@.current_trick).take(0) =~= Seq::<Card>::empty());
        while i < self.current_trick.len()
            invariant
                i <= self.current_trick@.len(),
                all@ == hands + trick_cards(self.current_trick@).take(i as int),
            decreases self.current_trick@.len() - i,
        {
            all.push(self.current_trick[i].1);
            assert(all@ =~= hands + trick_cards(self.current_trick@).take(i + 1));
            i = i + 1;
        }
        assert(trick_cards(self.current_trick@).take(i as int) =~= trick_cards(
            self.current_trick@,
        ));
        all
    }

    /// True when the seats of the trick on the table follow one another
    /// round the table and the turn is with the seat after the last.
    pub fn trick_is_in_order(&self) -> (ok: bool)
        ensures
            ok == self@.trick_in_order(),
    {
        if self.current_trick.len() == 0 {
            return true;
        }
        let lead = self.current_trick[0].0;
        let mut expected = lead;
        let mut i: usize = 0;
        while i < self.current_trick.len()
            invariant
                i <= self.current_trick@.len(),
                lead == self.current_trick@[0].0,
                expected == lead.spec_advance(i as nat),
                forall|k: int|
                    0 <= k < i ==> (#[trigger] self.current_trick@[k]).0 == lead.spec_advance(
                        k as nat,
                    ),
            decreases self.current_trick@.len() - i,
        {
            if self.current_trick[i].0 != expected {
                return false;
            }
            expected = expected.next();
            i = i + 1;
        }
        self.current_turn == expected
    }

    /// True when the round is in good order: the trick is in order, no card
    /// lies in two places, and the points taken and the points still in play
    /// make up the deck.
    pub fn is_wf(&self) -> (ok: bool)
        ensures
            ok == self@.wf(),
    {
        if !self.trick_is_in_order() {
            return false;
        }
        let all = self.cards_in_play();
        if !all_distinct(&all) {
            return false;
        }
        let points = count_points(&all, self.trump);
        let taken = tally(&self.team_scores, 1) as u128 + tally(&self.team_scores, 2) as u128;
        let held: usize = all.len();
        assert(points <= 20 * held);
        taken + points == DECK_POINTS as u128
    }
}

/// A fresh deal with nothing on the table and nothing taken is a round in
/// good order.
pub proof fn lemma_fresh_deal_wf(game: GameView)
    requires
        game.freshly_dealt(),
    ensures
        game.wf(),
{
    lemma_deal_is_whole_deck(
        game.hands.north,
        game.hands.east,
        game.hands.south,
        game.hands.west,
        game.trump,
    );
    assert(trick_cards(game.current_trick) =~= Seq::<Card>::empty());
    assert(game.cards_in_play() =~= game.cards_in_hands());
}

} // verus!
