//! A trial game for two at the console: cards by number, a hand each, and the
//! rule that decides a round.

use vstd::prelude::*;
use crate::cards::Suit;
use crate::text::{parse_u64, spec_parse_u64, spec_trim, trimmed};

verus! {

/// A card of the 36-card deck: a value from 6 up to 14 for the Ace, and a suit.
#[derive(Debug, Clone, Copy, PartialEq, Eq, Hash, Structural)]
pub struct Card {
    pub value: u8,
    pub suit: Suit,
}

/// A player with a name and a hand.
#[derive(Debug)]
pub struct Player {
    pub name: String,
    pub hand: Vec<Card>,
}

/// How the value of a card is written.
pub open spec fn value_text(value: u8) -> Seq<char> {
    if value == 6 {
        "6"@
    } else if value == 7 {
        "7"@
    } else if value == 8 {
        "8"@
    } else if value == 9 {
        "9"@
    } else if value == 10 {
        "10"@
    } else if value == 11 {
        "J"@
    } else if value == 12 {
        "Q"@
    } else if value == 13 {
        "K"@
    } else if value == 14 {
        "A"@
    } else {
        "Unknown"@
    }
}

/// The sign of a suit.
pub open spec fn suit_sign(suit: Suit) -> Seq<char> {
    match suit {
        Suit::Spades => "♠"@,
        Suit::Hearts => "♥"@,
        Suit::Diamonds => "♦"@,
        Suit::Clubs => "♣"@,
    }
}

/// The suit of the `i`-th block of nine cards in the deck of this game.
pub open spec fn block_suit(i: int) -> Suit {
    if i == 0 {
        Suit::Spades
    } else if i == 1 {
        Suit::Hearts
    } else if i == 2 {
        Suit::Diamonds
    } else {
        Suit::Clubs
    }
}

/// The deck of this game: Spades, Hearts, Diamonds, Clubs, each from 6 up to
/// the Ace, 36 cards.
pub open spec fn spec_full_deck() -> Seq<Card> {
    Seq::new(36, |i: int| Card { value: (6 + i % 9) as u8, suit: block_suit(i / 9) })
}

/// What decides a round between two cards: a trump beats a card that is
/// none; of two cards of one suit the higher wins; everything else is a draw.
pub open spec fn spec_winner(first: Card, second: Card, trump: Suit) -> Option<usize> {
    if first.suit == trump && second.suit != trump {
        Some(0usize)
    } else if second.suit == trump && first.suit != trump {
        Some(1usize)
    } else if first.suit == second.suit && first.value > second.value {
        Some(0usize)
    } else if first.suit == second.suit && second.value > first.value {
        Some(1usize)
    } else {
        None
    }
}

/// What decides the game: the player with more rounds, or nobody.
pub open spec fn spec_game_winner(first: u8, second: u8) -> Option<usize> {
    if first > second {
        Some(0usize)
    } else if second > first {
        Some(1usize)
    } else {
        None
    }
}

impl Card {
    /// The card of value `value` in suit `suit`.
    pub fn new(value: u8, suit: Suit) -> (card: Card)
        ensures
            card == (Card { value, suit }),
    {
        Card { value, suit }
    }

    /// The card as it is shown: its value, then the sign of its suit.
    pub fn display(&self) -> (text: String)
        ensures
            text@ == value_text(self.value) + suit_sign(self.suit),
    {
        let value = match self.value {
            6 => "6",
            7 => "7",
            8 => "8",
            9 => "9",
            10 => "10",
            11 => "J",
            12 => "Q",
            13 => "K",
            14 => "A",
            _ => "Unknown",
        };
        let suit = match self.suit {
            Suit::Spades => "♠",
            Suit::Hearts => "♥",
            Suit::Diamonds => "♦",
            Suit::Clubs => "♣",
        };
        let mut text = value.to_owned();
        text.append(suit);
        text
    }
}

/// Builds the deck of this game.
pub fn full_deck() -> (deck: Vec<Card>)
    ensures
        deck@ == spec_full_deck(),
{
    let suits = [Suit::Spades, Suit::Hearts, Suit::Diamonds, Suit::Clubs];
    let mut deck: Vec<Card> = Vec::new();
    let mut i: usize = 0;
    while i < 4
        invariant
            i <= 4,
            deck@.len() == 9 * i,
            forall|k: int| 0 <= k < 4 ==> suits@[k] == block_suit(k),
            forall|k: int| 0 <= k < deck@.len() ==> deck@[k] == spec_full_deck()[k],
        decreases 4 - i,
    {
        let mut value: u8 = 6;
        while value <= 14
            invariant
                i < 4,
                6 <= value <= 15,
                deck@.len() == 9 * i + (value - 6),
                forall|k: int| 0 <= k < 4 ==> suits@[k] == block_suit(k),
                forall|k: int| 0 <= k < deck@.len() ==> deck@[k] == spec_full_deck()[k],
            decreases 15 - value,
        {
            deck.push(Card::new(value, suits[i]));
            value = value + 1;
        }
        i = i + 1;
    }
    assert(deck@ =~= spec_full_deck());
    deck
}

/// Deals `deck` to two players in turn, the first card to the first player.
pub fn deal_in_turn(deck: &Vec<Card>, first: &mut Player, second: &mut Player)
    ensures
        final(first).name == old(first).name,
        final(second).name == old(second).name,
        final(first).hand@ == old(first).hand@ + Seq::new(
            ((deck@.len() + 1) / 2) as nat,
            |k: int| deck@[2 * k],
        ),
        final(second).hand@ == old(second).hand@ + Seq::new(
            (deck@.len() / 2) as nat,
            |k: int| deck@[2 * k + 1],
        ),
{
    let mut i: usize = 0;
    while i < deck.len()
        invariant
            i <= deck@.len(),
            first.name == old(first).name,
            second.name == old(second).name,
            first.hand@ == old(first).hand@ + Seq::new(((i + 1) / 2) as nat, |k: int| deck@[2 * k]),
            second.hand@ == old(second).hand@ + Seq::new((i / 2) as nat, |k: int| deck@[2 * k + 1]),
        decreases deck@.len() - i,
    {
        if i % 2 == 0 {
            first.add_card(deck[i]);
            assert(first.hand@ =~= old(first).hand@ + Seq::new(
                ((i + 2) / 2) as nat,
                |k: int| deck@[2 * k],
            ));
        } else {
            second.add_card(deck[i]);
            assert(second.hand@ =~= old(second).hand@ + Seq::new(
                ((i + 1) / 2) as nat,
                |k: int| deck@[2 * k + 1],
            ));
        }
        i = i + 1;
    }
}

impl Player {
    /// True when `number`, counted from one, names a card of the hand.
    pub open spec fn names_card(self, number: Option<u64>) -> bool {
        number is Some && 0 < number->0 <= self.hand@.len()
    }

    /// The card that `number`, counted from one, names in the hand.
    pub open spec fn chosen(self, number: Option<u64>) -> Option<Card> {
        if self.names_card(number) {
            Some(self.hand@[number->0 - 1])
        } else {
            None
        }
    }

    /// The hand once the card that `number` names has left it.
    pub open spec fn hand_after(self, number: Option<u64>) -> Seq<Card> {
        if self.names_card(number) {
            self.hand@.remove(number->0 - 1)
        } else {
            self.hand@
        }
    }

    /// A player called `name` with an empty hand.
    pub fn new(name: String) -> (player: Player)
        ensures
            player.name == name,
            player.hand@.len() == 0,
    {
        Player { name, hand: Vec::new() }
    }

    /// Puts `card` last in the hand.
    pub fn add_card(&mut self, card: Card)
        ensures
            final(self).name == old(self).name,
            final(self).hand@ == old(self).hand@.push(card),
    {
        self.hand.push(card);
    }

    /// Takes the card at place `index` out of the hand.
    pub fn remove_card(&mut self, index: usize) -> (card: Card)
        requires
            index < old(self).hand@.len(),
        ensures
            card == old(self).hand@[index as int],
            final(self).name == old(self).name,
            final(self).hand@ == old(self).hand@.remove(index as int),
    {
        self.hand.remove(index)
    }

    /// The cards of the hand as they are shown, in order.
    pub fn hand_texts(&self) -> (texts: Vec<String>)
        ensures
            texts@.len() == self.hand@.len(),
            forall|i: int|
                0 <= i < texts@.len() ==> (#[trigger] texts@[i])@ == value_text(self.hand@[i].value)
                    + suit_sign(self.hand@[i].suit),
    {
        let mut texts: Vec<String> = Vec::new();
        let mut i: usize = 0;
        while i < self.hand.len()
            invariant
                i <= self.hand@.len(),
                texts@.len() == i,
                forall|k: int|
                    0 <= k < i ==> (#[trigger] texts@[k])@ == value_text(self.hand@[k].value)
                        + suit_sign(self.hand@[k].suit),
            decreases self.hand@.len() - i,
        {
            texts.push(self.hand[i].display());
            i = i + 1;
        }
        texts
    }

    /// Plays the card that the player chose by typing its number, counted
    /// from one. White space round the number is passed over. An entry that
    /// is no number, or names no card of the hand, takes nothing.
    pub fn play_choice(&mut self, entry: &str) -> (card: Option<Card>)
        ensures
            final(self).name == old(self).name,
            card == old(self).chosen(spec_parse_u64(spec_trim(entry@))),
            final(self).hand@ == old(self).hand_after(spec_parse_u64(spec_trim(entry@))),
    {
        let inner = trimmed(entry);
        match parse_u64(inner.as_str()) {
            Some(number) => self.take_choice(number),
            None => None,
        }
    }

    /// Plays the card that the player chose by its number, counted from one.
    /// A number that names no card of the hand takes nothing.
    pub fn take_choice(&mut self, number: u64) -> (card: Option<Card>)
        ensures
            final(self).name == old(self).name,
            card == old(self).chosen(Some(number)),
            final(self).hand@ == old(self).hand_after(Some(number)),
    {
        if number > 0 && number <= self.hand.len() as u64 {
            Some(self.remove_card((number - 1) as usize))
        } else {
            None
        }
    }
}

/// Decides a round between the card of the first player and the card of the
/// second: the place of the winner, or `None` for a draw.
pub fn determine_winner(card1: Card, card2: Card, trump_suit: Suit) -> (winner: Option<usize>)
    ensures
        winner == spec_winner(card1, card2, trump_suit),
{
    if card1.suit == trump_suit && card2.suit != trump_suit {
        Some(0)
    } else if card2.suit == trump_suit && card1.suit != trump_suit {
        Some(1)
    } else if card1.suit == card2.suit {
        if card1.value > card2.value {
            Some(0)
        } else if card2.value > card1.value {
            Some(1)
        } else {
            None
        }
    } else {
        None
    }
}

/// Decides the game by the rounds each player won: the place of the winner,
/// or `None` for a draw.
pub fn game_winner(first: u8, second: u8) -> (winner: Option<usize>)
    ensures
        winner == spec_game_winner(first, second),
{
    if first > second {
        Some(0)
    } else if second > first {
        Some(1)
    } else {
        None
    }
}

} // verus!
