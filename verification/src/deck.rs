//! A deck of cards named in words, each with its worth, and a room of up to
//! four users round it.

use vstd::prelude::*;

verus! {

/// The number of cards of a deck.
pub const DESK_CAPACITY: u8 = 32;

/// A card by the name of its rank, the name of its suit, and its worth.
#[derive(Debug, Clone)]
pub struct DeckCard {
    pub name: String,
    pub suit: String,
    pub record: u8,
}

/// A deck and the number of cards it is made for.
#[derive(Debug)]
pub struct CardDeck {
    pub cards: Vec<DeckCard>,
    pub capacity: u8,
}

/// A user by name and identity.
#[derive(Debug)]
pub struct User {
    pub name: String,
    pub id: String,
}

/// A deck and up to four users round it.
#[derive(Debug)]
pub struct Room {
    pub deck: CardDeck,
    pub user1: Option<User>,
    pub user2: Option<User>,
    pub user3: Option<User>,
    pub user4: Option<User>,
}

/// The name of the rank with place `i`.
pub open spec fn rank_name(i: int) -> Seq<char> {
    if i == 0 {
        "7"@
    } else if i == 1 {
        "8"@
    } else if i == 2 {
        "9"@
    } else if i == 3 {
        "10"@
    } else if i == 4 {
        "J"@
    } else if i == 5 {
        "Q"@
    } else if i == 6 {
        "K"@
    } else {
        "A"@
    }
}

/// The worth of the rank with place `i`.
pub open spec fn rank_record(i: int) -> u8 {
    if i <= 2 {
        0
    } else if i == 3 {
        10
    } else if i == 4 {
        3
    } else if i == 5 {
        4
    } else if i == 6 {
        5
    } else {
        11
    }
}

/// The name of the suit with place `i`.
pub open spec fn suit_name(i: int) -> Seq<char> {
    if i == 0 {
        "Diamonds"@
    } else if i == 1 {
        "Hearts"@
    } else if i == 2 {
        "Clubs"@
    } else {
        "Spades"@
    }
}

/// True when `card` is the card at place `i` of a newly built deck: rank by
/// rank, and within a rank suit by suit.
pub open spec fn is_built_card(card: DeckCard, i: int) -> bool {
    &&& card.name@ == rank_name(i / 4)
    &&& card.suit@ == suit_name(i % 4)
    &&& card.record == rank_record(i / 4)
}

impl CardDeck {
    /// Builds the deck: each of the eight ranks in each of the four suits.
    pub fn build() -> (deck: CardDeck)
        ensures
            deck.capacity == DESK_CAPACITY,
            deck.cards@.len() == 32,
            forall|i: int| 0 <= i < 32 ==> is_built_card(#[trigger] deck.cards@[i], i),
    {
        let names = ["7", "8", "9", "10", "J", "Q", "K", "A"];
        let records: [u8; 8] = [0, 0, 0, 10, 3, 4, 5, 11];
        let suits = ["Diamonds", "Hearts", "Clubs", "Spades"];
        let mut desk: Vec<DeckCard> = Vec::new();
        let mut c: usize = 0;
        while c < 8
            invariant
                c <= 8,
                desk@.len() == 4 * c,
                forall|k: int| 0 <= k < 8 ==> (#[trigger] names@[k])@ == rank_name(k),
                forall|k: int| 0 <= k < 8 ==> #[trigger] records@[k] == rank_record(k),
                forall|k: int| 0 <= k < 4 ==> (#[trigger] suits@[k])@ == suit_name(k),
                forall|i: int| 0 <= i < desk@.len() ==> is_built_card(#[trigger] desk@[i], i),
            decreases 8 - c,
        {
            let mut s: usize = 0;
            while s < 4
                invariant
                    c < 8,
                    s <= 4,
                    desk@.len() == 4 * c + s,
                    forall|k: int| 0 <= k < 8 ==> (#[trigger] names@[k])@ == rank_name(k),
                    forall|k: int| 0 <= k < 8 ==> #[trigger] records@[k] == rank_record(k),
                    forall|k: int| 0 <= k < 4 ==> (#[trigger] suits@[k])@ == suit_name(k),
                    forall|i: int| 0 <= i < desk@.len() ==> is_built_card(#[trigger] desk@[i], i),
                decreases 4 - s,
            {
                let card = DeckCard {
                    name: names[c].to_owned(),
                    suit: suits[s].to_owned(),
                    record: records[c],
                };
                desk.push(card);
                s = s + 1;
            }
            c = c + 1;
        }
        CardDeck { cards: desk, capacity: DESK_CAPACITY }
    }
}

} // verus!
