//! Suits, ranks, cards, their point values under a trump, and the 32-card deck.

use vstd::prelude::*;
use crate::chance::{choose_suit, shuffle};

verus! {

/// One of the four suits.
#[derive(Debug, Clone, Copy, PartialEq, Eq, Hash, Structural)]
pub enum Suit {
    Clubs,
    Diamonds,
    Hearts,
    Spades,
}

/// One of the eight ranks, in their natural order from `Seven` up to `Ace`.
#[derive(Debug, Clone, Copy, PartialEq, Eq, Hash, PartialOrd, Ord, Structural)]
pub enum Rank {
    Seven,
    Eight,
    Nine,
    Ten,
    Jack,
    Queen,
    King,
    Ace,
}

/// A card: a suit and a rank. Two cards are equal when both agree.
#[derive(Debug, Clone, Copy, PartialEq, Eq, Hash, Structural)]
pub struct Card {
    pub suit: Suit,
    pub rank: Rank,
}

impl Rank {
    /// Place of the rank in the natural order: `Seven` is 0, `Ace` is 7.
    pub open spec fn spec_order(self) -> nat {
        match self {
            Rank::Seven => 0,
            Rank::Eight => 1,
            Rank::Nine => 2,
            Rank::Ten => 3,
            Rank::Jack => 4,
            Rank::Queen => 5,
            Rank::King => 6,
            Rank::Ace => 7,
        }
    }

    /// Place of the rank in the natural order: `Seven` is 0, `Ace` is 7.
    pub fn order(&self) -> (n: u8)
        ensures
            n as nat == self.spec_order(),
    {
        match self {
            Rank::Seven => 0,
            Rank::Eight => 1,
            Rank::Nine => 2,
            Rank::Ten => 3,
            Rank::Jack => 4,
            Rank::Queen => 5,
            Rank::King => 6,
            Rank::Ace => 7,
        }
    }
}

/// Strength of a Jack by its suit: Clubs 4, Diamonds 3, Hearts 2, Spades 1.
pub open spec fn spec_jack_priority(suit: Suit) -> nat {
    match suit {
        Suit::Clubs => 4,
        Suit::Diamonds => 3,
        Suit::Hearts => 2,
        Suit::Spades => 1,
    }
}

/// Strength of a Jack by its suit: Clubs 4, Diamonds 3, Hearts 2, Spades 1.
pub fn jack_priority(suit: Suit) -> (p: u8)
    ensures
        p as nat == spec_jack_priority(suit),
{
    match suit {
        Suit::Clubs => 4,
        Suit::Diamonds => 3,
        Suit::Hearts => 2,
        Suit::Spades => 1,
    }
}

impl Card {
    /// Points the card is worth when `trump` is the trump suit.
    pub open spec fn spec_points(self, trump: Suit) -> nat {
        match self.rank {
            Rank::Ace => 11,
            Rank::Ten => 10,
            Rank::King => 4,
            Rank::Queen => 3,
            Rank::Jack => if self.suit == trump { 20 } else { 2 },
            Rank::Nine => if self.suit == trump { 14 } else { 0 },
            Rank::Seven | Rank::Eight => 0,
        }
    }

    /// Points the card is worth when `trump` is the trump suit.
    pub fn points(&self, trump: Suit) -> (p: u8)
        ensures
            p as nat == self.spec_points(trump),
    {
        let in_trump = self.suit == trump;
        match self.rank {
            Rank::Ace => 11,
            Rank::Ten => 10,
            Rank::King => 4,
            Rank::Queen => 3,
            Rank::Jack => if in_trump { 20 } else { 2 },
            Rank::Nine => if in_trump { 14 } else { 0 },
            _ => 0,
        }
    }
}

/// The suit of the `i`-th block of eight cards in a fresh deck.
pub open spec fn suit_at(i: int) -> Suit {
    if i == 0 {
        Suit::Clubs
    } else if i == 1 {
        Suit::Diamonds
    } else if i == 2 {
        Suit::Hearts
    } else {
        Suit::Spades
    }
}

/// The rank with place `i` in the natural order.
pub open spec fn rank_at(i: int) -> Rank {
    if i == 0 {
        Rank::Seven
    } else if i == 1 {
        Rank::Eight
    } else if i == 2 {
        Rank::Nine
    } else if i == 3 {
        Rank::Ten
    } else if i == 4 {
        Rank::Jack
    } else if i == 5 {
        Rank::Queen
    } else if i == 6 {
        Rank::King
    } else {
        Rank::Ace
    }
}

/// The fresh deck: every suit with every rank, suit by suit, 32 cards.
pub open spec fn spec_full_deck() -> Seq<Card> {
    Seq::new(32, |i: int| Card { suit: suit_at(i / 8), rank: rank_at(i % 8) })
}

/// The block of the fresh deck that holds the cards of `suit`.
pub open spec fn suit_place(suit: Suit) -> int {
    match suit {
        Suit::Clubs => 0,
        Suit::Diamonds => 1,
        Suit::Hearts => 2,
        Suit::Spades => 3,
    }
}

/// Where a card lies in the fresh deck.
pub open spec fn deck_index(card: Card) -> int {
    8 * suit_place(card.suit) + card.rank.spec_order()
}

/// The points of all `cards` together under `trump`.
pub open spec fn points_total(cards: Seq<Card>, trump: Suit) -> nat
    decreases cards.len(),
{
    if cards.len() == 0 {
        0
    } else {
        points_total(cards.drop_last(), trump) + cards.last().spec_points(trump)
    }
}

/// The points of a full deck under any trump: three plain suits of 30 and a
/// trump suit of 62.
pub const DECK_POINTS: u32 = 152;

/// The points of a full deck under any trump.
pub open spec fn deck_points() -> nat {
    DECK_POINTS as nat
}

/// Builds the fresh deck of 32 cards.
pub fn full_deck() -> (deck: Vec<Card>)
    ensures
        deck@ == spec_full_deck(),
{
    let mut deck: Vec<Card> = Vec::with_capacity(32);
    let suits = [Suit::Clubs, Suit::Diamonds, Suit::Hearts, Suit::Spades];
    let ranks = [
        Rank::Seven,
        Rank::Eight,
        Rank::Nine,
        Rank::Ten,
        Rank::Jack,
        Rank::Queen,
        Rank::King,
        Rank::Ace,
    ];
    let mut i: usize = 0;
    while i < 4
        invariant
            i <= 4,
            deck@.len() == 8 * i,
            forall|k: int| 0 <= k < 4 ==> suits@[k] == suit_at(k),
            forall|k: int| 0 <= k < 8 ==> ranks@[k] == rank_at(k),
            forall|k: int| 0 <= k < deck@.len() ==> deck@[k] == spec_full_deck()[k],
        decreases 4 - i,
    {
        let mut j: usize = 0;
        while j < 8
            invariant
                i < 4,
                j <= 8,
                deck@.len() == 8 * i + j,
                forall|k: int| 0 <= k < 4 ==> suits@[k] == suit_at(k),
                forall|k: int| 0 <= k < 8 ==> ranks@[k] == rank_at(k),
                forall|k: int| 0 <= k < deck@.len() ==> deck@[k] == spec_full_deck()[k],
            decreases 8 - j,
        {
            deck.push(Card { suit: suits[i], rank: ranks[j] });
            j = j + 1;
        }
        i = i + 1;
    }
    assert(deck@ =~= spec_full_deck());
    deck
}

/// The fresh deck holds every card, each at its own place.
pub proof fn lemma_full_deck_complete(card: Card)
    ensures
        0 <= deck_index(card) < 32,
        spec_full_deck()[deck_index(card)] == card,
{
}

/// No card occurs twice in the fresh deck.
pub proof fn lemma_full_deck_distinct()
    ensures
        spec_full_deck().no_duplicates(),
{
    let d = spec_full_deck();
    assert forall|i: int, j: int| 0 <= i < d.len() && 0 <= j < d.len() && i != j implies d[i]
        != d[j] by {
        lemma_full_deck_complete(d[i]);
        lemma_full_deck_complete(d[j]);
        assert(deck_index(d[i]) == i);
        assert(deck_index(d[j]) == j);
    }
}

/// Points add up over concatenation.
pub proof fn lemma_points_concat(a: Seq<Card>, b: Seq<Card>, trump: Suit)
    ensures
        points_total(a + b, trump) == points_total(a, trump) + points_total(b, trump),
    decreases b.len(),
{
    if b.len() == 0 {
        assert(a + b =~= a);
    } else {
        assert((a + b).drop_last() =~= a + b.drop_last());
        lemma_points_concat(a, b.drop_last(), trump);
    }
}

/// Taking one card out lowers the total by that card's points.
pub proof fn lemma_points_remove(cards: Seq<Card>, i: int, trump: Suit)
    requires
        0 <= i < cards.len(),
    ensures
        points_total(cards, trump) == points_total(cards.remove(i), trump) + cards[i].spec_points(
            trump,
        ),
{
    let before = cards.subrange(0, i);
    let after = cards.subrange(i + 1, cards.len() as int);
    let one = seq![cards[i]];
    assert(cards =~= before + one + after);
    assert(cards.remove(i) =~= before + after);
    lemma_points_concat(before + one, after, trump);
    lemma_points_concat(before, one, trump);
    lemma_points_concat(before, after, trump);
    assert(one.drop_last() =~= Seq::<Card>::empty());
    assert(points_total(one, trump) == cards[i].spec_points(trump)) by {
        reveal_with_fuel(points_total, 2);
    }
}

/// The total does not depend on the order of the cards.
pub proof fn lemma_points_permutation(a: Seq<Card>, b: Seq<Card>, trump: Suit)
    requires
        a.to_multiset() == b.to_multiset(),
    ensures
        points_total(a, trump) == points_total(b, trump),
    decreases a.len(),
{
    broadcast use vstd::seq_lib::group_to_multiset_ensures;

    a.to_multiset_ensures();
    b.to_multiset_ensures();
    if a.len() == 0 {
        assert(b.len() == 0);
    } else {
        let x = a.last();
        assert(a.contains(x));
        assert(b.to_multiset().count(x) > 0);
        assert(b.contains(x));
        let i = b.index_of(x);
        vstd::seq_lib::to_multiset_remove(a, a.len() - 1);
        vstd::seq_lib::to_multiset_remove(b, i);
        assert(a.remove(a.len() - 1) =~= a.drop_last());
        lemma_points_permutation(a.drop_last(), b.remove(i), trump);
        lemma_points_remove(b, i, trump);
    }
}

/// The points of the first `k` cards of one suit in the fresh deck, by
/// whether the suit is trump.
spec fn block_points(in_trump: bool, k: int) -> nat {
    if k <= 2 {
        0
    } else if k == 3 {
        if in_trump { 14 } else { 0 }
    } else if k == 4 {
        if in_trump { 24 } else { 10 }
    } else if k == 5 {
        if in_trump { 44 } else { 12 }
    } else if k == 6 {
        if in_trump { 47 } else { 15 }
    } else if k == 7 {
        if in_trump { 51 } else { 19 }
    } else {
        if in_trump { 62 } else { 30 }
    }
}

/// The points of the first `s` whole blocks of the fresh deck.
spec fn blocks_points(trump: Suit, s: int) -> nat
    decreases s,
{
    if s <= 0 {
        0
    } else {
        blocks_points(trump, s - 1) + block_points(suit_at(s - 1) == trump, 8)
    }
}

/// The points of the first `n` cards of the fresh deck: those of the whole
/// suits among them and those of the suit begun.
proof fn lemma_deck_prefix_points(trump: Suit, n: int)
    requires
        0 <= n <= 32,
    ensures
        points_total(spec_full_deck().take(n), trump) == blocks_points(trump, n / 8)
            + block_points(suit_at(n / 8) == trump, n % 8),
    decreases n,
{
    let d = spec_full_deck();
    reveal_with_fuel(blocks_points, 2);
    if n == 0 {
        assert(d.take(0) =~= Seq::<Card>::empty());
    } else {
        lemma_deck_prefix_points(trump, n - 1);
        assert(d.take(n).drop_last() =~= d.take(n - 1));
        assert(d.take(n).last() == d[n - 1]);
        if n % 8 == 0 {
            assert((n - 1) / 8 == n / 8 - 1);
            assert((n - 1) % 8 == 7);
        } else {
            assert((n - 1) / 8 == n / 8);
            assert((n - 1) % 8 == n % 8 - 1);
        }
    }
}

/// Whatever the trump, the fresh deck is worth 152 points.
pub proof fn lemma_full_deck_points(trump: Suit)
    ensures
        points_total(spec_full_deck(), trump) == deck_points(),
{
    lemma_deck_prefix_points(trump, 32);
    assert(spec_full_deck().take(32) =~= spec_full_deck());
    reveal_with_fuel(blocks_points, 5);
}

/// A copy of `cards`.
pub fn copy_cards(cards: &Vec<Card>) -> (copy: Vec<Card>)
    ensures
        copy@ == cards@,
{
    let mut copy: Vec<Card> = Vec::with_capacity(cards.len());
    let mut i: usize = 0;
    while i < cards.len()
        invariant
            i <= cards@.len(),
            copy@ == cards@.take(i as int),
        decreases cards@.len() - i,
    {
        copy.push(cards[i]);
        assert(cards@.take(i + 1) =~= cards@.take(i as int).push(cards@[i as int]));
        i = i + 1;
    }
    assert(cards@.take(cards@.len() as int) =~= cards@);
    copy
}

/// How many hands of at most eight cards a deck of `len` cards is cut into.
pub open spec fn hand_count(len: nat) -> nat {
    (len + 7) / 8
}

/// The `i`-th hand cut from `deck`: its cards from place `8 * i` on, eight of
/// them or as many as are left.
pub open spec fn hand_of(deck: Seq<Card>, i: int) -> Seq<Card> {
    deck.subrange(8 * i, if 8 * i + 8 <= deck.len() { 8 * i + 8 } else { deck.len() as int })
}

/// Four hands of eight cards that together hold every card of the deck once.
pub open spec fn is_deal(
    north: Seq<Card>,
    east: Seq<Card>,
    south: Seq<Card>,
    west: Seq<Card>,
) -> bool {
    &&& north.len() == 8
    &&& east.len() == 8
    &&& south.len() == 8
    &&& west.len() == 8
    &&& (north + east + south + west).to_multiset() == spec_full_deck().to_multiset()
}

/// Cuts `deck` into consecutive hands of eight cards; the last hand holds
/// what is left when the deck does not divide evenly.
pub fn split_hands(deck: &Vec<Card>) -> (hands: Vec<Vec<Card>>)
    ensures
        hands@.len() == hand_count(deck@.len()),
        forall|i: int| 0 <= i < hands@.len() ==> (#[trigger] hands@[i])@ == hand_of(deck@, i),
{
    let mut hands: Vec<Vec<Card>> = Vec::new();
    let total: usize = deck.len();
    let whole: usize = total / 8;
    let count: usize = if total % 8 == 0 { whole } else { whole + 1 };
    while hands.len() < count
        invariant
            total == deck@.len(),
            count == hand_count(deck@.len()),
            8 * count <= total + 7,
            hands@.len() <= count,
            forall|i: int| 0 <= i < hands@.len() ==> (#[trigger] hands@[i])@ == hand_of(deck@, i),
        decreases count - hands@.len(),
    {
        let start: usize = 8 * hands.len();
        let end: usize = if deck.len() - start >= 8 { start + 8 } else { deck.len() };
        let mut hand: Vec<Card> = Vec::new();
        let mut k: usize = start;
        while k < end
            invariant
                start <= k <= end <= deck@.len(),
                hand@ == deck@.subrange(start as int, k as int),
            decreases end - k,
        {
            hand.push(deck[k]);
            assert(deck@.subrange(start as int, k as int).push(deck@[k as int]) =~= deck@.subrange(
                start as int,
                k + 1,
            ));
            k = k + 1;
        }
        hands.push(hand);
    }
    hands
}

/// Shuffles a fresh deck and deals it out as four hands of eight, in the order
/// North, East, South, West.
pub fn deal_cards() -> (hands: Vec<Vec<Card>>)
    ensures
        hands@.len() == 4,
        is_deal(hands@[0]@, hands@[1]@, hands@[2]@, hands@[3]@),
{
    let mut deck = full_deck();
    shuffle(&mut deck);
    proof {
        broadcast use vstd::seq_lib::group_to_multiset_ensures;

        deck@.to_multiset_ensures();
        spec_full_deck().to_multiset_ensures();
    }
    let hands = split_hands(&deck);
    proof {
        assert(hands@[0]@ == hand_of(deck@, 0));
        assert(hands@[1]@ == hand_of(deck@, 1));
        assert(hands@[2]@ == hand_of(deck@, 2));
        assert(hands@[3]@ == hand_of(deck@, 3));
        assert(hands@[0]@ + hands@[1]@ + hands@[2]@ + hands@[3]@ =~= deck@);
    }
    hands
}

/// What a deal gives whatever the order of the cards: no card lies in two
/// places, and the four hands together are worth the whole deck.
pub proof fn lemma_deal_is_whole_deck(
    north: Seq<Card>,
    east: Seq<Card>,
    south: Seq<Card>,
    west: Seq<Card>,
    trump: Suit,
)
    requires
        is_deal(north, east, south, west),
    ensures
        (north + east + south + west).no_duplicates(),
        points_total(north + east + south + west, trump) == deck_points(),
        points_total(north, trump) + points_total(east, trump) + points_total(south, trump)
            + points_total(west, trump) == deck_points(),
{
    let all = north + east + south + west;
    lemma_full_deck_distinct();
    spec_full_deck().lemma_multiset_has_no_duplicates();
    all.lemma_multiset_has_no_duplicates_conv();
    lemma_points_permutation(all, spec_full_deck(), trump);
    lemma_full_deck_points(trump);
    lemma_points_concat(north + east + south, west, trump);
    lemma_points_concat(north + east, south, trump);
    lemma_points_concat(north, east, trump);
}

impl Suit {
    /// Picks one of the four suits at random.
    pub fn random_suit() -> Suit {
        let mut suits: Vec<Suit> = Vec::with_capacity(4);
        suits.push(Suit::Clubs);
        suits.push(Suit::Diamonds);
        suits.push(Suit::Hearts);
        suits.push(Suit::Spades);
        match choose_suit(&suits) {
            Some(suit) => suit,
            // never taken: the slice handed over is not empty
            None => Suit::Clubs,
        }
    }
}

} // verus!
