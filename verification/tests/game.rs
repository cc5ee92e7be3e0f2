use std::collections::HashMap;

use squirrel::cards::{full_deck, Card, Rank, Suit};
use squirrel::game::{tally, GameState, PlayError, EYES_TO_WIN};
use squirrel::position::{PerSeat, PlayerPosition};

fn card(suit: Suit, rank: Rank) -> Card {
    Card { suit, rank }
}

fn tally_of(one: u32, two: u32) -> HashMap<u8, u32> {
    HashMap::from([(1u8, one), (2u8, two)])
}

fn state_with(
    north: Vec<Card>,
    east: Vec<Card>,
    south: Vec<Card>,
    west: Vec<Card>,
    trump: Suit,
) -> GameState {
    GameState {
        hands: PerSeat { north, east, south, west },
        trump,
        current_trick: Vec::new(),
        team_scores: tally_of(0, 0),
        team_eye: tally_of(0, 0),
        current_turn: PlayerPosition::North,
        is_first_round: true,
    }
}

fn cards_in_hands(state: &GameState) -> usize {
    state.hands.north.len()
        + state.hands.east.len()
        + state.hands.south.len()
        + state.hands.west.len()
}

fn snapshot(state: &GameState) -> String {
    let mut scores: Vec<(u8, u32)> = state.team_scores.iter().map(|(k, v)| (*k, *v)).collect();
    scores.sort();
    let mut eyes: Vec<(u8, u32)> = state.team_eye.iter().map(|(k, v)| (*k, *v)).collect();
    eyes.sort();
    format!(
        "{:?} {:?} {:?} {:?} {:?} {:?} {:?}",
        state.hands,
        state.trump,
        state.current_trick,
        scores,
        eyes,
        state.current_turn,
        state.is_first_round
    )
}

#[test]
fn seats_go_round_the_table() {
    assert_eq!(PlayerPosition::North.next(), PlayerPosition::East);
    assert_eq!(PlayerPosition::East.next(), PlayerPosition::South);
    assert_eq!(PlayerPosition::South.next(), PlayerPosition::West);
    assert_eq!(PlayerPosition::West.next(), PlayerPosition::North);
    assert_eq!(PlayerPosition::North.team(), 1);
    assert_eq!(PlayerPosition::South.team(), 1);
    assert_eq!(PlayerPosition::East.team(), 2);
    assert_eq!(PlayerPosition::West.team(), 2);
}

#[test]
fn per_seat_get_and_set() {
    let mut seats = PerSeat { north: 1, east: 2, south: 3, west: 4 };
    assert_eq!(*seats.get(PlayerPosition::South), 3);
    seats.set(PlayerPosition::South, 30);
    assert_eq!(*seats.get(PlayerPosition::South), 30);
    assert_eq!(*seats.get(PlayerPosition::North), 1);
    assert_eq!(*seats.get(PlayerPosition::East), 2);
    assert_eq!(*seats.get(PlayerPosition::West), 4);
}

#[test]
fn new_game_is_a_fresh_deal() {
    let state = GameState::new(Suit::Diamonds);
    assert_eq!(state.trump, Suit::Diamonds);
    assert_eq!(state.current_turn, PlayerPosition::North);
    assert!(state.is_first_round);
    assert!(state.current_trick.is_empty());
    assert_eq!(state.team_scores, tally_of(0, 0));
    assert_eq!(state.team_eye, tally_of(0, 0));
    let mut all: Vec<Card> = Vec::new();
    for seat in [
        PlayerPosition::North,
        PlayerPosition::East,
        PlayerPosition::South,
        PlayerPosition::West,
    ] {
        assert_eq!(state.hands.get(seat).len(), 8);
        all.extend(state.hands.get(seat).iter().copied());
    }
    for c in full_deck() {
        assert_eq!(all.iter().filter(|x| **x == c).count(), 1);
    }
    assert!(!state.round_is_over());
    assert!(!state.is_match_over());
}

#[test]
fn trump_beats_the_suit_led() {
    let mut state = state_with(
        vec![card(Suit::Hearts, Rank::Ace)],
        vec![card(Suit::Hearts, Rank::Seven)],
        vec![card(Suit::Clubs, Rank::Seven)],
        vec![card(Suit::Hearts, Rank::King)],
        Suit::Clubs,
    );
    assert_eq!(state.play_card(PlayerPosition::North, card(Suit::Hearts, Rank::Ace)), Ok(()));
    assert_eq!(state.play_card(PlayerPosition::East, card(Suit::Hearts, Rank::Seven)), Ok(()));
    assert_eq!(state.play_card(PlayerPosition::South, card(Suit::Clubs, Rank::Seven)), Ok(()));
    assert_eq!(state.play_card(PlayerPosition::West, card(Suit::Hearts, Rank::King)), Ok(()));
    assert_eq!(state.current_trick.len(), 4);
    assert_eq!(state.resolve_trick(), Some(PlayerPosition::South));
    assert!(state.current_trick.is_empty());
    assert_eq!(state.current_turn, PlayerPosition::South);
    let team = PlayerPosition::South.team();
    assert_eq!(tally(&state.team_scores, team), 15);
    assert_eq!(tally(&state.team_scores, 3 - team), 0);
}

#[test]
fn jacks_rank_by_their_suits() {
    let mut state = state_with(
        vec![card(Suit::Hearts, Rank::Ten)],
        vec![card(Suit::Hearts, Rank::Ace)],
        vec![card(Suit::Spades, Rank::Jack)],
        vec![card(Suit::Diamonds, Rank::Jack)],
        Suit::Clubs,
    );
    assert!(state.play_card(PlayerPosition::North, card(Suit::Hearts, Rank::Ten)).is_ok());
    assert!(state.play_card(PlayerPosition::East, card(Suit::Hearts, Rank::Ace)).is_ok());
    assert!(state.play_card(PlayerPosition::South, card(Suit::Spades, Rank::Jack)).is_ok());
    assert!(state.play_card(PlayerPosition::West, card(Suit::Diamonds, Rank::Jack)).is_ok());
    assert_eq!(state.resolve_trick(), Some(PlayerPosition::West));
    assert_eq!(tally(&state.team_scores, 2), 10 + 11 + 2 + 2);
}

#[test]
fn a_jack_beats_a_trump_ace() {
    let mut state = state_with(
        vec![card(Suit::Clubs, Rank::Ace)],
        vec![card(Suit::Spades, Rank::Jack)],
        vec![card(Suit::Clubs, Rank::Nine)],
        vec![card(Suit::Clubs, Rank::Ten)],
        Suit::Clubs,
    );
    assert!(state.play_card(PlayerPosition::North, card(Suit::Clubs, Rank::Ace)).is_ok());
    assert!(state.play_card(PlayerPosition::East, card(Suit::Spades, Rank::Jack)).is_ok());
    assert!(state.play_card(PlayerPosition::South, card(Suit::Clubs, Rank::Nine)).is_ok());
    assert!(state.play_card(PlayerPosition::West, card(Suit::Clubs, Rank::Ten)).is_ok());
    assert_eq!(state.resolve_trick(), Some(PlayerPosition::East));
    assert_eq!(tally(&state.team_scores, 2), 11 + 2 + 14 + 10);
}

#[test]
fn the_suit_led_beats_a_higher_card_of_another_suit() {
    let mut state = state_with(
        vec![card(Suit::Hearts, Rank::Seven)],
        vec![card(Suit::Spades, Rank::Ace)],
        vec![card(Suit::Hearts, Rank::Eight)],
        vec![card(Suit::Diamonds, Rank::Ace)],
        Suit::Clubs,
    );
    assert!(state.play_card(PlayerPosition::North, card(Suit::Hearts, Rank::Seven)).is_ok());
    assert!(state.play_card(PlayerPosition::East, card(Suit::Spades, Rank::Ace)).is_ok());
    assert!(state.play_card(PlayerPosition::South, card(Suit::Hearts, Rank::Eight)).is_ok());
    assert!(state.play_card(PlayerPosition::West, card(Suit::Diamonds, Rank::Ace)).is_ok());
    assert_eq!(state.resolve_trick(), Some(PlayerPosition::South));
    assert_eq!(tally(&state.team_scores, 1), 22);
}

#[test]
fn same_trick_same_winner() {
    let build = || {
        let mut state = state_with(vec![], vec![], vec![], vec![], Suit::Spades);
        state.current_trick = vec![
            (PlayerPosition::East, card(Suit::Diamonds, Rank::Queen)),
            (PlayerPosition::South, card(Suit::Diamonds, Rank::King)),
            (PlayerPosition::West, card(Suit::Spades, Rank::Seven)),
            (PlayerPosition::North, card(Suit::Diamonds, Rank::Ace)),
        ];
        state
    };
    let mut a = build();
    let mut b = build();
    b.team_eye = tally_of(5, 6);
    b.is_first_round = false;
    assert_eq!(a.resolve_trick(), Some(PlayerPosition::West));
    assert_eq!(b.resolve_trick(), Some(PlayerPosition::West));
}

#[test]
fn follow_suit_is_enforced() {
    let mut state = state_with(
        vec![card(Suit::Hearts, Rank::Ace), card(Suit::Spades, Rank::Seven)],
        vec![card(Suit::Hearts, Rank::Seven), card(Suit::Clubs, Rank::Ace)],
        vec![card(Suit::Clubs, Rank::Seven), card(Suit::Spades, Rank::Eight)],
        vec![card(Suit::Hearts, Rank::King), card(Suit::Spades, Rank::Nine)],
        Suit::Clubs,
    );
    assert!(state.play_card(PlayerPosition::North, card(Suit::Hearts, Rank::Ace)).is_ok());
    let before = snapshot(&state);
    assert_eq!(
        state.play_card(PlayerPosition::East, card(Suit::Clubs, Rank::Ace)),
        Err(PlayError::MustFollowSuit)
    );
    assert_eq!(snapshot(&state), before);
    assert_eq!(state.play_card(PlayerPosition::East, card(Suit::Hearts, Rank::Seven)), Ok(()));
    // South holds no Heart and may play what it likes.
    assert_eq!(state.play_card(PlayerPosition::South, card(Suit::Spades, Rank::Eight)), Ok(()));
}

#[test]
fn a_move_out_of_turn_is_refused() {
    let mut state = state_with(
        vec![card(Suit::Hearts, Rank::Ace)],
        vec![card(Suit::Hearts, Rank::Seven)],
        vec![],
        vec![],
        Suit::Clubs,
    );
    let before = snapshot(&state);
    assert_eq!(
        state.play_card(PlayerPosition::East, card(Suit::Hearts, Rank::Seven)),
        Err(PlayError::NotYourTurn)
    );
    assert_eq!(snapshot(&state), before);
}

#[test]
fn a_card_not_held_is_refused() {
    let mut state = state_with(
        vec![card(Suit::Hearts, Rank::Ace)],
        vec![card(Suit::Hearts, Rank::Seven)],
        vec![],
        vec![],
        Suit::Clubs,
    );
    let before = snapshot(&state);
    assert_eq!(
        state.play_card(PlayerPosition::North, card(Suit::Hearts, Rank::Seven)),
        Err(PlayError::CardNotInHand)
    );
    assert_eq!(snapshot(&state), before);
}

#[test]
fn refusals_have_their_texts() {
    assert_eq!(PlayError::NotYourTurn.detail(), "Not your turn");
    assert_eq!(PlayError::CardNotInHand.detail(), "Card not in hand");
    assert_eq!(PlayError::MustFollowSuit.detail(), "Must follow suit");
}

#[test]
fn an_open_trick_is_not_resolved() {
    let mut state = state_with(
        vec![card(Suit::Hearts, Rank::Ace)],
        vec![card(Suit::Hearts, Rank::Seven)],
        vec![card(Suit::Hearts, Rank::Eight)],
        vec![card(Suit::Hearts, Rank::Nine)],
        Suit::Clubs,
    );
    assert_eq!(state.resolve_trick(), None);
    assert!(state.play_card(PlayerPosition::North, card(Suit::Hearts, Rank::Ace)).is_ok());
    assert!(state.play_card(PlayerPosition::East, card(Suit::Hearts, Rank::Seven)).is_ok());
    assert!(state.play_card(PlayerPosition::South, card(Suit::Hearts, Rank::Eight)).is_ok());
    let before = snapshot(&state);
    assert_eq!(state.resolve_trick(), None);
    assert_eq!(snapshot(&state), before);
}

#[test]
fn playing_takes_the_card_and_passes_the_turn() {
    let mut state = state_with(
        vec![
            card(Suit::Hearts, Rank::Ace),
            card(Suit::Spades, Rank::Seven),
            card(Suit::Hearts, Rank::Ten),
        ],
        vec![card(Suit::Hearts, Rank::Seven)],
        vec![],
        vec![],
        Suit::Clubs,
    );
    assert!(state.play_card(PlayerPosition::North, card(Suit::Spades, Rank::Seven)).is_ok());
    assert_eq!(
        state.hands.north,
        vec![card(Suit::Hearts, Rank::Ace), card(Suit::Hearts, Rank::Ten)]
    );
    assert_eq!(
        state.current_trick,
        vec![(PlayerPosition::North, card(Suit::Spades, Rank::Seven))]
    );
    assert_eq!(state.current_turn, PlayerPosition::East);
}

fn settled(one: u32, two: u32, eyes: (u32, u32), first: bool) -> GameState {
    let mut state = state_with(vec![], vec![], vec![], vec![], Suit::Clubs);
    state.team_scores = tally_of(one, two);
    state.team_eye = tally_of(eyes.0, eyes.1);
    state.is_first_round = first;
    state
}

#[test]
fn eyes_of_a_plain_round() {
    let mut state = settled(100, 52, (3, 4), false);
    assert_eq!(state.update_eye_after_round(), Some(1));
    assert_eq!(state.team_eye, tally_of(4, 4));
    assert!(!state.is_first_round);
}

#[test]
fn eyes_of_the_first_round() {
    let mut state = settled(70, 82, (0, 0), true);
    assert_eq!(state.update_eye_after_round(), Some(2));
    assert_eq!(state.team_eye, tally_of(0, 2));
    assert!(!state.is_first_round);
}

#[test]
fn eyes_when_the_losers_stay_under_thirty() {
    let mut state = settled(123, 29, (1, 1), false);
    assert_eq!(state.update_eye_after_round(), Some(1));
    assert_eq!(state.team_eye, tally_of(3, 1));
    let mut state = settled(30, 122, (1, 1), false);
    assert_eq!(state.update_eye_after_round(), Some(2));
    assert_eq!(state.team_eye, tally_of(1, 2));
    let mut state = settled(0, 152, (0, 0), true);
    assert_eq!(state.update_eye_after_round(), Some(2));
    assert_eq!(state.team_eye, tally_of(0, 3));
}

#[test]
fn level_points_go_to_team_two_unless_sixty_each() {
    let mut state = settled(76, 76, (2, 2), false);
    assert_eq!(state.update_eye_after_round(), Some(2));
    assert_eq!(state.team_eye, tally_of(2, 3));
    let mut state = settled(60, 60, (2, 2), true);
    assert_eq!(state.update_eye_after_round(), None);
    assert_eq!(state.team_eye, tally_of(2, 2));
    assert!(state.is_first_round);
}

#[test]
fn eyes_never_fall() {
    for (one, two) in [(100u32, 52u32), (52, 100), (76, 76), (60, 60), (152, 0), (0, 152)] {
        for first in [true, false] {
            let mut state = settled(one, two, (7, 9), first);
            let _ = state.update_eye_after_round();
            assert!(tally(&state.team_eye, 1) >= 7);
            assert!(tally(&state.team_eye, 2) >= 9);
        }
    }
}

#[test]
fn tally_reads_missing_teams_as_zero() {
    let counts: HashMap<u8, u32> = HashMap::from([(1u8, 5u32)]);
    assert_eq!(tally(&counts, 1), 5);
    assert_eq!(tally(&counts, 2), 0);
    assert_eq!(tally(&HashMap::new(), 1), 0);
}

#[test]
fn update_hands_deals_anew_and_keeps_the_rest() {
    let mut state = settled(100, 52, (3, 4), false);
    state.current_turn = PlayerPosition::West;
    state.update_hands();
    assert_eq!(cards_in_hands(&state), 32);
    assert_eq!(state.hands.north.len(), 8);
    assert_eq!(state.hands.east.len(), 8);
    assert_eq!(state.hands.south.len(), 8);
    assert_eq!(state.hands.west.len(), 8);
    assert_eq!(state.team_scores, tally_of(100, 52));
    assert_eq!(state.team_eye, tally_of(3, 4));
    assert_eq!(state.current_turn, PlayerPosition::West);
    assert_eq!(state.trump, Suit::Clubs);
    assert!(!state.is_first_round);
    assert!(state.current_trick.is_empty());
}

#[test]
fn finish_round_awards_resets_and_deals() {
    let mut state = settled(100, 52, (11, 8), false);
    state.current_turn = PlayerPosition::East;
    let summary = state.finish_round();
    assert_eq!(summary.winner_team, Some(1));
    assert_eq!(summary.team_a, 12);
    assert_eq!(summary.team_b, 8);
    assert_eq!(summary.scores, tally_of(100, 52));
    assert!(summary.match_over);
    assert_eq!(summary.trump, state.trump);
    assert_eq!(state.team_eye, tally_of(12, 8));
    assert_eq!(state.team_scores, tally_of(0, 0));
    assert_eq!(state.current_turn, PlayerPosition::East);
    assert_eq!(cards_in_hands(&state), 32);
    assert!(state.is_match_over());
    assert_eq!(EYES_TO_WIN, 12);
}

#[test]
fn finish_round_below_twelve_goes_on() {
    let mut state = settled(52, 100, (10, 10), false);
    let summary = state.finish_round();
    assert_eq!(summary.winner_team, Some(2));
    assert_eq!((summary.team_a, summary.team_b), (10, 11));
    assert!(!summary.match_over);
    assert!(!state.is_match_over());
}

fn play_any(state: &mut GameState) -> (PlayerPosition, Card) {
    let seat = state.current_turn;
    let hand = state.hands.get(seat).clone();
    let mut refused = 0;
    for c in hand {
        match state.play_card(seat, c) {
            Ok(()) => return (seat, c),
            Err(PlayError::MustFollowSuit) => refused += 1,
            Err(other) => panic!("unexpected refusal {:?}", other),
        }
    }
    panic!("no card of {:?} was accepted ({} refused)", seat, refused);
}

#[test]
fn a_whole_round_conserves_cards_and_points() {
    for trump in [Suit::Clubs, Suit::Diamonds, Suit::Hearts, Suit::Spades] {
        let mut state = GameState::new(trump);
        let mut completed = 0usize;
        for _ in 0..8 {
            let lead = state.current_turn;
            for k in 0..4 {
                let held_lead_suit = if k > 0 {
                    let suit = state.current_trick[0].1.suit;
                    state.hands.get(state.current_turn).iter().any(|c| c.suit == suit)
                } else {
                    false
                };
                let (seat, played) = play_any(&mut state);
                if held_lead_suit {
                    assert_eq!(played.suit, state.current_trick[0].1.suit);
                }
                assert_eq!(state.current_trick.last(), Some(&(seat, played)));
                assert_eq!(cards_in_hands(&state) + state.current_trick.len() + 4 * completed, 32);
                let mut expected = lead;
                for (who, _) in &state.current_trick {
                    assert_eq!(*who, expected);
                    expected = expected.next();
                }
                if k < 3 {
                    assert_eq!(state.resolve_trick(), None);
                }
            }
            let before = tally(&state.team_scores, 1) + tally(&state.team_scores, 2);
            let points: u32 = state.current_trick.iter().map(|(_, c)| c.points(trump) as u32).sum();
            let winner = state.resolve_trick().expect("a full trick has a winner");
            completed += 1;
            assert_eq!(state.current_turn, winner);
            assert_eq!(
                tally(&state.team_scores, 1) + tally(&state.team_scores, 2),
                before + points
            );
            assert_eq!(cards_in_hands(&state) + state.current_trick.len() + 4 * completed, 32);
        }
        assert!(state.round_is_over());
        assert_eq!(tally(&state.team_scores, 1) + tally(&state.team_scores, 2), 152);
        assert_eq!(state.team_eye, tally_of(0, 0));
    }
}
