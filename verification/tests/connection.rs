use std::collections::HashMap;

use squirrel::cards::{Card, Rank, Suit};
use squirrel::connection::{
    frame_of, parse_card, parse_rank, parse_suit, rank_from_token, suit_from_token, Connection,
    Frame, Reaction, KEEPALIVE,
};
use squirrel::game::{tally, GameState};
use squirrel::manager::GameManager;
use squirrel::messages::{
    Auth, Outbound, SubManageMsg, SubOrUnsub, WSCardPlayed, WSEvent, WSGameOver, WSIncomingMessage,
    WSTrickWon, WSYourHand, WSYourTurn,
};
use squirrel::position::{PerSeat, PlayerPosition};
use squirrel::room::GameRoom;
use squirrel::session::PlayerSession;

const SEATS: [PlayerPosition; 4] = [
    PlayerPosition::North,
    PlayerPosition::East,
    PlayerPosition::South,
    PlayerPosition::West,
];

fn card(suit: Suit, rank: Rank) -> Card {
    Card { suit, rank }
}

fn error_to(sender: u64, detail: &str) -> Outbound {
    Outbound { sender, event: WSEvent::Error { detail: detail.to_string() } }
}

fn authed(sender: u64, uid: &str, manager: &mut GameManager) -> Connection {
    let mut conn = Connection::new(sender);
    let reaction =
        conn.handle_frame(manager, Frame::Auth { subject: Some(uid.to_string()) }, 0);
    assert!(!reaction.close);
    conn
}

fn play(rank: &str, suit: &str) -> Frame {
    Frame::PlayCard { rank: Some(rank.to_string()), suit: Some(suit.to_string()) }
}

fn is_quiet(reaction: &Reaction) -> bool {
    reaction.outbound.is_empty()
        && reaction.pong.is_none()
        && !reaction.close
        && reaction.finished.is_none()
}

/// A manager with one room: a, b, c, d on channels 1 to 4, each holding the
/// cards given, trump Clubs, North to lead.
fn table(hands: [Vec<Card>; 4]) -> GameManager {
    let held: u32 = hands.iter().flatten().map(|c| c.points(Suit::Clubs) as u32).sum();
    let [north, east, south, west] = hands;
    let mut manager = GameManager::new();
    manager.active_rooms.push(GameRoom {
        id: "room".to_string(),
        players: PerSeat {
            north: PlayerSession::new("a".to_string(), 1, 0),
            east: PlayerSession::new("b".to_string(), 2, 0),
            south: PlayerSession::new("c".to_string(), 3, 0),
            west: PlayerSession::new("d".to_string(), 4, 0),
        },
        state: GameState {
            hands: PerSeat { north, east, south, west },
            trump: Suit::Clubs,
            current_trick: Vec::new(),
            // what is not in the hands has been taken by team 1
            team_scores: HashMap::from([(1u8, 152 - held), (2u8, 0u32)]),
            team_eye: HashMap::from([(1u8, 0u32), (2u8, 0u32)]),
            current_turn: PlayerPosition::North,
            is_first_round: true,
        },
    });
    assert!(manager.is_wf());
    manager
}

fn to_all(event: WSEvent) -> Vec<Outbound> {
    (1..=4u64).map(|sender| Outbound { sender, event: event.clone() }).collect()
}

#[test]
fn tokens_name_ranks_and_suits() {
    let ranks = [
        ("7", Rank::Seven),
        ("8", Rank::Eight),
        ("9", Rank::Nine),
        ("10", Rank::Ten),
        ("j", Rank::Jack),
        ("q", Rank::Queen),
        ("k", Rank::King),
        ("a", Rank::Ace),
    ];
    for (token, rank) in ranks {
        assert_eq!(rank_from_token(token), Some(rank));
    }
    for token in ["", "1", "J", "11", "jack", " 7", "7 "] {
        assert_eq!(rank_from_token(token), None);
    }
    let suits =
        [("c", Suit::Clubs), ("d", Suit::Diamonds), ("h", Suit::Hearts), ("s", Suit::Spades)];
    for (token, suit) in suits {
        assert_eq!(suit_from_token(token), Some(suit));
    }
    for token in ["", "C", "clubs", "x"] {
        assert_eq!(suit_from_token(token), None);
    }
}

#[test]
fn ranks_and_suits_are_read_in_any_case() {
    assert_eq!(parse_rank("J"), Some(Rank::Jack));
    assert_eq!(parse_rank("j"), Some(Rank::Jack));
    assert_eq!(parse_rank("Q"), Some(Rank::Queen));
    assert_eq!(parse_rank("K"), Some(Rank::King));
    assert_eq!(parse_rank("A"), Some(Rank::Ace));
    assert_eq!(parse_rank("10"), Some(Rank::Ten));
    assert_eq!(parse_rank("B"), None);
    assert_eq!(parse_suit("H"), Some(Suit::Hearts));
    assert_eq!(parse_suit("s"), Some(Suit::Spades));
    assert_eq!(parse_suit("Z"), None);
}

#[test]
fn a_card_is_read_from_two_texts() {
    let some = |t: &str| Some(t.to_string());
    assert_eq!(parse_card(&some("A"), &some("h")), Ok(card(Suit::Hearts, Rank::Ace)));
    assert_eq!(parse_card(&some("7"), &some("C")), Ok(card(Suit::Clubs, Rank::Seven)));
    assert_eq!(parse_card(&some("x"), &some("h")), Err("Invalid rank".to_string()));
    assert_eq!(parse_card(&None, &some("h")), Err("Invalid rank".to_string()));
    assert_eq!(parse_card(&some("x"), &some("x")), Err("Invalid rank".to_string()));
    assert_eq!(parse_card(&some("a"), &some("x")), Err("Invalid suit".to_string()));
    assert_eq!(parse_card(&some("a"), &None), Err("Invalid suit".to_string()));
}

#[test]
fn messages_become_frames() {
    let blank = || SubManageMsg { rank: None, suit: None, room_id: None };
    let frame = frame_of(
        WSIncomingMessage::Auth(Auth { token: "t".to_string() }),
        Some("ann".to_string()),
    );
    assert!(matches!(frame, Frame::Auth { subject: Some(ref s) } if s == "ann"));
    let frame = frame_of(WSIncomingMessage::Auth(Auth { token: "t".to_string() }), None);
    assert!(matches!(frame, Frame::Auth { subject: None }));
    let frame = frame_of(WSIncomingMessage::Manage(SubOrUnsub::FindGame(blank())), None);
    assert!(matches!(frame, Frame::FindGame));
    let frame = frame_of(
        WSIncomingMessage::Manage(SubOrUnsub::PlayCard(SubManageMsg {
            rank: Some("j".to_string()),
            suit: None,
            room_id: None,
        })),
        None,
    );
    assert!(matches!(frame, Frame::PlayCard { rank: Some(ref r), suit: None } if r == "j"));
    assert!(matches!(
        frame_of(WSIncomingMessage::Manage(SubOrUnsub::Sub(blank())), None),
        Frame::Reserved
    ));
    assert!(matches!(
        frame_of(WSIncomingMessage::Manage(SubOrUnsub::UnSub(blank())), None),
        Frame::Reserved
    ));
}

#[test]
fn a_valid_token_logs_in() {
    let mut manager = GameManager::new();
    let mut conn = Connection::new(5);
    assert!(!conn.is_authed());
    let reaction =
        conn.handle_frame(&mut manager, Frame::Auth { subject: Some("ann".to_string()) }, 0);
    assert!(conn.is_authed());
    assert_eq!(conn.client_uid, Some("ann".to_string()));
    assert_eq!(
        reaction.outbound,
        vec![Outbound { sender: 5, event: WSEvent::SuccessLogin { username: "ann".to_string() } }]
    );
    assert!(!reaction.close);
    assert!(reaction.pong.is_none());
    assert!(manager.waiting_queue.is_empty());
    assert!(manager.active_rooms.is_empty());
}

#[test]
fn an_invalid_token_closes_the_connection() {
    let mut manager = GameManager::new();
    let mut conn = Connection::new(5);
    let reaction = conn.handle_frame(&mut manager, Frame::Auth { subject: None }, 0);
    assert!(!conn.is_authed());
    assert_eq!(reaction.outbound, vec![error_to(5, "Invalid token")]);
    assert!(reaction.close);
}

#[test]
fn intents_before_login_are_unauthorized() {
    let mut manager = table([vec![], vec![], vec![], vec![]]);
    let mut conn = Connection::new(5);
    let reaction = conn.handle_frame(&mut manager, Frame::FindGame, 0);
    assert_eq!(reaction.outbound, vec![error_to(5, "Unauthorized")]);
    assert!(!reaction.close);
    let reaction = conn.handle_frame(&mut manager, play("a", "h"), 0);
    assert_eq!(reaction.outbound, vec![error_to(5, "Unauthorized")]);
    assert!(manager.waiting_queue.is_empty());
    assert!(!conn.is_authed());
}

#[test]
fn frames_without_effect_are_passed_over() {
    let mut manager = GameManager::new();
    let mut conn = authed(5, "ann", &mut manager);
    for frame in [Frame::Reserved, Frame::Malformed, Frame::Other, Frame::Binary(vec![1, 2])] {
        let reaction = conn.handle_frame(&mut manager, frame, 10);
        assert!(is_quiet(&reaction));
    }
    let mut fresh = Connection::new(6);
    let reaction = fresh.handle_frame(&mut manager, Frame::Binary(vec![KEEPALIVE]), 10);
    assert!(is_quiet(&reaction));
    assert!(manager.waiting_queue.is_empty());
}

#[test]
fn find_game_joins_the_queue() {
    let mut manager = GameManager::new();
    let mut conn = authed(5, "ann", &mut manager);
    let reaction = conn.handle_frame(&mut manager, Frame::FindGame, 42);
    assert!(is_quiet(&reaction));
    assert_eq!(manager.waiting_queue.len(), 1);
    assert_eq!(manager.waiting_queue[0].id, "ann");
    assert_eq!(manager.waiting_queue[0].sender, 5);
    assert_eq!(manager.waiting_queue[0].last_ping, 42);
    assert!(manager.waiting_queue[0].is_connected());
    let reaction = conn.handle_frame(&mut manager, Frame::FindGame, 43);
    assert_eq!(reaction.outbound, vec![error_to(5, "Already in queue")]);
    assert_eq!(manager.waiting_queue.len(), 1);
}

#[test]
fn the_fourth_player_starts_the_game() {
    let mut manager = GameManager::new();
    let names = ["a", "b", "c", "d"];
    let mut last = Vec::new();
    for (i, name) in names.iter().enumerate() {
        let mut conn = authed(1 + i as u64, name, &mut manager);
        last = conn.handle_frame(&mut manager, Frame::FindGame, 0).outbound;
    }
    assert_eq!(manager.active_rooms.len(), 1);
    let room = &manager.active_rooms[0];
    let mut expect = Vec::new();
    for (i, seat) in SEATS.iter().enumerate() {
        expect.push(Outbound {
            sender: 1 + i as u64,
            event: WSEvent::GameStart { room_id: room.id.clone(), position: *seat },
        });
    }
    for (i, seat) in SEATS.iter().enumerate() {
        expect.push(Outbound {
            sender: 1 + i as u64,
            event: WSEvent::YourHand(WSYourHand { cards: room.state.hands.get(*seat).clone() }),
        });
        if i == 0 {
            expect.push(Outbound { sender: 1, event: WSEvent::YourTurn(WSYourTurn) });
        }
    }
    assert_eq!(last, expect);
    // A seated player who asks again is refused and told the hands once more.
    let mut again = authed(9, "b", &mut manager);
    assert_eq!(manager.active_rooms[0].players.east.sender, 9);
    let reaction = again.handle_frame(&mut manager, Frame::FindGame, 0);
    assert_eq!(reaction.outbound[0], error_to(9, "Already in game"));
    assert_eq!(reaction.outbound.len(), 6);
    assert_eq!(
        reaction.outbound[3],
        Outbound {
            sender: 9,
            event: WSEvent::YourHand(WSYourHand {
                cards: manager.active_rooms[0].state.hands.east.clone()
            }),
        }
    );
}

#[test]
fn reconnecting_keeps_seat_and_hand() {
    let mut manager = GameManager::new();
    for (i, name) in ["a", "b", "c", "d"].iter().enumerate() {
        let mut conn = authed(1 + i as u64, name, &mut manager);
        conn.handle_frame(&mut manager, Frame::FindGame, 0);
    }
    let hand = manager.active_rooms[0].state.hands.north.clone();
    let mut first = authed(1, "a", &mut manager);
    let reaction = first.handle_frame(&mut manager, Frame::Close, 5);
    assert!(reaction.close);
    assert!(!manager.active_rooms[0].players.north.is_connected());

    let mut second = Connection::new(77);
    let reaction =
        second.handle_frame(&mut manager, Frame::Auth { subject: Some("a".to_string()) }, 6);
    assert_eq!(
        reaction.outbound,
        vec![Outbound { sender: 77, event: WSEvent::SuccessLogin { username: "a".to_string() } }]
    );
    let mut third = Connection::new(78);
    third.handle_frame(&mut manager, Frame::Auth { subject: Some("a".to_string()) }, 7);

    assert_eq!(manager.active_rooms.len(), 1);
    assert!(manager.waiting_queue.is_empty());
    let room = &manager.active_rooms[0];
    let sessions: Vec<&PlayerSession> =
        SEATS.iter().map(|s| room.players.get(*s)).filter(|s| s.id == "a").collect();
    assert_eq!(sessions.len(), 1);
    assert_eq!(room.seat_of(&"a".to_string()), Some(PlayerPosition::North));
    assert!(room.players.north.is_connected());
    assert_eq!(room.players.north.sender, 78);
    assert_eq!(room.state.hands.north, hand);
    assert_eq!(room.players.east.sender, 2);

    let reaction = third.handle_frame(&mut manager, Frame::FindGame, 8);
    assert!(reaction.outbound.contains(&Outbound {
        sender: 78,
        event: WSEvent::YourHand(WSYourHand { cards: hand.clone() }),
    }));
}

#[test]
fn signs_of_life_touch_the_session() {
    let mut manager = table([vec![], vec![], vec![], vec![]]);
    let mut conn = authed(2, "b", &mut manager);
    let reaction = conn.handle_frame(&mut manager, Frame::Binary(vec![KEEPALIVE]), 500);
    assert!(is_quiet(&reaction));
    assert_eq!(manager.active_rooms[0].players.east.last_ping, 500);
    let reaction = conn.handle_frame(&mut manager, Frame::Binary(vec![KEEPALIVE, 0]), 600);
    assert!(is_quiet(&reaction));
    assert_eq!(manager.active_rooms[0].players.east.last_ping, 500);
    let reaction = conn.handle_frame(&mut manager, Frame::Ping(vec![1, 2, 3]), 700);
    assert_eq!(reaction.pong, Some(vec![1, 2, 3]));
    assert!(reaction.outbound.is_empty());
    assert!(!reaction.close);
    assert_eq!(manager.active_rooms[0].players.east.last_ping, 700);
    assert_eq!(manager.active_rooms[0].players.north.last_ping, 0);
    conn.sign_of_life(&mut manager, 800);
    assert_eq!(manager.active_rooms[0].players.east.last_ping, 800);

    let mut stranger = Connection::new(9);
    let reaction = stranger.handle_frame(&mut manager, Frame::Ping(vec![]), 900);
    assert_eq!(reaction.pong, Some(vec![]));
    assert_eq!(manager.active_rooms[0].players.east.last_ping, 800);
}

#[test]
fn a_close_marks_the_player_as_gone() {
    let mut manager = table([vec![], vec![], vec![], vec![]]);
    let mut conn = authed(3, "c", &mut manager);
    let reaction = conn.handle_frame(&mut manager, Frame::Close, 0);
    assert!(reaction.close);
    assert!(reaction.outbound.is_empty());
    assert!(!manager.active_rooms[0].players.south.is_connected());
    assert!(manager.active_rooms[0].players.north.is_connected());
    let mut stranger = Connection::new(9);
    assert!(stranger.handle_frame(&mut manager, Frame::Close, 0).close);
    assert!(manager.active_rooms[0].players.north.is_connected());

    // A connection that the player has left for a newer one closes quietly.
    let mut old = authed(1, "a", &mut manager);
    let _newer = authed(8, "a", &mut manager);
    assert!(old.handle_frame(&mut manager, Frame::Close, 0).close);
    assert!(manager.active_rooms[0].players.north.is_connected());
    assert_eq!(manager.active_rooms[0].players.north.sender, 8);
}

#[test]
fn a_card_is_announced_and_the_turn_passed() {
    let mut manager = table([
        vec![card(Suit::Hearts, Rank::Ace), card(Suit::Spades, Rank::Seven)],
        vec![card(Suit::Hearts, Rank::Seven), card(Suit::Clubs, Rank::Ace)],
        vec![card(Suit::Clubs, Rank::Seven), card(Suit::Spades, Rank::Eight)],
        vec![card(Suit::Hearts, Rank::King), card(Suit::Spades, Rank::Nine)],
    ]);
    let mut north = authed(1, "a", &mut manager);
    let reaction = north.handle_frame(&mut manager, play("A", "H"), 0);
    let mut expect = to_all(WSEvent::CardPlayed(WSCardPlayed {
        position: PlayerPosition::North,
        card: card(Suit::Hearts, Rank::Ace),
    }));
    expect.push(Outbound { sender: 2, event: WSEvent::YourTurn(WSYourTurn) });
    assert_eq!(reaction.outbound, expect);
    assert!(reaction.finished.is_none());

    // East must follow suit; the refusal goes to East alone and changes nothing.
    let mut east = authed(2, "b", &mut manager);
    let before = format!("{:?}", manager.active_rooms[0].state.hands);
    let reaction = east.handle_frame(&mut manager, play("a", "c"), 0);
    assert_eq!(reaction.outbound, vec![error_to(2, "Must follow suit")]);
    assert_eq!(format!("{:?}", manager.active_rooms[0].state.hands), before);
    assert_eq!(manager.active_rooms[0].state.current_trick.len(), 1);

    // North is not on turn any more.
    let reaction = north.handle_frame(&mut manager, play("7", "s"), 0);
    assert_eq!(reaction.outbound, vec![error_to(1, "Not your turn")]);
    let reaction = east.handle_frame(&mut manager, play("k", "h"), 0);
    assert_eq!(reaction.outbound, vec![error_to(2, "Card not in hand")]);
    let reaction = east.handle_frame(&mut manager, play("1", "h"), 0);
    assert_eq!(reaction.outbound, vec![error_to(2, "Invalid rank")]);
    let reaction = east.handle_frame(&mut manager, play("7", "hearts"), 0);
    assert_eq!(reaction.outbound, vec![error_to(2, "Invalid suit")]);
    let reaction = east.handle_frame(
        &mut manager,
        Frame::PlayCard { rank: None, suit: Some("h".to_string()) },
        0,
    );
    assert_eq!(reaction.outbound, vec![error_to(2, "Invalid rank")]);
}

#[test]
fn a_full_trick_is_settled_and_its_winner_leads() {
    let mut manager = table([
        vec![card(Suit::Hearts, Rank::Ace), card(Suit::Spades, Rank::Seven)],
        vec![card(Suit::Hearts, Rank::Seven), card(Suit::Clubs, Rank::Ace)],
        vec![card(Suit::Clubs, Rank::Seven), card(Suit::Spades, Rank::Eight)],
        vec![card(Suit::Hearts, Rank::King), card(Suit::Spades, Rank::Nine)],
    ]);
    let moves = [("a", 1u64, "a", "h"), ("b", 2, "7", "h"), ("c", 3, "7", "c")];
    for (uid, sender, rank, suit) in moves {
        let mut conn = authed(sender, uid, &mut manager);
        conn.handle_frame(&mut manager, play(rank, suit), 0);
    }
    let mut west = authed(4, "d", &mut manager);
    let reaction = west.handle_frame(&mut manager, play("K", "h"), 0);
    let mut expect = to_all(WSEvent::CardPlayed(WSCardPlayed {
        position: PlayerPosition::West,
        card: card(Suit::Hearts, Rank::King),
    }));
    expect.extend(to_all(WSEvent::TrickWon(WSTrickWon { position: PlayerPosition::South })));
    expect.push(Outbound { sender: 3, event: WSEvent::YourTurn(WSYourTurn) });
    assert_eq!(reaction.outbound, expect);
    let state = &manager.active_rooms[0].state;
    assert!(state.current_trick.is_empty());
    assert_eq!(state.current_turn, PlayerPosition::South);
    assert_eq!(tally(&state.team_scores, 1), 126 + 15);
    assert_eq!(tally(&state.team_scores, 2), 0);
    assert!(manager.is_wf());
}

#[test]
fn the_last_trick_closes_the_round_and_the_match() {
    let mut manager = table([
        vec![card(Suit::Hearts, Rank::Ace)],
        vec![card(Suit::Hearts, Rank::Seven)],
        vec![card(Suit::Clubs, Rank::Seven)],
        vec![card(Suit::Hearts, Rank::King)],
    ]);
    {
        let state = &mut manager.active_rooms[0].state;
        state.team_scores = HashMap::from([(1u8, 100u32), (2u8, 37u32)]);
        state.team_eye = HashMap::from([(1u8, 11u32), (2u8, 8u32)]);
        state.is_first_round = false;
    }
    assert!(manager.is_wf());
    let moves = [("a", 1u64, "a", "h"), ("b", 2, "7", "h"), ("c", 3, "7", "c")];
    for (uid, sender, rank, suit) in moves {
        let mut conn = authed(sender, uid, &mut manager);
        let reaction = conn.handle_frame(&mut manager, play(rank, suit), 0);
        assert!(reaction.finished.is_none());
    }
    let mut west = authed(4, "d", &mut manager);
    let reaction = west.handle_frame(&mut manager, play("k", "h"), 0);

    // The match is over: the room has left the registry and is handed back.
    assert!(manager.active_rooms.is_empty());
    let room = reaction.finished.expect("the finished room");
    assert_eq!(room.id, "room");
    assert_eq!(tally(&room.state.team_eye, 1), 12);
    assert_eq!(tally(&room.state.team_eye, 2), 8);
    assert!(room.state.is_match_over());
    assert_eq!(room.state.team_scores, HashMap::from([(1u8, 0u32), (2u8, 0u32)]));
    assert_eq!(room.state.current_turn, PlayerPosition::South);

    let mut expect = to_all(WSEvent::CardPlayed(WSCardPlayed {
        position: PlayerPosition::West,
        card: card(Suit::Hearts, Rank::King),
    }));
    expect.extend(to_all(WSEvent::TrickWon(WSTrickWon { position: PlayerPosition::South })));
    expect.extend(to_all(WSEvent::EyeUpdated { team_a: 12, team_b: 8 }));
    expect.extend(to_all(WSEvent::TrumpUpdated { trump: room.state.trump }));
    for (i, seat) in SEATS.iter().enumerate() {
        expect.push(Outbound {
            sender: 1 + i as u64,
            event: WSEvent::YourHand(WSYourHand { cards: room.state.hands.get(*seat).clone() }),
        });
        if *seat == PlayerPosition::South {
            expect.push(Outbound { sender: 3, event: WSEvent::YourTurn(WSYourTurn) });
        }
    }
    expect.extend(to_all(WSEvent::GameOver(WSGameOver {
        scores: HashMap::from([(1u8, 115u32), (2u8, 37u32)]),
    })));
    assert_eq!(reaction.outbound, expect);
    for seat in SEATS {
        assert_eq!(room.state.hands.get(seat).len(), 8);
    }
    // The players are free to look for a new table.
    assert!(west.handle_frame(&mut manager, Frame::FindGame, 0).outbound.is_empty());
}

#[test]
fn a_round_that_ends_without_a_winner_of_the_match_goes_on() {
    let mut manager = table([
        vec![card(Suit::Hearts, Rank::Ace)],
        vec![card(Suit::Hearts, Rank::Seven)],
        vec![card(Suit::Clubs, Rank::Seven)],
        vec![card(Suit::Hearts, Rank::King)],
    ]);
    manager.active_rooms[0].state.team_scores = HashMap::from([(1u8, 20u32), (2u8, 117u32)]);
    assert!(manager.is_wf());
    let moves =
        [("a", 1u64, "a", "h"), ("b", 2, "7", "h"), ("c", 3, "7", "c"), ("d", 4, "k", "h")];
    let mut last = Vec::new();
    for (uid, sender, rank, suit) in moves {
        let mut conn = authed(sender, uid, &mut manager);
        let reaction = conn.handle_frame(&mut manager, play(rank, suit), 0);
        assert!(reaction.finished.is_none());
        last = reaction.outbound;
    }
    assert_eq!(manager.active_rooms.len(), 1);
    let state = &manager.active_rooms[0].state;
    // Team 2 wins 117 to 35 in the first round: two eyes.
    assert_eq!(tally(&state.team_eye, 1), 0);
    assert_eq!(tally(&state.team_eye, 2), 2);
    assert!(!state.is_first_round);
    assert_eq!(tally(&state.team_scores, 1), 0);
    assert_eq!(tally(&state.team_scores, 2), 0);
    assert_eq!(last.len(), 4 * 5 + 1);
    assert_eq!(last[8], Outbound { sender: 1, event: WSEvent::EyeUpdated { team_a: 0, team_b: 2 } });
    assert!(!last.iter().any(|o| matches!(o.event, WSEvent::GameOver(_))));
}

#[test]
fn a_player_without_a_seat_plays_nothing() {
    let mut manager = table([vec![card(Suit::Hearts, Rank::Ace)], vec![], vec![], vec![]]);
    let mut conn = authed(9, "zed", &mut manager);
    let reaction = conn.handle_frame(&mut manager, play("a", "h"), 0);
    assert!(is_quiet(&reaction));
    assert_eq!(manager.active_rooms[0].state.hands.north.len(), 1);
}

#[test]
fn events_can_be_duplicated() {
    let events = vec![
        WSEvent::PlayerDisconnected { position: PlayerPosition::West },
        WSEvent::SuccessLogin { username: "ann".to_string() },
        WSEvent::GameStart { room_id: "r".to_string(), position: PlayerPosition::East },
        WSEvent::GameClose { reason: "Timeout".to_string() },
        WSEvent::YourHand(WSYourHand { cards: vec![card(Suit::Hearts, Rank::Ace)] }),
        WSEvent::EyeUpdated { team_a: 1, team_b: 2 },
        WSEvent::TrumpUpdated { trump: Suit::Spades },
        WSEvent::YourTurn(WSYourTurn),
        WSEvent::CardPlayed(WSCardPlayed {
            position: PlayerPosition::North,
            card: card(Suit::Clubs, Rank::Jack),
        }),
        WSEvent::TrickWon(WSTrickWon { position: PlayerPosition::South }),
        WSEvent::GameOver(WSGameOver { scores: HashMap::from([(1u8, 90u32), (2u8, 62u32)]) }),
        WSEvent::Error { detail: "x".to_string() },
    ];
    for event in events {
        assert_eq!(event.duplicate(), event);
    }
}
