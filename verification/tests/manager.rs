use squirrel::cards::Suit;
use squirrel::game::GameState;
use squirrel::manager::{GameManager, JoinError, Place};
use squirrel::messages::{Outbound, WSEvent};
use squirrel::position::{PerSeat, PlayerPosition};
use squirrel::room::GameRoom;
use squirrel::session::{PlayerSession, SessionChange, STALE_AFTER_MS};

const SEATS: [PlayerPosition; 4] = [
    PlayerPosition::North,
    PlayerPosition::East,
    PlayerPosition::South,
    PlayerPosition::West,
];

fn session(id: &str, sender: u64) -> PlayerSession {
    PlayerSession::new(id.to_string(), sender, 0)
}

fn room_of(id: &str, names: [&str; 4], first_sender: u64) -> GameRoom {
    GameRoom {
        id: id.to_string(),
        players: PerSeat {
            north: session(names[0], first_sender),
            east: session(names[1], first_sender + 1),
            south: session(names[2], first_sender + 2),
            west: session(names[3], first_sender + 3),
        },
        state: GameState::new(Suit::Hearts),
    }
}

fn seated_manager() -> GameManager {
    let mut manager = GameManager::new();
    for (i, name) in ["a", "b", "c", "d"].iter().enumerate() {
        manager.join(session(name, 10 + i as u64)).expect("admitted");
    }
    manager
}

#[test]
fn a_session_starts_connected() {
    let s = PlayerSession::new("ann".to_string(), 7, 1234);
    assert_eq!(s.id, "ann");
    assert_eq!(s.sender, 7);
    assert!(s.is_connected());
    assert_eq!(s.last_ping, 1234);
}

#[test]
fn a_session_is_marked_touched_and_rebound() {
    let mut s = session("ann", 7);
    s.mark_as_disconnected();
    assert!(!s.is_connected());
    s.mark_as_connected();
    assert!(s.is_connected());
    s.touch(99);
    assert_eq!(s.last_ping, 99);
    s.mark_as_disconnected();
    s.rebind(8);
    assert_eq!(s.sender, 8);
    assert!(s.is_connected());
    assert_eq!(s.id, "ann");
    assert_eq!(s.last_ping, 99);
    s.apply(SessionChange::Touch { now: 100 });
    assert_eq!(s.last_ping, 100);
    s.apply(SessionChange::Disconnect);
    assert!(!s.is_connected());
    s.apply(SessionChange::Rebind { sender: 9 });
    assert_eq!(s.sender, 9);
    assert!(s.is_connected());
    assert!(s.is_player(&"ann".to_string()));
    assert!(!s.is_player(&"bob".to_string()));
}

#[test]
fn staleness_begins_after_fifteen_seconds() {
    let s = PlayerSession::new("ann".to_string(), 7, 1000);
    assert_eq!(STALE_AFTER_MS, 15000);
    assert!(!s.is_stale(1000));
    assert!(!s.is_stale(16000));
    assert!(s.is_stale(16001));
    assert!(!s.is_stale(0));
    assert!(s.is_stale(u64::MAX));
}

#[test]
fn a_new_manager_is_empty() {
    let manager = GameManager::new();
    assert!(manager.waiting_queue.is_empty());
    assert!(manager.active_rooms.is_empty());
    assert_eq!(manager.find_player_by_uid("a"), None);
    assert!(!manager.is_already_playing("a"));
}

#[test]
fn four_joins_form_a_room() {
    let mut manager = GameManager::new();
    for (i, name) in ["a", "b", "c"].iter().enumerate() {
        let sent = manager.join(session(name, 10 + i as u64)).expect("admitted");
        assert!(sent.is_empty());
        assert_eq!(manager.waiting_queue.len(), i + 1);
        assert!(manager.active_rooms.is_empty());
    }
    let sent = manager.join(session("d", 13)).expect("admitted");
    assert!(manager.waiting_queue.is_empty());
    assert_eq!(manager.active_rooms.len(), 1);
    let room = &manager.active_rooms[0];
    assert_eq!(room.players.north.id, "a");
    assert_eq!(room.players.east.id, "b");
    assert_eq!(room.players.south.id, "c");
    assert_eq!(room.players.west.id, "d");
    assert!(!room.id.is_empty());
    assert_eq!(sent.len(), 4);
    for (i, seat) in SEATS.iter().enumerate() {
        assert_eq!(
            sent[i],
            Outbound {
                sender: 10 + i as u64,
                event: WSEvent::GameStart { room_id: room.id.clone(), position: *seat },
            }
        );
    }
    let state = &room.state;
    assert_eq!(state.current_turn, PlayerPosition::North);
    assert!(state.is_first_round);
    assert!(state.current_trick.is_empty());
    for seat in SEATS {
        assert_eq!(state.hands.get(seat).len(), 8);
    }
}

#[test]
fn a_waiting_player_is_not_admitted_twice() {
    let mut manager = GameManager::new();
    manager.join(session("a", 1)).expect("admitted");
    manager.join(session("b", 2)).expect("admitted");
    assert_eq!(manager.join(session("a", 3)), Err(JoinError::AlreadyInQueue));
    assert_eq!(manager.waiting_queue.len(), 2);
    assert_eq!(manager.waiting_queue[0].sender, 1);
    assert_eq!(manager.waiting_queue[1].id, "b");
    assert!(manager.active_rooms.is_empty());
}

#[test]
fn a_seated_player_is_not_admitted() {
    let mut manager = seated_manager();
    assert_eq!(manager.join(session("c", 30)), Err(JoinError::AlreadyInGame));
    assert!(manager.waiting_queue.is_empty());
    assert_eq!(manager.active_rooms.len(), 1);
    assert_eq!(manager.active_rooms[0].players.south.sender, 12);
}

#[test]
fn join_refusals_have_their_texts() {
    assert_eq!(JoinError::AlreadyInQueue.detail(), "Already in queue");
    assert_eq!(JoinError::AlreadyInGame.detail(), "Already in game");
}

#[test]
fn the_queue_never_holds_four_or_a_player_twice() {
    let mut manager = GameManager::new();
    let names = ["a", "b", "c", "a", "d", "e", "b", "f", "g", "h", "e", "i"];
    for (i, name) in names.iter().enumerate() {
        let _ = manager.join(session(name, i as u64));
        assert!(manager.waiting_queue.len() < 4);
        let ids: Vec<&String> = manager.waiting_queue.iter().map(|s| &s.id).collect();
        for (k, id) in ids.iter().enumerate() {
            assert!(!ids[..k].contains(id));
            assert!(manager.active_rooms.iter().all(|r| r.seat_of(*id).is_none()));
        }
    }
    assert_eq!(manager.active_rooms.len(), 2);
    assert_eq!(manager.waiting_queue.len(), 1);
    assert_eq!(manager.waiting_queue[0].id, "i");
    assert_eq!(manager.active_rooms[1].players.north.id, "e");
    assert_eq!(manager.active_rooms[1].players.west.id, "h");
}

#[test]
fn try_start_game_seats_every_four() {
    let mut manager = GameManager::new();
    for i in 0..9u64 {
        manager.waiting_queue.push_back(session(&format!("p{}", i), i));
    }
    let sent = manager.try_start_game();
    assert_eq!(sent.len(), 8);
    assert_eq!(manager.active_rooms.len(), 2);
    assert_eq!(manager.waiting_queue.len(), 1);
    assert_eq!(manager.waiting_queue[0].id, "p8");
    assert_eq!(manager.active_rooms[0].players.north.id, "p0");
    assert_eq!(manager.active_rooms[0].players.west.id, "p3");
    assert_eq!(manager.active_rooms[1].players.north.id, "p4");
    assert_eq!(manager.active_rooms[1].players.west.id, "p7");
    assert_eq!(sent[4].sender, 4);
    let mut quiet = GameManager::new();
    quiet.waiting_queue.push_back(session("x", 1));
    assert!(quiet.try_start_game().is_empty());
    assert_eq!(quiet.waiting_queue.len(), 1);
}

#[test]
fn players_are_found_in_rooms_before_the_queue() {
    let mut manager = seated_manager();
    manager.join(session("e", 20)).expect("admitted");
    manager.join(session("f", 21)).expect("admitted");
    assert_eq!(
        manager.find_player_by_uid("c"),
        Some(Place::Seat { room: 0, position: PlayerPosition::South })
    );
    assert_eq!(manager.find_player_by_uid("f"), Some(Place::Queue { index: 1 }));
    assert_eq!(manager.find_player_by_uid("z"), None);
    assert!(manager.is_already_playing("a"));
    assert!(manager.is_already_playing("e"));
    assert!(!manager.is_already_playing("z"));
    assert_eq!(manager.find_in_queue(&"e".to_string()), Some(0));
    assert_eq!(manager.find_in_queue(&"a".to_string()), None);
    assert_eq!(manager.find_in_rooms(&"d".to_string()), Some((0, PlayerPosition::West)));
    assert_eq!(manager.find_in_rooms(&"e".to_string()), None);
}

#[test]
fn a_session_is_changed_where_it_is() {
    let mut manager = seated_manager();
    manager.join(session("e", 20)).expect("admitted");
    assert_eq!(
        manager.update_session("b", SessionChange::Touch { now: 77 }),
        Some(Place::Seat { room: 0, position: PlayerPosition::East })
    );
    assert_eq!(manager.active_rooms[0].players.east.last_ping, 77);
    assert_eq!(manager.active_rooms[0].players.north.last_ping, 0);
    assert_eq!(
        manager.update_session("e", SessionChange::Disconnect),
        Some(Place::Queue { index: 0 })
    );
    assert!(!manager.waiting_queue[0].is_connected());
    assert_eq!(manager.waiting_queue.len(), 1);
    assert_eq!(manager.update_session("z", SessionChange::Disconnect), None);
}

#[test]
fn closing_a_room_tells_the_connected_seats() {
    let mut manager = seated_manager();
    let id = manager.active_rooms[0].id.clone();
    manager.active_rooms[0].players.east.mark_as_disconnected();
    assert!(manager.close_room("no such room", "Bye").is_empty());
    assert_eq!(manager.active_rooms.len(), 1);
    let sent = manager.close_room(&id, "Bye");
    assert!(manager.active_rooms.is_empty());
    let expect: Vec<Outbound> = [10u64, 12, 13]
        .iter()
        .map(|s| Outbound { sender: *s, event: WSEvent::GameClose { reason: "Bye".to_string() } })
        .collect();
    assert_eq!(sent, expect);
    assert!(manager.close_room(&id, "Bye").is_empty());
    assert!(manager.join(session("a", 40)).is_ok());
}

#[test]
fn a_room_with_a_taken_identifier_replaces_the_old_one() {
    let mut manager = GameManager::new();
    manager.open_room(room_of("r1", ["a", "b", "c", "d"], 1));
    manager.open_room(room_of("r2", ["e", "f", "g", "h"], 5));
    let sent = manager.open_room(room_of("r1", ["i", "j", "k", "l"], 9));
    assert_eq!(manager.active_rooms.len(), 2);
    assert_eq!(manager.active_rooms[0].id, "r2");
    assert_eq!(manager.active_rooms[1].id, "r1");
    assert_eq!(manager.active_rooms[1].players.north.id, "i");
    assert_eq!(sent.len(), 4);
    assert_eq!(
        sent[2],
        Outbound {
            sender: 11,
            event: WSEvent::GameStart {
                room_id: "r1".to_string(),
                position: PlayerPosition::South
            },
        }
    );
}

#[test]
fn a_kick_tells_the_other_three() {
    let mut room = room_of("r", ["a", "b", "c", "d"], 1);
    let before = format!("{:?}", room.state);
    let sent = room.kick_player(PlayerPosition::East);
    assert!(!room.players.east.is_connected());
    assert!(room.players.north.is_connected());
    assert!(room.players.south.is_connected());
    assert!(room.players.west.is_connected());
    assert_eq!(format!("{:?}", room.state), before);
    let expect: Vec<Outbound> = [1u64, 3, 4]
        .iter()
        .map(|s| Outbound {
            sender: *s,
            event: WSEvent::PlayerDisconnected { position: PlayerPosition::East },
        })
        .collect();
    assert_eq!(sent, expect);
    let sent = room.kick_player(PlayerPosition::North);
    assert_eq!(sent.iter().map(|o| o.sender).collect::<Vec<u64>>(), vec![2, 3, 4]);
}

#[test]
fn a_fresh_room_deals_a_new_match() {
    let room = GameRoom::new(PerSeat {
        north: session("a", 1),
        east: session("b", 2),
        south: session("c", 3),
        west: session("d", 4),
    });
    assert_eq!(room.id.len(), 36);
    assert_eq!(room.players.south.id, "c");
    assert_eq!(room.seat_of(&"d".to_string()), Some(PlayerPosition::West));
    assert_eq!(room.seat_of(&"x".to_string()), None);
    assert_eq!(room.state.current_turn, PlayerPosition::North);
    assert!(room.state.is_first_round);
    let other = GameRoom::new(PerSeat {
        north: session("e", 1),
        east: session("f", 2),
        south: session("g", 3),
        west: session("h", 4),
    });
    assert_ne!(room.id, other.id);
}

#[test]
fn stale_seats_are_kicked_and_their_rooms_closed() {
    let mut manager = GameManager::new();
    manager.open_room(room_of("r1", ["a", "b", "c", "d"], 1));
    manager.open_room(room_of("r2", ["e", "f", "g", "h"], 5));
    manager.open_room(room_of("r3", ["i", "j", "k", "l"], 9));
    manager.join(session("w", 50)).expect("admitted");
    let now = 100_000;
    for room in manager.active_rooms.iter_mut() {
        for seat in SEATS {
            let mut s = room.players.get(seat).clone();
            s.touch(now - 15_000);
            room.players.set(seat, s);
        }
    }
    // In the first room East and West have gone silent; in the third, North.
    manager.active_rooms[0].players.east.touch(now - 15_001);
    manager.active_rooms[0].players.west.touch(0);
    manager.active_rooms[2].players.north.touch(now - 20_000);
    manager.waiting_queue[0].touch(0);

    let report = manager.evict_stale(now);

    assert_eq!(manager.active_rooms.len(), 1);
    assert_eq!(manager.active_rooms[0].id, "r2");
    assert!(SEATS.iter().all(|s| manager.active_rooms[0].players.get(*s).is_connected()));
    assert_eq!(manager.waiting_queue.len(), 1);
    assert!(manager.waiting_queue[0].is_connected());

    assert_eq!(report.closed.len(), 2);
    assert_eq!(report.closed[0].id, "r1");
    assert!(report.closed[0].players.north.is_connected());
    assert!(!report.closed[0].players.east.is_connected());
    assert!(report.closed[0].players.south.is_connected());
    assert!(!report.closed[0].players.west.is_connected());
    assert_eq!(report.closed[1].id, "r3");
    assert!(!report.closed[1].players.north.is_connected());

    let gone = |sender: u64, position: PlayerPosition| Outbound {
        sender,
        event: WSEvent::PlayerDisconnected { position },
    };
    let closed = |sender: u64| Outbound {
        sender,
        event: WSEvent::GameClose { reason: "Timeout".to_string() },
    };
    let expect = vec![
        gone(1, PlayerPosition::East),
        gone(3, PlayerPosition::East),
        gone(4, PlayerPosition::East),
        gone(1, PlayerPosition::West),
        gone(2, PlayerPosition::West),
        gone(3, PlayerPosition::West),
        gone(10, PlayerPosition::North),
        gone(11, PlayerPosition::North),
        gone(12, PlayerPosition::North),
        closed(1),
        closed(3),
        closed(10),
        closed(11),
        closed(12),
    ];
    assert_eq!(report.outbound, expect);
}

#[test]
fn a_sweep_without_stale_seats_changes_nothing() {
    let mut manager = seated_manager();
    let report = manager.evict_stale(15_000);
    assert!(report.closed.is_empty());
    assert!(report.outbound.is_empty());
    assert_eq!(manager.active_rooms.len(), 1);
    let mut room = room_of("r", ["a", "b", "c", "d"], 1);
    assert!(!room.has_stale(15_000));
    assert!(room.has_stale(15_001));
    assert!(room.sweep(15_000).is_empty());
    assert_eq!(room.sweep(15_001).len(), 12);
    assert!(SEATS.iter().all(|s| !room.players.get(*s).is_connected()));
    assert!(room.close_notice(&"Timeout".to_string()).is_empty());
}

#[test]
fn a_manager_built_by_joins_is_in_good_order() {
    let mut manager = GameManager::new();
    assert!(manager.is_wf());
    for (i, name) in ["a", "b", "c", "d", "e", "f"].iter().enumerate() {
        let _ = manager.join(session(name, i as u64));
        assert!(manager.is_wf());
    }
    let _ = manager.evict_stale(1_000_000);
    assert!(manager.is_wf());
}

#[test]
fn disorder_in_the_manager_is_found() {
    let mut manager = seated_manager();
    manager.join(session("e", 20)).expect("admitted");
    assert!(manager.is_wf());

    // a player who waits twice
    manager.waiting_queue.push_back(session("e", 21));
    assert!(!manager.is_wf());
    manager.waiting_queue.pop_back();
    assert!(manager.is_wf());

    // a player who waits and plays
    manager.waiting_queue.push_back(session("b", 22));
    assert!(!manager.is_wf());
    manager.waiting_queue.pop_back();

    // four who wait
    for (i, name) in ["f", "g", "h"].iter().enumerate() {
        manager.waiting_queue.push_back(session(name, 30 + i as u64));
    }
    assert!(!manager.is_wf());
    manager.waiting_queue.clear();
    assert!(manager.is_wf());

    // two rooms of one identifier
    let id = manager.active_rooms[0].id.clone();
    manager.active_rooms.push(room_of(&id, ["p", "q", "r", "s"], 40));
    assert!(!manager.is_wf());
    manager.active_rooms[1].id = "other".to_string();
    assert!(manager.is_wf());

    // a player in two rooms, and a player in two seats
    manager.active_rooms[1].players.west = session("a", 50);
    assert!(!manager.is_wf());
    manager.active_rooms[1].players.west = session("p", 50);
    assert!(!manager.is_wf());
    manager.active_rooms[1].players.west = session("s", 50);
    assert!(manager.is_wf());

    // a room whose game is out of order
    let stray = manager.active_rooms[1].state.hands.north[0];
    manager.active_rooms[1].state.hands.south.push(stray);
    assert!(!manager.is_wf());
    assert!(!manager.active_rooms[1].is_wf());
    assert!(manager.active_rooms[0].is_wf());
}

#[test]
fn disorder_in_a_game_is_found() {
    let mut state = GameState::new(Suit::Spades);
    assert!(state.is_wf());
    assert!(state.trick_is_in_order());
    assert_eq!(state.cards_in_play().len(), 32);

    // a full round keeps the game in order at every step
    for _ in 0..8 {
        for _ in 0..4 {
            let seat = state.current_turn;
            let hand = state.hands.get(seat).clone();
            assert!(hand.iter().any(|c| state.play_card(seat, *c).is_ok()));
            assert!(state.is_wf());
        }
        assert!(state.resolve_trick().is_some());
        assert!(state.is_wf());
    }
    assert!(state.cards_in_play().is_empty());

    let mut state = GameState::new(Suit::Spades);
    let first = state.hands.north[0];
    let second = state.hands.east[0];
    assert!(state.play_card(PlayerPosition::North, first).is_ok());
    assert_eq!(state.cards_in_play().len(), 32);
    assert_eq!(state.cards_in_play()[31], first);
    // the points no longer add up
    state.team_scores.insert(1, 1);
    assert!(!state.is_wf());
    state.team_scores.insert(1, 0);
    assert!(state.is_wf());
    // the turn is with the wrong seat
    state.current_turn = PlayerPosition::South;
    assert!(!state.trick_is_in_order());
    assert!(!state.is_wf());
    state.current_turn = PlayerPosition::East;
    // a seat out of order in the trick
    state.hands.east.remove(0);
    state.current_trick.push((PlayerPosition::West, second));
    state.current_turn = PlayerPosition::South;
    assert!(!state.trick_is_in_order());
    state.current_trick[1].0 = PlayerPosition::East;
    assert!(state.is_wf());
    // a card in two places
    state.hands.west[0] = first;
    assert!(!state.is_wf());
}

#[test]
fn a_closed_channel_marks_its_sessions() {
    let mut manager = seated_manager();
    manager.join(session("e", 12)).expect("admitted");
    manager.join(session("f", 21)).expect("admitted");
    manager.channel_closed(12);
    assert!(manager.active_rooms[0].players.north.is_connected());
    assert!(manager.active_rooms[0].players.east.is_connected());
    assert!(!manager.active_rooms[0].players.south.is_connected());
    assert!(manager.active_rooms[0].players.west.is_connected());
    assert!(!manager.waiting_queue[0].is_connected());
    assert!(manager.waiting_queue[1].is_connected());
    assert_eq!(manager.waiting_queue[0].id, "e");
    assert_eq!(manager.waiting_queue[1].id, "f");
    assert!(manager.is_wf());
    manager.channel_closed(999);
    assert!(manager.waiting_queue[1].is_connected());
    let mut room = room_of("r", ["a", "b", "c", "d"], 1);
    room.close_channel(4);
    assert!(!room.players.west.is_connected());
    assert!(room.players.north.is_connected());
}
