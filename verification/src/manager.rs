//! The matchmaker: the queue of waiting sessions, the registry of rooms,
//! admission to the queue, the forming of rooms, lookup and closing.

use std::collections::VecDeque;
use vstd::prelude::*;
use crate::game::GameView;
use crate::manager_proofs::{
    lemma_change_keeps_sound, lemma_closed_sound, lemma_enqueued_sound, lemma_first_with_id,
    lemma_place_unique, lemma_seated_four_sound, lemma_without_channel_sound,
};
use crate::messages::{append_outbox, outbox_view, EventView, Outbound, OutboundView, WSEvent};
use crate::position::{PerSeat, PlayerPosition};
use crate::room::{closed_on, players_view, push_event, to_seat, GameRoom, RoomView};
use crate::session::{PlayerSession, SessionChange, SessionView};

verus! {

/// Why a session was not admitted to the queue.
#[derive(Debug, Clone, Copy, PartialEq, Eq, Structural)]
pub enum JoinError {
    /// A session of the same player is waiting already.
    AlreadyInQueue,
    /// A session of the same player is seated in a room.
    AlreadyInGame,
}

impl JoinError {
    /// The text sent to the client for this refusal.
    pub open spec fn spec_detail(self) -> Seq<char> {
        match self {
            JoinError::AlreadyInQueue => "Already in queue"@,
            JoinError::AlreadyInGame => "Already in game"@,
        }
    }

    /// The text sent to the client for this refusal.
    pub fn detail(&self) -> (text: String)
        ensures
            text@ == self.spec_detail(),
    {
        match self {
            JoinError::AlreadyInQueue => "Already in queue".to_owned(),
            JoinError::AlreadyInGame => "Already in game".to_owned(),
        }
    }
}

/// Where the session of a player is kept.
#[derive(Debug, Clone, Copy, PartialEq, Eq, Structural)]
pub enum Place {
    /// In seat `position` of the room at place `room` of the registry.
    Seat { room: usize, position: PlayerPosition },
    /// At place `index` of the waiting queue.
    Queue { index: usize },
}

/// The queue of waiting sessions and the registry of rooms.
#[derive(Debug)]
pub struct GameManager {
    /// The sessions waiting for a table, first come first.
    pub waiting_queue: VecDeque<PlayerSession>,
    /// The rooms in play, in the order in which they were opened.
    pub active_rooms: Vec<GameRoom>,
}

/// The mathematical value of a [`GameManager`].
#[verifier::ext_equal]
pub struct ManagerView {
    pub waiting_queue: Seq<SessionView>,
    pub active_rooms: Seq<RoomView>,
}

/// The values of a list of sessions, in order.
pub open spec fn sessions_view(sessions: Seq<PlayerSession>) -> Seq<SessionView> {
    Seq::new(sessions.len(), |i: int| sessions[i]@)
}

/// The values of a list of rooms, in order.
pub open spec fn rooms_view(rooms: Seq<GameRoom>) -> Seq<RoomView> {
    Seq::new(rooms.len(), |i: int| rooms[i]@)
}

impl View for GameManager {
    type V = ManagerView;

    open spec fn view(&self) -> ManagerView {
        ManagerView {
            waiting_queue: sessions_view(self.waiting_queue@),
            active_rooms: rooms_view(self.active_rooms@),
        }
    }
}

/// What chance contributes to a new room: its identifier and its first deal.
pub struct Draw {
    pub id: Seq<char>,
    pub state: GameView,
}

/// True when `i` is the first place of `rooms` whose room has identifier `id`.
pub open spec fn is_first_with_id(rooms: Seq<RoomView>, id: Seq<char>, i: int) -> bool {
    &&& 0 <= i < rooms.len()
    &&& rooms[i].id == id
    &&& forall|j: int| 0 <= j < i ==> (#[trigger] rooms[j]).id != id
}

/// True when a room of `rooms` has identifier `id`.
pub open spec fn has_id(rooms: Seq<RoomView>, id: Seq<char>) -> bool {
    exists|i: int| 0 <= i < rooms.len() && (#[trigger] rooms[i]).id == id
}

/// The first place of `rooms` whose room has identifier `id`.
pub open spec fn index_of_id(rooms: Seq<RoomView>, id: Seq<char>) -> int {
    choose|i: int| is_first_with_id(rooms, id, i)
}

/// `rooms` without the first room of identifier `id`, if there is one.
pub open spec fn without_id(rooms: Seq<RoomView>, id: Seq<char>) -> Seq<RoomView> {
    if has_id(rooms, id) {
        rooms.remove(index_of_id(rooms, id))
    } else {
        rooms
    }
}

/// What the opening of `room` sends: to each seat the identifier of the room
/// and the seat it has been given.
pub open spec fn start_events(room: RoomView) -> Seq<OutboundView> {
    seq![
        to_seat(
            room.players,
            PlayerPosition::North,
            EventView::GameStart { room_id: room.id, position: PlayerPosition::North },
        ),
        to_seat(
            room.players,
            PlayerPosition::East,
            EventView::GameStart { room_id: room.id, position: PlayerPosition::East },
        ),
        to_seat(
            room.players,
            PlayerPosition::South,
            EventView::GameStart { room_id: room.id, position: PlayerPosition::South },
        ),
        to_seat(
            room.players,
            PlayerPosition::West,
            EventView::GameStart { room_id: room.id, position: PlayerPosition::West },
        ),
    ]
}

impl ManagerView {
    /// True when a session of player `uid` waits in the queue.
    pub open spec fn queued(self, uid: Seq<char>) -> bool {
        exists|i: int| 0 <= i < self.waiting_queue.len() && (#[trigger] self.waiting_queue[i]).id
            == uid
    }

    /// True when a session of player `uid` is seated in a room.
    pub open spec fn seated(self, uid: Seq<char>) -> bool {
        exists|r: int|
            0 <= r < self.active_rooms.len() && (#[trigger] self.active_rooms[r]).seat_of(uid)
                is Some
    }

    /// True when `i` is the first place of the queue with a session of `uid`.
    pub open spec fn is_first_queued(self, uid: Seq<char>, i: int) -> bool {
        &&& 0 <= i < self.waiting_queue.len()
        &&& self.waiting_queue[i].id == uid
        &&& forall|j: int| 0 <= j < i ==> (#[trigger] self.waiting_queue[j]).id != uid
    }

    /// True when `r` is the first place of the registry with a room in which
    /// `uid` is seated.
    pub open spec fn is_first_seated(self, uid: Seq<char>, r: int) -> bool {
        &&& 0 <= r < self.active_rooms.len()
        &&& self.active_rooms[r].seat_of(uid) is Some
        &&& forall|j: int| 0 <= j < r ==> (#[trigger] self.active_rooms[j]).seat_of(uid) is None
    }

    /// True when `place` is where a scan for player `uid` ends: the first
    /// room in which the player is seated, with the first such seat, or else
    /// the first place in the queue.
    pub open spec fn is_place_of(self, uid: Seq<char>, place: Place) -> bool {
        match place {
            Place::Seat { room, position } => self.is_first_seated(uid, room as int)
                && self.active_rooms[room as int].seat_of(uid) == Some(position),
            Place::Queue { index } => !self.seated(uid) && self.is_first_queued(uid, index as int),
        }
    }

    /// True when `place` names a seat of a room of the registry or a place of
    /// the queue.
    pub open spec fn has_place(self, place: Place) -> bool {
        match place {
            Place::Seat { room, position } => room < self.active_rooms.len(),
            Place::Queue { index } => index < self.waiting_queue.len(),
        }
    }

    /// The session kept at `place`.
    pub open spec fn session_at(self, place: Place) -> SessionView {
        match place {
            Place::Seat { room, position } => self.active_rooms[room as int].players.at(position),
            Place::Queue { index } => self.waiting_queue[index as int],
        }
    }

    /// The manager with the session at `place` replaced.
    pub open spec fn with_session(self, place: Place, session: SessionView) -> ManagerView {
        match place {
            Place::Seat { room, position } => ManagerView {
                active_rooms: self.active_rooms.update(
                    room as int,
                    self.active_rooms[room as int].with_player(position, session),
                ),
                ..self
            },
            Place::Queue { index } => ManagerView {
                waiting_queue: self.waiting_queue.update(index as int, session),
                ..self
            },
        }
    }

    /// True when `after` is this manager with `change` made to the session of
    /// player `uid` where a scan finds it, or this manager itself where the
    /// player has no session.
    pub open spec fn changes_session(
        self,
        uid: Seq<char>,
        change: SessionChange,
        after: ManagerView,
    ) -> bool {
        &&& forall|place: Place|
            self.is_place_of(uid, place) && self.has_place(place) ==> after
                == #[trigger] self.with_session(place, self.session_at(place).changed(change))
        &&& !self.seated(uid) && !self.queued(uid) ==> after == self
    }

    /// The manager with every session that is bound to channel `sender`
    /// marked as dropped out.
    pub open spec fn without_channel(self, sender: u64) -> ManagerView {
        ManagerView {
            waiting_queue: Seq::new(
                self.waiting_queue.len(),
                |i: int| closed_on(self.waiting_queue[i], sender),
            ),
            active_rooms: Seq::new(
                self.active_rooms.len(),
                |r: int| self.active_rooms[r].without_channel(sender),
            ),
        }
    }

    /// Whether a session of player `uid` is admitted to the queue, and if
    /// not, why.
    pub open spec fn join_verdict(self, uid: Seq<char>) -> Result<(), JoinError> {
        if self.queued(uid) {
            Err(JoinError::AlreadyInQueue)
        } else if self.seated(uid) {
            Err(JoinError::AlreadyInGame)
        } else {
            Ok(())
        }
    }

    /// The manager with `session` at the end of the queue.
    pub open spec fn enqueued(self, session: SessionView) -> ManagerView {
        ManagerView { waiting_queue: self.waiting_queue.push(session), ..self }
    }

    /// The room that `draw` forms with the first four of the queue, seated
    /// North, East, South, West as they come.
    pub open spec fn next_room(self, draw: Draw) -> RoomView {
        RoomView {
            id: draw.id,
            players: PerSeat {
                north: self.waiting_queue[0],
                east: self.waiting_queue[1],
                south: self.waiting_queue[2],
                west: self.waiting_queue[3],
            },
            state: draw.state,
        }
    }

    /// The manager with `room` registered: it stands last, and a room that
    /// held its identifier before has left the registry.
    pub open spec fn registered(self, room: RoomView) -> ManagerView {
        ManagerView { active_rooms: without_id(self.active_rooms, room.id).push(room), ..self }
    }

    /// The manager after a room has been formed from the first four of the
    /// queue.
    pub open spec fn seated_four(self, draw: Draw) -> ManagerView {
        ManagerView {
            waiting_queue: self.waiting_queue.skip(4),
            active_rooms: self.registered(self.next_room(draw)).active_rooms,
        }
    }

    /// The manager after rooms have been formed with `draws`, one after the
    /// other, together with all that was sent in the course of it.
    pub open spec fn formed(self, draws: Seq<Draw>) -> (ManagerView, Seq<OutboundView>)
        decreases draws.len(),
    {
        if draws.len() == 0 {
            (self, Seq::empty())
        } else {
            let (before, sent) = self.formed(draws.drop_last());
            (
                before.seated_four(draws.last()),
                sent + start_events(before.next_room(draws.last())),
            )
        }
    }

    /// True when `draws` are what chance can contribute to the forming of
    /// rooms from this manager: one draw for every four of the queue, each a
    /// new match.
    pub open spec fn draws_fit(self, draws: Seq<Draw>) -> bool {
        &&& draws.len() == self.waiting_queue.len() / 4
        &&& forall|i: int| 0 <= i < draws.len() ==> (#[trigger] draws[i]).state.is_new_match()
    }

    /// True when `after` and `sent` are what the forming of rooms can leave
    /// of this manager: as many rooms as the queue holds fours, each opened
    /// as a new match.
    pub open spec fn forms(self, after: ManagerView, sent: Seq<OutboundView>) -> bool {
        exists|draws: Seq<Draw>|
            self.draws_fit(draws) && (#[trigger] self.formed(draws)).0 == after && self.formed(
                draws,
            ).1 == sent
    }

    /// What the closing of the room of identifier `id` sends: the reason to
    /// the seats of the room that are still connected.
    pub open spec fn close_events(self, id: Seq<char>, reason: Seq<char>) -> Seq<OutboundView> {
        if has_id(self.active_rooms, id) {
            self.active_rooms[index_of_id(self.active_rooms, id)].close_events(reason)
        } else {
            Seq::empty()
        }
    }

    /// The manager without the first room of identifier `id`.
    pub open spec fn closed(self, id: Seq<char>) -> ManagerView {
        ManagerView { active_rooms: without_id(self.active_rooms, id), ..self }
    }

    /// No two sessions of the queue belong to the same player.
    pub open spec fn queue_distinct(self) -> bool {
        forall|i: int, j: int|
            0 <= i < j < self.waiting_queue.len() ==> (#[trigger] self.waiting_queue[i]).id != (
            #[trigger] self.waiting_queue[j]).id
    }

    /// No player of the queue is seated in a room.
    pub open spec fn queue_apart(self) -> bool {
        forall|i: int, r: int|
            0 <= i < self.waiting_queue.len() && 0 <= r < self.active_rooms.len() ==> (
            #[trigger] self.active_rooms[r]).seat_of((#[trigger] self.waiting_queue[i]).id)
                is None
    }

    /// No player is seated twice, in one room or in two.
    pub open spec fn seats_distinct(self) -> bool {
        &&& forall|r: int, p: PlayerPosition|
            #![trigger self.active_rooms[r].players.at(p)]
            0 <= r < self.active_rooms.len() ==> self.active_rooms[r].seat_of(
                self.active_rooms[r].players.at(p).id,
            ) == Some(p)
        &&& forall|r: int, s: int, p: PlayerPosition|
            #![trigger self.active_rooms[s], self.active_rooms[r].players.at(p)]
            0 <= r < self.active_rooms.len() && 0 <= s < self.active_rooms.len() && r != s
                ==> self.active_rooms[s].seat_of(self.active_rooms[r].players.at(p).id) is None
    }

    /// No two rooms share an identifier.
    pub open spec fn ids_distinct(self) -> bool {
        forall|r: int, s: int|
            0 <= r < s < self.active_rooms.len() ==> (#[trigger] self.active_rooms[r]).id != (
            #[trigger] self.active_rooms[s]).id
    }

    /// Every player has one session in one place, every room has its own
    /// identifier and is in good order.
    pub open spec fn sound(self) -> bool {
        &&& self.queue_distinct()
        &&& self.queue_apart()
        &&& self.seats_distinct()
        &&& self.ids_distinct()
        &&& forall|r: int|
            0 <= r < self.active_rooms.len() ==> (#[trigger] self.active_rooms[r]).wf()
    }

    /// The invariant of the manager between two calls: it is sound, and
    /// fewer than four sessions wait.
    pub open spec fn wf(self) -> bool {
        &&& self.waiting_queue.len() < 4
        &&& self.sound()
    }
}

impl GameManager {
    /// A manager with nobody waiting and no room open.
    pub fn new() -> (manager: GameManager)
        ensures
            manager@.waiting_queue.len() == 0,
            manager@.active_rooms.len() == 0,
            manager@.wf(),
    {
        GameManager { waiting_queue: VecDeque::new(), active_rooms: Vec::new() }
    }

    /// The first place of the queue with a session of player `uid`.
    pub fn find_in_queue(&self, uid: &String) -> (found: Option<usize>)
        ensures
            match found {
                Some(i) => self@.is_first_queued(uid@, i as int),
                None => !self@.queued(uid@),
            },
    {
        let mut i: usize = 0;
        while i < self.waiting_queue.len()
            invariant
                i <= self.waiting_queue@.len(),
                forall|j: int| 0 <= j < i ==> (#[trigger] self@.waiting_queue[j]).id != uid@,
            decreases self.waiting_queue@.len() - i,
        {
            if self.waiting_queue[i].is_player(uid) {
                return Some(i);
            }
            i = i + 1;
        }
        None
    }

    /// The first room in which player `uid` is seated, and the seat.
    pub fn find_in_rooms(&self, uid: &String) -> (found: Option<(usize, PlayerPosition)>)
        ensures
            match found {
                Some((room, position)) => self@.is_first_seated(uid@, room as int)
                    && self@.active_rooms[room as int].seat_of(uid@) == Some(position),
                None => !self@.seated(uid@),
            },
    {
        let mut r: usize = 0;
        while r < self.active_rooms.len()
            invariant
                r <= self.active_rooms@.len(),
                forall|j: int|
                    0 <= j < r ==> (#[trigger] self@.active_rooms[j]).seat_of(uid@) is None,
            decreases self.active_rooms@.len() - r,
        {
            match self.active_rooms[r].seat_of(uid) {
                Some(position) => {
                    return Some((r, position));
                },
                None => {},
            }
            r = r + 1;
        }
        None
    }

    /// Where the session of player `uid` is kept: the first seat found in a
    /// scan of the rooms, or else the first place found in the queue, or
    /// nowhere.
    pub fn find_player_by_uid(&self, uid: &str) -> (found: Option<Place>)
        ensures
            match found {
                Some(place) => self@.is_place_of(uid@, place) && self@.has_place(place),
                None => !self@.seated(uid@) && !self@.queued(uid@),
            },
    {
        let uid = uid.to_owned();
        match self.find_in_rooms(&uid) {
            Some((room, position)) => Some(Place::Seat { room, position }),
            None => match self.find_in_queue(&uid) {
                Some(index) => Some(Place::Queue { index }),
                None => None,
            },
        }
    }

    /// True when player `uid` has a session in a room or in the queue.
    pub fn is_already_playing(&self, uid: &str) -> (playing: bool)
        ensures
            playing == (self@.seated(uid@) || self@.queued(uid@)),
    {
        match self.find_player_by_uid(uid) {
            Some(place) => {
                proof {
                    match place {
                        Place::Seat { room, position } => {
                            assert(self@.active_rooms[room as int].seat_of(uid@) is Some);
                        },
                        Place::Queue { index } => {
                            assert(self@.waiting_queue[index as int].id == uid@);
                        },
                    }
                }
                true
            },
            None => false,
        }
    }

    /// Makes `change` to the session of player `uid`, where a scan finds it.
    pub fn update_session(&mut self, uid: &str, change: SessionChange) -> (found: Option<Place>)
        ensures
            match found {
                Some(place) => old(self)@.is_place_of(uid@, place) && old(self)@.has_place(place)
                    && final(self)@ == old(self)@.with_session(
                    place,
                    old(self)@.session_at(place).changed(change),
                ),
                None => !old(self)@.seated(uid@) && !old(self)@.queued(uid@) && *final(self)
                    == *old(self),
            },
            old(self)@.changes_session(uid@, change, final(self)@),
            old(self)@.wf() ==> final(self)@.wf(),
    {
        let found = self.find_player_by_uid(uid);
        match found {
            Some(Place::Seat { room, position }) => {
                match position {
                    PlayerPosition::North => self.active_rooms[room].players.north.apply(change),
                    PlayerPosition::East => self.active_rooms[room].players.east.apply(change),
                    PlayerPosition::South => self.active_rooms[room].players.south.apply(change),
                    PlayerPosition::West => self.active_rooms[room].players.west.apply(change),
                }
            },
            Some(Place::Queue { index }) => {
                let mut session = self.waiting_queue.remove(index).unwrap();
                session.apply(change);
                self.waiting_queue.insert(index, session);
            },
            None => {},
        }
        proof {
            if let Some(place) = found {
                assert(self@ =~= old(self)@.with_session(
                    place,
                    old(self)@.session_at(place).changed(change),
                ));
                lemma_change_keeps_sound(old(self)@, place, change);
                lemma_place_unique(old(self)@, uid@, place);
            }
        }
        found
    }

    /// True when no two sessions of the queue belong to the same player.
    fn queue_is_distinct(&self) -> (ok: bool)
        ensures
            ok == self@.queue_distinct(),
    {
        let mut j: usize = 0;
        while j < self.waiting_queue.len()
            invariant
                j <= self.waiting_queue@.len(),
                forall|a: int, b: int|
                    0 <= a < b < j ==> (#[trigger] self@.waiting_queue[a]).id != (
                    #[trigger] self@.waiting_queue[b]).id,
            decreases self.waiting_queue@.len() - j,
        {
            let mut i: usize = 0;
            while i < j
                invariant
                    i <= j < self.waiting_queue@.len(),
                    forall|a: int, b: int|
                        0 <= a < b < j ==> (#[trigger] self@.waiting_queue[a]).id != (
                        #[trigger] self@.waiting_queue[b]).id,
                    forall|a: int|
                        0 <= a < i ==> (#[trigger] self@.waiting_queue[a]).id
                            != self@.waiting_queue[j as int].id,
                decreases j - i,
            {
                if self.waiting_queue[i].is_player(&self.waiting_queue[j].id) {
                    assert(self@.waiting_queue[i as int].id == self@.waiting_queue[j as int].id);
                    return false;
                }
                i = i + 1;
            }
            j = j + 1;
        }
        true
    }

    /// True when no player of the queue is seated in a room.
    fn queue_is_apart(&self) -> (ok: bool)
        ensures
            ok == self@.queue_apart(),
    {
        let mut i: usize = 0;
        while i < self.waiting_queue.len()
            invariant
                i <= self.waiting_queue@.len(),
                forall|a: int, r: int|
                    0 <= a < i && 0 <= r < self@.active_rooms.len() ==> (
                    #[trigger] self@.active_rooms[r]).seat_of(
                        (#[trigger] self@.waiting_queue[a]).id,
                    ) is None,
            decreases self.waiting_queue@.len() - i,
        {
            match self.find_in_rooms(&self.waiting_queue[i].id) {
                Some((room, position)) => {
                    assert(self@.active_rooms[room as int].seat_of(
                        self@.waiting_queue[i as int].id,
                    ) is Some);
                    return false;
                },
                None => {
                    assert forall|r: int| 0 <= r < self@.active_rooms.len() implies (
                    #[trigger] self@.active_rooms[r]).seat_of(self@.waiting_queue[i as int].id)
                        is None by {
                        if self@.active_rooms[r].seat_of(self@.waiting_queue[i as int].id) is Some {
                            assert(self@.seated(self@.waiting_queue[i as int].id));
                        }
                    }
                },
            }
            i = i + 1;
        }
        true
    }

    /// True when the player in seat `seat` of room `r` is seated there and
    /// nowhere else.
    fn seat_is_single(&self, r: usize, seat: PlayerPosition) -> (ok: bool)
        requires
            r < self.active_rooms@.len(),
        ensures
            ok == (self@.active_rooms[r as int].seat_of(
                self@.active_rooms[r as int].players.at(seat).id,
            ) == Some(seat) && forall|s: int|
                0 <= s < self@.active_rooms.len() && s != r ==> (
                #[trigger] self@.active_rooms[s]).seat_of(
                    self@.active_rooms[r as int].players.at(seat).id,
                ) is None),
    {
        let uid = &self.active_rooms[r].players.get(seat).id;
        match self.active_rooms[r].seat_of(uid) {
            Some(found) => {
                if found != seat {
                    return false;
                }
            },
            None => {
                return false;
            },
        }
        let mut s: usize = 0;
        while s < self.active_rooms.len()
            invariant
                s <= self.active_rooms@.len(),
                r < self.active_rooms@.len(),
                uid@ == self@.active_rooms[r as int].players.at(seat).id,
                forall|k: int|
                    0 <= k < s && k != r ==> (#[trigger] self@.active_rooms[k]).seat_of(uid@)
                        is None,
            decreases self.active_rooms@.len() - s,
        {
            if s != r {
                match self.active_rooms[s].seat_of(uid) {
                    Some(_) => {
                        assert(self@.active_rooms[s as int].seat_of(uid@) is Some);
                        return false;
                    },
                    None => {},
                }
            }
            s = s + 1;
        }
        true
    }

    /// True when no player is seated twice, in one room or in two.
    fn seats_are_distinct(&self) -> (ok: bool)
        ensures
            ok == self@.seats_distinct(),
    {
        let mut r: usize = 0;
        while r < self.active_rooms.len()
            invariant
                r <= self.active_rooms@.len(),
                forall|k: int, p: PlayerPosition|
                    #![trigger self@.active_rooms[k].players.at(p)]
                    0 <= k < r ==> self@.active_rooms[k].seat_of(
                        self@.active_rooms[k].players.at(p).id,
                    ) == Some(p),
                forall|k: int, s: int, p: PlayerPosition|
                    #![trigger self@.active_rooms[s], self@.active_rooms[k].players.at(p)]
                    0 <= k < r && 0 <= s < self@.active_rooms.len() && k != s
                        ==> self@.active_rooms[s].seat_of(self@.active_rooms[k].players.at(p).id)
                        is None,
            decreases self.active_rooms@.len() - r,
        {
            let single = self.seat_is_single(r, PlayerPosition::North) && self.seat_is_single(
                r,
                PlayerPosition::East,
            ) && self.seat_is_single(r, PlayerPosition::South) && self.seat_is_single(
                r,
                PlayerPosition::West,
            );
            if !single {
                proof {
                    let room = self@.active_rooms[r as int];
                    assert(exists|p: PlayerPosition|
                        room.seat_of((#[trigger] room.players.at(p)).id) != Some(p) || exists|
                            s: int,
                        |
                            0 <= s < self@.active_rooms.len() && s != r && (
                            #[trigger] self@.active_rooms[s]).seat_of(room.players.at(p).id)
                                is Some);
                }
                return false;
            }
            proof {
                let room = self@.active_rooms[r as int];
                assert forall|p: PlayerPosition| #![trigger room.players.at(p)]
                    room.seat_of(room.players.at(p).id) == Some(p) && forall|s: int|
                        0 <= s < self@.active_rooms.len() && s != r ==> (
                        #[trigger] self@.active_rooms[s]).seat_of(room.players.at(p).id)
                            is None by {
                    match p {
                        PlayerPosition::North => {},
                        PlayerPosition::East => {},
                        PlayerPosition::South => {},
                        PlayerPosition::West => {},
                    }
                }
            }
            r = r + 1;
        }
        true
    }

    /// True when no two rooms share an identifier.
    fn ids_are_distinct(&self) -> (ok: bool)
        ensures
            ok == self@.ids_distinct(),
    {
        let mut j: usize = 0;
        while j < self.active_rooms.len()
            invariant
                j <= self.active_rooms@.len(),
                forall|a: int, b: int|
                    0 <= a < b < j ==> (#[trigger] self@.active_rooms[a]).id != (
                    #[trigger] self@.active_rooms[b]).id,
            decreases self.active_rooms@.len() - j,
        {
            let mut i: usize = 0;
            while i < j
                invariant
                    i <= j < self.active_rooms@.len(),
                    forall|a: int, b: int|
                        0 <= a < b < j ==> (#[trigger] self@.active_rooms[a]).id != (
                        #[trigger] self@.active_rooms[b]).id,
                    forall|a: int|
                        0 <= a < i ==> (#[trigger] self@.active_rooms[a]).id
                            != self@.active_rooms[j as int].id,
                decreases j - i,
            {
                if self.active_rooms[i].id == self.active_rooms[j].id {
                    assert(self@.active_rooms[i as int].id == self@.active_rooms[j as int].id);
                    return false;
                }
                i = i + 1;
            }
            j = j + 1;
        }
        true
    }

    /// True when every room is in good order.
    fn rooms_are_wf(&self) -> (ok: bool)
        ensures
            ok == (forall|r: int|
                0 <= r < self@.active_rooms.len() ==> (#[trigger] self@.active_rooms[r]).wf()),
    {
        let mut r: usize = 0;
        while r < self.active_rooms.len()
            invariant
                r <= self.active_rooms@.len(),
                forall|k: int| 0 <= k < r ==> (#[trigger] self@.active_rooms[k]).wf(),
            decreases self.active_rooms@.len() - r,
        {
            if !self.active_rooms[r].is_wf() {
                assert(!self@.active_rooms[r as int].wf());
                return false;
            }
            r = r + 1;
        }
        true
    }

    /// True when the manager is in good order: fewer than four sessions
    /// wait, every player has one session in one place, and every room has
    /// its own identifier and is in good order.
    pub fn is_wf(&self) -> (ok: bool)
        ensures
            ok == self@.wf(),
    {
        self.waiting_queue.len() < 4 && self.queue_is_distinct() && self.queue_is_apart()
            && self.seats_are_distinct() && self.ids_are_distinct() && self.rooms_are_wf()
    }

    /// Marks every session that is bound to channel `sender` as dropped out,
    /// as when a delivery on the channel has failed.
    pub fn channel_closed(&mut self, sender: u64)
        ensures
            final(self)@ == old(self)@.without_channel(sender),
            old(self)@.wf() ==> final(self)@.wf(),
    {
        let ghost start = self@;
        let mut r: usize = 0;
        while r < self.active_rooms.len()
            invariant
                r <= self.active_rooms@.len(),
                self@.waiting_queue == start.waiting_queue,
                self@.active_rooms.len() == start.active_rooms.len(),
                forall|k: int|
                    0 <= k < r ==> (#[trigger] self@.active_rooms[k])
                        == start.active_rooms[k].without_channel(sender),
                forall|k: int|
                    r <= k < self@.active_rooms.len() ==> (#[trigger] self@.active_rooms[k])
                        == start.active_rooms[k],
            decreases self.active_rooms@.len() - r,
        {
            let ghost before = self@;
            self.active_rooms[r].close_channel(sender);
            proof {
                assert(before.active_rooms[r as int] == start.active_rooms[r as int]);
                assert(self@.active_rooms[r as int]
                    == before.active_rooms[r as int].without_channel(sender));
                assert forall|k: int| 0 <= k < self@.active_rooms.len() && k != r implies (
                #[trigger] self@.active_rooms[k]) == before.active_rooms[k] by {}
                assert(self@.waiting_queue =~= before.waiting_queue);
            }
            r = r + 1;
        }
        let mut i: usize = 0;
        while i < self.waiting_queue.len()
            invariant
                i <= self.waiting_queue@.len(),
                self@.waiting_queue.len() == start.waiting_queue.len(),
                self@.active_rooms == start.without_channel(sender).active_rooms,
                forall|k: int|
                    0 <= k < i ==> (#[trigger] self@.waiting_queue[k]) == closed_on(
                        start.waiting_queue[k],
                        sender,
                    ),
                forall|k: int|
                    i <= k < self@.waiting_queue.len() ==> (#[trigger] self@.waiting_queue[k])
                        == start.waiting_queue[k],
            decreases self.waiting_queue@.len() - i,
        {
            let ghost before = self@;
            if self.waiting_queue[i].sender == sender {
                let mut session = self.waiting_queue.remove(i).unwrap();
                session.mark_as_disconnected();
                self.waiting_queue.insert(i, session);
                proof {
                    assert(self@.active_rooms =~= before.active_rooms);
                    assert(self@.waiting_queue =~= before.waiting_queue.update(
                        i as int,
                        before.waiting_queue[i as int].disconnected(),
                    ));
                }
            }
            i = i + 1;
        }
        proof {
            assert(self@.waiting_queue =~= start.without_channel(sender).waiting_queue);
            lemma_without_channel_sound(start, sender);
        }
    }

    /// The first place of the registry with a room of identifier `id`.
    fn room_index(&self, id: &String) -> (found: Option<usize>)
        ensures
            match found {
                Some(i) => is_first_with_id(self@.active_rooms, id@, i as int),
                None => !has_id(self@.active_rooms, id@),
            },
    {
        let mut i: usize = 0;
        while i < self.active_rooms.len()
            invariant
                i <= self.active_rooms@.len(),
                forall|j: int| 0 <= j < i ==> (#[trigger] self@.active_rooms[j]).id != id@,
            decreases self.active_rooms@.len() - i,
        {
            if self.active_rooms[i].id == *id {
                return Some(i);
            }
            i = i + 1;
        }
        None
    }

    /// Registers `room` and tells each of its seats the room and the seat. A
    /// room that held the same identifier leaves the registry.
    pub fn open_room(&mut self, room: GameRoom) -> (outbound: Vec<Outbound>)
        ensures
            final(self)@ == old(self)@.registered(room@),
            outbox_view(outbound@) == start_events(room@),
    {
        match self.room_index(&room.id) {
            Some(i) => {
                proof {
                    lemma_first_with_id(self@.active_rooms, room@.id, i as int);
                }
                let _ = self.active_rooms.remove(i);
            },
            None => {},
        }
        let mut outbound: Vec<Outbound> = Vec::new();
        push_event(
            &mut outbound,
            room.players.north.sender,
            WSEvent::GameStart { room_id: room.id.clone(), position: PlayerPosition::North },
        );
        push_event(
            &mut outbound,
            room.players.east.sender,
            WSEvent::GameStart { room_id: room.id.clone(), position: PlayerPosition::East },
        );
        push_event(
            &mut outbound,
            room.players.south.sender,
            WSEvent::GameStart { room_id: room.id.clone(), position: PlayerPosition::South },
        );
        push_event(
            &mut outbound,
            room.players.west.sender,
            WSEvent::GameStart { room_id: room.id.clone(), position: PlayerPosition::West },
        );
        assert(outbox_view(outbound@) =~= start_events(room@));
        self.active_rooms.push(room);
        assert(self@ =~= old(self)@.registered(room@));
        outbound
    }

    /// Takes the first four sessions from the queue, to be seated North,
    /// East, South, West as they come.
    fn take_four(&mut self) -> (players: PerSeat<PlayerSession>)
        requires
            old(self)@.waiting_queue.len() >= 4,
        ensures
            players_view(players) == (PerSeat {
                north: old(self)@.waiting_queue[0],
                east: old(self)@.waiting_queue[1],
                south: old(self)@.waiting_queue[2],
                west: old(self)@.waiting_queue[3],
            }),
            final(self)@.waiting_queue == old(self)@.waiting_queue.skip(4),
            final(self)@.active_rooms == old(self)@.active_rooms,
    {
        let north = self.waiting_queue.pop_front().unwrap();
        let east = self.waiting_queue.pop_front().unwrap();
        let south = self.waiting_queue.pop_front().unwrap();
        let west = self.waiting_queue.pop_front().unwrap();
        assert(self@.waiting_queue =~= old(self)@.waiting_queue.skip(4));
        PerSeat { north, east, south, west }
    }

    /// Forms rooms while four sessions wait: the first four are seated North,
    /// East, South, West in a new room with a fresh deal, the room is
    /// registered, and each seat is told of it.
    pub fn try_start_game(&mut self) -> (outbound: Vec<Outbound>)
        ensures
            old(self)@.forms(final(self)@, outbox_view(outbound@)),
            final(self)@.waiting_queue.len() < 4,
            old(self)@.sound() ==> final(self)@.wf(),
    {
        let mut outbound: Vec<Outbound> = Vec::new();
        let ghost start = self@;
        let ghost mut draws: Seq<Draw> = Seq::empty();
        assert(outbox_view(outbound@) =~= Seq::<OutboundView>::empty());
        while self.waiting_queue.len() >= 4
            invariant
                start.formed(draws).0 == self@,
                start.formed(draws).1 == outbox_view(outbound@),
                draws.len() + self@.waiting_queue.len() / 4 == start.waiting_queue.len() / 4,
                forall|i: int| 0 <= i < draws.len() ==> (#[trigger] draws[i]).state.is_new_match(),
                start.sound() ==> self@.sound(),
            decreases self@.waiting_queue.len(),
        {
            let ghost before = self@;
            let players = self.take_four();
            let room = GameRoom::new(players);
            let ghost draw = Draw { id: room@.id, state: room@.state };
            let sent = self.open_room(room);
            append_outbox(&mut outbound, sent);
            proof {
                assert(before.next_room(draw) =~= room@);
                assert(self@ =~= before.seated_four(draw));
                assert(draws.push(draw).drop_last() =~= draws);
                if start.sound() {
                    lemma_seated_four_sound(before, draw);
                }
                draws = draws.push(draw);
            }
        }
        proof {
            assert(start.draws_fit(draws));
        }
        outbound
    }

    /// Closes the room of identifier `room_id`: it leaves the registry, and
    /// every seat that is still connected is told the reason. Nothing
    /// happens where no room has the identifier.
    pub fn close_room(&mut self, room_id: &str, reason: &str) -> (outbound: Vec<Outbound>)
        ensures
            final(self)@ == old(self)@.closed(room_id@),
            outbox_view(outbound@) == old(self)@.close_events(room_id@, reason@),
            old(self)@.wf() ==> final(self)@.wf(),
    {
        let id = room_id.to_owned();
        let reason = reason.to_owned();
        proof {
            if self@.sound() {
                lemma_closed_sound(self@, room_id@);
            }
        }
        match self.room_index(&id) {
            Some(i) => {
                proof {
                    lemma_first_with_id(self@.active_rooms, id@, i as int);
                }
                let room = self.active_rooms.remove(i);
                let outbound = room.close_notice(&reason);
                assert(self@ =~= old(self)@.closed(room_id@));
                outbound
            },
            None => {
                let outbound: Vec<Outbound> = Vec::new();
                assert(outbox_view(outbound@) =~= Seq::<OutboundView>::empty());
                outbound
            },
        }
    }

    /// Admits `player` to the queue and forms rooms while four sessions wait.
    ///
    /// A player who has a session in the queue is refused, and so is one who
    /// is seated in a room; the manager is then left as it was.
    pub fn join(&mut self, player: PlayerSession) -> (outcome: Result<Vec<Outbound>, JoinError>)
        ensures
            match outcome {
                Ok(sent) => old(self)@.join_verdict(player@.id) is Ok && old(self)@.enqueued(
                    player@,
                ).forms(final(self)@, outbox_view(sent@)),
                Err(refusal) => old(self)@.join_verdict(player@.id) == Err::<(), JoinError>(refusal)
                    && *final(self) == *old(self),
            },
            old(self)@.wf() ==> final(self)@.wf(),
            final(self)@.waiting_queue.len() < 4 || outcome is Err,
    {
        match self.find_in_queue(&player.id) {
            Some(i) => {
                assert(self@.waiting_queue[i as int].id == player@.id);
                return Err(JoinError::AlreadyInQueue);
            },
            None => {},
        }
        match self.find_in_rooms(&player.id) {
            Some((room, position)) => {
                assert(self@.active_rooms[room as int].seat_of(player@.id) is Some);
                return Err(JoinError::AlreadyInGame);
            },
            None => {},
        }
        proof {
            if self@.sound() {
                lemma_enqueued_sound(self@, player@);
            }
        }
        self.waiting_queue.push_back(player);
        assert(self@ =~= old(self)@.enqueued(player@));
        let sent = self.try_start_game();
        Ok(sent)
    }
}

} // verus!
