//! The liveness sweep: kicks every seat that has gone stale and closes the
//! rooms that lost a seat.

use vstd::prelude::*;
use crate::manager::{rooms_view, GameManager};
use crate::manager_proofs::lemma_removed_sound;
use crate::messages::{append_outbox, outbox_view, EventView, Outbound, OutboundView};
use crate::position::PlayerPosition;
use crate::room::{to_seat, GameRoom, RoomView};

verus! {

/// The reason given when a room is closed for a stale seat.
pub open spec fn timeout_reason() -> Seq<char> {
    "Timeout"@
}

/// What the sweep came to.
#[derive(Debug)]
pub struct SweepReport {
    /// The rooms that were closed, with their stale seats marked as dropped out.
    pub closed: Vec<GameRoom>,
    /// The events to deliver, in order: first the kicks, then the closings.
    pub outbound: Vec<Outbound>,
}

impl RoomView {
    /// The room with `seat` kicked if it is stale at `now`.
    pub open spec fn kicked_if_stale(self, seat: PlayerPosition, now: u64) -> RoomView {
        if self.players.at(seat).is_stale(now) {
            self.kicked(seat)
        } else {
            self
        }
    }

    /// What the kick of `seat` sends if the seat is stale at `now`.
    pub open spec fn stale_events(self, seat: PlayerPosition, now: u64) -> Seq<OutboundView> {
        if self.players.at(seat).is_stale(now) {
            self.kick_events(seat)
        } else {
            Seq::empty()
        }
    }

    /// The room with every seat kicked that is stale at `now`.
    pub open spec fn swept(self, now: u64) -> RoomView {
        self.kicked_if_stale(PlayerPosition::North, now).kicked_if_stale(
            PlayerPosition::East,
            now,
        ).kicked_if_stale(PlayerPosition::South, now).kicked_if_stale(PlayerPosition::West, now)
    }

    /// What the kicks of the seats that are stale at `now` send, seat by seat.
    pub open spec fn sweep_events(self, now: u64) -> Seq<OutboundView> {
        self.stale_events(PlayerPosition::North, now) + self.stale_events(
            PlayerPosition::East,
            now,
        ) + self.stale_events(PlayerPosition::South, now) + self.stale_events(
            PlayerPosition::West,
            now,
        )
    }
}

/// What the kicks in `rooms` send at `now`, room by room.
pub open spec fn sweep_kicks(rooms: Seq<RoomView>, now: u64) -> Seq<OutboundView>
    decreases rooms.len(),
{
    if rooms.len() == 0 {
        Seq::empty()
    } else {
        sweep_kicks(rooms.drop_last(), now) + rooms.last().sweep_events(now)
    }
}

/// What the closing of the rooms of `rooms` that have a stale seat at `now`
/// sends, room by room.
pub open spec fn sweep_closes(rooms: Seq<RoomView>, now: u64) -> Seq<OutboundView>
    decreases rooms.len(),
{
    if rooms.len() == 0 {
        Seq::empty()
    } else if rooms.last().has_stale(now) {
        sweep_closes(rooms.drop_last(), now) + rooms.last().swept(now).close_events(
            timeout_reason(),
        )
    } else {
        sweep_closes(rooms.drop_last(), now)
    }
}

/// The rooms of `rooms` that have no stale seat at `now`, in their order.
pub open spec fn survivors(rooms: Seq<RoomView>, now: u64) -> Seq<RoomView>
    decreases rooms.len(),
{
    if rooms.len() == 0 {
        Seq::empty()
    } else if rooms.last().has_stale(now) {
        survivors(rooms.drop_last(), now)
    } else {
        survivors(rooms.drop_last(), now).push(rooms.last())
    }
}

/// The rooms of `rooms` that have a stale seat at `now`, in their order, each
/// with its stale seats kicked.
pub open spec fn evicted(rooms: Seq<RoomView>, now: u64) -> Seq<RoomView>
    decreases rooms.len(),
{
    if rooms.len() == 0 {
        Seq::empty()
    } else if rooms.last().has_stale(now) {
        evicted(rooms.drop_last(), now).push(rooms.last().swept(now))
    } else {
        evicted(rooms.drop_last(), now)
    }
}

impl GameRoom {
    /// Kicks every seat of the room that is stale at `now`, in the order of
    /// the seats.
    pub fn sweep(&mut self, now: u64) -> (outbound: Vec<Outbound>)
        ensures
            final(self)@ == old(self)@.swept(now),
            outbox_view(outbound@) == old(self)@.sweep_events(now),
    {
        let mut outbound: Vec<Outbound> = Vec::new();
        assert(outbox_view(outbound@) =~= Seq::<OutboundView>::empty());
        if self.players.north.is_stale(now) {
            let sent = self.kick_player(PlayerPosition::North);
            append_outbox(&mut outbound, sent);
        }
        if self.players.east.is_stale(now) {
            let sent = self.kick_player(PlayerPosition::East);
            append_outbox(&mut outbound, sent);
        }
        if self.players.south.is_stale(now) {
            let sent = self.kick_player(PlayerPosition::South);
            append_outbox(&mut outbound, sent);
        }
        if self.players.west.is_stale(now) {
            let sent = self.kick_player(PlayerPosition::West);
            append_outbox(&mut outbound, sent);
        }
        assert(self@ =~= old(self)@.swept(now));
        assert(outbox_view(outbound@) =~= old(self)@.sweep_events(now));
        outbound
    }
}

impl GameManager {
    /// One cycle of the liveness monitor at time `now`.
    ///
    /// Every seat whose last sign of life lies more than fifteen seconds back
    /// is kicked, and every room that lost a seat is closed with the reason
    /// "Timeout". The kicks are announced before the closings. Rooms without
    /// a stale seat and the queue are left as they are.
    pub fn evict_stale(&mut self, now: u64) -> (report: SweepReport)
        ensures
            final(self)@.waiting_queue == old(self)@.waiting_queue,
            final(self)@.active_rooms == survivors(old(self)@.active_rooms, now),
            rooms_view(report.closed@) == evicted(old(self)@.active_rooms, now),
            outbox_view(report.outbound@) == sweep_kicks(old(self)@.active_rooms, now)
                + sweep_closes(old(self)@.active_rooms, now),
            old(self)@.wf() ==> final(self)@.wf(),
    {
        let timeout = "Timeout".to_owned();
        let mut closed: Vec<GameRoom> = Vec::new();
        let mut kicks: Vec<Outbound> = Vec::new();
        let mut closes: Vec<Outbound> = Vec::new();
        let ghost start = self@;
        let ghost mut done: int = 0;
        let mut i: usize = 0;
        proof {
            assert(start.active_rooms.take(0) =~= Seq::<RoomView>::empty());
            assert(start.active_rooms.skip(0) =~= start.active_rooms);
            assert(outbox_view(kicks@) =~= Seq::<OutboundView>::empty());
            assert(outbox_view(closes@) =~= Seq::<OutboundView>::empty());
            assert(rooms_view(closed@) =~= Seq::<RoomView>::empty());
            assert(self@.active_rooms =~= survivors(start.active_rooms.take(0), now)
                + start.active_rooms.skip(0));
        }
        while i < self.active_rooms.len()
            invariant
                timeout@ == timeout_reason(),
                0 <= done <= start.active_rooms.len(),
                self@.waiting_queue == start.waiting_queue,
                i == survivors(start.active_rooms.take(done), now).len(),
                self@.active_rooms == survivors(start.active_rooms.take(done), now)
                    + start.active_rooms.skip(done),
                rooms_view(closed@) == evicted(start.active_rooms.take(done), now),
                outbox_view(kicks@) == sweep_kicks(start.active_rooms.take(done), now),
                outbox_view(closes@) == sweep_closes(start.active_rooms.take(done), now),
                start.sound() ==> self@.sound(),
            decreases start.active_rooms.len() - done,
        {
            proof {
                let next = start.active_rooms.take(done + 1);
                assert(next.drop_last() =~= start.active_rooms.take(done));
                assert(next.last() == start.active_rooms[done]);
                assert(self@.active_rooms[i as int] == start.active_rooms.skip(done)[0]);
            }
            let ghost before = self@;
            let ghost closed_before = rooms_view(closed@);
            if self.active_rooms[i].has_stale(now) {
                let mut room = self.active_rooms.remove(i);
                let sent = room.sweep(now);
                append_outbox(&mut kicks, sent);
                let sent = room.close_notice(&timeout);
                append_outbox(&mut closes, sent);
                closed.push(room);
                proof {
                    assert(rooms_view(closed@) =~= closed_before.push(
                        start.active_rooms[done].swept(now),
                    ));
                    assert(self@.active_rooms =~= before.active_rooms.remove(i as int));
                    assert(self@.active_rooms =~= survivors(
                        start.active_rooms.take(done + 1),
                        now,
                    ) + start.active_rooms.skip(done + 1));
                    if start.sound() {
                        lemma_removed_sound(before, i as int);
                    }
                }
            } else {
                proof {
                    lemma_sweep_idle(start.active_rooms[done], now);
                    assert(self@.active_rooms =~= survivors(
                        start.active_rooms.take(done + 1),
                        now,
                    ) + start.active_rooms.skip(done + 1));
                }
                i = i + 1;
            }
            proof {
                done = done + 1;
            }
        }
        proof {
            assert(done == start.active_rooms.len()) by {
                assert(self@.active_rooms.len() == i + start.active_rooms.skip(done).len());
            }
            assert(start.active_rooms.take(done) =~= start.active_rooms);
            assert(self@.active_rooms =~= survivors(start.active_rooms, now));
        }
        let mut outbound = kicks;
        append_outbox(&mut outbound, closes);
        SweepReport { closed, outbound }
    }
}

/// A room without a stale seat is not touched by the sweep and has nothing
/// sent.
pub proof fn lemma_sweep_idle(room: RoomView, now: u64)
    requires
        !room.has_stale(now),
    ensures
        room.swept(now) == room,
        room.sweep_events(now) == Seq::<OutboundView>::empty(),
{
    assert(!room.players.at(PlayerPosition::North).is_stale(now));
    assert(!room.players.at(PlayerPosition::East).is_stale(now));
    assert(!room.players.at(PlayerPosition::South).is_stale(now));
    assert(!room.players.at(PlayerPosition::West).is_stale(now));
    assert(room.sweep_events(now) =~= Seq::<OutboundView>::empty());
}

/// Every room left by the sweep is one of the rooms before it, and has no
/// stale seat.
pub proof fn lemma_survivors_are_fresh(rooms: Seq<RoomView>, now: u64, s: int)
    requires
        0 <= s < survivors(rooms, now).len(),
    ensures
        !survivors(rooms, now)[s].has_stale(now),
        rooms.contains(survivors(rooms, now)[s]),
    decreases rooms.len(),
{
    let rest = rooms.drop_last();
    if rooms.last().has_stale(now) || s < survivors(rest, now).len() {
        lemma_survivors_are_fresh(rest, now, s);
        let i = choose|i: int| 0 <= i < rest.len() && rest[i] == survivors(rest, now)[s];
        assert(rooms[i] == survivors(rooms, now)[s]);
    } else {
        assert(rooms[rooms.len() - 1] == survivors(rooms, now)[s]);
    }
}

/// A seat that has given no sign of life for more than fifteen seconds is
/// marked as dropped out within the cycle, its room is closed and leaves the
/// registry, and every seat of the room that is still connected is told that
/// the room was closed for "Timeout".
pub proof fn lemma_stale_seat_evicted(
    rooms: Seq<RoomView>,
    now: u64,
    r: int,
    seat: PlayerPosition,
)
    requires
        0 <= r < rooms.len(),
        rooms[r].players.at(seat).is_stale(now),
    ensures
        !rooms[r].swept(now).players.at(seat).is_connected,
        evicted(rooms, now).contains(rooms[r].swept(now)),
        !survivors(rooms, now).contains(rooms[r]),
        forall|other: PlayerPosition|
            rooms[r].swept(now).players.at(other).is_connected ==> sweep_closes(
                rooms,
                now,
            ).contains(
                #[trigger] to_seat(
                    rooms[r].players,
                    other,
                    EventView::GameClose { reason: timeout_reason() },
                ),
            ),
    decreases rooms.len(),
{
    let room = rooms[r];
    let rest = rooms.drop_last();
    assert(room.has_stale(now));
    assert(!survivors(rooms, now).contains(room)) by {
        if survivors(rooms, now).contains(room) {
            let s = choose|s: int|
                0 <= s < survivors(rooms, now).len() && survivors(rooms, now)[s] == room;
            lemma_survivors_are_fresh(rooms, now, s);
        }
    }
    if r < rooms.len() - 1 {
        assert(rest[r] == room);
        lemma_stale_seat_evicted(rest, now, r, seat);
        let c = choose|c: int|
            0 <= c < evicted(rest, now).len() && evicted(rest, now)[c] == room.swept(now);
        assert(evicted(rooms, now)[c] == room.swept(now));
        assert forall|other: PlayerPosition|
            room.swept(now).players.at(other).is_connected implies sweep_closes(
            rooms,
            now,
        ).contains(
            #[trigger] to_seat(
                room.players,
                other,
                EventView::GameClose { reason: timeout_reason() },
            ),
        ) by {
            let notice = to_seat(
                room.players,
                other,
                EventView::GameClose { reason: timeout_reason() },
            );
            let k = choose|k: int|
                0 <= k < sweep_closes(rest, now).len() && sweep_closes(rest, now)[k] == notice;
            assert(sweep_closes(rooms, now)[k] == notice);
        }
    } else {
        let n = evicted(rest, now).len() as int;
        assert(evicted(rooms, now)[n] == room.swept(now));
        let head = sweep_closes(rest, now);
        let tail = room.swept(now).close_events(timeout_reason());
        assert(sweep_closes(rooms, now) == head + tail);
        assert forall|other: PlayerPosition|
            room.swept(now).players.at(other).is_connected implies sweep_closes(
            rooms,
            now,
        ).contains(
            #[trigger] to_seat(
                room.players,
                other,
                EventView::GameClose { reason: timeout_reason() },
            ),
        ) by {
            let notice = to_seat(
                room.players,
                other,
                EventView::GameClose { reason: timeout_reason() },
            );
            lemma_close_reaches_connected(room.swept(now), timeout_reason(), other);
            let k = choose|k: int| 0 <= k < tail.len() && tail[k] == notice;
            assert((head + tail)[(head.len() + k) as int] == notice);
        }
    }
}

/// The closing of a room is told to every seat that is connected.
pub proof fn lemma_close_reaches_connected(room: RoomView, reason: Seq<char>, seat: PlayerPosition)
    requires
        room.players.at(seat).is_connected,
    ensures
        room.close_events(reason).contains(
            to_seat(room.players, seat, EventView::GameClose { reason }),
        ),
{
    let event = EventView::GameClose { reason };
    let n = crate::room::to_connected(room.players, PlayerPosition::North, event);
    let e = crate::room::to_connected(room.players, PlayerPosition::East, event);
    let s = crate::room::to_connected(room.players, PlayerPosition::South, event);
    let w = crate::room::to_connected(room.players, PlayerPosition::West, event);
    let all = room.close_events(reason);
    assert(all == n + e + s + w);
    match seat {
        PlayerPosition::North => {
            assert(all[0] == to_seat(room.players, seat, event));
        },
        PlayerPosition::East => {
            assert(all[n.len() as int] == to_seat(room.players, seat, event));
        },
        PlayerPosition::South => {
            assert(all[(n.len() + e.len()) as int] == to_seat(room.players, seat, event));
        },
        PlayerPosition::West => {
            assert(all[(n.len() + e.len() + s.len()) as int] == to_seat(room.players, seat, event));
        },
    }
}

} // verus!
