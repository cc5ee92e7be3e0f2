//! What holds of the matchmaker as a whole: the invariant of the manager and
//! the steps that keep it.

use vstd::prelude::*;
use crate::game::lemma_fresh_deal_wf;
use crate::manager::{
    has_id, index_of_id, is_first_with_id, without_id, Draw, ManagerView, Place,
};
use crate::messages::OutboundView;
use crate::position::PlayerPosition;
use crate::room::{seat_number, RoomView};
use crate::session::{SessionChange, SessionView};

verus! {

/// The first room of an identifier is the one that `index_of_id` names.
pub proof fn lemma_first_with_id(rooms: Seq<RoomView>, id: Seq<char>, i: int)
    requires
        is_first_with_id(rooms, id, i),
    ensures
        has_id(rooms, id),
        index_of_id(rooms, id) == i,
{
    let j = index_of_id(rooms, id);
    assert(is_first_with_id(rooms, id, j));
    if j < i {
        assert(rooms[j].id != id);
    } else if i < j {
        assert(rooms[i].id != id);
    }
}

/// Where a room has the identifier, `index_of_id` names the first such room.
pub proof fn lemma_has_first(rooms: Seq<RoomView>, id: Seq<char>)
    requires
        has_id(rooms, id),
    ensures
        is_first_with_id(rooms, id, index_of_id(rooms, id)),
{
    let some = choose|i: int| 0 <= i < rooms.len() && (#[trigger] rooms[i]).id == id;
    let first = lemma_scan_for_id(rooms, id, 0, some);
}

proof fn lemma_scan_for_id(rooms: Seq<RoomView>, id: Seq<char>, from: int, some: int) -> (first:
    int)
    requires
        0 <= from <= some < rooms.len(),
        rooms[some].id == id,
        forall|j: int| 0 <= j < from ==> (#[trigger] rooms[j]).id != id,
    ensures
        is_first_with_id(rooms, id, first),
    decreases some - from,
{
    if rooms[from].id == id {
        from
    } else {
        lemma_scan_for_id(rooms, id, from + 1, some)
    }
}

/// Taking a room out of a sound manager leaves a sound manager.
pub proof fn lemma_removed_sound(manager: ManagerView, k: int)
    requires
        manager.sound(),
        0 <= k < manager.active_rooms.len(),
    ensures
        (ManagerView { active_rooms: manager.active_rooms.remove(k), ..manager }).sound(),
{
    {
        let after = ManagerView { active_rooms: manager.active_rooms.remove(k), ..manager };
        assert forall|r: int| 0 <= r < after.active_rooms.len() implies (
        #[trigger] after.active_rooms[r]) == manager.active_rooms[if r < k {
            r
        } else {
            r + 1
        }] by {}
        assert(after.queue_apart()) by {
            assert forall|i: int, r: int|
                0 <= i < after.waiting_queue.len() && 0 <= r < after.active_rooms.len() implies (
            #[trigger] after.active_rooms[r]).seat_of((#[trigger] after.waiting_queue[i]).id)
                is None by {
                let r0 = if r < k { r } else { r + 1 };
                assert(manager.active_rooms[r0].seat_of(manager.waiting_queue[i].id) is None);
            }
        }
        assert(after.seats_distinct()) by {
            assert forall|r: int, p: PlayerPosition|
                #![trigger after.active_rooms[r].players.at(p)]
                0 <= r < after.active_rooms.len() implies after.active_rooms[r].seat_of(
                after.active_rooms[r].players.at(p).id,
            ) == Some(p) by {
                let r0 = if r < k { r } else { r + 1 };
                assert(manager.active_rooms[r0].seat_of(manager.active_rooms[r0].players.at(p).id)
                    == Some(p));
            }
            assert forall|r: int, s: int, p: PlayerPosition|
                #![trigger after.active_rooms[s], after.active_rooms[r].players.at(p)]
                0 <= r < after.active_rooms.len() && 0 <= s < after.active_rooms.len() && r
                    != s implies after.active_rooms[s].seat_of(
                after.active_rooms[r].players.at(p).id,
            ) is None by {
                let r0 = if r < k { r } else { r + 1 };
                let s0 = if s < k { s } else { s + 1 };
                assert(manager.active_rooms[s0].seat_of(manager.active_rooms[r0].players.at(p).id)
                    is None);
            }
        }
        assert(after.ids_distinct()) by {
            assert forall|r: int, s: int| 0 <= r < s < after.active_rooms.len() implies (
            #[trigger] after.active_rooms[r]).id != (#[trigger] after.active_rooms[s]).id by {
                let r0 = if r < k { r } else { r + 1 };
                let s0 = if s < k { s } else { s + 1 };
                assert(manager.active_rooms[r0].id != manager.active_rooms[s0].id);
            }
        }
        assert forall|r: int| 0 <= r < after.active_rooms.len() implies (
        #[trigger] after.active_rooms[r]).wf() by {
            let r0 = if r < k { r } else { r + 1 };
            assert(manager.active_rooms[r0].wf());
        }
    }
}

/// Closing a room of a sound manager leaves a sound manager.
pub proof fn lemma_closed_sound(manager: ManagerView, id: Seq<char>)
    requires
        manager.sound(),
    ensures
        manager.closed(id).sound(),
{
    if has_id(manager.active_rooms, id) {
        lemma_has_first(manager.active_rooms, id);
        lemma_removed_sound(manager, index_of_id(manager.active_rooms, id));
    }
}

/// Forming a room from the first four of the queue of a sound manager leaves
/// a sound manager.
pub proof fn lemma_seated_four_sound(manager: ManagerView, draw: Draw)
    requires
        manager.sound(),
        manager.waiting_queue.len() >= 4,
        draw.state.is_new_match(),
    ensures
        manager.seated_four(draw).sound(),
{
    let room = manager.next_room(draw);
    let kept = manager.closed(draw.id);
    lemma_closed_sound(manager, draw.id);
    let after = manager.seated_four(draw);
    let n = kept.active_rooms.len() as int;
    assert(after.active_rooms =~= kept.active_rooms.push(room));
    lemma_fresh_deal_wf(draw.state);
    assert(room.wf());
    let q = manager.waiting_queue;
    assert(q[0].id != q[1].id && q[0].id != q[2].id && q[0].id != q[3].id && q[1].id != q[2].id
        && q[1].id != q[3].id && q[2].id != q[3].id);
    assert forall|i: int| 0 <= i < after.waiting_queue.len() implies (
    #[trigger] after.waiting_queue[i]) == q[i + 4] by {}
    assert(after.queue_distinct()) by {
        assert forall|i: int, j: int| 0 <= i < j < after.waiting_queue.len() implies (
        #[trigger] after.waiting_queue[i]).id != (#[trigger] after.waiting_queue[j]).id by {
            assert(q[i + 4].id != q[j + 4].id);
        }
    }
    assert forall|p: PlayerPosition|
        #![auto]
        room.players.at(p) == q[seat_number(p)] by {}
    assert(after.queue_apart()) by {
        assert forall|i: int, r: int|
            0 <= i < after.waiting_queue.len() && 0 <= r < after.active_rooms.len() implies (
        #[trigger] after.active_rooms[r]).seat_of((#[trigger] after.waiting_queue[i]).id)
            is None by {
            if r < n {
                assert(kept.active_rooms[r].seat_of(kept.waiting_queue[i + 4].id) is None);
            } else {
                assert(q[0].id != q[i + 4].id && q[1].id != q[i + 4].id && q[2].id != q[i + 4].id
                    && q[3].id != q[i + 4].id);
            }
        }
    }
    assert(after.seats_distinct()) by {
        assert forall|r: int, p: PlayerPosition|
            #![trigger after.active_rooms[r].players.at(p)]
            0 <= r < after.active_rooms.len() implies after.active_rooms[r].seat_of(
            after.active_rooms[r].players.at(p).id,
        ) == Some(p) by {
            if r < n {
                assert(kept.active_rooms[r].seat_of(kept.active_rooms[r].players.at(p).id)
                    == Some(p));
            }
        }
        assert forall|r: int, s: int, p: PlayerPosition|
            #![trigger after.active_rooms[s], after.active_rooms[r].players.at(p)]
            0 <= r < after.active_rooms.len() && 0 <= s < after.active_rooms.len() && r
                != s implies after.active_rooms[s].seat_of(
            after.active_rooms[r].players.at(p).id,
        ) is None by {
            if r < n && s < n {
                assert(kept.active_rooms[s].seat_of(kept.active_rooms[r].players.at(p).id)
                    is None);
            } else if r < n {
                // a seated player is in none of the first four of the queue
                let uid = kept.active_rooms[r].players.at(p).id;
                assert(kept.active_rooms[r].seat_of(uid) == Some(p));
                assert(kept.active_rooms[r].seat_of(kept.waiting_queue[0].id) is None);
                assert(kept.active_rooms[r].seat_of(kept.waiting_queue[1].id) is None);
                assert(kept.active_rooms[r].seat_of(kept.waiting_queue[2].id) is None);
                assert(kept.active_rooms[r].seat_of(kept.waiting_queue[3].id) is None);
            } else {
                let k = seat_number(p);
                assert(kept.active_rooms[s].seat_of(kept.waiting_queue[k].id) is None);
            }
        }
    }
    assert(after.ids_distinct()) by {
        assert forall|r: int, s: int| 0 <= r < s < after.active_rooms.len() implies (
        #[trigger] after.active_rooms[r]).id != (#[trigger] after.active_rooms[s]).id by {
            if s < n {
                assert(kept.active_rooms[r].id != kept.active_rooms[s].id);
            } else {
                lemma_without_id_absent(manager.active_rooms, draw.id, r);
            }
        }
    }
    assert forall|r: int| 0 <= r < after.active_rooms.len() implies (
    #[trigger] after.active_rooms[r]).wf() by {
        if r < n {
            assert(kept.active_rooms[r].wf());
        }
    }
}

/// Where no two rooms share an identifier, none of the rooms left after a
/// room of identifier `id` has gone has that identifier.
pub proof fn lemma_without_id_absent(rooms: Seq<RoomView>, id: Seq<char>, r: int)
    requires
        forall|a: int, b: int| 0 <= a < b < rooms.len() ==> (#[trigger] rooms[a]).id != (
        #[trigger] rooms[b]).id,
        0 <= r < without_id(rooms, id).len(),
    ensures
        without_id(rooms, id)[r].id != id,
{
    if has_id(rooms, id) {
        let k = index_of_id(rooms, id);
        lemma_has_first(rooms, id);
        let r0 = if r < k { r } else { r + 1 };
        assert(without_id(rooms, id)[r] == rooms[r0]);
        if r0 < k {
            assert(rooms[r0].id != rooms[k].id);
        } else {
            assert(rooms[k].id != rooms[r0].id);
        }
    } else {
        assert(rooms[r].id != id);
    }
}

/// A session whose player is neither waiting nor seated may join the queue
/// of a sound manager.
pub proof fn lemma_enqueued_sound(manager: ManagerView, session: SessionView)
    requires
        manager.sound(),
        manager.join_verdict(session.id) is Ok,
    ensures
        manager.enqueued(session).sound(),
{
    let after = manager.enqueued(session);
    let n = manager.waiting_queue.len() as int;
    assert(after.queue_distinct()) by {
        assert forall|i: int, j: int| 0 <= i < j < after.waiting_queue.len() implies (
        #[trigger] after.waiting_queue[i]).id != (#[trigger] after.waiting_queue[j]).id by {
            if j < n {
                assert(manager.waiting_queue[i].id != manager.waiting_queue[j].id);
            } else {
                assert(manager.waiting_queue[i].id != session.id);
            }
        }
    }
    assert(after.queue_apart()) by {
        assert forall|i: int, r: int|
            0 <= i < after.waiting_queue.len() && 0 <= r < after.active_rooms.len() implies (
        #[trigger] after.active_rooms[r]).seat_of((#[trigger] after.waiting_queue[i]).id)
            is None by {
            if i < n {
                assert(manager.active_rooms[r].seat_of(manager.waiting_queue[i].id) is None);
            } else {
                assert(manager.active_rooms[r].seat_of(session.id) is None);
            }
        }
    }
}

/// A scan for a player ends in one place only.
pub proof fn lemma_place_unique(manager: ManagerView, uid: Seq<char>, place: Place)
    requires
        manager.is_place_of(uid, place),
    ensures
        forall|other: Place| manager.is_place_of(uid, other) ==> other == place,
        manager.seated(uid) || manager.queued(uid),
{
    assert forall|other: Place| manager.is_place_of(uid, other) implies other == place by {
        match (place, other) {
            (Place::Seat { room: r1, position: p1 }, Place::Seat { room: r2, position: p2 }) => {
                if r1 < r2 {
                    assert(manager.active_rooms[r1 as int].seat_of(uid) is None);
                } else if r2 < r1 {
                    assert(manager.active_rooms[r2 as int].seat_of(uid) is None);
                }
            },
            (Place::Seat { room: r1, position: p1 }, Place::Queue { index: i2 }) => {
                assert(manager.active_rooms[r1 as int].seat_of(uid) is Some);
            },
            (Place::Queue { index: i1 }, Place::Seat { room: r2, position: p2 }) => {
                assert(manager.active_rooms[r2 as int].seat_of(uid) is Some);
            },
            (Place::Queue { index: i1 }, Place::Queue { index: i2 }) => {
                if i1 < i2 {
                    assert(manager.waiting_queue[i1 as int].id != uid);
                } else if i2 < i1 {
                    assert(manager.waiting_queue[i2 as int].id != uid);
                }
            },
        }
    }
    match place {
        Place::Seat { room, position } => {
            assert(manager.active_rooms[room as int].seat_of(uid) is Some);
        },
        Place::Queue { index } => {
            assert(manager.waiting_queue[index as int].id == uid);
        },
    }
}

/// In a sound manager a player has no session but the one a scan finds.
pub proof fn lemma_one_session(manager: ManagerView, uid: Seq<char>, place: Place, other: Place)
    requires
        manager.sound(),
        manager.is_place_of(uid, place),
        manager.has_place(other),
        manager.session_at(other).id == uid,
    ensures
        other == place,
{
    match other {
        Place::Seat { room, position } => {
            let r = room as int;
            assert(manager.active_rooms[r].players.at(position).id == uid);
            assert(manager.active_rooms[r].seat_of(uid) == Some(position));
            match place {
                Place::Seat { room: found, position: seat } => {
                    if found != room {
                        assert(manager.active_rooms[found as int].seat_of(
                            manager.active_rooms[r].players.at(position).id,
                        ) is None);
                    }
                },
                Place::Queue { index } => {},
            }
        },
        Place::Queue { index } => {
            let i = index as int;
            match place {
                Place::Seat { room: found, position: seat } => {
                    assert(manager.active_rooms[found as int].seat_of(manager.waiting_queue[i].id)
                        is None);
                },
                Place::Queue { index: first } => {
                    if first < index {
                        assert(manager.waiting_queue[first as int].id
                            != manager.waiting_queue[i].id);
                    } else if index < first {
                        assert(manager.waiting_queue[i].id != uid);
                    }
                },
            }
        },
    }
}

/// Replacing a room by one with the same identifier and the same seated
/// sessions, itself in good order, leaves a sound manager sound.
pub proof fn lemma_room_replaced_sound(manager: ManagerView, k: int, room: RoomView)
    requires
        manager.sound(),
        0 <= k < manager.active_rooms.len(),
        room.id == manager.active_rooms[k].id,
        room.players == manager.active_rooms[k].players,
        room.wf(),
    ensures
        (ManagerView { active_rooms: manager.active_rooms.update(k, room), ..manager }).sound(),
{
    let after = ManagerView { active_rooms: manager.active_rooms.update(k, room), ..manager };
    assert forall|r: int, uid: Seq<char>| 0 <= r < after.active_rooms.len() implies (
    #[trigger] after.active_rooms[r].seat_of(uid)) == manager.active_rooms[r].seat_of(uid) by {}
    assert(after.queue_apart()) by {
        assert forall|i: int, r: int|
            0 <= i < after.waiting_queue.len() && 0 <= r < after.active_rooms.len() implies (
        #[trigger] after.active_rooms[r]).seat_of((#[trigger] after.waiting_queue[i]).id)
            is None by {
            assert(manager.active_rooms[r].seat_of(manager.waiting_queue[i].id) is None);
        }
    }
    assert(after.seats_distinct()) by {
        assert forall|r: int, p: PlayerPosition|
            #![trigger after.active_rooms[r].players.at(p)]
            0 <= r < after.active_rooms.len() implies after.active_rooms[r].seat_of(
            after.active_rooms[r].players.at(p).id,
        ) == Some(p) by {
            assert(manager.active_rooms[r].seat_of(manager.active_rooms[r].players.at(p).id)
                == Some(p));
        }
        assert forall|r: int, s: int, p: PlayerPosition|
            #![trigger after.active_rooms[s], after.active_rooms[r].players.at(p)]
            0 <= r < after.active_rooms.len() && 0 <= s < after.active_rooms.len() && r
                != s implies after.active_rooms[s].seat_of(
            after.active_rooms[r].players.at(p).id,
        ) is None by {
            assert(manager.active_rooms[s].seat_of(manager.active_rooms[r].players.at(p).id)
                is None);
        }
    }
    assert(after.ids_distinct()) by {
        assert forall|r: int, s: int| 0 <= r < s < after.active_rooms.len() implies (
        #[trigger] after.active_rooms[r]).id != (#[trigger] after.active_rooms[s]).id by {
            assert(manager.active_rooms[r].id != manager.active_rooms[s].id);
        }
    }
    assert forall|r: int| 0 <= r < after.active_rooms.len() implies (
    #[trigger] after.active_rooms[r]).wf() by {
        if r != k {
            assert(manager.active_rooms[r].wf());
        }
    }
}

/// Marking the sessions of a channel as dropped out leaves a sound manager
/// sound.
pub proof fn lemma_without_channel_sound(manager: ManagerView, sender: u64)
    ensures
        manager.sound() ==> manager.without_channel(sender).sound(),
        manager.without_channel(sender).waiting_queue.len() == manager.waiting_queue.len(),
{
    let after = manager.without_channel(sender);
    assert forall|r: int, uid: Seq<char>| 0 <= r < after.active_rooms.len() implies (
    #[trigger] after.active_rooms[r].seat_of(uid)) == manager.active_rooms[r].seat_of(uid) by {}
    if manager.sound() {
        assert(after.queue_distinct()) by {
            assert forall|i: int, j: int| 0 <= i < j < after.waiting_queue.len() implies (
            #[trigger] after.waiting_queue[i]).id != (#[trigger] after.waiting_queue[j]).id by {
                assert(manager.waiting_queue[i].id != manager.waiting_queue[j].id);
            }
        }
        assert(after.queue_apart()) by {
            assert forall|i: int, r: int|
                0 <= i < after.waiting_queue.len() && 0 <= r < after.active_rooms.len() implies (
            #[trigger] after.active_rooms[r]).seat_of((#[trigger] after.waiting_queue[i]).id)
                is None by {
                assert(manager.active_rooms[r].seat_of(manager.waiting_queue[i].id) is None);
            }
        }
        assert(after.seats_distinct()) by {
            assert forall|r: int, p: PlayerPosition|
                #![trigger after.active_rooms[r].players.at(p)]
                0 <= r < after.active_rooms.len() implies after.active_rooms[r].seat_of(
                after.active_rooms[r].players.at(p).id,
            ) == Some(p) by {
                assert(manager.active_rooms[r].seat_of(manager.active_rooms[r].players.at(p).id)
                    == Some(p));
            }
            assert forall|r: int, s: int, p: PlayerPosition|
                #![trigger after.active_rooms[s], after.active_rooms[r].players.at(p)]
                0 <= r < after.active_rooms.len() && 0 <= s < after.active_rooms.len() && r
                    != s implies after.active_rooms[s].seat_of(
                after.active_rooms[r].players.at(p).id,
            ) is None by {
                assert(manager.active_rooms[s].seat_of(manager.active_rooms[r].players.at(p).id)
                    is None);
            }
        }
        assert(after.ids_distinct()) by {
            assert forall|r: int, s: int| 0 <= r < s < after.active_rooms.len() implies (
            #[trigger] after.active_rooms[r]).id != (#[trigger] after.active_rooms[s]).id by {
                assert(manager.active_rooms[r].id != manager.active_rooms[s].id);
            }
        }
        assert forall|r: int| 0 <= r < after.active_rooms.len() implies (
        #[trigger] after.active_rooms[r]).wf() by {
            assert(manager.active_rooms[r].wf());
        }
    }
}

/// A change to a session leaves a sound manager sound, and a scan for any
/// player ends where it ended before.
pub proof fn lemma_change_keeps_sound(manager: ManagerView, place: Place, change: SessionChange)
    requires
        manager.has_place(place),
    ensures
        manager.sound() ==> manager.with_session(
            place,
            manager.session_at(place).changed(change),
        ).sound(),
        manager.with_session(place, manager.session_at(place).changed(change)).waiting_queue.len()
            == manager.waiting_queue.len(),
        forall|uid: Seq<char>, at: Place|
            manager.is_place_of(uid, at) ==> manager.with_session(
                place,
                manager.session_at(place).changed(change),
            ).is_place_of(uid, at),
{
    let after = manager.with_session(place, manager.session_at(place).changed(change));
    assert(after.waiting_queue.len() == manager.waiting_queue.len());
    assert(after.active_rooms.len() == manager.active_rooms.len());
    assert forall|i: int| 0 <= i < after.waiting_queue.len() implies (
    #[trigger] after.waiting_queue[i]).id == manager.waiting_queue[i].id by {}
    assert forall|r: int| 0 <= r < after.active_rooms.len() implies (
    #[trigger] after.active_rooms[r]).id == manager.active_rooms[r].id && after.active_rooms[r].state
        == manager.active_rooms[r].state && (forall|p: PlayerPosition|
        (#[trigger] after.active_rooms[r].players.at(p)).id == manager.active_rooms[r].players.at(
            p,
        ).id) by {}
    assert forall|r: int, uid: Seq<char>| 0 <= r < after.active_rooms.len() implies (
    #[trigger] after.active_rooms[r].seat_of(uid)) == manager.active_rooms[r].seat_of(uid) by {
        assert(after.active_rooms[r].players.at(PlayerPosition::North).id
            == manager.active_rooms[r].players.at(PlayerPosition::North).id);
        assert(after.active_rooms[r].players.at(PlayerPosition::East).id
            == manager.active_rooms[r].players.at(PlayerPosition::East).id);
        assert(after.active_rooms[r].players.at(PlayerPosition::South).id
            == manager.active_rooms[r].players.at(PlayerPosition::South).id);
        assert(after.active_rooms[r].players.at(PlayerPosition::West).id
            == manager.active_rooms[r].players.at(PlayerPosition::West).id);
    }
    if manager.sound() {
        assert(after.queue_distinct()) by {
            assert forall|i: int, j: int| 0 <= i < j < after.waiting_queue.len() implies (
            #[trigger] after.waiting_queue[i]).id != (#[trigger] after.waiting_queue[j]).id by {
                assert(manager.waiting_queue[i].id != manager.waiting_queue[j].id);
            }
        }
        assert(after.queue_apart()) by {
            assert forall|i: int, r: int|
                0 <= i < after.waiting_queue.len() && 0 <= r < after.active_rooms.len() implies (
            #[trigger] after.active_rooms[r]).seat_of((#[trigger] after.waiting_queue[i]).id)
                is None by {
                assert(manager.active_rooms[r].seat_of(manager.waiting_queue[i].id) is None);
            }
        }
        assert(after.seats_distinct()) by {
            assert forall|r: int, p: PlayerPosition|
                #![trigger after.active_rooms[r].players.at(p)]
                0 <= r < after.active_rooms.len() implies after.active_rooms[r].seat_of(
                after.active_rooms[r].players.at(p).id,
            ) == Some(p) by {
                assert(manager.active_rooms[r].seat_of(manager.active_rooms[r].players.at(p).id)
                    == Some(p));
            }
            assert forall|r: int, s: int, p: PlayerPosition|
                #![trigger after.active_rooms[s], after.active_rooms[r].players.at(p)]
                0 <= r < after.active_rooms.len() && 0 <= s < after.active_rooms.len() && r
                    != s implies after.active_rooms[s].seat_of(
                after.active_rooms[r].players.at(p).id,
            ) is None by {
                assert(manager.active_rooms[s].seat_of(manager.active_rooms[r].players.at(p).id)
                    is None);
            }
        }
        assert(after.ids_distinct()) by {
            assert forall|r: int, s: int| 0 <= r < s < after.active_rooms.len() implies (
            #[trigger] after.active_rooms[r]).id != (#[trigger] after.active_rooms[s]).id by {
                assert(manager.active_rooms[r].id != manager.active_rooms[s].id);
            }
        }
        assert forall|r: int| 0 <= r < after.active_rooms.len() implies (
        #[trigger] after.active_rooms[r]).wf() by {
            assert(manager.active_rooms[r].wf());
        }
    }
    assert forall|uid: Seq<char>, at: Place| manager.is_place_of(uid, at) implies after.is_place_of(
        uid,
        at,
    ) by {
        match at {
            Place::Seat { room, position } => {
                assert forall|j: int| 0 <= j < room implies (
                #[trigger] after.active_rooms[j]).seat_of(uid) is None by {
                    assert(manager.active_rooms[j].seat_of(uid) is None);
                }
            },
            Place::Queue { index } => {
                assert forall|j: int| 0 <= j < index implies (#[trigger] after.waiting_queue[j]).id
                    != uid by {
                    assert(manager.waiting_queue[j].id != uid);
                }
                if after.seated(uid) {
                    let r = choose|r: int|
                        0 <= r < after.active_rooms.len() && (#[trigger] after.active_rooms[r]).seat_of(
                            uid,
                        ) is Some;
                    assert(manager.active_rooms[r].seat_of(uid) is Some);
                }
            },
        }
    }
}

/// Forming rooms from a sound manager leaves a sound manager, with four
/// sessions gone from the head of the queue for every room formed.
pub proof fn lemma_formed_sound(manager: ManagerView, draws: Seq<Draw>)
    requires
        manager.sound(),
        4 * draws.len() <= manager.waiting_queue.len(),
        forall|i: int| 0 <= i < draws.len() ==> (#[trigger] draws[i]).state.is_new_match(),
    ensures
        manager.formed(draws).0.sound(),
        manager.formed(draws).0.waiting_queue == manager.waiting_queue.skip(4 * draws.len() as int),
    decreases draws.len(),
{
    if draws.len() == 0 {
        assert(manager.waiting_queue.skip(0) =~= manager.waiting_queue);
    } else {
        let earlier = draws.drop_last();
        assert forall|i: int| 0 <= i < earlier.len() implies (
        #[trigger] earlier[i]).state.is_new_match() by {
            assert(earlier[i] == draws[i]);
        }
        lemma_formed_sound(manager, earlier);
        let before = manager.formed(earlier).0;
        lemma_seated_four_sound(before, draws.last());
        assert(before.waiting_queue.skip(4) =~= manager.waiting_queue.skip(4 * draws.len() as int));
    }
}

/// A player who waits or is seated is refused by `join`, and no other is. An
/// admitted session leaves the queue without a second session of any player
/// and shorter than four, and the manager in good order.
pub proof fn lemma_join_admits_once(
    manager: ManagerView,
    session: SessionView,
    after: ManagerView,
    sent: Seq<OutboundView>,
)
    requires
        manager.wf(),
    ensures
        manager.join_verdict(session.id) is Err <==> manager.queued(session.id) || manager.seated(
            session.id,
        ),
        manager.join_verdict(session.id) is Ok && manager.enqueued(session).forms(after, sent)
            ==> after.wf() && after.queue_distinct() && after.waiting_queue.len()
            <= manager.waiting_queue.len() + 1,
{
    if manager.join_verdict(session.id) is Ok && manager.enqueued(session).forms(after, sent) {
        let joined = manager.enqueued(session);
        lemma_enqueued_sound(manager, session);
        let draws = choose|draws: Seq<Draw>|
            joined.draws_fit(draws) && (#[trigger] joined.formed(draws)).0 == after
                && joined.formed(draws).1 == sent;
        lemma_formed_sound(joined, draws);
    }
}

} // verus!
