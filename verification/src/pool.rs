//! The register of the connections of each client, in front of the open
//! lobby.

use vstd::prelude::*;
use crate::engine::{has_name, Player, SearchEngine};

verus! {

/// The channels on which each client can be reached, and the lobby.
#[derive(Debug)]
pub struct ConnectionPool {
    /// For each client that registered, its channels in the order in which
    /// they were registered.
    pub client_by_uid: Vec<(String, Vec<u64>)>,
    pub search_engine: SearchEngine,
}

/// The channels registered for client `uid`: those of the first entry for
/// the client, or none.
pub open spec fn channels_of(register: Seq<(String, Vec<u64>)>, uid: Seq<char>) -> Seq<u64>
    decreases register.len(),
{
    if register.len() == 0 {
        Seq::empty()
    } else if register[0].0@ == uid {
        register[0].1@
    } else {
        channels_of(register.drop_first(), uid)
    }
}

impl ConnectionPool {
    /// A pool without clients, in front of an empty lobby.
    pub fn new() -> (pool: ConnectionPool)
        ensures
            pool.client_by_uid@.len() == 0,
            pool.search_engine.player_queue@.len() == 0,
            pool.search_engine.rooms@.len() == 0,
    {
        ConnectionPool { client_by_uid: Vec::new(), search_engine: SearchEngine::new() }
    }

    /// Sends the client to the lobby as a player with an empty hand. Returns
    /// whether the lobby admitted the player.
    pub fn find_game(&mut self, client_uid: String, client_writer: u64) -> (admitted: bool)
        ensures
            admitted == !has_name(old(self).search_engine.player_queue@, client_uid@),
            admitted ==> {
                let queue = final(self).search_engine.player_queue@;
                &&& queue.len() == old(self).search_engine.player_queue@.len() + 1
                &&& queue.drop_last() == old(self).search_engine.player_queue@
                &&& queue.last().username@ == client_uid@
                &&& queue.last().hand@.len() == 0
                &&& queue.last().client_writer == client_writer
            },
            !admitted ==> final(self).search_engine.player_queue@
                == old(self).search_engine.player_queue@,
            final(self).client_by_uid@ == old(self).client_by_uid@,
            final(self).search_engine.rooms@ == old(self).search_engine.rooms@,
    {
        let player = Player { username: client_uid, hand: Vec::new(), client_writer };
        let admitted = self.search_engine.add_player(player);
        proof {
            if admitted {
                assert(self.search_engine.player_queue@.drop_last()
                    =~= old(self).search_engine.player_queue@);
            }
        }
        admitted
    }

    /// Registers one more channel for client `client_uid`.
    pub fn register_client(&mut self, client_uid: String, client_writer: u64)
        ensures
            channels_of(final(self).client_by_uid@, client_uid@) == channels_of(
                old(self).client_by_uid@,
                client_uid@,
            ).push(client_writer),
            forall|other: Seq<char>|
                other != client_uid@ ==> #[trigger] channels_of(final(self).client_by_uid@, other)
                    == channels_of(old(self).client_by_uid@, other),
            final(self).search_engine == old(self).search_engine,
    {
        let ghost before = self.client_by_uid@;
        let mut i: usize = 0;
        while i < self.client_by_uid.len() && !(self.client_by_uid[i].0 == client_uid)
            invariant
                i <= self.client_by_uid@.len(),
                self.client_by_uid@ == before,
                self.search_engine == old(self).search_engine,
                forall|k: int| 0 <= k < i ==> (#[trigger] before[k]).0@ != client_uid@,
            decreases self.client_by_uid@.len() - i,
        {
            i = i + 1;
        }
        if i < self.client_by_uid.len() {
            let (name, mut channels) = self.client_by_uid.remove(i);
            channels.push(client_writer);
            self.client_by_uid.insert(i, (name, channels));
            proof {
                let after = self.client_by_uid@;
                assert(after =~= before.update(i as int, after[i as int]));
                lemma_channels_updated(before, after[i as int], i as int, client_uid@);
                assert forall|other: Seq<char>| other != client_uid@ implies #[trigger] channels_of(
                    after,
                    other,
                ) == channels_of(before, other) by {
                    lemma_channels_updated(before, after[i as int], i as int, other);
                }
            }
        } else {
            let mut channels: Vec<u64> = Vec::new();
            channels.push(client_writer);
            self.client_by_uid.push((client_uid, channels));
            proof {
                let after = self.client_by_uid@;
                let entry = after[after.len() - 1];
                assert(after =~= before.push(entry));
                assert(entry.1@ =~= Seq::<u64>::empty().push(client_writer));
                lemma_channels_appended(before, entry, client_uid@);
                assert forall|other: Seq<char>| other != client_uid@ implies #[trigger] channels_of(
                    after,
                    other,
                ) == channels_of(before, other) by {
                    lemma_channels_appended(before, entry, other);
                }
            }
        }
    }
}

/// Replacing an entry by one for the same client changes the channels of
/// that client only, and of that client only where no earlier entry names it.
proof fn lemma_channels_updated(
    before: Seq<(String, Vec<u64>)>,
    entry: (String, Vec<u64>),
    i: int,
    uid: Seq<char>,
)
    requires
        0 <= i < before.len(),
        entry.0@ == before[i].0@,
    ensures
        before[i].0@ != uid ==> channels_of(before.update(i, entry), uid) == channels_of(
            before,
            uid,
        ),
        before[i].0@ == uid && (forall|k: int| 0 <= k < i ==> (#[trigger] before[k]).0@ != uid)
            ==> channels_of(before, uid) == before[i].1@ && channels_of(
            before.update(i, entry),
            uid,
        ) == entry.1@,
    decreases i,
{
    let after = before.update(i, entry);
    if i > 0 {
        assert(after[0] == before[0]);
        assert(after.drop_first() =~= before.drop_first().update(i - 1, entry));
        assert(before.drop_first()[i - 1] == before[i]);
        lemma_channels_updated(before.drop_first(), entry, i - 1, uid);
        if before[i].0@ == uid && (forall|k: int| 0 <= k < i ==> (#[trigger] before[k]).0@ != uid) {
            assert(before[0].0@ != uid);
            assert forall|k: int| 0 <= k < i - 1 implies (#[trigger] before.drop_first()[k]).0@
                != uid by {
                assert(before[k + 1].0@ != uid);
            }
        }
    } else {
        assert(after[0] == entry);
        assert(after.drop_first() =~= before.drop_first());
    }
}

/// An entry at the end of the register speaks for its client where no
/// earlier entry does, and for no other.
proof fn lemma_channels_appended(
    before: Seq<(String, Vec<u64>)>,
    entry: (String, Vec<u64>),
    uid: Seq<char>,
)
    ensures
        (forall|k: int| 0 <= k < before.len() ==> (#[trigger] before[k]).0@ != uid) ==> channels_of(
            before,
            uid,
        ) == Seq::<u64>::empty(),
        (forall|k: int| 0 <= k < before.len() ==> (#[trigger] before[k]).0@ != uid) && entry.0@
            == uid ==> channels_of(before.push(entry), uid) == entry.1@,
        entry.0@ != uid ==> channels_of(before.push(entry), uid) == channels_of(before, uid),
    decreases before.len(),
{
    let after = before.push(entry);
    if before.len() > 0 {
        assert(after[0] == before[0]);
        assert(after.drop_first() =~= before.drop_first().push(entry));
        lemma_channels_appended(before.drop_first(), entry, uid);
        if forall|k: int| 0 <= k < before.len() ==> (#[trigger] before[k]).0@ != uid {
            assert(before[0].0@ != uid);
            assert forall|k: int| 0 <= k < before.drop_first().len() implies (
            #[trigger] before.drop_first()[k]).0@ != uid by {
                assert(before[k + 1].0@ != uid);
            }
        }
    } else {
        assert(after[0] == entry);
        assert(after.drop_first() =~= Seq::<(String, Vec<u64>)>::empty());
        reveal_with_fuel(channels_of, 2);
    }
}

} // verus!
