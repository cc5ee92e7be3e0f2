//! The server's record of one authenticated player, whatever connection the
//! player is on.

use vstd::prelude::*;

verus! {

/// Milliseconds without a sign of life after which a seat counts as stale.
pub const STALE_AFTER_MS: u64 = 15000;

/// The record of one authenticated player.
#[derive(Debug, Clone)]
pub struct PlayerSession {
    /// The player's stable identity.
    pub id: String,
    /// The outbound channel of the connection the player is on.
    pub sender: u64,
    /// False once the player has been seen to drop out.
    pub is_connected: bool,
    /// When the player last gave a sign of life, in milliseconds of a clock
    /// that never runs backwards.
    pub last_ping: u64,
}

/// The mathematical value of a [`PlayerSession`].
#[verifier::ext_equal]
pub struct SessionView {
    pub id: Seq<char>,
    pub sender: u64,
    pub is_connected: bool,
    pub last_ping: u64,
}

impl View for PlayerSession {
    type V = SessionView;

    open spec fn view(&self) -> SessionView {
        SessionView {
            id: self.id@,
            sender: self.sender,
            is_connected: self.is_connected,
            last_ping: self.last_ping,
        }
    }
}

/// A change to a session that leaves the player's identity as it is.
#[derive(Debug, Clone, Copy, PartialEq, Eq, Structural)]
pub enum SessionChange {
    /// Bind the session to the channel of a new connection.
    Rebind { sender: u64 },
    /// Record a sign of life.
    Touch { now: u64 },
    /// Mark the player as dropped out.
    Disconnect,
}

impl SessionView {
    /// The session after `change`.
    pub open spec fn changed(self, change: SessionChange) -> SessionView {
        match change {
            SessionChange::Rebind { sender } => self.rebound(sender),
            SessionChange::Touch { now } => self.touched(now),
            SessionChange::Disconnect => self.disconnected(),
        }
    }

    /// True when the last sign of life lies more than the limit before `now`.
    pub open spec fn is_stale(self, now: u64) -> bool {
        now - self.last_ping > STALE_AFTER_MS
    }

    /// The session bound to another connection's channel, and connected.
    pub open spec fn rebound(self, sender: u64) -> SessionView {
        SessionView { sender, is_connected: true, ..self }
    }

    /// The session marked as dropped out.
    pub open spec fn disconnected(self) -> SessionView {
        SessionView { is_connected: false, ..self }
    }

    /// The session with a sign of life at `now`.
    pub open spec fn touched(self, now: u64) -> SessionView {
        SessionView { last_ping: now, ..self }
    }
}

impl PlayerSession {
    /// The session of player `id` on channel `sender`, connected, with its
    /// first sign of life at `now`.
    pub fn new(id: String, sender: u64, now: u64) -> (session: PlayerSession)
        ensures
            session@ == (SessionView { id: id@, sender, is_connected: true, last_ping: now }),
    {
        PlayerSession { id, sender, is_connected: true, last_ping: now }
    }

    /// True while the player has not been seen to drop out.
    pub fn is_connected(&self) -> (connected: bool)
        ensures
            connected == self@.is_connected,
    {
        self.is_connected
    }

    /// Marks the player as connected.
    pub fn mark_as_connected(&mut self)
        ensures
            final(self)@ == (SessionView { is_connected: true, ..old(self)@ }),
    {
        self.is_connected = true;
    }

    /// Marks the player as dropped out.
    pub fn mark_as_disconnected(&mut self)
        ensures
            final(self)@ == old(self)@.disconnected(),
    {
        self.is_connected = false;
    }

    /// Records a sign of life at `now`.
    pub fn touch(&mut self, now: u64)
        ensures
            final(self)@ == old(self)@.touched(now),
    {
        self.last_ping = now;
    }

    /// Binds the session to the channel of a new connection and marks the
    /// player as connected. Identity and last sign of life stay.
    pub fn rebind(&mut self, sender: u64)
        ensures
            final(self)@ == old(self)@.rebound(sender),
    {
        self.sender = sender;
        self.is_connected = true;
    }

    /// True when the last sign of life lies more than fifteen seconds before
    /// `now`. A `now` before the last sign of life is no staleness.
    pub fn is_stale(&self, now: u64) -> (stale: bool)
        ensures
            stale == self@.is_stale(now),
    {
        now > self.last_ping && now - self.last_ping > STALE_AFTER_MS
    }

    /// Makes `change` to the session.
    pub fn apply(&mut self, change: SessionChange)
        ensures
            final(self)@ == old(self)@.changed(change),
    {
        match change {
            SessionChange::Rebind { sender } => self.rebind(sender),
            SessionChange::Touch { now } => self.touch(now),
            SessionChange::Disconnect => self.mark_as_disconnected(),
        }
    }

    /// True when the session is that of player `uid`.
    pub fn is_player(&self, uid: &String) -> (same: bool)
        ensures
            same == (self@.id == uid@),
    {
        self.id == *uid
    }
}

} // verus!
