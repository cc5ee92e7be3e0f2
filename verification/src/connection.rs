//! The inbound side of one connection: what each frame from a client does to
//! the connection and to the manager, and what is sent in answer.

use vstd::prelude::*;
use crate::cards::{Card, Rank, Suit};
use crate::manager::{GameManager, ManagerView, Place};
use crate::manager_proofs::{
    lemma_change_keeps_sound, lemma_one_session, lemma_removed_sound, lemma_room_replaced_sound,
};
use crate::messages::{
    outbox_view, EventView, Outbound, OutboundView, SubOrUnsub, WSEvent,
    WSIncomingMessage,
};
use crate::room::{deal_notice, push_event, GameRoom, RoomView};
use crate::session::{PlayerSession, SessionChange, SessionView};
use crate::text::{lowercase, spec_lowercase};

verus! {

/// The byte that a binary keepalive frame carries.
pub const KEEPALIVE: u8 = 9;

/// What the server keeps of one connection: the channel on which it answers
/// and, once the client is recognised, the player.
#[derive(Debug)]
pub struct Connection {
    /// The outbound channel of the connection.
    pub sender: u64,
    /// The player, from the first successful authentication on.
    pub client_uid: Option<String>,
}

/// The mathematical value of a [`Connection`].
#[verifier::ext_equal]
pub struct ConnectionView {
    pub sender: u64,
    pub client_uid: Option<Seq<char>>,
}

impl View for Connection {
    type V = ConnectionView;

    open spec fn view(&self) -> ConnectionView {
        ConnectionView {
            sender: self.sender,
            client_uid: match self.client_uid {
                Some(uid) => Some(uid@),
                None => None,
            },
        }
    }
}

/// A frame received from a client, as far as the server acts on it.
#[derive(Debug)]
pub enum Frame {
    /// A token was presented; `subject` is the player it was verified for,
    /// or `None` where it did not verify.
    Auth { subject: Option<String> },
    /// The client asks for a table.
    FindGame,
    /// The client plays a card, named by the texts of its rank and suit.
    PlayCard { rank: Option<String>, suit: Option<String> },
    /// An intent that is reserved and has no effect yet.
    Reserved,
    /// A text frame that is no message.
    Malformed,
    /// A binary frame.
    Binary(Vec<u8>),
    /// A ping with its payload.
    Ping(Vec<u8>),
    /// The client closes the connection.
    Close,
    /// Any other frame.
    Other,
}

/// The mathematical value of a [`Frame`].
#[verifier::ext_equal]
pub enum FrameView {
    Auth { subject: Option<Seq<char>> },
    FindGame,
    PlayCard { rank: Option<Seq<char>>, suit: Option<Seq<char>> },
    Reserved,
    Malformed,
    Binary(Seq<u8>),
    Ping(Seq<u8>),
    Close,
    Other,
}

/// The value of a text that may be missing.
pub open spec fn text_view(text: Option<String>) -> Option<Seq<char>> {
    match text {
        Some(t) => Some(t@),
        None => None,
    }
}

impl View for Frame {
    type V = FrameView;

    open spec fn view(&self) -> FrameView {
        match self {
            Frame::Auth { subject } => FrameView::Auth { subject: text_view(*subject) },
            Frame::FindGame => FrameView::FindGame,
            Frame::PlayCard { rank, suit } => FrameView::PlayCard {
                rank: text_view(*rank),
                suit: text_view(*suit),
            },
            Frame::Reserved => FrameView::Reserved,
            Frame::Malformed => FrameView::Malformed,
            Frame::Binary(data) => FrameView::Binary(data@),
            Frame::Ping(payload) => FrameView::Ping(payload@),
            Frame::Close => FrameView::Close,
            Frame::Other => FrameView::Other,
        }
    }
}

/// What the server does in answer to a frame.
#[derive(Debug)]
pub struct Reaction {
    /// The events to deliver, in order.
    pub outbound: Vec<Outbound>,
    /// The payload of the pong to send back on the connection, if any.
    pub pong: Option<Vec<u8>>,
    /// True when the connection is to be closed.
    pub close: bool,
    /// The room of a match that the frame brought to its end, taken from the
    /// registry.
    pub finished: Option<GameRoom>,
}

/// The mathematical value of a [`Reaction`].
#[verifier::ext_equal]
pub struct ReactionView {
    pub outbound: Seq<OutboundView>,
    pub pong: Option<Seq<u8>>,
    pub close: bool,
    pub finished: Option<RoomView>,
}

impl View for Reaction {
    type V = ReactionView;

    open spec fn view(&self) -> ReactionView {
        ReactionView {
            outbound: outbox_view(self.outbound@),
            pong: match self.pong {
                Some(payload) => Some(payload@),
                None => None,
            },
            close: self.close,
            finished: match self.finished {
                Some(room) => Some(room@),
                None => None,
            },
        }
    }
}

/// The rank that a token names: "7", "8", "9", "10", "j", "q", "k" or "a".
pub open spec fn spec_rank_of(token: Seq<char>) -> Option<Rank> {
    if token == "7"@ {
        Some(Rank::Seven)
    } else if token == "8"@ {
        Some(Rank::Eight)
    } else if token == "9"@ {
        Some(Rank::Nine)
    } else if token == "10"@ {
        Some(Rank::Ten)
    } else if token == "j"@ {
        Some(Rank::Jack)
    } else if token == "q"@ {
        Some(Rank::Queen)
    } else if token == "k"@ {
        Some(Rank::King)
    } else if token == "a"@ {
        Some(Rank::Ace)
    } else {
        None
    }
}

/// The suit that a token names: "c", "d", "h" or "s".
pub open spec fn spec_suit_of(token: Seq<char>) -> Option<Suit> {
    if token == "c"@ {
        Some(Suit::Clubs)
    } else if token == "d"@ {
        Some(Suit::Diamonds)
    } else if token == "h"@ {
        Some(Suit::Hearts)
    } else if token == "s"@ {
        Some(Suit::Spades)
    } else {
        None
    }
}

/// The card that the texts of a rank and a suit name, whatever their case,
/// or the complaint about the first of them that names nothing.
pub open spec fn spec_card_of(rank: Option<Seq<char>>, suit: Option<Seq<char>>) -> Result<
    Card,
    Seq<char>,
> {
    let rank = match rank {
        Some(text) => spec_rank_of(spec_lowercase(text)),
        None => None,
    };
    let suit = match suit {
        Some(text) => spec_suit_of(spec_lowercase(text)),
        None => None,
    };
    match (rank, suit) {
        (None, _) => Err("Invalid rank"@),
        (Some(_), None) => Err("Invalid suit"@),
        (Some(rank), Some(suit)) => Ok(Card { suit, rank }),
    }
}

/// True when `text` reads exactly as `word`.
fn reads(text: &str, word: &str) -> (same: bool)
    ensures
        same == (text@ == word@),
{
    text.to_owned() == word.to_owned()
}

/// The rank that the lower-case token `token` names.
pub fn rank_from_token(token: &str) -> (rank: Option<Rank>)
    ensures
        rank == spec_rank_of(token@),
{
    if reads(token, "7") {
        Some(Rank::Seven)
    } else if reads(token, "8") {
        Some(Rank::Eight)
    } else if reads(token, "9") {
        Some(Rank::Nine)
    } else if reads(token, "10") {
        Some(Rank::Ten)
    } else if reads(token, "j") {
        Some(Rank::Jack)
    } else if reads(token, "q") {
        Some(Rank::Queen)
    } else if reads(token, "k") {
        Some(Rank::King)
    } else if reads(token, "a") {
        Some(Rank::Ace)
    } else {
        None
    }
}

/// The suit that the lower-case token `token` names.
pub fn suit_from_token(token: &str) -> (suit: Option<Suit>)
    ensures
        suit == spec_suit_of(token@),
{
    if reads(token, "c") {
        Some(Suit::Clubs)
    } else if reads(token, "d") {
        Some(Suit::Diamonds)
    } else if reads(token, "h") {
        Some(Suit::Hearts)
    } else if reads(token, "s") {
        Some(Suit::Spades)
    } else {
        None
    }
}

/// The rank that `text` names, whatever its case.
pub fn parse_rank(text: &str) -> (rank: Option<Rank>)
    ensures
        rank == spec_rank_of(spec_lowercase(text@)),
{
    let lower = lowercase(text);
    rank_from_token(lower.as_str())
}

/// The suit that `text` names, whatever its case.
pub fn parse_suit(text: &str) -> (suit: Option<Suit>)
    ensures
        suit == spec_suit_of(spec_lowercase(text@)),
{
    let lower = lowercase(text);
    suit_from_token(lower.as_str())
}

/// The card that the texts of a rank and a suit name, or the complaint about
/// the first of them that is missing or names nothing.
pub fn parse_card(rank: &Option<String>, suit: &Option<String>) -> (card: Result<Card, String>)
    ensures
        match card {
            Ok(c) => spec_card_of(text_view(*rank), text_view(*suit)) == Ok::<Card, Seq<char>>(c),
            Err(complaint) => spec_card_of(text_view(*rank), text_view(*suit)) == Err::<
                Card,
                Seq<char>,
            >(complaint@),
        },
{
    let rank = match rank {
        Some(text) => parse_rank(text.as_str()),
        None => None,
    };
    let rank = match rank {
        Some(rank) => rank,
        None => {
            return Err("Invalid rank".to_owned());
        },
    };
    let suit = match suit {
        Some(text) => parse_suit(text.as_str()),
        None => None,
    };
    match suit {
        Some(suit) => Ok(Card { suit, rank }),
        None => Err("Invalid suit".to_owned()),
    }
}

/// The frame that a message stands for. For a token, `subject` is the player
/// it was verified for.
pub fn frame_of(message: WSIncomingMessage, subject: Option<String>) -> (frame: Frame)
    ensures
        frame@ == (match message {
            WSIncomingMessage::Auth(_) => FrameView::Auth { subject: text_view(subject) },
            WSIncomingMessage::Manage(SubOrUnsub::FindGame(_)) => FrameView::FindGame,
            WSIncomingMessage::Manage(SubOrUnsub::PlayCard(card)) => FrameView::PlayCard {
                rank: text_view(card.rank),
                suit: text_view(card.suit),
            },
            WSIncomingMessage::Manage(SubOrUnsub::Sub(_)) => FrameView::Reserved,
            WSIncomingMessage::Manage(SubOrUnsub::UnSub(_)) => FrameView::Reserved,
        }),
{
    match message {
        WSIncomingMessage::Auth(_) => Frame::Auth { subject },
        WSIncomingMessage::Manage(SubOrUnsub::FindGame(_)) => Frame::FindGame,
        WSIncomingMessage::Manage(SubOrUnsub::PlayCard(card)) => Frame::PlayCard {
            rank: card.rank,
            suit: card.suit,
        },
        WSIncomingMessage::Manage(SubOrUnsub::Sub(_)) => Frame::Reserved,
        WSIncomingMessage::Manage(SubOrUnsub::UnSub(_)) => Frame::Reserved,
    }
}

/// What the four seats of every room of `rooms` are told of their deal, room
/// by room.
pub open spec fn all_deal_notices(rooms: Seq<RoomView>) -> Seq<OutboundView>
    decreases rooms.len(),
{
    if rooms.len() == 0 {
        Seq::empty()
    } else {
        all_deal_notices(rooms.drop_last()) + deal_notice(
            rooms.last().players,
            rooms.last().state,
        )
    }
}

/// A reaction that sends nothing and leaves the connection open.
pub open spec fn quiet() -> ReactionView {
    ReactionView { outbound: Seq::empty(), pong: None, close: false, finished: None }
}

/// A reaction that sends `event` on the connection's own channel.
pub open spec fn answer(conn: ConnectionView, event: EventView) -> ReactionView {
    ReactionView { outbound: seq![OutboundView { sender: conn.sender, event }], ..quiet() }
}

/// The session with which a recognised connection asks for a table at `now`.
pub open spec fn session_of(conn: ConnectionView, now: u64) -> SessionView {
    SessionView { id: conn.client_uid->0, sender: conn.sender, is_connected: true, last_ping: now }
}

/// What a presented token leads to.
///
/// A token that verified makes the connection that of its player, answers
/// with the login, and binds a session that the player has in the manager to
/// this connection. A token that did not verify is answered with an error,
/// and the connection is closed.
pub open spec fn auth_outcome(
    conn: ConnectionView,
    manager: ManagerView,
    subject: Option<Seq<char>>,
    conn_after: ConnectionView,
    manager_after: ManagerView,
    reaction: ReactionView,
) -> bool {
    match subject {
        Some(uid) => {
            &&& conn_after == (ConnectionView { client_uid: Some(uid), ..conn })
            &&& manager.changes_session(
                uid,
                SessionChange::Rebind { sender: conn.sender },
                manager_after,
            )
            &&& reaction == answer(conn, EventView::SuccessLogin { username: uid })
        },
        None => {
            &&& conn_after == conn
            &&& manager_after == manager
            &&& reaction == (ReactionView {
                close: true,
                ..answer(conn, EventView::Error { detail: "Invalid token"@ })
            })
        },
    }
}

/// What a request for a table from a recognised connection leads to.
///
/// The player's new session joins the queue, and rooms are formed while four
/// wait; a player who waits or plays already is answered with the refusal.
/// Either way the seats of every room are then told their hands, and the
/// seat that is to play its turn.
pub open spec fn find_game_outcome(
    conn: ConnectionView,
    manager: ManagerView,
    now: u64,
    manager_after: ManagerView,
    reaction: ReactionView,
) -> bool {
    let notices = all_deal_notices(manager_after.active_rooms);
    let first = reaction.outbound.len() - notices.len();
    &&& reaction.pong is None
    &&& !reaction.close
    &&& reaction.finished is None
    &&& first >= 0
    &&& reaction.outbound.skip(first) == notices
    &&& match manager.join_verdict(conn.client_uid->0) {
        Ok(()) => manager.enqueued(session_of(conn, now)).forms(
            manager_after,
            reaction.outbound.take(first),
        ),
        Err(refusal) => manager_after == manager && reaction.outbound.take(first) == seq![
            OutboundView {
                sender: conn.sender,
                event: EventView::Error { detail: refusal.spec_detail() },
            },
        ],
    }
}

/// What `card` from the recognised connection's player leads to.
///
/// Nothing happens where the player is not seated. A refused card is
/// answered with the refusal. An accepted card carries the game of the
/// player's room as far as it goes and sends what that brings; a room whose
/// match is over leaves the registry and is handed back.
pub open spec fn card_outcome(
    conn: ConnectionView,
    manager: ManagerView,
    card: Card,
    manager_after: ManagerView,
    reaction: ReactionView,
) -> bool {
    let uid = conn.client_uid->0;
    if !manager.seated(uid) {
        manager_after == manager && reaction == quiet()
    } else {
        forall|r: int| #[trigger]
            manager.is_first_seated(uid, r) ==> {
                let room = manager.active_rooms[r];
                let seat = room.seat_of(uid)->0;
                match room.state.play_verdict(seat, card) {
                    Err(refusal) => manager_after == manager && reaction == answer(
                        conn,
                        EventView::Error { detail: refusal.spec_detail() },
                    ),
                    Ok(()) => {
                        let after = if reaction.finished is Some {
                            reaction.finished->0
                        } else {
                            manager_after.active_rooms[r]
                        };
                        &&& room.played(seat, card, after)
                        &&& reaction.outbound == room.play_events(seat, card, after.state)
                        &&& reaction.pong is None
                        &&& !reaction.close
                        &&& reaction.finished is Some <==> after.state.match_over()
                        &&& manager_after.waiting_queue == manager.waiting_queue
                        &&& manager_after.active_rooms == if after.state.match_over() {
                            manager.active_rooms.remove(r)
                        } else {
                            manager.active_rooms.update(r, after)
                        }
                    },
                }
            }
    }
}

/// What a frame leads to, by the kind of the frame and the state of the
/// connection.
pub open spec fn frame_outcome(
    conn: ConnectionView,
    manager: ManagerView,
    frame: FrameView,
    now: u64,
    conn_after: ConnectionView,
    manager_after: ManagerView,
    reaction: ReactionView,
) -> bool {
    let unauthorized = answer(conn, EventView::Error { detail: "Unauthorized"@ });
    match frame {
        FrameView::Auth { subject } => auth_outcome(
            conn,
            manager,
            subject,
            conn_after,
            manager_after,
            reaction,
        ),
        FrameView::FindGame => conn_after == conn && if conn.client_uid is None {
            manager_after == manager && reaction == unauthorized
        } else {
            find_game_outcome(conn, manager, now, manager_after, reaction)
        },
        FrameView::PlayCard { rank, suit } => conn_after == conn && if conn.client_uid is None {
            manager_after == manager && reaction == unauthorized
        } else {
            match spec_card_of(rank, suit) {
                Err(complaint) => manager_after == manager && reaction == answer(
                    conn,
                    EventView::Error { detail: complaint },
                ),
                Ok(card) => card_outcome(conn, manager, card, manager_after, reaction),
            }
        },
        FrameView::Binary(data) => conn_after == conn && reaction == quiet() && if data
            == seq![KEEPALIVE] && conn.client_uid is Some {
            manager.changes_session(
                conn.client_uid->0,
                SessionChange::Touch { now },
                manager_after,
            )
        } else {
            manager_after == manager
        },
        FrameView::Ping(payload) => conn_after == conn && reaction == (ReactionView {
            pong: Some(payload),
            ..quiet()
        }) && if conn.client_uid is Some {
            manager.changes_session(
                conn.client_uid->0,
                SessionChange::Touch { now },
                manager_after,
            )
        } else {
            manager_after == manager
        },
        FrameView::Close => conn_after == conn && reaction == (ReactionView {
            close: true,
            ..quiet()
        }) && manager_after == manager.without_channel(conn.sender),
        FrameView::Reserved | FrameView::Malformed | FrameView::Other => conn_after == conn
            && manager_after == manager && reaction == quiet(),
    }
}

/// A reaction that sends nothing.
fn no_reaction() -> (reaction: Reaction)
    ensures
        reaction@ == quiet(),
{
    let reaction = Reaction { outbound: Vec::new(), pong: None, close: false, finished: None };
    assert(reaction@.outbound =~= Seq::<OutboundView>::empty());
    reaction
}

/// A reaction that sends `event` on channel `sender`.
fn reply(sender: u64, event: WSEvent) -> (reaction: Reaction)
    ensures
        reaction@ == (ReactionView {
            outbound: seq![OutboundView { sender, event: event@ }],
            ..quiet()
        }),
{
    let mut outbound: Vec<Outbound> = Vec::new();
    assert(outbox_view(outbound@) =~= Seq::<OutboundView>::empty());
    push_event(&mut outbound, sender, event);
    let reaction = Reaction { outbound, pong: None, close: false, finished: None };
    assert(reaction@.outbound =~= seq![OutboundView { sender, event: event@ }]);
    reaction
}

/// Acts on a token presented on connection `conn`; `subject` is the player
/// it was verified for, or `None` where it did not verify.
pub fn handle_auth(
    conn: &mut Connection,
    manager: &mut GameManager,
    subject: Option<String>,
) -> (reaction: Reaction)
    ensures
        auth_outcome(
            old(conn)@,
            old(manager)@,
            text_view(subject),
            final(conn)@,
            final(manager)@,
            reaction@,
        ),
        old(manager)@.wf() ==> final(manager)@.wf(),
{
    match subject {
        Some(uid) => {
            let _ = manager.update_session(
                uid.as_str(),
                SessionChange::Rebind { sender: conn.sender },
            );
            let reaction = reply(conn.sender, WSEvent::SuccessLogin { username: uid.clone() });
            conn.client_uid = Some(uid);
            reaction
        },
        None => {
            let mut reaction = reply(
                conn.sender,
                WSEvent::Error { detail: "Invalid token".to_owned() },
            );
            reaction.close = true;
            reaction
        },
    }
}

impl Connection {
    /// A connection on channel `sender` whose client is not recognised yet.
    pub fn new(sender: u64) -> (conn: Connection)
        ensures
            conn@ == (ConnectionView { sender, client_uid: None }),
    {
        Connection { sender, client_uid: None }
    }

    /// True once the client has been recognised.
    pub fn is_authed(&self) -> (authed: bool)
        ensures
            authed == self@.client_uid is Some,
    {
        self.client_uid.is_some()
    }

    /// Acts on a request for a table at time `now`.
    pub fn on_find_game(&self, manager: &mut GameManager, now: u64) -> (reaction: Reaction)
        requires
            self@.client_uid is Some,
        ensures
            find_game_outcome(self@, old(manager)@, now, final(manager)@, reaction@),
            old(manager)@.wf() ==> final(manager)@.wf(),
    {
        let uid = match &self.client_uid {
            Some(uid) => uid.clone(),
            None => String::new(),
        };
        let session = PlayerSession::new(uid, self.sender, now);
        let mut outbound = match manager.join(session) {
            Ok(sent) => sent,
            Err(refusal) => {
                let mut sent: Vec<Outbound> = Vec::new();
                assert(outbox_view(sent@) =~= Seq::<OutboundView>::empty());
                push_event(&mut sent, self.sender, WSEvent::Error { detail: refusal.detail() });
                sent
            },
        };
        let ghost first = outbox_view(outbound@);
        let mut i: usize = 0;
        proof {
            assert(manager@.active_rooms.take(0) =~= Seq::<RoomView>::empty());
            assert(outbox_view(outbound@) =~= first + all_deal_notices(
                manager@.active_rooms.take(0),
            ));
        }
        while i < manager.active_rooms.len()
            invariant
                i <= manager@.active_rooms.len(),
                outbox_view(outbound@) == first + all_deal_notices(
                    manager@.active_rooms.take(i as int),
                ),
            decreases manager@.active_rooms.len() - i,
        {
            proof {
                let next = manager@.active_rooms.take(i + 1);
                assert(next.drop_last() =~= manager@.active_rooms.take(i as int));
                assert(next.last() == manager@.active_rooms[i as int]);
            }
            manager.active_rooms[i].push_deal_notice(&mut outbound);
            i = i + 1;
        }
        let reaction = Reaction { outbound, pong: None, close: false, finished: None };
        proof {
            assert(manager@.active_rooms.take(i as int) =~= manager@.active_rooms);
            let notices = all_deal_notices(manager@.active_rooms);
            assert(reaction@.outbound == first + notices);
            assert(reaction@.outbound.skip(first.len() as int) =~= notices);
            assert(reaction@.outbound.take(first.len() as int) =~= first);
        }
        reaction
    }

    /// Plays `card` for the player of the connection in the room where the
    /// player is seated.
    pub fn on_card(&self, manager: &mut GameManager, card: Card) -> (reaction: Reaction)
        requires
            self@.client_uid is Some,
            old(manager)@.wf(),
        ensures
            card_outcome(self@, old(manager)@, card, final(manager)@, reaction@),
            final(manager)@.wf(),
    {
        let uid = match &self.client_uid {
            Some(uid) => uid.clone(),
            None => String::new(),
        };
        let (r, seat) = match manager.find_in_rooms(&uid) {
            Some(found) => found,
            None => {
                return no_reaction();
            },
        };
        proof {
            assert(manager@.active_rooms[r as int].seat_of(uid@) is Some);
            assert forall|other: int| manager@.is_first_seated(uid@, other) implies other == r by {
                if other < r {
                    assert(manager@.active_rooms[other].seat_of(uid@) is Some);
                } else if r < other {
                    assert(manager@.active_rooms[r as int].seat_of(uid@) is None);
                }
            }
            assert(manager@.active_rooms[r as int].wf());
        }
        let ghost before = manager@;
        match manager.active_rooms[r].play(seat, card) {
            Err(refusal) => {
                assert(manager@ =~= before);
                reply(self.sender, WSEvent::Error { detail: refusal.detail() })
            },
            Ok(report) => {
                let ghost after = manager@.active_rooms[r as int];
                proof {
                    assert(manager@.waiting_queue =~= before.waiting_queue);
                    assert(manager@.active_rooms =~= before.active_rooms.update(r as int, after));
                }
                if report.match_over {
                    let room = manager.active_rooms.remove(r);
                    proof {
                        assert(manager@.active_rooms =~= before.active_rooms.remove(r as int));
                        lemma_removed_sound(before, r as int);
                    }
                    Reaction {
                        outbound: report.outbound,
                        pong: None,
                        close: false,
                        finished: Some(room),
                    }
                } else {
                    proof {
                        lemma_room_replaced_sound(before, r as int, after);
                    }
                    Reaction {
                        outbound: report.outbound,
                        pong: None,
                        close: false,
                        finished: None,
                    }
                }
            },
        }
    }

    /// Acts on one frame from the client at time `now`.
    ///
    /// Before the client is recognised only a token is acted on; a request
    /// for a table or a card is answered with "Unauthorized". Afterwards a
    /// request for a table joins the queue, a card is played in the player's
    /// room, and a keepalive byte or a ping counts as a sign of life. A ping
    /// is always answered with a pong. A close marks every session that is
    /// bound to the connection as dropped out. Frames that are no message,
    /// reserved intents and other frames are passed over.
    pub fn handle_frame(&mut self, manager: &mut GameManager, frame: Frame, now: u64) -> (reaction:
        Reaction)
        requires
            old(manager)@.wf(),
        ensures
            frame_outcome(
                old(self)@,
                old(manager)@,
                frame@,
                now,
                final(self)@,
                final(manager)@,
                reaction@,
            ),
            final(manager)@.wf(),
    {
        match frame {
            Frame::Auth { subject } => handle_auth(self, manager, subject),
            Frame::FindGame => {
                if self.is_authed() {
                    self.on_find_game(manager, now)
                } else {
                    reply(self.sender, WSEvent::Error { detail: "Unauthorized".to_owned() })
                }
            },
            Frame::PlayCard { rank, suit } => {
                if !self.is_authed() {
                    return reply(
                        self.sender,
                        WSEvent::Error { detail: "Unauthorized".to_owned() },
                    );
                }
                match parse_card(&rank, &suit) {
                    Ok(card) => self.on_card(manager, card),
                    Err(complaint) => reply(self.sender, WSEvent::Error { detail: complaint }),
                }
            },
            Frame::Binary(data) => {
                if data.len() == 1 && data[0] == KEEPALIVE {
                    assert(data@ =~= seq![KEEPALIVE]);
                    self.sign_of_life(manager, now);
                }
                no_reaction()
            },
            Frame::Ping(payload) => {
                self.sign_of_life(manager, now);
                let mut reaction = no_reaction();
                reaction.pong = Some(payload);
                reaction
            },
            Frame::Close => {
                manager.channel_closed(self.sender);
                let mut reaction = no_reaction();
                reaction.close = true;
                reaction
            },
            Frame::Reserved => no_reaction(),
            Frame::Malformed => no_reaction(),
            Frame::Other => no_reaction(),
        }
    }

    /// Records a sign of life at `now` for the player of the connection, if
    /// the client is recognised and the player has a session in the manager.
    pub fn sign_of_life(&self, manager: &mut GameManager, now: u64)
        ensures
            self@.client_uid is Some ==> old(manager)@.changes_session(
                self@.client_uid->0,
                SessionChange::Touch { now },
                final(manager)@,
            ),
            self@.client_uid is None ==> *final(manager) == *old(manager),
            old(manager)@.wf() ==> final(manager)@.wf(),
    {
        match &self.client_uid {
            Some(uid) => {
                let _ = manager.update_session(uid.as_str(), SessionChange::Touch { now });
            },
            None => {},
        }
    }
}

/// A player who is recognised on a second connection after a first keeps the
/// one session they had: it stays in its place, in the same seat at the same
/// game with the same hand, and is now bound to the second connection and
/// connected. No session is added and no other is changed.
pub proof fn lemma_reconnect_keeps_session(
    manager: ManagerView,
    uid: Seq<char>,
    place: Place,
    first: ConnectionView,
    first_after: ConnectionView,
    first_reaction: ReactionView,
    between: ManagerView,
    second: ConnectionView,
    second_after: ConnectionView,
    second_reaction: ReactionView,
    after: ManagerView,
)
    requires
        manager.is_place_of(uid, place),
        manager.has_place(place),
        auth_outcome(first, manager, Some(uid), first_after, between, first_reaction),
        auth_outcome(second, between, Some(uid), second_after, after, second_reaction),
    ensures
        after == manager.with_session(
            place,
            manager.session_at(place).rebound(second.sender),
        ),
        after.is_place_of(uid, place),
        after.session_at(place).id == uid,
        after.session_at(place).sender == second.sender,
        after.session_at(place).is_connected,
        after.waiting_queue.len() == manager.waiting_queue.len(),
        after.active_rooms.len() == manager.active_rooms.len(),
        forall|r: int|
            0 <= r < manager.active_rooms.len() ==> (#[trigger] after.active_rooms[r]).state
                == manager.active_rooms[r].state && after.active_rooms[r].id
                == manager.active_rooms[r].id,
        manager.sound() ==> after.sound(),
        manager.sound() ==> forall|other: Place|
            after.has_place(other) && (#[trigger] after.session_at(other)).id == uid ==> other
                == place,
{
    let to_first = SessionChange::Rebind { sender: first.sender };
    let to_second = SessionChange::Rebind { sender: second.sender };
    lemma_change_keeps_sound(manager, place, to_first);
    assert(between == manager.with_session(place, manager.session_at(place).changed(to_first)));
    assert(between.has_place(place));
    lemma_change_keeps_sound(between, place, to_second);
    assert(after == between.with_session(place, between.session_at(place).changed(to_second)));
    assert(after =~= manager.with_session(
        place,
        manager.session_at(place).rebound(second.sender),
    ));
    if manager.sound() {
        assert forall|other: Place|
            after.has_place(other) && (#[trigger] after.session_at(other)).id == uid implies other
            == place by {
            lemma_one_session(after, uid, place, other);
        }
    }
}

} // verus!
