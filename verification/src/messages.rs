//! The messages that travel between the server and its clients: the events
//! the server sends and the intents a client submits.

use std::collections::HashMap;
use vstd::prelude::*;
use crate::cards::{copy_cards, Card, Suit};
use crate::position::PlayerPosition;

verus! {

/// The cards a seat holds.
#[derive(Debug, Clone, PartialEq, Eq)]
pub struct WSYourHand {
    pub cards: Vec<Card>,
}

/// Notice that it is the receiver's turn.
#[derive(Debug, Clone, PartialEq, Eq)]
pub struct WSYourTurn;

/// A card that a seat has played.
#[derive(Debug, Clone, PartialEq, Eq)]
pub struct WSCardPlayed {
    pub position: PlayerPosition,
    pub card: Card,
}

/// The seat that took a trick.
#[derive(Debug, Clone, PartialEq, Eq)]
pub struct WSTrickWon {
    pub position: PlayerPosition,
}

/// The card points of the round that decided the match, by team number.
#[derive(Debug, Clone, PartialEq, Eq)]
pub struct WSGameOver {
    pub scores: HashMap<u8, u32>,
}

/// An event sent to a client.
#[derive(Debug, Clone, PartialEq, Eq)]
pub enum WSEvent {
    PlayerDisconnected { position: PlayerPosition },
    SuccessLogin { username: String },
    GameStart { room_id: String, position: PlayerPosition },
    GameClose { reason: String },
    YourHand(WSYourHand),
    EyeUpdated { team_a: u32, team_b: u32 },
    TrumpUpdated { trump: Suit },
    YourTurn(WSYourTurn),
    CardPlayed(WSCardPlayed),
    TrickWon(WSTrickWon),
    GameOver(WSGameOver),
    Error { detail: String },
}

/// The mathematical value of a [`WSEvent`].
#[verifier::ext_equal]
pub enum EventView {
    PlayerDisconnected { position: PlayerPosition },
    SuccessLogin { username: Seq<char> },
    GameStart { room_id: Seq<char>, position: PlayerPosition },
    GameClose { reason: Seq<char> },
    YourHand { cards: Seq<Card> },
    EyeUpdated { team_a: u32, team_b: u32 },
    TrumpUpdated { trump: Suit },
    YourTurn,
    CardPlayed { position: PlayerPosition, card: Card },
    TrickWon { position: PlayerPosition },
    GameOver { scores: Map<u8, u32> },
    Error { detail: Seq<char> },
}

impl View for WSEvent {
    type V = EventView;

    open spec fn view(&self) -> EventView {
        match self {
            WSEvent::PlayerDisconnected { position } => EventView::PlayerDisconnected {
                position: *position,
            },
            WSEvent::SuccessLogin { username } => EventView::SuccessLogin { username: username@ },
            WSEvent::GameStart { room_id, position } => EventView::GameStart {
                room_id: room_id@,
                position: *position,
            },
            WSEvent::GameClose { reason } => EventView::GameClose { reason: reason@ },
            WSEvent::YourHand(hand) => EventView::YourHand { cards: hand.cards@ },
            WSEvent::EyeUpdated { team_a, team_b } => EventView::EyeUpdated {
                team_a: *team_a,
                team_b: *team_b,
            },
            WSEvent::TrumpUpdated { trump } => EventView::TrumpUpdated { trump: *trump },
            WSEvent::YourTurn(_) => EventView::YourTurn,
            WSEvent::CardPlayed(played) => EventView::CardPlayed {
                position: played.position,
                card: played.card,
            },
            WSEvent::TrickWon(won) => EventView::TrickWon { position: won.position },
            WSEvent::GameOver(over) => EventView::GameOver { scores: over.scores@ },
            WSEvent::Error { detail } => EventView::Error { detail: detail@ },
        }
    }
}

impl WSEvent {
    /// A second event with the same content, for another receiver.
    pub fn duplicate(&self) -> (copy: WSEvent)
        ensures
            copy@ == self@,
    {
        match self {
            WSEvent::PlayerDisconnected { position } => WSEvent::PlayerDisconnected {
                position: *position,
            },
            WSEvent::SuccessLogin { username } => WSEvent::SuccessLogin {
                username: username.clone(),
            },
            WSEvent::GameStart { room_id, position } => WSEvent::GameStart {
                room_id: room_id.clone(),
                position: *position,
            },
            WSEvent::GameClose { reason } => WSEvent::GameClose { reason: reason.clone() },
            WSEvent::YourHand(hand) => WSEvent::YourHand(
                WSYourHand { cards: copy_cards(&hand.cards) },
            ),
            WSEvent::EyeUpdated { team_a, team_b } => WSEvent::EyeUpdated {
                team_a: *team_a,
                team_b: *team_b,
            },
            WSEvent::TrumpUpdated { trump } => WSEvent::TrumpUpdated { trump: *trump },
            WSEvent::YourTurn(_) => WSEvent::YourTurn(WSYourTurn),
            WSEvent::CardPlayed(played) => WSEvent::CardPlayed(
                WSCardPlayed { position: played.position, card: played.card },
            ),
            WSEvent::TrickWon(won) => WSEvent::TrickWon(WSTrickWon { position: won.position }),
            WSEvent::GameOver(over) => WSEvent::GameOver(
                WSGameOver { scores: over.scores.clone() },
            ),
            WSEvent::Error { detail } => WSEvent::Error { detail: detail.clone() },
        }
    }
}

/// An event on its way to the outbound channel `sender` of one connection.
#[derive(Debug, Clone, PartialEq, Eq)]
pub struct Outbound {
    pub sender: u64,
    pub event: WSEvent,
}

/// The mathematical value of an [`Outbound`].
#[verifier::ext_equal]
pub struct OutboundView {
    pub sender: u64,
    pub event: EventView,
}

impl View for Outbound {
    type V = OutboundView;

    open spec fn view(&self) -> OutboundView {
        OutboundView { sender: self.sender, event: self.event@ }
    }
}

/// The values of a list of outbound events, in order.
pub open spec fn outbox_view(outbox: Seq<Outbound>) -> Seq<OutboundView> {
    Seq::new(outbox.len(), |i: int| outbox[i]@)
}

/// Appends `more` to `outbox`, keeping the order of both.
pub fn append_outbox(outbox: &mut Vec<Outbound>, more: Vec<Outbound>)
    ensures
        outbox_view(final(outbox)@) == outbox_view(old(outbox)@) + outbox_view(more@),
{
    let mut more = more;
    let ghost before = outbox@;
    let ghost added = more@;
    outbox.append(&mut more);
    assert(outbox_view(outbox@) =~= outbox_view(before) + outbox_view(added));
}

/// The token a client presents to be recognised.
#[derive(Default, Debug, Clone, PartialEq, Eq, Hash)]
pub struct Auth {
    pub token: String,
}

/// What an intent carries besides its kind.
#[derive(Debug, Clone, PartialEq, Eq)]
pub struct SubManageMsg {
    pub rank: Option<String>,
    pub suit: Option<String>,
    pub room_id: Option<String>,
}

/// An intent of a client, by kind.
#[derive(Debug, Clone, PartialEq, Eq)]
pub enum SubOrUnsub {
    FindGame(SubManageMsg),
    PlayCard(SubManageMsg),
    Sub(SubManageMsg),
    UnSub(SubManageMsg),
}

/// A message from a client: an intent, or the token that opens the session.
#[derive(Debug, Clone, PartialEq, Eq)]
pub enum WSIncomingMessage {
    Manage(SubOrUnsub),
    Auth(Auth),
}

} // verus!
