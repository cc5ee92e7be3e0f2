//! A room: four seated sessions bound to one game, and the events that a
//! move at the table sends to the seats.

use vstd::prelude::*;
use crate::cards::{copy_cards, Card, Suit};
use crate::chance::fresh_room_id;
use crate::game::{GameState, GameView, PlayError};
use crate::game_proofs::{lemma_play_keeps_wf, lemma_resolve_keeps_wf};
use crate::messages::{
    outbox_view, EventView, Outbound, OutboundView, WSCardPlayed, WSEvent,
    WSGameOver, WSTrickWon, WSYourHand, WSYourTurn,
};
use crate::position::{PerSeat, PlayerPosition};
use crate::session::{PlayerSession, SessionView};

verus! {

/// Four seated sessions and the game they play.
#[derive(Debug)]
pub struct GameRoom {
    /// The identifier under which the room is registered.
    pub id: String,
    /// The session in each seat.
    pub players: PerSeat<PlayerSession>,
    /// The game at the table.
    pub state: GameState,
}

/// The mathematical value of a [`GameRoom`].
#[verifier::ext_equal]
pub struct RoomView {
    pub id: Seq<char>,
    pub players: PerSeat<SessionView>,
    pub state: GameView,
}

/// The values of four seated sessions.
pub open spec fn players_view(players: PerSeat<PlayerSession>) -> PerSeat<SessionView> {
    PerSeat {
        north: players.north@,
        east: players.east@,
        south: players.south@,
        west: players.west@,
    }
}

impl View for GameRoom {
    type V = RoomView;

    open spec fn view(&self) -> RoomView {
        RoomView { id: self.id@, players: players_view(self.players), state: self.state@ }
    }
}

/// What a move at the table came to.
#[derive(Debug)]
pub struct PlayReport {
    /// The events to deliver, in order.
    pub outbound: Vec<Outbound>,
    /// True when the move ended the match.
    pub match_over: bool,
}

/// `event` for the channel of one seat.
pub open spec fn to_seat(
    players: PerSeat<SessionView>,
    seat: PlayerPosition,
    event: EventView,
) -> OutboundView {
    OutboundView { sender: players.at(seat).sender, event }
}

/// `event` for the channel of every seat, in the order of the seats.
pub open spec fn to_all(players: PerSeat<SessionView>, event: EventView) -> Seq<OutboundView> {
    seq![
        to_seat(players, PlayerPosition::North, event),
        to_seat(players, PlayerPosition::East, event),
        to_seat(players, PlayerPosition::South, event),
        to_seat(players, PlayerPosition::West, event),
    ]
}

/// `event` for the channel of every seat but `seat`, in the order of the seats.
pub open spec fn to_others(
    players: PerSeat<SessionView>,
    seat: PlayerPosition,
    event: EventView,
) -> Seq<OutboundView> {
    to_all(players, event).remove(seat_number(seat))
}

/// `event` for the channel of one seat, if its session is connected.
pub open spec fn to_connected(
    players: PerSeat<SessionView>,
    seat: PlayerPosition,
    event: EventView,
) -> Seq<OutboundView> {
    if players.at(seat).is_connected {
        seq![to_seat(players, seat, event)]
    } else {
        Seq::empty()
    }
}

/// The place of a seat in the order of the seats.
pub open spec fn seat_number(seat: PlayerPosition) -> int {
    match seat {
        PlayerPosition::North => 0,
        PlayerPosition::East => 1,
        PlayerPosition::South => 2,
        PlayerPosition::West => 3,
    }
}

/// What one seat is told of a deal: its hand and, if it is to play, that it
/// is its turn.
pub open spec fn seat_notice(
    players: PerSeat<SessionView>,
    state: GameView,
    seat: PlayerPosition,
) -> Seq<OutboundView> {
    let hand = to_seat(players, seat, EventView::YourHand { cards: state.hand(seat) });
    if state.current_turn == seat {
        seq![hand, to_seat(players, seat, EventView::YourTurn)]
    } else {
        seq![hand]
    }
}

/// What the four seats are told of a deal, seat by seat.
pub open spec fn deal_notice(players: PerSeat<SessionView>, state: GameView) -> Seq<OutboundView> {
    seat_notice(players, state, PlayerPosition::North) + seat_notice(
        players,
        state,
        PlayerPosition::East,
    ) + seat_notice(players, state, PlayerPosition::South) + seat_notice(
        players,
        state,
        PlayerPosition::West,
    )
}

/// `session`, marked as dropped out if it is bound to channel `sender`.
pub open spec fn closed_on(session: SessionView, sender: u64) -> SessionView {
    if session.sender == sender {
        session.disconnected()
    } else {
        session
    }
}

impl RoomView {
    /// The room with every session that is bound to channel `sender` marked
    /// as dropped out.
    pub open spec fn without_channel(self, sender: u64) -> RoomView {
        RoomView {
            players: PerSeat {
                north: closed_on(self.players.north, sender),
                east: closed_on(self.players.east, sender),
                south: closed_on(self.players.south, sender),
                west: closed_on(self.players.west, sender),
            },
            ..self
        }
    }

    /// The seat in which player `uid` sits: the first such seat in the order
    /// of the seats, or none.
    pub open spec fn seat_of(self, uid: Seq<char>) -> Option<PlayerPosition> {
        if self.players.north.id == uid {
            Some(PlayerPosition::North)
        } else if self.players.east.id == uid {
            Some(PlayerPosition::East)
        } else if self.players.south.id == uid {
            Some(PlayerPosition::South)
        } else if self.players.west.id == uid {
            Some(PlayerPosition::West)
        } else {
            None
        }
    }

    /// True when a seat of the room is stale at `now`.
    pub open spec fn has_stale(self, now: u64) -> bool {
        exists|seat: PlayerPosition| (#[trigger] self.players.at(seat)).is_stale(now)
    }

    /// The room with the session in `seat` replaced.
    pub open spec fn with_player(self, seat: PlayerPosition, session: SessionView) -> RoomView {
        RoomView { players: self.players.with(seat, session), ..self }
    }

    /// The room after `seat` has been kicked: its session is marked as
    /// dropped out; the game is untouched.
    pub open spec fn kicked(self, seat: PlayerPosition) -> RoomView {
        self.with_player(seat, self.players.at(seat).disconnected())
    }

    /// What a kick of `seat` sends: the news to the other three seats.
    pub open spec fn kick_events(self, seat: PlayerPosition) -> Seq<OutboundView> {
        to_others(self.players, seat, EventView::PlayerDisconnected { position: seat })
    }

    /// What the closing of the room sends: the reason to every seat that is
    /// still connected, in the order of the seats.
    pub open spec fn close_events(self, reason: Seq<char>) -> Seq<OutboundView> {
        let event = EventView::GameClose { reason };
        to_connected(self.players, PlayerPosition::North, event) + to_connected(
            self.players,
            PlayerPosition::East,
            event,
        ) + to_connected(self.players, PlayerPosition::South, event) + to_connected(
            self.players,
            PlayerPosition::West,
            event,
        )
    }

    /// The invariant of a room between two moves: the round is in good order,
    /// the trick on the table is not full, and the match is still open.
    pub open spec fn wf(self) -> bool {
        &&& self.state.wf()
        &&& self.state.current_trick.len() < 4
        &&& !self.state.match_over()
    }

    /// The state of the game after an accepted card and what follows from it
    /// without a new deal: the trick is settled if the card filled it.
    pub open spec fn after_card(self, seat: PlayerPosition, card: Card) -> GameView {
        let played = self.state.after_play(seat, card);
        if played.current_trick.len() == 4 {
            played.after_resolve()
        } else {
            played
        }
    }

    /// True when the accepted card `card` from `seat` ends the round.
    pub open spec fn ends_round(self, seat: PlayerPosition, card: Card) -> bool {
        self.state.after_play(seat, card).current_trick.len() == 4 && self.after_card(
            seat,
            card,
        ).hands_empty()
    }

    /// True when `after` is a room as an accepted card `card` from `seat` can
    /// leave this one: the same room and seats, with the game carried as far
    /// as the card takes it. Only the trump and the hands of a new round are
    /// left to chance.
    pub open spec fn played(self, seat: PlayerPosition, card: Card, after: RoomView) -> bool {
        &&& after.id == self.id
        &&& after.players == self.players
        &&& after.state.wf()
        &&& after.state.current_trick.len() < 4
        &&& !self.ends_round(seat, card) ==> after.state == self.after_card(seat, card)
        &&& self.ends_round(seat, card) ==> after.state == self.after_card(
            seat,
            card,
        ).after_next_round(after.state.trump, after.state.hands) && after.state.freshly_dealt()
    }

    /// The events that an accepted card sends, given the state `after` in
    /// which it left the game: the card to every seat; the winner to every
    /// seat if the trick was settled; at the end of a round the eyes and the
    /// new trump to every seat and to each seat its new hand; the turn to the
    /// seat that plays next; and the final card points to every seat if the
    /// match is over.
    pub open spec fn play_events(
        self,
        seat: PlayerPosition,
        card: Card,
        after: GameView,
    ) -> Seq<OutboundView> {
        let played = self.state.after_play(seat, card);
        let settled = self.after_card(seat, card);
        let card_played = to_all(self.players, EventView::CardPlayed { position: seat, card });
        if played.current_trick.len() != 4 {
            card_played.push(to_seat(self.players, after.current_turn, EventView::YourTurn))
        } else {
            let trick_won = to_all(
                self.players,
                EventView::TrickWon { position: played.winner() },
            );
            if !settled.hands_empty() {
                (card_played + trick_won).push(
                    to_seat(self.players, after.current_turn, EventView::YourTurn),
                )
            } else {
                let eyes = to_all(
                    self.players,
                    EventView::EyeUpdated {
                        team_a: after.eye(1) as u32,
                        team_b: after.eye(2) as u32,
                    },
                );
                let trump = to_all(self.players, EventView::TrumpUpdated { trump: after.trump });
                let over = if after.match_over() {
                    to_all(self.players, EventView::GameOver { scores: settled.team_scores })
                } else {
                    Seq::empty()
                };
                card_played + trick_won + eyes + trump + deal_notice(self.players, after) + over
            }
        }
    }
}

/// Adds `event` for channel `sender` to the end of `outbox`.
pub fn push_event(outbox: &mut Vec<Outbound>, sender: u64, event: WSEvent)
    ensures
        outbox_view(final(outbox)@) == outbox_view(old(outbox)@).push(
            OutboundView { sender, event: event@ },
        ),
{
    let ghost before = outbox@;
    outbox.push(Outbound { sender, event });
    assert(outbox_view(outbox@) =~= outbox_view(before).push(
        OutboundView { sender, event: event@ },
    ));
}

/// Adds `event` for every seat to the end of `outbox`.
pub fn push_to_all(outbox: &mut Vec<Outbound>, players: &PerSeat<PlayerSession>, event: &WSEvent)
    ensures
        outbox_view(final(outbox)@) == outbox_view(old(outbox)@) + to_all(
            players_view(*players),
            event@,
        ),
{
    let ghost before = outbox_view(outbox@);
    push_event(outbox, players.north.sender, event.duplicate());
    push_event(outbox, players.east.sender, event.duplicate());
    push_event(outbox, players.south.sender, event.duplicate());
    push_event(outbox, players.west.sender, event.duplicate());
    assert(outbox_view(outbox@) =~= before + to_all(players_view(*players), event@));
}

impl GameRoom {
    /// A new room for four seated sessions, under a freshly drawn identifier,
    /// with a fresh deal under a trump picked at random.
    pub fn new(players: PerSeat<PlayerSession>) -> (room: GameRoom)
        ensures
            room@.players == players_view(players),
            room@.state.is_new_match(),
            room@.wf(),
    {
        let state = GameState::new(Suit::random_suit());
        GameRoom { id: fresh_room_id(), players, state }
    }

    /// The seat in which player `uid` sits, if any.
    pub fn seat_of(&self, uid: &String) -> (seat: Option<PlayerPosition>)
        ensures
            seat == self@.seat_of(uid@),
    {
        if self.players.north.is_player(uid) {
            Some(PlayerPosition::North)
        } else if self.players.east.is_player(uid) {
            Some(PlayerPosition::East)
        } else if self.players.south.is_player(uid) {
            Some(PlayerPosition::South)
        } else if self.players.west.is_player(uid) {
            Some(PlayerPosition::West)
        } else {
            None
        }
    }

    /// True when a seat of the room is stale at `now`.
    pub fn has_stale(&self, now: u64) -> (stale: bool)
        ensures
            stale == self@.has_stale(now),
    {
        let stale = self.players.north.is_stale(now) || self.players.east.is_stale(now)
            || self.players.south.is_stale(now) || self.players.west.is_stale(now);
        proof {
            if stale {
                assert(self@.players.at(PlayerPosition::North).is_stale(now) || self@.players.at(
                    PlayerPosition::East,
                ).is_stale(now) || self@.players.at(PlayerPosition::South).is_stale(now)
                    || self@.players.at(PlayerPosition::West).is_stale(now));
            }
        }
        stale
    }

    /// Marks every session of the room that is bound to channel `sender` as
    /// dropped out.
    pub fn close_channel(&mut self, sender: u64)
        ensures
            final(self)@ == old(self)@.without_channel(sender),
    {
        if self.players.north.sender == sender {
            self.players.north.mark_as_disconnected();
        }
        if self.players.east.sender == sender {
            self.players.east.mark_as_disconnected();
        }
        if self.players.south.sender == sender {
            self.players.south.mark_as_disconnected();
        }
        if self.players.west.sender == sender {
            self.players.west.mark_as_disconnected();
        }
    }

    /// True when the room is in good order between two moves.
    pub fn is_wf(&self) -> (ok: bool)
        ensures
            ok == self@.wf(),
    {
        self.state.is_wf() && self.state.current_trick.len() < 4 && !self.state.is_match_over()
    }

    /// Kicks the session in seat `pos`: marks it as dropped out and tells the
    /// other three seats. The game is not touched.
    pub fn kick_player(&mut self, pos: PlayerPosition) -> (outbound: Vec<Outbound>)
        ensures
            final(self)@ == old(self)@.kicked(pos),
            outbox_view(outbound@) == old(self)@.kick_events(pos),
    {
        match pos {
            PlayerPosition::North => self.players.north.mark_as_disconnected(),
            PlayerPosition::East => self.players.east.mark_as_disconnected(),
            PlayerPosition::South => self.players.south.mark_as_disconnected(),
            PlayerPosition::West => self.players.west.mark_as_disconnected(),
        }
        let mut outbound: Vec<Outbound> = Vec::new();
        if pos != PlayerPosition::North {
            push_event(
                &mut outbound,
                self.players.north.sender,
                WSEvent::PlayerDisconnected { position: pos },
            );
        }
        if pos != PlayerPosition::East {
            push_event(
                &mut outbound,
                self.players.east.sender,
                WSEvent::PlayerDisconnected { position: pos },
            );
        }
        if pos != PlayerPosition::South {
            push_event(
                &mut outbound,
                self.players.south.sender,
                WSEvent::PlayerDisconnected { position: pos },
            );
        }
        if pos != PlayerPosition::West {
            push_event(
                &mut outbound,
                self.players.west.sender,
                WSEvent::PlayerDisconnected { position: pos },
            );
        }
        assert(outbox_view(outbound@) =~= old(self)@.kick_events(pos));
        outbound
    }

    /// What the closing of the room for `reason` sends: the reason to every
    /// seat that is still connected.
    pub fn close_notice(&self, reason: &String) -> (outbound: Vec<Outbound>)
        ensures
            outbox_view(outbound@) == self@.close_events(reason@),
    {
        let mut outbound: Vec<Outbound> = Vec::new();
        if self.players.north.is_connected() {
            push_event(
                &mut outbound,
                self.players.north.sender,
                WSEvent::GameClose { reason: reason.clone() },
            );
        }
        if self.players.east.is_connected() {
            push_event(
                &mut outbound,
                self.players.east.sender,
                WSEvent::GameClose { reason: reason.clone() },
            );
        }
        if self.players.south.is_connected() {
            push_event(
                &mut outbound,
                self.players.south.sender,
                WSEvent::GameClose { reason: reason.clone() },
            );
        }
        if self.players.west.is_connected() {
            push_event(
                &mut outbound,
                self.players.west.sender,
                WSEvent::GameClose { reason: reason.clone() },
            );
        }
        assert(outbox_view(outbound@) =~= self@.close_events(reason@));
        outbound
    }

    /// Adds to `outbox` what seat `seat` is told of the deal: its hand and, if
    /// it is to play, that it is its turn.
    pub fn push_seat_notice(&self, outbox: &mut Vec<Outbound>, seat: PlayerPosition)
        ensures
            outbox_view(final(outbox)@) == outbox_view(old(outbox)@) + seat_notice(
                self@.players,
                self@.state,
                seat,
            ),
    {
        let ghost before = outbox_view(outbox@);
        let sender = self.players.get(seat).sender;
        let cards = copy_cards(self.state.hands.get(seat));
        push_event(outbox, sender, WSEvent::YourHand(WSYourHand { cards }));
        if self.state.current_turn == seat {
            push_event(outbox, sender, WSEvent::YourTurn(WSYourTurn));
        }
        assert(outbox_view(outbox@) =~= before + seat_notice(self@.players, self@.state, seat));
    }

    /// Adds to `outbox` what the four seats are told of the deal, seat by seat.
    pub fn push_deal_notice(&self, outbox: &mut Vec<Outbound>)
        ensures
            outbox_view(final(outbox)@) == outbox_view(old(outbox)@) + deal_notice(
                self@.players,
                self@.state,
            ),
    {
        let ghost before = outbox_view(outbox@);
        self.push_seat_notice(outbox, PlayerPosition::North);
        self.push_seat_notice(outbox, PlayerPosition::East);
        self.push_seat_notice(outbox, PlayerPosition::South);
        self.push_seat_notice(outbox, PlayerPosition::West);
        assert(outbox_view(outbox@) =~= before + deal_notice(self@.players, self@.state));
    }

    /// Plays `card` from seat `pos` and carries the game as far as the card
    /// takes it.
    ///
    /// A refused card changes nothing. An accepted card is announced to every
    /// seat. If it fills the trick, the trick is settled and its winner
    /// announced; if that empties the hands, the round is closed: the eyes
    /// are awarded, a new trump is drawn and new hands are dealt, all of
    /// which is announced, and the final card points are sent if a team has
    /// won the match. The seat that plays next is told that it is its turn.
    pub fn play(&mut self, pos: PlayerPosition, card: Card) -> (outcome: Result<
        PlayReport,
        PlayError,
    >)
        requires
            old(self)@.wf(),
        ensures
            old(self)@.state.play_verdict(pos, card) matches Err(refusal) ==> outcome == Err::<
                PlayReport,
                PlayError,
            >(refusal) && *final(self) == *old(self),
            old(self)@.state.play_verdict(pos, card) is Ok ==> outcome is Ok,
            outcome matches Ok(report) ==> {
                &&& old(self)@.played(pos, card, final(self)@)
                &&& outbox_view(report.outbound@) == old(self)@.play_events(
                    pos,
                    card,
                    final(self)@.state,
                )
                &&& report.match_over == final(self)@.state.match_over()
            },
    {
        match self.state.play_card(pos, card) {
            Err(refusal) => {
                return Err(refusal);
            },
            Ok(()) => {},
        }
        proof {
            lemma_play_keeps_wf(old(self)@.state, pos, card);
            if self@.state.current_trick.len() == 4 {
                lemma_resolve_keeps_wf(self@.state);
            }
        }
        let mut outbound: Vec<Outbound> = Vec::new();
        push_to_all(
            &mut outbound,
            &self.players,
            &WSEvent::CardPlayed(WSCardPlayed { position: pos, card }),
        );
        let mut match_over = false;
        match self.state.resolve_trick() {
            Some(winner) => {
                push_to_all(
                    &mut outbound,
                    &self.players,
                    &WSEvent::TrickWon(WSTrickWon { position: winner }),
                );
                if self.state.round_is_over() {
                    let summary = self.state.finish_round();
                    push_to_all(
                        &mut outbound,
                        &self.players,
                        &WSEvent::EyeUpdated { team_a: summary.team_a, team_b: summary.team_b },
                    );
                    push_to_all(
                        &mut outbound,
                        &self.players,
                        &WSEvent::TrumpUpdated { trump: summary.trump },
                    );
                    self.push_deal_notice(&mut outbound);
                    match_over = summary.match_over;
                    if match_over {
                        push_to_all(
                            &mut outbound,
                            &self.players,
                            &WSEvent::GameOver(WSGameOver { scores: summary.scores }),
                        );
                    }
                } else {
                    let sender = self.players.get(winner).sender;
                    push_event(&mut outbound, sender, WSEvent::YourTurn(WSYourTurn));
                }
            },
            None => {
                let sender = self.players.get(self.state.current_turn).sender;
                push_event(&mut outbound, sender, WSEvent::YourTurn(WSYourTurn));
            },
        }
        proof {
            assert(outbox_view(outbound@) =~= old(self)@.play_events(pos, card, self@.state));
        }
        Ok(PlayReport { outbound, match_over })
    }
}

} // verus!
