//! What a player's frames do at a table.

use vstd::prelude::*;

use crate::actions::{action_event, announce, law_told, told};
use crate::cards::{law_seat_set, Call, Direction};
use crate::engine::auction::{law_dummy_is_across, ContractOutcome};
use crate::events::{Event, Notice};
use crate::rooms::{law_declarer_side, BoardMode, Room, RoomInner, RoomInnerView, RoomView};
use crate::routes::ws::{card_in, err_msg, error, parse_card, said, ErrorFrame, ErrorView, Frame};
use crate::seating::text_view;
use crate::sessions::rounds::law_advance;
use crate::sessions::{lemma_wf_same_rooms, Session, SessionView};
use crate::table::{Action, Folded, TableView};

verus! {

/// What a frame does to a room: the room after it, what everybody is told, and
/// what the sender is told.
#[verifier::ext_equal]
pub ghost struct Outcome {
    pub room: RoomView,
    pub told: Seq<Notice>,
    pub error: Option<ErrorView>,
}

/// Nothing happens, and the sender is told why.
pub open spec fn refused(room: RoomView, code: Seq<char>, msg: Seq<char>) -> Outcome {
    Outcome { room, told: seq![], error: error(code, msg) }
}

impl RoomView {
    /// The room with another table in it.
    pub open spec fn with_table(self, table: TableView) -> RoomView {
        RoomView { state: RoomInnerView { table, ..self.state }, ..self }
    }
}

/// A human's action is applied; everybody is told, and the bots look whether it
/// is their turn.
pub open spec fn acted(
    room: RoomView,
    table: usize,
    in_session: bool,
    action: Action,
    opening_lead: bool,
) -> Outcome {
    let after = room.state.table.then_do(action);
    Outcome {
        room: room.with_table(after),
        told: told(after, table, action, None, opening_lead, in_session).push(
            Notice::Kick { table },
        ),
        error: None,
    }
}

/// A bid frame: only a seated player bids, and only where the auction is not
/// automatic; the table decides on the call.
pub open spec fn bid_outcome(
    room: RoomView,
    table: usize,
    in_session: bool,
    seat: Option<Direction>,
    frame: Frame,
) -> Outcome {
    match seat {
        None => refused(room, "not_seated"@, "kibitzers cannot bid"@),
        Some(seat) => match frame.call {
            None => refused(room, "bad_call"@, "unrecognized call"@),
            Some(call) => {
                let action = Action::Call { seat, call };
                if room.state.board_mode == BoardMode::PlayOnly {
                    refused(room, "play_only"@, "the auction is automatic on this board"@)
                } else {
                    match room.state.table.refusal(action) {
                        Some(e) => refused(room, "rejected"@, e.words(frame.call_text@)),
                        None => acted(room, table, in_session, action, false),
                    }
                }
            },
        },
    }
}

/// Applies a human's action that the table accepts, and tells everybody.
fn act(
    room: &mut Room,
    table: usize,
    in_session: bool,
    action: Action,
    opening_lead: bool,
    call_text: &str,
    out: &mut Vec<Notice>,
) -> (r: Option<ErrorFrame>)
    requires
        old(room)@.state.wf(),
    ensures
        final(room)@.state.wf(),
        ({
            let o = match old(room)@.state.table.refusal(action) {
                Some(e) => refused(old(room)@, "rejected"@, e.words(call_text@)),
                None => acted(old(room)@, table, in_session, action, opening_lead),
            };
            &&& final(room)@ == o.room
            &&& final(out)@ == old(out)@ + o.told
            &&& said(r) == o.error
        }),
{
    proof {
        crate::table::lemma_wf_foldable(room.state.table);
    }
    match room.state.table.apply(action) {
        Ok(_) => {
            assert(room.state.table@ == old(room)@.state.table.then_do(action));
            announce(&room.state.table, table, action, None, opening_lead, in_session, out);
            out.push(Notice::Kick { table });
            proof {
                let o = acted(old(room)@, table, in_session, action, opening_lead);
                assert(room@ =~= o.room);
                assert(out@ =~= old(out)@ + o.told);
            }
            None
        },
        Err(e) => {
            assert(room@ =~= old(room)@);
            Some(err_msg("rejected", e.message(call_text).as_str()))
        },
    }
}

fn bid(
    room: &mut Room,
    table: usize,
    in_session: bool,
    seat: Option<Direction>,
    frame: &Frame,
    out: &mut Vec<Notice>,
) -> (r: Option<ErrorFrame>)
    requires
        old(room)@.state.wf(),
    ensures
        final(room)@.state.wf(),
        ({
            let o = bid_outcome(old(room)@, table, in_session, seat, *frame);
            &&& final(room)@ == o.room
            &&& final(out)@ == old(out)@ + o.told
            &&& said(r) == o.error
        }),
{
    let seat = match seat {
        Some(seat) => seat,
        None => {
            return Some(err_msg("not_seated", "kibitzers cannot bid"));
        },
    };
    let call = match frame.call {
        Some(call) => call,
        None => {
            return Some(err_msg("bad_call", "unrecognized call"));
        },
    };
    if room.state.board_mode == BoardMode::PlayOnly {
        return Some(err_msg("play_only", "the auction is automatic on this board"));
    }
    act(
        room,
        table,
        in_session,
        Action::Call { seat, call },
        false,
        frame.call_text.as_str(),
        out,
    )
}

/// Whether somebody may play for the seat on turn: it is their own seat, or
/// they control the declarer side and the seat on turn is a declarer-side seat
/// (declarer plays dummy's cards; a human dummy plays the hand for a bot
/// declarer).
pub open spec fn entitled(
    room: RoomInnerView,
    contract: Option<ContractOutcome>,
    turn: Direction,
    seat: Direction,
    now: u64,
) -> bool {
    turn == seat || match contract {
        Some(c) => (turn == c.declarer || turn == c.spec_dummy()) && room.controller(
            c.declarer,
            true,
            now,
        ) == seat,
        None => false,
    }
}

fn may_play(inner: &RoomInner, f: &Folded, turn: Direction, seat: Direction, now: u64) -> (r: bool)
    ensures
        r == entitled(inner@, f.contract, turn, seat, now),
{
    if turn == seat {
        return true;
    }
    match &f.contract {
        Some(c) => (turn == c.declarer || turn == c.dummy()) && inner.declarer_side_controller(
            c.declarer,
            true,
            now,
        ) == seat,
        None => false,
    }
}

/// A play frame: a play always targets the seat on turn, and the sender must be
/// entitled to play for it; the table decides on the card.
pub open spec fn play_outcome(
    room: RoomView,
    table: usize,
    in_session: bool,
    seat: Option<Direction>,
    frame: Frame,
    now: u64,
) -> Outcome {
    let card = match text_view(frame.card) {
        Some(text) => card_in(text),
        None => None,
    };
    let f = room.state.table.folded();
    match seat {
        None => refused(room, "not_seated"@, "kibitzers cannot play"@),
        Some(seat) => match card {
            None => refused(room, "bad_card"@, "unrecognized card"@),
            Some(card) => if room.state.board_mode == BoardMode::BidOnly {
                refused(
                    room,
                    "bid_only"@,
                    "this board ends at the contract — no cardplay"@,
                )
            } else {
                match f.next_to_act {
                    None => refused(room, "rejected"@, "no one is on turn"@),
                    Some(turn) => if !entitled(room.state, f.contract, turn, seat, now) {
                        refused(room, "rejected"@, "not your turn"@)
                    } else {
                        let action = Action::Play { seat: turn, card };
                        match room.state.table.refusal(action) {
                            Some(e) => refused(room, "rejected"@, e.words(frame.call_text@)),
                            None => acted(room, table, in_session, action, f.played.len() == 0),
                        }
                    },
                }
            },
        },
    }
}

fn play(
    room: &mut Room,
    table: usize,
    in_session: bool,
    seat: Option<Direction>,
    frame: &Frame,
    now: u64,
    out: &mut Vec<Notice>,
) -> (r: Option<ErrorFrame>)
    requires
        old(room)@.state.wf(),
    ensures
        final(room)@.state.wf(),
        ({
            let o = play_outcome(old(room)@, table, in_session, seat, *frame, now);
            &&& final(room)@ == o.room
            &&& final(out)@ == old(out)@ + o.told
            &&& said(r) == o.error
        }),
{
    let seat = match seat {
        Some(seat) => seat,
        None => {
            return Some(err_msg("not_seated", "kibitzers cannot play"));
        },
    };
    let named = match &frame.card {
        Some(text) => parse_card(text.as_str()),
        None => None,
    };
    let card = match named {
        Some(card) => card,
        None => {
            return Some(err_msg("bad_card", "unrecognized card"));
        },
    };
    if room.state.board_mode == BoardMode::BidOnly {
        return Some(err_msg("bid_only", "this board ends at the contract — no cardplay"));
    }
    // Server-authoritative seat resolution: a play always targets the seat on
    // turn.
    proof {
        crate::table::lemma_wf_foldable(room.state.table);
    }
    let f = room.state.table.fold();
    let turn = match f.next_to_act {
        Some(turn) => turn,
        None => {
            return Some(err_msg("rejected", "no one is on turn"));
        },
    };
    if !may_play(&room.state, &f, turn, seat, now) {
        return Some(err_msg("rejected", "not your turn"));
    }
    let was_opening_lead = f.played.len() == 0;
    act(
        room,
        table,
        in_session,
        Action::Play { seat: turn, card },
        was_opening_lead,
        frame.call_text.as_str(),
        out,
    )
}

/// What is told of a rewound log: that it was, that everybody looks again (a
/// rewind can re-hide dummy), and that the lobby has changed, at a session's
/// table; and the bots look whether it is their turn.
pub open spec fn undo_told(seq: usize, table: usize, in_session: bool) -> Seq<Notice> {
    seq![Notice::Event { table, event: Event::Undo { seq } }, Notice::Resync { table }] + (
    if in_session {
        seq![Notice::Lobby]
    } else {
        seq![]
    }) + seq![Notice::Kick { table }]
}

/// An undo frame: unlimited, any-actor undo.
pub open spec fn undo_outcome(room: RoomView, table: usize, in_session: bool, frame: Frame) -> Outcome {
    match frame.to_seq {
        None => refused(room, "bad_undo"@, "undo.to_seq missing"@),
        Some(n) => if n > room.state.table.log.len() {
            refused(room, "rejected"@, "cannot undo forward"@)
        } else {
            Outcome {
                room: room.with_table(room.state.table.rewound(n as int)),
                told: undo_told(n as usize, table, in_session),
                error: None,
            }
        },
    }
}

pub(crate) fn undo(
    room: &mut Room,
    table: usize,
    in_session: bool,
    frame: &Frame,
    out: &mut Vec<Notice>,
) -> (r: Option<ErrorFrame>)
    requires
        old(room)@.state.wf(),
    ensures
        final(room)@.state.wf(),
        ({
            let o = undo_outcome(old(room)@, table, in_session, *frame);
            &&& final(room)@ == o.room
            &&& final(out)@ == old(out)@ + o.told
            &&& said(r) == o.error
        }),
{
    let to_seq: u64 = match frame.to_seq {
        Some(n) => n,
        None => {
            return Some(err_msg("bad_undo", "undo.to_seq missing"));
        },
    };
    if to_seq > room.state.table.seq() as u64 {
        return Some(err_msg("rejected", "cannot undo forward"));
    }
    match room.state.table.undo_to(to_seq as usize) {
        Ok(seq) => {
            out.push(Notice::Event { table, event: Event::Undo { seq } });
            out.push(Notice::Resync { table });
            if in_session {
                out.push(Notice::Lobby);
            }
            out.push(Notice::Kick { table });
            proof {
                let o = undo_outcome(old(room)@, table, in_session, *frame);
                assert(room@ =~= o.room);
                assert(out@ =~= old(out)@ + o.told);
            }
            None
        },
        Err(e) => Some(err_msg("rejected", e.message("").as_str())),
    }
}

/// What a frame does at any table: answers to a ping, bids, plays and undoes.
/// `None` for every other kind of frame.
pub open spec fn table_outcome(
    room: RoomView,
    table: usize,
    in_session: bool,
    seat: Option<Direction>,
    frame: Frame,
    now: u64,
) -> Option<Outcome> {
    if frame.is_a("pong"@) {
        Some(Outcome { room, told: seq![], error: None })
    } else if frame.is_a("bid"@) {
        Some(bid_outcome(room, table, in_session, seat, frame))
    } else if frame.is_a("play"@) {
        Some(play_outcome(room, table, in_session, seat, frame, now))
    } else if frame.is_a("undo"@) {
        Some(undo_outcome(room, table, in_session, frame))
    } else {
        None
    }
}

/// Applies a frame that any table knows. `None` for every other kind of frame.
pub fn handle_table_msg(
    room: &mut Room,
    table: usize,
    in_session: bool,
    seat: Option<Direction>,
    frame: &Frame,
    now: u64,
    out: &mut Vec<Notice>,
) -> (r: Option<Option<ErrorFrame>>)
    requires
        old(room)@.state.wf(),
    ensures
        final(room)@.state.wf(),
        match table_outcome(old(room)@, table, in_session, seat, *frame, now) {
            Some(o) => r is Some && final(room)@ == o.room && final(out)@ == old(out)@ + o.told
                && said(r->0) == o.error,
            None => r is None && final(room)@ == old(room)@ && final(out)@ == old(out)@,
        },
{
    if frame.kind_is("pong") {
        assert(out@ =~= old(out)@ + Seq::<Notice>::empty());
        Some(None)
    } else if frame.kind_is("bid") {
        Some(bid(room, table, in_session, seat, frame, out))
    } else if frame.kind_is("play") {
        Some(play(room, table, in_session, seat, frame, now, out))
    } else if frame.kind_is("undo") {
        Some(undo(room, table, in_session, frame, out))
    } else {
        None
    }
}

/// A frame that any table knows leaves the room's place in its session alone.
pub proof fn law_play_keeps_the_room(
    room: RoomView,
    table: usize,
    in_session: bool,
    seat: Option<Direction>,
    frame: Frame,
    now: u64,
)
    ensures
        table_outcome(room, table, in_session, seat, frame, now) matches Some(o) ==> {
            &&& o.room.id == room.id
            &&& o.room.bot_mode == room.bot_mode
            &&& o.room.state.seats == room.state.seats
            &&& o.room.state.board_index == room.state.board_index
            &&& o.room.state.takeover == room.state.takeover
            &&& o.room.state.table.board == room.state.table.board
            &&& o.error is Some ==> o.room == room && o.told.len() == 0
        },
{
}

impl SessionView {
    /// What a frame has done at a table.
    pub open spec fn after_frame(self, i: int, o: Outcome) -> SessionView {
        SessionView { outbox: self.outbox + o.told, ..self.with_room(i, o.room) }
    }

    /// A player is ready for the next board: the table is told, goes on if
    /// everybody is, and the lobby is refreshed.
    pub open spec fn readied(self, i: int, seat: Direction) -> SessionView {
        let room = self.rooms[i];
        let ready = room.state.ready.with(seat, true);
        let s = self.with_room(
            i,
            RoomView { state: RoomInnerView { ready, ..room.state }, ..room },
        ).post(
            Notice::Event {
                table: i as usize,
                event: Event::ReadyUpdate { seq: room.state.table.log.len() as usize, ready },
            },
        );
        (if s.may_advance(i, false) {
            s.advanced(i, false)
        } else {
            s
        }).post(Notice::Lobby)
    }

    /// What a player's frame does at a session's table.
    pub open spec fn player_frame(self, i: int, seat: Option<Direction>, frame: Frame, now: u64) -> (
        SessionView,
        Option<ErrorView>,
    ) {
        match table_outcome(self.rooms[i], i as usize, true, seat, frame, now) {
            Some(o) => (self.after_frame(i, o), o.error),
            None => if frame.is_a("ready_next_board"@) {
                match seat {
                    None => (self, error("not_seated"@, "kibitzers cannot ready up"@)),
                    Some(seat) => (self.readied(i, seat), None),
                }
            } else if frame.is_a("deal"@) {
                match seat {
                    None => (self, error("not_seated"@, "kibitzers cannot deal"@)),
                    Some(_) => (
                        self,
                        error(
                            "session_table"@,
                            "session boards are managed by the teacher console"@,
                        ),
                    ),
                }
            } else {
                (self, error("unknown"@, "unknown message type"@))
            },
        }
    }
}

/// The session stays in order when a frame does something at a table.
pub proof fn lemma_wf_after_frame(s: SessionView, i: int, o: Outcome)
    requires
        s.wf(),
        0 <= i < s.rooms.len(),
        o.room.state.wf(),
        o.room.id == s.rooms[i].id,
        o.room.state.board_index == s.rooms[i].state.board_index,
        o.room.state.takeover == s.rooms[i].state.takeover,
        o.room.state.table.board == s.rooms[i].state.table.board,
    ensures
        s.after_frame(i, o).wf(),
{
    let t = s.after_frame(i, o);
    assert forall|j: int| 0 <= j < t.rooms.len() implies t.room_ok(j, #[trigger] t.rooms[j]) by {
        assert(s.room_ok(j, s.rooms[j]));
    }
}

impl Session {
    /// A player is ready for the next board.
    fn ready_up(&mut self, i: usize, seat: Direction)
        requires
            old(self).wf(),
            i < old(self)@.rooms.len(),
        ensures
            final(self).wf(),
            final(self)@ == old(self)@.readied(i as int, seat),
    {
        let ghost before = self@;
        assert(before.rooms[i as int] == self.rooms@[i as int]@);
        self.rooms[i].state.ready.insert(seat);
        let ready = self.rooms[i].state.ready;
        let seq: usize = self.rooms[i].state.table.seq();
        let ghost room = self.rooms@[i as int]@;
        proof {
            assert(room =~= (RoomView {
                state: RoomInnerView {
                    ready: before.rooms[i as int].state.ready.with(seat, true),
                    ..before.rooms[i as int].state
                },
                ..before.rooms[i as int]
            }));
            assert(self@.rooms =~= before.rooms.update(i as int, room));
            assert(self@ =~= before.with_room(i as int, room));
            crate::sessions::lemma_wf_people(before, i as int, room);
        }
        let ghost mid = self@;
        self.post(Notice::Event { table: i, event: Event::ReadyUpdate { seq, ready } });
        proof {
            lemma_wf_same_rooms(mid, self@);
        }
        self.try_advance(i, false);
        let ghost moved = self@;
        self.notify_lobby();
        proof {
            lemma_wf_same_rooms(moved, self@);
        }
    }

    /// Apply one player's frame to their table. Returns an error frame to send
    /// back to *this* client only (successful actions are told to the whole
    /// table). `now` is the time in milliseconds.
    pub fn handle_client_msg(
        &mut self,
        i: usize,
        seat: Option<Direction>,
        frame: &Frame,
        now: u64,
    ) -> (r: Option<ErrorFrame>)
        requires
            old(self).wf(),
            i < old(self)@.rooms.len(),
        ensures
            final(self).wf(),
            final(self)@ == old(self)@.player_frame(i as int, seat, *frame, now).0,
            said(r) == old(self)@.player_frame(i as int, seat, *frame, now).1,
    {
        let ghost before = self@;
        proof {
            assert(before.rooms[i as int] == self.rooms@[i as int]@);
            assert(before.room_ok(i as int, before.rooms[i as int]));
        }
        let known = handle_table_msg(
            &mut self.rooms[i],
            i,
            true,
            seat,
            frame,
            now,
            &mut self.outbox,
        );
        let ghost o = table_outcome(before.rooms[i as int], i, true, seat, *frame, now);
        if let Some(reply) = known {
            proof {
                law_play_keeps_the_room(before.rooms[i as int], i, true, seat, *frame, now);
                assert(self@.rooms =~= before.rooms.update(i as int, o->0.room));
                assert(self@ =~= before.after_frame(i as int, o->0));
                lemma_wf_after_frame(before, i as int, o->0);
            }
            return reply;
        }
        proof {
            assert(self@.rooms =~= before.rooms);
            assert(self@ =~= before);
        }
        if frame.kind_is("ready_next_board") {
            match seat {
                None => Some(err_msg("not_seated", "kibitzers cannot ready up")),
                Some(seat) => {
                    self.ready_up(i, seat);
                    None
                },
            }
        } else if frame.kind_is("deal") {
            match seat {
                None => Some(err_msg("not_seated", "kibitzers cannot deal")),
                Some(_) => Some(
                    err_msg("session_table", "session boards are managed by the teacher console"),
                ),
            }
        } else {
            Some(err_msg("unknown", "unknown message type"))
        }
    }
}

/// Kibitzers change nothing but by undo: a frame of somebody without a seat that
/// is not an undo leaves the session as it is.
pub proof fn law_kibitzers_watch(s: SessionView, i: int, frame: Frame, now: u64)
    requires
        !frame.is_a("undo"@),
        0 <= i < s.rooms.len(),
    ensures
        s.player_frame(i, None, frame, now).0 == s,
{
    assert(s.rooms.update(i, s.rooms[i]) =~= s.rooms);
    assert(s.outbox + Seq::<Notice>::empty() =~= s.outbox);
    assert(s.player_frame(i, None, frame, now).0 =~= s);
}

/// A refused frame leaves the session as it is.
pub proof fn law_refusals_change_nothing(
    s: SessionView,
    i: int,
    seat: Option<Direction>,
    frame: Frame,
    now: u64,
)
    requires
        0 <= i < s.rooms.len(),
        s.player_frame(i, seat, frame, now).1 is Some,
    ensures
        s.player_frame(i, seat, frame, now).0 == s,
{
    law_play_keeps_the_room(s.rooms[i], i as usize, true, seat, frame, now);
    assert(s.rooms.update(i, s.rooms[i]) =~= s.rooms);
    assert(s.outbox + Seq::<Notice>::empty() =~= s.outbox);
    match table_outcome(s.rooms[i], i as usize, true, seat, frame, now) {
        Some(o) => {
            assert(o.told =~= Seq::<Notice>::empty());
            assert(s.after_frame(i, o) =~= s);
        },
        None => {},
    }
}

/// An undo takes back what an action did: after a player's accepted bid or play,
/// an undo to where the log stood puts the table back.
pub proof fn law_undo_takes_back(
    room: RoomView,
    table: usize,
    in_session: bool,
    seat: Option<Direction>,
    frame: Frame,
    now: u64,
    undo: Frame,
)
    requires
        frame.is_a("bid"@) || frame.is_a("play"@),
        table_outcome(room, table, in_session, seat, frame, now) matches Some(o) && o.error is None,
        undo.to_seq == Some(room.state.table.log.len() as u64),
        room.state.table.log.len() <= u64::MAX,
    ensures
        ({
            let o = table_outcome(room, table, in_session, seat, frame, now)->0;
            undo_outcome(o.room, table, in_session, undo).room == room
        }),
{
    reveal_strlit("pong");
    reveal_strlit("bid");
    reveal_strlit("play");
    assert("pong"@[1] != "play"@[1] && "bid"@.len() == 3);
    let o = table_outcome(room, table, in_session, seat, frame, now)->0;
    let n = room.state.table.log.len() as int;
    assert(o.room.state.table.log.subrange(0, n) =~= room.state.table.log);
    assert(undo_outcome(o.room, table, in_session, undo).room =~= room);
}

/// A seated player's bid is accepted exactly if it is a call, the board has an
/// auction and the table takes the call; then the call of that seat ends the log,
/// the table is told of it first, and the bots are started last. Each refusal has
/// its own code.
pub proof fn law_bids(
    room: RoomView,
    table: usize,
    in_session: bool,
    seat: Direction,
    frame: Frame,
)
    ensures
        ({
            let o = bid_outcome(room, table, in_session, Some(seat), frame);
            let mode = room.state.board_mode;
            &&& o.error is None <==> frame.call is Some && mode != BoardMode::PlayOnly
                && room.state.table.refusal(Action::Call { seat, call: frame.call->0 }) is None
            &&& o.error is None ==> {
                let action = Action::Call { seat, call: frame.call->0 };
                &&& o.room.state.table.log == room.state.table.log.push(action)
                &&& o.told[0] == (Notice::Event {
                    table,
                    event: action_event(o.room.state.table, action, None),
                })
                &&& o.told.last() == (Notice::Kick { table })
            }
            &&& frame.call is None ==> o.error->0.code == "bad_call"@
            &&& frame.call is Some && mode == BoardMode::PlayOnly ==> o.error->0.code
                == "play_only"@
            &&& frame.call is Some && mode != BoardMode::PlayOnly && o.error is Some
                ==> o.error->0.code == "rejected"@
            &&& bid_outcome(room, table, in_session, None, frame).error->0.code == "not_seated"@
        }),
{
    if frame.call is Some {
        let action = Action::Call { seat, call: frame.call->0 };
        law_told(room.state.table.then_do(action), table, action, None, false, in_session);
    }
}

/// Whoever is on turn plays for themselves. Nobody else plays for a defender, or
/// before there is a contract; the declarer side's cards are played by one of
/// that side, who controls it.
pub proof fn law_entitled(
    room: RoomInnerView,
    contract: Option<ContractOutcome>,
    turn: Direction,
    seat: Direction,
    now: u64,
)
    ensures
        entitled(room, contract, seat, seat, now),
        contract is None && turn != seat ==> !entitled(room, contract, turn, seat, now),
        contract matches Some(c) ==> {
            let side = turn == c.declarer || turn == c.declarer.partner();
            &&& !side && turn != seat ==> !entitled(room, contract, turn, seat, now)
            &&& side && seat == room.controller(c.declarer, true, now) ==> entitled(
                room,
                contract,
                turn,
                seat,
                now,
            )
            &&& turn != seat && entitled(room, contract, turn, seat, now) ==> seat
                == room.controller(c.declarer, true, now) && (seat == c.declarer || seat
                == c.declarer.partner())
        },
{
    if let Some(c) = contract {
        law_declarer_side(room, c.declarer, true, now);
        law_dummy_is_across(c);
    }
}

/// A seated player's card is accepted exactly if it is a card, the board has
/// cardplay, somebody is on turn for whom the player may play, and the table takes
/// the card. It is then played by the seat on turn and ends the log; the first
/// card of all makes everybody look again.
pub proof fn law_plays(
    room: RoomView,
    table: usize,
    in_session: bool,
    seat: Direction,
    frame: Frame,
    now: u64,
)
    ensures
        ({
            let o = play_outcome(room, table, in_session, Some(seat), frame, now);
            let f = room.state.table.folded();
            let card = card_in(frame.card->0@);
            let action = Action::Play { seat: f.next_to_act->0, card: card->0 };
            let named = frame.card is Some && card is Some;
            let mode = room.state.board_mode;
            &&& o.error is None <==> {
                &&& named && mode != BoardMode::BidOnly && f.next_to_act is Some
                &&& entitled(room.state, f.contract, f.next_to_act->0, seat, now)
                &&& room.state.table.refusal(action) is None
            }
            &&& o.error is None ==> {
                &&& o.room.state.table.log == room.state.table.log.push(action)
                &&& o.told[0] == (Notice::Event {
                    table,
                    event: action_event(o.room.state.table, action, None),
                })
                &&& f.played.len() == 0 ==> o.told.contains(Notice::Resync { table })
                &&& o.told.last() == (Notice::Kick { table })
            }
            &&& !named ==> o.error->0.code == "bad_card"@
            &&& named && mode == BoardMode::BidOnly ==> o.error->0.code == "bid_only"@
            &&& named && mode != BoardMode::BidOnly && o.error is Some ==> o.error->0.code
                == "rejected"@
            &&& play_outcome(room, table, in_session, None, frame, now).error->0.code
                == "not_seated"@
        }),
{
    let f = room.state.table.folded();
    let card = card_in(frame.card->0@);
    if frame.card is Some && card is Some && f.next_to_act is Some {
        let action = Action::Play { seat: f.next_to_act->0, card: card->0 };
        let after = room.state.table.then_do(action);
        let lead = f.played.len() == 0;
        law_told(after, table, action, None, lead, in_session);
        let all = told(after, table, action, None, lead, in_session);
        let o = acted(room, table, in_session, action, lead);
        assert(o.told[0] == all[0]);
        if lead {
            assert(all.contains(Notice::Resync { table }));
            let k = choose|k: int| 0 <= k < all.len() && all[k] == (Notice::Resync { table });
            assert(o.told[k] == (Notice::Resync { table }));
        }
    }
}

/// An undo is accepted exactly if it says how far back to go and does not go
/// forward; then so many actions are left of the log, and everybody is told how
/// many, looks again, and the bots are started.
pub proof fn law_undo(room: RoomView, table: usize, in_session: bool, frame: Frame)
    requires
        room.state.table.log.len() <= usize::MAX,
    ensures
        ({
            let o = undo_outcome(room, table, in_session, frame);
            let log = room.state.table.log;
            &&& o.error is None <==> frame.to_seq is Some && frame.to_seq->0 <= log.len()
            &&& o.error is None ==> {
                let n = frame.to_seq->0;
                &&& o.room.state.table.log.len() == n
                &&& o.room.state.table.log.is_prefix_of(log)
                &&& o.told[0] == (Notice::Event { table, event: Event::Undo { seq: n as usize } })
                &&& o.told[1] == (Notice::Resync { table })
                &&& o.told.last() == (Notice::Kick { table })
                &&& o.told.contains(Notice::Lobby) <==> in_session
            }
            &&& frame.to_seq is None ==> o.error->0.code == "bad_undo"@
            &&& frame.to_seq is Some && o.error is Some ==> o.error->0.code == "rejected"@
        }),
{
    let o = undo_outcome(room, table, in_session, frame);
    if o.error is None && in_session {
        assert(o.told[2] == Notice::Lobby);
    }
}

/// The frames that any table knows go by their kinds, and no other frame is known
/// there.
pub proof fn law_table_frames(
    room: RoomView,
    table: usize,
    in_session: bool,
    seat: Option<Direction>,
    frame: Frame,
    now: u64,
)
    ensures
        ({
            let o = table_outcome(room, table, in_session, seat, frame, now);
            &&& frame.is_a("pong"@) ==> o == Some(
                Outcome { room, told: Seq::<Notice>::empty(), error: None },
            )
            &&& frame.is_a("bid"@) ==> o == Some(bid_outcome(room, table, in_session, seat, frame))
            &&& frame.is_a("play"@) ==> o == Some(
                play_outcome(room, table, in_session, seat, frame, now),
            )
            &&& frame.is_a("undo"@) ==> o == Some(undo_outcome(room, table, in_session, frame))
            &&& o is Some <==> frame.is_a("pong"@) || frame.is_a("bid"@) || frame.is_a("play"@)
                || frame.is_a("undo"@)
        }),
{
    reveal_strlit("pong");
    reveal_strlit("bid");
    reveal_strlit("play");
    reveal_strlit("undo");
    assert("bid"@.len() == 3);
    assert("pong"@[0] == 'p' && "play"@[0] == 'p' && "undo"@[0] == 'u');
    assert("pong"@[1] == 'o' && "play"@[1] == 'l');
}

/// A player who is ready counts as ready until the next board, and nobody else
/// does because of it. The table is told first who is ready, the lobby last; and
/// the table goes on at once exactly if it then may.
pub proof fn law_ready(s: SessionView, i: int, seat: Direction, e: Direction)
    requires
        0 <= i < s.rooms.len() <= usize::MAX,
        s.boards.len() <= usize::MAX,
    ensures
        ({
            let after = s.readied(i, seat);
            let room = s.rooms[i];
            let ready = room.state.ready.with(seat, true);
            let marked = s.with_room(
                i,
                RoomView { state: RoomInnerView { ready, ..room.state }, ..room },
            );
            let n = s.outbox.len() as int;
            let index = room.state.board_index;
            &&& ready.has(seat) && (e != seat ==> ready.has(e) == room.state.ready.has(e))
            &&& after.outbox[n] == (Notice::Event {
                table: i as usize,
                event: Event::ReadyUpdate { seq: room.state.table.log.len() as usize, ready },
            })
            &&& after.outbox.last() == Notice::Lobby
            &&& after.rooms[i].state.seats == room.state.seats
            &&& marked.may_advance(i, false) ==> after.rooms[i].state.board_index == index + 1
                && after.rooms[i].state.table.log.len() == 0
            &&& !marked.may_advance(i, false) ==> after.rooms[i].state.ready == ready
                && after.rooms[i].state.table == room.state.table
                && after.rooms[i].state.board_index == index
        }),
{
    let room = s.rooms[i];
    let ready = room.state.ready.with(seat, true);
    let marked = s.with_room(i, RoomView { state: RoomInnerView { ready, ..room.state }, ..room });
    let told = marked.post(
        Notice::Event {
            table: i as usize,
            event: Event::ReadyUpdate { seq: room.state.table.log.len() as usize, ready },
        },
    );
    law_seat_set(room.state.ready, seat, e, true);
    assert(told.may_advance(i, false) == marked.may_advance(i, false));
    if told.may_advance(i, false) {
        law_advance(told, i, false, i, seat);
        let moved = told.advanced(i, false);
        assert(moved.outbox[s.outbox.len() as int] == told.outbox[s.outbox.len() as int]);
    }
}

/// At a session's table a frame of a known kind does what it does at any table;
/// readiness is for the seated, and nobody deals there.
pub proof fn law_player_frames(
    s: SessionView,
    i: int,
    seat: Option<Direction>,
    frame: Frame,
    now: u64,
)
    requires
        0 <= i < s.rooms.len() <= usize::MAX,
    ensures
        ({
            let (after, error) = s.player_frame(i, seat, frame, now);
            let o = table_outcome(s.rooms[i], i as usize, true, seat, frame, now);
            &&& o matches Some(o) ==> after.rooms[i] == o.room && error == o.error && after.outbox
                == s.outbox + o.told
            &&& frame.is_a("ready_next_board"@) ==> (match seat {
                Some(d) => after == s.readied(i, d) && error is None,
                None => after == s && error->0.code == "not_seated"@,
            })
            &&& frame.is_a("deal"@) ==> after == s && error->0.code == (if seat is Some {
                "session_table"@
            } else {
                "not_seated"@
            })
            &&& o is None && !frame.is_a("ready_next_board"@) && !frame.is_a("deal"@) ==> after
                == s && error->0.code == "unknown"@
        }),
{
    law_table_frames(s.rooms[i], i as usize, true, seat, frame, now);
    reveal_strlit("pong");
    reveal_strlit("bid");
    reveal_strlit("play");
    reveal_strlit("undo");
    reveal_strlit("deal");
    reveal_strlit("ready_next_board");
    assert("ready_next_board"@.len() == 16 && "bid"@.len() == 3);
    assert("pong"@[0] == 'p' && "play"@[0] == 'p' && "undo"@[0] == 'u' && "deal"@[0] == 'd');
    assert("deal"@.len() == 4 && "play"@.len() == 4 && "pong"@.len() == 4 && "undo"@.len() == 4);
}

} // verus!
