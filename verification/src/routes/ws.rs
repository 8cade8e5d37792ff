//! The WebSocket endpoint — all game traffic flows through here.
//!
//! Protocol (JSON, one message per frame):
//!   client → server: {"t":"hello","ticket":"…"} must be the FIRST message
//!                    (the ticket travels in-band, not in the URL, so it
//!                    stays out of proxy logs; optional "bot":"random" or
//!                    "bot":"rules" switches the table to random or
//!                    rule-based bots for testing — the welcome echoes the
//!                    mode; optional "seat":"N" asks for a seat, as an
//!                    invite link does), then
//!                    {"t":"bid","call":"1H"} | {"t":"play","card":"SA"} |
//!                    {"t":"undo","to_seq":N} | {"t":"ready_next_board"} |
//!                    {"t":"pong"};
//!                    teacher only: {"t":"open_boards","count":N} |
//!                    {"t":"assign_seat","table":ID,"seat":"S","sub":SUB|null} |
//!                    {"t":"boot","table":ID,"seat":"S"} |
//!                    {"t":"force_advance","table":ID} |
//!                    {"t":"kibitz","table":ID} |
//!                    runtime deal source + lockstep board nav:
//!                    {"t":"load_boards","boards_pbn":"…","label":"…"} |
//!                    {"t":"goto_board","index":N} (1-based) |
//!                    {"t":"next_board"} | {"t":"prev_board"} |
//!                    dynamic tables + lobby:
//!                    {"t":"seat_students"} | {"t":"wait_to_seat","on":bool} |
//!                    {"t":"add_tables","count":N} |
//!                    {"t":"set_seat_policy","policy":"first_free|one_per_south|
//!                        two_per_ns|pairs_ns|manual"} |
//!                    {"t":"set_bot_mode","mode":"rules|real|random|slow"} |
//!                    {"t":"pause_bots","on":bool}
//!   server → client: {"t":"welcome"…} then {"t":"snapshot"…} on join,
//!                    after any undo/board change, and after the opening
//!                    lead; {"t":"event"…} per action; {"t":"lobby"…}
//!                    (teachers, on join and on any session change); the
//!                    roster rides in a session's welcomes and snapshots
//!                    and in {"t":"event","kind":"roster_update"…};
//!                    {"t":"error"…}; {"t":"ping"}
//!
//! Routing: the verified ticket's `session_id` selects a live session; the
//! literal id "demo" falls through to the standing dev room. Within a session,
//! arrivals are seated by the session's seat policy; the session owner (or any
//! teacher-role ticket) joins as the see-all teacher — lobby feed,
//! kibitz-any-table, seat and round control.

pub mod client;
pub mod connection;
pub mod demo;
pub mod teacher;

use vstd::prelude::*;
use vstd::string::*;

use crate::auth::{admitted, signed_payload, verdict, verify_ticket, Ticket, TicketError};
use crate::boards::ParsedBoard;
use crate::cards::{
    law_ranks_ascend, law_seat_letters, law_suit_letters, Call, Card, Direction, Rank, Suit,
};
use crate::directory::{has_key, lemma_position, position, unique_keys};
use crate::events::Event;
use crate::registry::{Registry, RegistryView};
use crate::rooms::{BoardMode, BotMode, Room, RoomInner, RoomInnerView, SeatLabels};
use crate::seating::{seat_in, seat_of_text, text_view};
use crate::sessions::lobby::{roster_of, RosterEntry};
use crate::sessions::{id_view, views, Session};
use crate::table::{snapshot_of, Snapshot};
use crate::text::{chars_of, same};

verus! {

/// An error frame, for one client only.
#[derive(Debug, PartialEq, Eq)]
pub struct ErrorFrame {
    pub code: String,
    pub msg: String,
}

/// What an error frame says.
pub ghost struct ErrorView {
    pub code: Seq<char>,
    pub msg: Seq<char>,
}

impl View for ErrorFrame {
    type V = ErrorView;

    open spec fn view(&self) -> ErrorView {
        ErrorView { code: self.code@, msg: self.msg@ }
    }
}

/// What a client is told, if anything.
pub open spec fn said(e: Option<ErrorFrame>) -> Option<ErrorView> {
    match e {
        Some(e) => Some(e@),
        None => None,
    }
}

/// What an error frame says.
pub open spec fn error(code: Seq<char>, msg: Seq<char>) -> Option<ErrorView> {
    Some(ErrorView { code, msg })
}

pub fn err_msg(code: &str, msg: &str) -> (r: ErrorFrame)
    ensures
        r@ == (ErrorView { code: code@, msg: msg@ }),
{
    ErrorFrame { code: code.to_owned(), msg: msg.to_owned() }
}

/// The fields of a client's frame that are read here. A field is `None` where
/// the frame lacks it or holds another type of value.
#[derive(Debug)]
pub struct Frame {
    pub t: Option<String>,
    pub ticket: Option<String>,
    pub bot: Option<String>,
    /// `call`, where it is a call.
    pub call: Option<Call>,
    /// That call, written in PBN.
    pub call_text: String,
    pub card: Option<String>,
    pub to_seq: Option<u64>,
    pub source: Option<String>,
    pub script: Option<String>,
    pub mode: Option<String>,
    pub pbn: Option<String>,
    pub boards_pbn: Option<String>,
    /// What was made of `pbn` or `boards_pbn`, or why nothing could be.
    pub boards: Result<Vec<ParsedBoard>, String>,
    pub rotate: Option<u64>,
    pub label: Option<String>,
    pub count: Option<u64>,
    pub index: Option<u64>,
    pub table: Option<String>,
    pub seat: Option<String>,
    pub sub: Option<String>,
    pub on: Option<bool>,
    pub policy: Option<String>,
}

impl Frame {
    /// A frame of a kind, with no other field.
    pub fn of(kind: &str) -> (r: Frame)
        ensures
            text_view(r.t) == Some(kind@),
            r.call is None && r.card is None && r.to_seq is None && r.source is None,
            r.script is None && r.mode is None && r.pbn is None && r.boards_pbn is None,
            r.rotate is None && r.label is None && r.count is None && r.index is None,
            r.table is None && r.seat is None && r.sub is None && r.on is None,
            r.policy is None && r.ticket is None && r.bot is None && r.boards is Err,
    {
        Frame {
            t: Some(kind.to_owned()),
            ticket: None,
            bot: None,
            call: None,
            call_text: String::new(),
            card: None,
            to_seq: None,
            source: None,
            script: None,
            mode: None,
            pbn: None,
            boards_pbn: None,
            boards: Err(String::new()),
            rotate: None,
            label: None,
            count: None,
            index: None,
            table: None,
            seat: None,
            sub: None,
            on: None,
            policy: None,
        }
    }

    /// A frame of a kind.
    pub open spec fn is_a(self, kind: Seq<char>) -> bool {
        text_view(self.t) == Some(kind)
    }

    /// The boards that came with the frame can be counted.
    pub open spec fn countable(self) -> bool {
        self.boards is Ok ==> self.boards->Ok_0@.len() <= u32::MAX
    }

    pub(crate) fn kind_is(&self, kind: &str) -> (r: bool)
        ensures
            r == self.is_a(kind@),
    {
        match &self.t {
            Some(t) => same(t.as_str(), kind),
            None => false,
        }
    }
}

/// The card that a text of two characters names, suit first.
pub open spec fn card_in(s: Seq<char>) -> Option<Card> {
    if s.len() == 2 && Suit::named(s[0]) is Some && Rank::named(s[1]) is Some {
        Some(Card { suit: Suit::named(s[0])->0, rank: Rank::named(s[1])->0 })
    } else {
        None
    }
}

pub fn parse_card(s: &str) -> (r: Option<Card>)
    ensures
        r == card_in(s@),
{
    let chars = chars_of(s);
    if chars.len() != 2 {
        return None;
    }
    match (Suit::from_char(chars[0]), Rank::from_char(chars[1])) {
        (Some(suit), Some(rank)) => Some(Card::new(suit, rank)),
        _ => None,
    }
}

/// One viewer's snapshot frame: table state plus the seats map, so a
/// (re)joining client learns who is human/connected without waiting for
/// the next seat_update event.
#[derive(Debug)]
pub struct SnapshotFrame {
    pub table_id: String,
    pub state: Snapshot,
    pub your_seat: Option<Direction>,
    pub board_mode: BoardMode,
    pub seats: SeatLabels,
    /// The session's roster; `None` at a table outside any session.
    pub roster: Option<Vec<RosterEntry>>,
}

pub fn snapshot_msg(
    room_id: &str,
    inner: &RoomInner,
    seat: Option<Direction>,
    roster: Option<Vec<RosterEntry>>,
) -> (r: SnapshotFrame)
    requires
        inner@.wf(),
    ensures
        r.table_id@ == room_id@,
        r.state@ == snapshot_of(
            inner@.table.board,
            inner@.table.log,
            inner@.board_mode == BoardMode::BidOnly,
        ),
        r.your_seat == seat,
        r.board_mode == inner@.board_mode,
        r.seats@ == inner@.labels(),
        r.roster == roster,
{
    proof {
        crate::table::lemma_wf_foldable(inner.table);
    }
    SnapshotFrame {
        table_id: room_id.to_owned(),
        state: inner.table.snapshot(inner.board_mode == BoardMode::BidOnly),
        your_seat: seat,
        board_mode: inner.board_mode,
        seats: inner.seats_json(),
        roster,
    }
}

/// A viewer's snapshot frame of a session's table, with the session's roster.
pub fn session_snapshot(session: &Session, table: usize, seat: Option<Direction>) -> (r:
    SnapshotFrame)
    requires
        session.wf(),
        table < session@.rooms.len(),
    ensures
        ({
            let room = session@.rooms[table as int];
            &&& r.table_id@ == room.id
            &&& r.state@ == snapshot_of(
                room.state.table.board,
                room.state.table.log,
                room.state.board_mode == BoardMode::BidOnly,
            )
            &&& r.your_seat == seat
            &&& r.board_mode == room.state.board_mode
            &&& r.seats@ == room.state.labels()
            &&& r.roster is Some && views(r.roster->0@) == roster_of(session@)
        }),
{
    proof {
        assert(session@.rooms[table as int] == session.rooms@[table as int]@);
        assert(session@.room_ok(table as int, session@.rooms[table as int]));
    }
    let room: &Room = &session.rooms[table];
    snapshot_msg(room.id.as_str(), &room.state, seat, Some(session.roster_json()))
}

/// What is told when seats have changed.
pub open spec fn seats_told(inner: RoomInnerView) -> Event {
    Event::SeatUpdate { seq: inner.table.log.len() as usize }
}

pub fn seats_event(inner: &RoomInner) -> (r: Event)
    ensures
        r == seats_told(inner@),
{
    Event::SeatUpdate { seq: inner.table.seq() }
}

/// The parsed hello frame: the verified ticket plus protocol options.
#[derive(Debug)]
pub struct Hello {
    pub ticket: Ticket,
    /// Set iff the hello carried `"bot":"random"` or `"bot":"rules"`
    /// (testing convenience: switches the table's bot backend, skipping
    /// BBA/BEN).
    pub bot_override: Option<BotMode>,
    /// The seat that the hello asks for (an invite link's `?seat=N`).
    pub seat: Option<Direction>,
}

/// The first thing that a client sends.
#[derive(Debug)]
pub enum FirstFrame {
    /// Not a text frame.
    NotText,
    /// Text that is no JSON.
    BadJson,
    Json(Frame),
}

/// The token that a first frame carries, if it is a hello with one.
pub open spec fn hello_token(first: FirstFrame) -> Result<Seq<char>, ErrorView> {
    match first {
        FirstFrame::NotText => Err(
            ErrorView { code: "expected_hello"@, msg: "first frame must be hello"@ },
        ),
        FirstFrame::BadJson => Err(ErrorView { code: "bad_json"@, msg: "unparseable hello"@ }),
        FirstFrame::Json(frame) => if !frame.is_a("hello"@) {
            Err(ErrorView { code: "expected_hello"@, msg: "first frame must be hello"@ })
        } else {
            match text_view(frame.ticket) {
                None => Err(ErrorView { code: "no_ticket"@, msg: "hello.ticket missing"@ }),
                Some(token) => Ok(token),
            }
        },
    }
}

/// The bots that a frame asks for.
pub open spec fn bots_asked(first: FirstFrame) -> Option<BotMode> {
    match first {
        FirstFrame::Json(frame) => match text_view(frame.bot) {
            Some(s) => BotMode::asked(s),
            None => None,
        },
        _ => None,
    }
}

/// The seat that a frame asks for.
pub open spec fn seat_asked(first: FirstFrame) -> Option<Direction> {
    match first {
        FirstFrame::Json(frame) => seat_in(text_view(frame.seat)),
        _ => None,
    }
}

/// What a client is told of a refused ticket.
pub open spec fn bad_ticket(e: TicketError) -> ErrorView {
    ErrorView { code: "bad_ticket"@, msg: e.words() }
}

/// What becomes of a hello whose payload was read as the given ticket.
pub open spec fn greeted(
    ticket: Option<Ticket>,
    now: i64,
    first: FirstFrame,
    r: Result<Hello, ErrorFrame>,
) -> bool {
    match admitted(ticket, now) {
        Ok(t) => r matches Ok(hello) && hello.ticket == t && hello.bot_override == bots_asked(
            first,
        ) && hello.seat == seat_asked(first),
        Err(e) => r matches Err(frame) && frame@ == bad_ticket(e),
    }
}

/// The first frame must be a hello with a ticket that verifies. `read` reads a
/// ticket's payload; `None` says that it is no ticket.
pub fn check_hello<F: Fn(&Vec<u8>) -> Option<Ticket>>(
    first: &FirstFrame,
    ticket_secret: &str,
    read: F,
) -> (r: Result<Hello, ErrorFrame>)
    requires
        forall|payload: &Vec<u8>| #[trigger] read.requires((payload,)),
    ensures
        match hello_token(*first) {
            Err(e) => r is Err && r->Err_0@ == e,
            Ok(token) => match signed_payload(token, ticket_secret@) {
                Err(e) => r is Err && r->Err_0@ == bad_ticket(e),
                Ok(payload) => exists|bytes: Vec<u8>, ticket: Option<Ticket>, now: i64|
                    bytes@ == payload && #[trigger] read.ensures((&bytes,), ticket)
                        && #[trigger] greeted(ticket, now, *first, r),
            },
        },
{
    let frame = match first {
        FirstFrame::NotText => {
            return Err(err_msg("expected_hello", "first frame must be hello"));
        },
        FirstFrame::BadJson => {
            return Err(err_msg("bad_json", "unparseable hello"));
        },
        FirstFrame::Json(frame) => frame,
    };
    if !frame.kind_is("hello") {
        return Err(err_msg("expected_hello", "first frame must be hello"));
    }
    let token = match &frame.ticket {
        Some(token) => token,
        None => {
            return Err(err_msg("no_ticket", "hello.ticket missing"));
        },
    };
    let verified = verify_ticket(token.as_str(), ticket_secret, read);
    let ghost decided = verified;
    let bot_override = match &frame.bot {
        Some(s) => BotMode::parse(s.as_str()),
        None => None,
    };
    let r = match verified {
        Ok(ticket) => Ok(Hello { ticket, bot_override, seat: seat_of_text(&frame.seat) }),
        Err(e) => Err(err_msg("bad_ticket", e.message())),
    };
    proof {
        let s = signed_payload(token@, ticket_secret@);
        if s is Ok {
            let now = choose|now: i64| #[trigger]
                verdict(token@, ticket_secret@, now, read, decided);
            let (bytes, ticket) = choose|bytes: Vec<u8>, ticket: Option<Ticket>|
                bytes@ == s->Ok_0 && #[trigger] read.ensures((&bytes,), ticket) && decided
                    == admitted(ticket, now);
            assert(greeted(ticket, now, *first, r));
        }
    }
    r
}

/// Where a ticket leads.
#[derive(Clone, Copy, Debug, PartialEq, Eq, Structural)]
pub enum Route {
    /// To the session at that position, as its teacher.
    Teacher(usize),
    /// To the session at that position, as a player.
    Player(usize),
    /// To the standing dev room.
    Demo,
    /// Nowhere.
    Unknown,
}

/// Where a ticket leads: to its live session, as the teacher if it is the
/// owner's or a teacher's; else to the demo room, if it names that.
pub open spec fn route_of(r: RegistryView, ticket: Ticket) -> Route {
    if has_key(r.sessions, ticket.session_id@) {
        let i = position(r.sessions, ticket.session_id@);
        if ticket.sub@ == r.sessions[i].1.owner_sub || ticket.role@ == "teacher"@ {
            Route::Teacher(i as usize)
        } else {
            Route::Player(i as usize)
        }
    } else if ticket.session_id@ == "demo"@ {
        Route::Demo
    } else {
        Route::Unknown
    }
}

/// Session routing: the ticket names the session; "demo" is the standing
/// dev room (no admin setup required).
pub fn route(registry: &Registry, ticket: &Ticket) -> (r: Route)
    ensures
        r == route_of(registry@, *ticket),
{
    match registry.get_session(ticket.session_id.as_str()) {
        Some(i) => {
            assert(registry@.sessions[i as int].1 == registry.sessions.entries@[i as int].1@);
            let session = &registry.sessions.entries[i].1;
            let is_teacher = same(ticket.sub.as_str(), session.owner_sub.as_str()) || same(
                ticket.role.as_str(),
                "teacher",
            );
            if is_teacher {
                Route::Teacher(i)
            } else {
                Route::Player(i)
            }
        },
        None => if same(ticket.session_id.as_str(), "demo") {
            Route::Demo
        } else {
            Route::Unknown
        },
    }
}

/// What is told to a client whose ticket leads nowhere.
pub fn unknown_session() -> (r: ErrorFrame)
    ensures
        r@ == (ErrorView {
            code: "unknown_session"@,
            msg: "no such session (it may have been closed)"@,
        }),
{
    err_msg("unknown_session", "no such session (it may have been closed)")
}

/// A player's welcome frame. `total == 0` means no deal is loaded yet → the
/// client shows a "waiting" overlay.
#[derive(Debug)]
pub struct Welcome {
    pub session_id: String,
    pub table_id: String,
    pub name: String,
    pub role: String,
    pub seat: Option<Direction>,
    pub bot_mode: BotMode,
    pub loaded: bool,
    pub set_label: Option<String>,
    /// The current 1-based board.
    pub board: usize,
    pub board_total: usize,
    pub roster: Vec<RosterEntry>,
}

/// The welcome of a player at a session's table.
pub fn welcome_msg(session: &Session, table: usize, ticket: &Ticket, seat: Option<Direction>) -> (r:
    Welcome)
    requires
        session.wf(),
        table < session@.rooms.len(),
    ensures
        r.session_id@ == session@.id,
        r.table_id@ == session@.rooms[table as int].id,
        r.name@ == ticket.name@,
        r.role@ == ticket.role@,
        r.seat == seat,
        r.bot_mode == session@.rooms[table as int].bot_mode,
        r.loaded == (session@.boards.len() > 0),
        id_view(r.set_label) == session@.label,
        r.board == (if session@.boards.len() == 0 {
            0
        } else {
            session@.index + 1
        }),
        r.board == session@.board_shown(),
        r.board_total == session@.boards.len(),
        views(r.roster@) == roster_of(session@),
{
    let (set_label, board, board_total) = session.deck_status();
    assert(session@.rooms[table as int] == session.rooms@[table as int]@);
    let room: &Room = &session.rooms[table];
    Welcome {
        session_id: session.id.clone(),
        table_id: room.id.clone(),
        name: ticket.name.clone(),
        role: ticket.role.clone(),
        seat,
        bot_mode: room.bot_mode(),
        loaded: board_total > 0,
        set_label,
        board,
        board_total,
        roster: session.roster_json(),
    }
}

/// A teacher's welcome frame: no seat, and every hand in view.
#[derive(Debug)]
pub struct TeacherWelcome {
    pub session_id: String,
    pub name: String,
    pub roster: Vec<RosterEntry>,
}

/// The welcome of a session's teacher.
pub fn teacher_welcome_msg(session: &Session, ticket: &Ticket) -> (r: TeacherWelcome)
    ensures
        r.session_id@ == session@.id,
        r.name@ == ticket.name@,
        views(r.roster@) == roster_of(session@),
{
    TeacherWelcome {
        session_id: session.id.clone(),
        name: ticket.name.clone(),
        roster: session.roster_json(),
    }
}

/// A card is read exactly from its code: its suit's letter, then its rank's.
pub proof fn law_cards_are_read(card: Card, s: Seq<char>)
    ensures
        card_in(s) == Some(card) <==> s == seq![card.suit.to_char(), card.rank.to_char()],
        card_in(card.code()) == Some(card),
{
    let code = seq![card.suit.to_char(), card.rank.to_char()];
    if s.len() == 2 {
        law_suit_letters(card.suit, s[0]);
        law_ranks_ascend(card.rank, s[1]);
        if card_in(s) == Some(card) {
            assert(s =~= code);
        }
    }
    law_suit_letters(card.suit, code[0]);
    law_ranks_ascend(card.rank, code[1]);
}

/// A first frame is heard exactly if it is a hello with a ticket, and then for
/// that ticket. Each other first frame is answered with its own code.
pub proof fn law_hello(frame: Frame)
    ensures
        hello_token(FirstFrame::Json(frame)) is Ok <==> text_view(frame.t) == Some("hello"@)
            && frame.ticket is Some,
        hello_token(FirstFrame::Json(frame)) matches Ok(token) ==> Some(token) == text_view(
            frame.ticket,
        ),
        text_view(frame.t) == Some("hello"@) && frame.ticket is None ==> hello_token(
            FirstFrame::Json(frame),
        )->Err_0.code == "no_ticket"@,
        text_view(frame.t) != Some("hello"@) ==> hello_token(FirstFrame::Json(frame))->Err_0.code
            == "expected_hello"@,
        hello_token(FirstFrame::NotText) matches Err(e) && e.code == "expected_hello"@,
        hello_token(FirstFrame::BadJson) matches Err(e) && e.code == "bad_json"@,
{
}

/// A hello asks for random bots or rules bots by name and for nothing else, and
/// for a seat by the first letter of what it says.
pub proof fn law_hello_asks(frame: Frame, seat: Direction, rest: Seq<char>)
    ensures
        bots_asked(FirstFrame::Json(frame)) == Some(BotMode::Random) <==> text_view(frame.bot)
            == Some("random"@),
        bots_asked(FirstFrame::Json(frame)) == Some(BotMode::Rules) <==> text_view(frame.bot)
            == Some("rules"@),
        text_view(frame.bot) != Some("random"@) && text_view(frame.bot) != Some("rules"@)
            ==> bots_asked(FirstFrame::Json(frame)) is None,
        text_view(frame.seat) == Some(seq![seat.to_char()] + rest) ==> seat_asked(
            FirstFrame::Json(frame),
        ) == Some(seat),
        frame.seat is None ==> seat_asked(FirstFrame::Json(frame)) is None,
{
    reveal_strlit("random");
    reveal_strlit("rules");
    assert("random"@.len() == 6 && "rules"@.len() == 5);
    assert((seq![seat.to_char()] + rest)[0] == seat.to_char());
    law_seat_letters(seat, seat.to_char());
}

/// A refused ticket is answered with its reason, under a code of its own; one
/// that is let in is the one that was read, with what the hello asks for.
pub proof fn law_greeting(ticket: Ticket, now: i64, first: FirstFrame, r: Result<Hello, ErrorFrame>)
    requires
        greeted(Some(ticket), now, first, r),
    ensures
        r is Ok <==> now <= ticket.exp,
        r matches Ok(hello) ==> hello.ticket == ticket && hello.bot_override == bots_asked(first)
            && hello.seat == seat_asked(first),
        r matches Err(e) ==> e@.code == "bad_ticket"@ && e@.msg == "ticket expired"@,
{
}

/// A ticket leads to the live session of its id: as the teacher exactly if it is
/// the owner's or says so in its role. Without such a session it leads to the
/// demo room if it names that, and nowhere else.
pub proof fn law_routes(r: RegistryView, ticket: Ticket, i: int)
    requires
        r.sessions.len() <= usize::MAX,
        unique_keys(r.sessions),
        0 <= i < r.sessions.len(),
    ensures
        ({
            let route = route_of(r, ticket);
            let here = r.sessions[i].0 == ticket.session_id@;
            let s = r.sessions[i].1;
            &&& here && (s.owner_sub == ticket.sub@ || ticket.role@ == "teacher"@) <==> route
                == Route::Teacher(i as usize)
            &&& here && s.owner_sub != ticket.sub@ && ticket.role@ != "teacher"@ <==> route
                == Route::Player(i as usize)
        }),
        (forall|j: int|
            0 <= j < r.sessions.len() ==> (#[trigger] r.sessions[j]).0 != ticket.session_id@) ==> (
        route_of(r, ticket) == Route::Demo <==> ticket.session_id@ == "demo"@) && (route_of(
            r,
            ticket,
        ) == Route::Unknown <==> ticket.session_id@ != "demo"@),
{
    let id = ticket.session_id@;
    lemma_position(r.sessions, id);
    let p = position(r.sessions, id);
    if r.sessions[i].0 == id {
        if p < i {
            assert(r.sessions[p].0 != r.sessions[i].0);
        } else if i < p {
            assert(r.sessions[i].0 != id);
        }
    }
    if forall|j: int| 0 <= j < r.sessions.len() ==> (#[trigger] r.sessions[j]).0 != id {
        if p < r.sessions.len() {
            assert(r.sessions[p].0 != id);
        }
    }
}

} // verus!
