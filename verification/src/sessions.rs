//! Multiplayer sessions: a set of tables playing the same ordered boards.
//!
//! A session holds N rooms (`"<session>-t1"`…), the board list, the seat
//! policy, and the teacher-gated round counter.
//!
//! # Seat policy
//!
//! - manual — arrivals wait in the lobby (watching a table) until the teacher
//!   seats them.
//! - one per seat — arrivals are dealt round-robin across tables into the
//!   listed seats; when every existing table's seats fill, a new table is
//!   **auto-created**.
//! - pairs — fills a table's whole side before the next (partners together),
//!   auto-creating as needed.
//! - first free (the default) — first free seat (S, W, N, E) round-robin,
//!   auto-creating as needed.
//!
//! Sessions can start with **0 tables** (arrivals create them) and with
//! **`wait_to_seat`** on (waiting room: arrivals wait until `seat_students`).
//! A lobby member is *waiting* (auto-fill eligible) or *parked* (benched —
//! never auto-reseated, even on reconnect).
//!
//! # Board flow
//!
//! `boards[0..open_boards]` are open. A table advances (fresh `TableState`,
//! cleared predicted auction, snapshot resync) when every *connected seated
//! human* is ready and the next board is open — or when the teacher forces it
//! (which skips both checks). Teacher sets are lockstep: their tables move
//! only on a teacher command.
//!
//! A session posts what it has to tell its connections to its `outbox`.

pub mod control;
pub mod lobby;
pub mod placing;
pub mod rounds;

use vstd::prelude::*;
use vstd::string::*;

use crate::cards::Direction;
use crate::directory::{lookup, unique_keys, with_entry, without_key, Directory};
use crate::events::Notice;
use crate::rooms::{
    demo_board_view, fresh_occupant, placeholder_board, BoardMode, BotMode, OccupantView, Room,
    RoomInnerView, RoomView, SeatsView, TakeoverGrace,
};
pub use crate::boards::{parse_boards, ParsedBoard};
pub use crate::seating::{SeatPolicy, Side, SideSet};
use crate::seating::{quoted, PolicyView};
use crate::table::{BoardSetup, BoardView};
use crate::text::{decimal, occurs_at, push_decimal, same};

verus! {

/// Who runs a session.
#[derive(Clone, Copy, Debug, PartialEq, Eq, Structural)]
pub enum SessionKind {
    /// Teacher-run class set: rounds are teacher-gated (starts with board 1
    /// open).
    TeacherSet,
    /// Friends' table(s): every board is open; tables advance on all-ready.
    Adhoc,
}

impl SessionKind {
    pub fn parse(s: &str) -> (r: Result<SessionKind, String>)
        ensures
            match r {
                Ok(kind) => if s@ == "teacher_set"@ {
                    kind == SessionKind::TeacherSet
                } else {
                    s@ == "adhoc"@ && kind == SessionKind::Adhoc
                },
                Err(e) => s@ != "teacher_set"@ && s@ != "adhoc"@ && e@ == "unknown session kind '"@
                    + s@ + "'"@,
            },
    {
        if same(s, "teacher_set") {
            Ok(SessionKind::TeacherSet)
        } else if same(s, "adhoc") {
            Ok(SessionKind::Adhoc)
        } else {
            Err(quoted("unknown session kind '", s))
        }
    }

    pub open spec fn grace(self) -> TakeoverGrace {
        match self {
            SessionKind::Adhoc => TakeoverGrace::spec_fast(),
            SessionKind::TeacherSet => TakeoverGrace::spec_standard(),
        }
    }

    /// Friends' tables hand off to bots fast; classroom sets keep the generous
    /// reconnect grace.
    pub fn takeover(self) -> (r: TakeoverGrace)
        ensures
            r == self.grace(),
    {
        match self {
            SessionKind::Adhoc => TakeoverGrace::fast(),
            SessionKind::TeacherSet => TakeoverGrace::standard(),
        }
    }
}

/// A participant in the lobby: connected but unseated (waiting to be seated,
/// benched/parked, or a manual-policy watcher). Tracked so the teacher's lobby
/// lists them and `assign_seat` / `seat_students` can find them.
#[derive(Debug)]
pub struct Kibitzer {
    pub name: String,
    /// The table their connection watches, if any.
    pub room_id: Option<String>,
    /// Timeout corner: `true` = benched, never auto-seated. `false` = waiting,
    /// eligible for auto-fill / `seat_students`.
    pub parked: bool,
}

/// What a lobby member is.
#[verifier::ext_equal]
pub ghost struct KibitzerView {
    pub name: Seq<char>,
    pub room_id: Option<Seq<char>>,
    pub parked: bool,
}

pub open spec fn id_view(id: Option<String>) -> Option<Seq<char>> {
    match id {
        Some(text) => Some(text@),
        None => None,
    }
}

impl View for Kibitzer {
    type V = KibitzerView;

    open spec fn view(&self) -> KibitzerView {
        KibitzerView {
            name: self.name@,
            room_id: id_view(self.room_id),
            parked: self.parked,
        }
    }
}

/// One live connection, kept under its opaque per-connection token (a random
/// id minted at connect, unrelated to `sub` — the client never sees `sub`).
/// Tracked so the host roster can list every human connection (seated,
/// waiting, OR the unseated host), and so a token-addressed `assign_seat` can
/// resolve a token back to the participant it should seat.
#[derive(Debug)]
pub struct ConnMeta {
    /// Ticket subject (stable participant identity — used for seats/reconnect).
    pub sub: String,
    pub name: String,
    /// Socket currently live? A seated participant whose socket dropped stays
    /// in the registry (connected=false) so the roster greys them while the
    /// zombie-seat grace runs.
    pub connected: bool,
}

/// What a connection is.
#[verifier::ext_equal]
pub ghost struct ConnView {
    pub sub: Seq<char>,
    pub name: Seq<char>,
    pub connected: bool,
}

impl View for ConnMeta {
    type V = ConnView;

    open spec fn view(&self) -> ConnView {
        ConnView { sub: self.sub@, name: self.name@, connected: self.connected }
    }
}

/// Whether a subject is a guest's.
pub open spec fn is_guest(sub: Seq<char>) -> bool {
    occurs_at(sub, "guest-"@, 0)
}

/// The classroom account id behind a ticket subject, or `None` for a guest.
///
/// Guest subjects are minted as `guest-<uuid>`; every other subject IS the
/// account's id. Exposed in the roster because friend requests are addressed
/// by account id, and the only way to befriend someone is to have shared a
/// table with them. A guest cannot be friended.
pub fn account_id_of(sub: &str) -> (r: Option<&str>)
    ensures
        match r {
            Some(id) => !is_guest(sub@) && id@ == sub@,
            None => is_guest(sub@),
        },
{
    if crate::text::has_prefix(sub, "guest-") {
        None
    } else {
        Some(sub)
    }
}

/// The session's loaded board set. `index` is the lockstep teacher pointer
/// (0-based current board, forced onto every table by `deal_index_to_all`).
/// An empty `boards` = idle: no deal loaded yet, rooms hold a throwaway
/// placeholder board and bots stay off until `load_boards`.
#[derive(Debug)]
pub struct Deck {
    pub boards: Vec<BoardSetup>,
    /// Brief human-readable description of the set, for the teacher console.
    /// None while idle.
    pub label: Option<String>,
    /// Lockstep teacher pointer: 0-based index of the board all teacher_set
    /// tables are on. Reset to 0 on load.
    pub index: usize,
}

/// A set of tables that play the same boards.
#[derive(Debug)]
pub struct Session {
    pub id: String,
    pub kind: SessionKind,
    pub owner_sub: String,
    /// Auto-seat shape, live-settable from the console.
    pub seat_policy: SeatPolicy,
    /// Session-default bot backend; new tables inherit it, `set_bot_mode`
    /// applies it to all.
    pub bot_mode: BotMode,
    /// Session-default board mode; new tables inherit it, `set_board_mode`
    /// applies it to all.
    pub board_mode: BoardMode,
    /// Teacher pause: bots stop acting until resumed.
    pub bots_paused: bool,
    /// The loaded set + label + lockstep pointer.
    pub deck: Deck,
    /// Tables. Append-only.
    pub rooms: Vec<Room>,
    /// Next table number for `<id>-t<n>` ids.
    pub next_table_no: usize,
    /// Waiting room: when true, arrivals wait in the lobby instead of
    /// auto-seating (teacher runs `seat_students`).
    pub wait_to_seat: bool,
    /// Adhoc open-board window (all boards open once a set is loaded).
    /// teacher_set ignores it — it's teacher-driven lockstep.
    pub open_boards: usize,
    /// Round-robin cursor distributing arrivals across tables.
    pub next_arrival: usize,
    pub kibitzers: Directory<Kibitzer>,
    /// Live connections by opaque per-connection token.
    pub connections: Directory<ConnMeta>,
    /// What is to be delivered to the connections, oldest first.
    pub outbox: Vec<Notice>,
}

/// The views of the members of a list.
pub open spec fn views<T: View>(s: Seq<T>) -> Seq<T::V> {
    Seq::new(s.len(), |i: int| s[i]@)
}

/// What a session is.
#[verifier::ext_equal]
pub ghost struct SessionView {
    pub id: Seq<char>,
    pub kind: SessionKind,
    pub owner_sub: Seq<char>,
    pub policy: PolicyView,
    pub bot_mode: BotMode,
    pub board_mode: BoardMode,
    pub bots_paused: bool,
    pub boards: Seq<BoardView>,
    pub label: Option<Seq<char>>,
    pub index: usize,
    pub rooms: Seq<RoomView>,
    pub next_table_no: usize,
    pub wait_to_seat: bool,
    pub open_boards: usize,
    pub next_arrival: usize,
    pub kibitzers: Seq<(Seq<char>, KibitzerView)>,
    pub connections: Seq<(Seq<char>, ConnView)>,
    pub outbox: Seq<Notice>,
}

impl View for Session {
    type V = SessionView;

    open spec fn view(&self) -> SessionView {
        SessionView {
            id: self.id@,
            kind: self.kind,
            owner_sub: self.owner_sub@,
            policy: self.seat_policy@,
            bot_mode: self.bot_mode,
            board_mode: self.board_mode,
            bots_paused: self.bots_paused,
            boards: views(self.deck.boards@),
            label: id_view(self.deck.label),
            index: self.deck.index,
            rooms: views(self.rooms@),
            next_table_no: self.next_table_no,
            wait_to_seat: self.wait_to_seat,
            open_boards: self.open_boards,
            next_arrival: self.next_arrival,
            kibitzers: self.kibitzers@,
            connections: self.connections@,
            outbox: self.outbox@,
        }
    }
}

/// The id of a session's `n`-th table.
pub open spec fn table_id(session: Seq<char>, n: int) -> Seq<char> {
    session + "-t"@ + decimal(n as nat)
}

/// The id of a session's `n`-th table.
fn make_table_id(session: &str, n: usize) -> (r: String)
    ensures
        r@ == table_id(session@, n as int),
{
    let mut s = session.to_owned();
    s.append("-t");
    push_decimal(&mut s, n as u128);
    s
}

/// The first table, at or after `from`, at which somebody sits, and where.
pub open spec fn seat_from(rooms: Seq<RoomView>, sub: Seq<char>, from: int) -> Option<
    (int, Direction),
>
    decreases rooms.len() - from,
{
    if from < 0 || from >= rooms.len() {
        None
    } else {
        match rooms[from].state.seats.seat_of(sub) {
            Some(seat) => Some((from, seat)),
            None => seat_from(rooms, sub, from + 1),
        }
    }
}

/// The first table, at or after `from`, with a disconnected occupant of the
/// given name, and where that occupant sits.
pub open spec fn ghost_from(rooms: Seq<RoomView>, name: Seq<char>, from: int) -> Option<
    (int, Direction),
>
    decreases rooms.len() - from,
{
    if from < 0 || from >= rooms.len() {
        None
    } else {
        match rooms[from].state.seats.ghost_named(name) {
            Some(seat) => Some((from, seat)),
            None => ghost_from(rooms, name, from + 1),
        }
    }
}

/// The first table, at or after `from`, with the given id; the number of
/// tables if there is none.
pub open spec fn room_from(rooms: Seq<RoomView>, id: Seq<char>, from: int) -> int
    decreases rooms.len() - from,
{
    if from < 0 || from >= rooms.len() {
        rooms.len() as int
    } else if rooms[from].id == id {
        from
    } else {
        room_from(rooms, id, from + 1)
    }
}

/// The first vacant seat among those listed from `from` on.
pub open spec fn vacant_from(seats: SeatsView, order: Seq<Direction>, from: int) -> Option<
    Direction,
>
    decreases order.len() - from,
{
    if from < 0 || from >= order.len() {
        None
    } else if seats.get(order[from]) is None {
        Some(order[from])
    } else {
        vacant_from(seats, order, from + 1)
    }
}

/// The first vacant seat of the tables taken in turn from `start` on, of which
/// `offset` have been tried.
pub open spec fn slot_from(
    rooms: Seq<RoomView>,
    start: int,
    order: Seq<Direction>,
    offset: int,
) -> Option<(int, Direction)>
    decreases rooms.len() - offset,
{
    if offset < 0 || offset >= rooms.len() {
        None
    } else {
        let i = (start + offset) % (rooms.len() as int);
        match vacant_from(rooms[i].state.seats, order, 0) {
            Some(seat) => Some((i, seat)),
            None => slot_from(rooms, start, order, offset + 1),
        }
    }
}

impl RoomView {
    /// Somebody takes a vacant seat.
    pub open spec fn seating(self, seat: Direction, occ: OccupantView) -> RoomView {
        RoomView { state: self.state.placed(seat, occ), ..self }
    }

    /// Two states of a room in which the same game is going on.
    pub open spec fn same_game(self, other: RoomView) -> bool {
        &&& self.id == other.id
        &&& self.state.table == other.state.table
        &&& self.state.board_index == other.state.board_index
        &&& self.state.takeover == other.state.takeover
    }
}

impl SessionView {
    /// A table belongs to the session: its id goes by its position, and its log
    /// is legal.
    pub open spec fn room_fits(self, i: int, r: RoomView) -> bool {
        &&& r.id == table_id(self.id, i + 1)
        &&& r.state.wf()
        &&& r.state.takeover == self.kind.grace()
    }

    /// A table is in order: its id goes by its position, its log is legal, and
    /// it plays a board of the session (a placeholder while none is loaded).
    pub open spec fn room_ok(self, i: int, r: RoomView) -> bool {
        &&& self.room_fits(i, r)
        &&& if self.boards.len() == 0 {
            r.state.board_index == 0
        } else {
            r.state.board_index < self.boards.len() && r.state.table.board
                == self.boards[r.state.board_index as int]
        }
    }

    /// The session is in order.
    pub open spec fn wf(self) -> bool {
        &&& self.policy.wf()
        &&& unique_keys(self.kibitzers)
        &&& unique_keys(self.connections)
        &&& if self.boards.len() == 0 {
            self.index == 0
        } else {
            self.index < self.boards.len()
        }
        &&& self.open_boards <= self.boards.len()
        &&& self.next_table_no == self.rooms.len()
        &&& forall|i: int| 0 <= i < self.rooms.len() ==> self.room_ok(i, #[trigger] self.rooms[i])
    }

    pub open spec fn post(self, notice: Notice) -> SessionView {
        SessionView { outbox: self.outbox.push(notice), ..self }
    }

    pub open spec fn with_room(self, i: int, r: RoomView) -> SessionView {
        SessionView { rooms: self.rooms.update(i, r), ..self }
    }

    /// The board that a new table starts on.
    pub open spec fn current_board(self) -> BoardView {
        if self.boards.len() == 0 {
            demo_board_view()
        } else {
            self.boards[self.index as int]
        }
    }

    /// A table that is added now: on the current board, with the session's bot
    /// backend and board mode.
    pub open spec fn new_room(self) -> RoomView {
        let fresh = RoomInnerView::fresh(self.current_board(), self.kind.grace());
        RoomView {
            id: table_id(self.id, self.next_table_no + 1),
            state: RoomInnerView {
                board_mode: self.board_mode,
                board_index: if self.boards.len() == 0 {
                    0
                } else {
                    self.index
                },
                ..fresh
            },
            bot_mode: self.bot_mode,
            bba_cache: None,
        }
    }

    /// The session with one more table.
    pub open spec fn added(self) -> SessionView {
        let n = self.rooms.len() as usize;
        let grown = SessionView {
            rooms: self.rooms.push(self.new_room()),
            next_table_no: (self.next_table_no + 1) as usize,
            ..self
        }.post(Notice::Keepalive { table: n });
        (if self.bots_paused {
            grown
        } else {
            grown.post(Notice::Kick { table: n })
        }).post(Notice::Lobby)
    }

    /// The session with `n` more tables.
    pub open spec fn added_many(self, n: nat) -> SessionView
        decreases n,
    {
        if n == 0 {
            self
        } else {
            self.added_many((n - 1) as nat).added()
        }
    }

    /// The session with at least one table.
    pub open spec fn watching(self) -> SessionView {
        if self.rooms.len() == 0 {
            self.added()
        } else {
            self
        }
    }

    /// Somebody takes a vacant seat.
    pub open spec fn seated(
        self,
        i: int,
        seat: Direction,
        sub: Seq<char>,
        name: Seq<char>,
    ) -> SessionView {
        self.with_room(i, self.rooms[i].seating(seat, fresh_occupant(sub, name)))
    }

    /// Where the policy puts the next arrival among the tables there are.
    pub open spec fn slot(self, shape: PolicyView) -> Option<(int, Direction)> {
        match shape {
            PolicyView::Manual => None,
            PolicyView::Pairs(_) => slot_from(self.rooms, 0, shape.seats(), 0),
            _ => slot_from(self.rooms, self.next_arrival as int, shape.seats(), 0),
        }
    }

    /// The round-robin cursor has moved on, where the policy has one.
    pub open spec fn moved_on(self, shape: PolicyView) -> SessionView {
        match shape {
            PolicyView::Manual | PolicyView::Pairs(_) => self,
            _ => SessionView {
                next_arrival: if self.next_arrival == usize::MAX {
                    0
                } else {
                    (self.next_arrival + 1) as usize
                },
                ..self
            },
        }
    }

    /// Somebody is seated by the policy, at a new table if all are full.
    pub open spec fn seat_one(self, shape: PolicyView, sub: Seq<char>, name: Seq<char>) -> (
        SessionView,
        int,
        Direction,
    ) {
        let next = self.moved_on(shape);
        match self.slot(shape) {
            Some((i, seat)) => (next.seated(i, seat, sub, name), i, seat),
            None => {
                let n = self.rooms.len() as int;
                (next.added().seated(n, shape.first(), sub, name), n, shape.first())
            },
        }
    }
}

/// The session stays in order when a table's people change.
pub proof fn lemma_wf_people(s: SessionView, i: int, r: RoomView)
    requires
        s.wf(),
        0 <= i < s.rooms.len(),
        r.same_game(s.rooms[i]),
    ensures
        s.with_room(i, r).wf(),
{
    let t = s.with_room(i, r);
    assert forall|j: int| 0 <= j < t.rooms.len() implies t.room_ok(j, #[trigger] t.rooms[j]) by {
        assert(s.room_ok(j, s.rooms[j]));
    }
}

/// A session with one more table is in order.
pub proof fn lemma_wf_added(s: SessionView)
    requires
        s.wf(),
        s.rooms.len() < usize::MAX,
    ensures
        s.added().wf(),
        s.added().rooms.len() == s.rooms.len() + 1,
{
    let t = s.added();
    assert forall|j: int| 0 <= j < t.rooms.len() implies t.room_ok(j, #[trigger] t.rooms[j]) by {
        if j < s.rooms.len() {
            assert(s.room_ok(j, s.rooms[j]));
            assert(t.rooms[j] == s.rooms[j]);
        } else {
            assert(t.rooms[j] == s.new_room());
        }
    }
}

/// A seat that is found at a table is held there.
pub proof fn lemma_seat_from(rooms: Seq<RoomView>, sub: Seq<char>, from: int)
    requires
        0 <= from <= rooms.len(),
    ensures
        match seat_from(rooms, sub, from) {
            Some((i, seat)) => from <= i < rooms.len() && rooms[i].state.seats.held_by(seat, sub)
                && rooms[i].state.seats.seat_of(sub) == Some(seat) && forall|j: int|
                from <= j < i ==> #[trigger] rooms[j].state.seats.seat_of(sub) is None,
            None => forall|j: int|
                from <= j < rooms.len() ==> #[trigger] rooms[j].state.seats.seat_of(sub) is None,
        },
    decreases rooms.len() - from,
{
    if from < rooms.len() {
        crate::rooms::law_seat_of(rooms[from].state.seats, sub);
        lemma_seat_from(rooms, sub, from + 1);
    }
}

/// A seat whose disconnected occupant is found by name is there.
pub proof fn lemma_ghost_from(rooms: Seq<RoomView>, name: Seq<char>, from: int)
    requires
        0 <= from <= rooms.len(),
    ensures
        ghost_from(rooms, name, from) matches Some((i, seat)) ==> from <= i < rooms.len()
            && rooms[i].state.seats.is_ghost(seat) && rooms[i].state.seats.get(seat)->0.name == name,
    decreases rooms.len() - from,
{
    if from < rooms.len() {
        lemma_ghost_from(rooms, name, from + 1);
    }
}

/// A seat found vacant in a list is in the list, and vacant.
pub proof fn lemma_vacant_from(seats: SeatsView, order: Seq<Direction>, from: int)
    requires
        0 <= from <= order.len(),
    ensures
        match vacant_from(seats, order, from) {
            Some(seat) => seats.get(seat) is None && order.contains(seat),
            None => forall|j: int|
                from <= j < order.len() ==> seats.get(#[trigger] order[j]) is Some,
        },
    decreases order.len() - from,
{
    if from < order.len() {
        lemma_vacant_from(seats, order, from + 1);
    }
}

/// A slot is a vacant seat at a table, of those listed.
pub proof fn lemma_slot_from(
    rooms: Seq<RoomView>,
    start: int,
    order: Seq<Direction>,
    offset: int,
)
    requires
        0 <= offset <= rooms.len(),
        0 <= start,
    ensures
        slot_from(rooms, start, order, offset) matches Some((i, seat)) ==> 0 <= i < rooms.len()
            && rooms[i].state.seats.get(seat) is None && order.contains(seat),
    decreases rooms.len() - offset,
{
    if offset < rooms.len() {
        let i = (start + offset) % (rooms.len() as int);
        lemma_vacant_from(rooms[i].state.seats, order, 0);
        lemma_slot_from(rooms, start, order, offset + 1);
    }
}

impl Session {
    /// The session is in order.
    pub open spec fn wf(&self) -> bool {
        self@.wf()
    }

    pub(crate) fn post(&mut self, notice: Notice)
        ensures
            final(self)@ == old(self)@.post(notice),
    {
        self.outbox.push(notice);
    }

    pub fn notify_lobby(&mut self)
        ensures
            final(self)@ == old(self)@.post(Notice::Lobby),
    {
        self.post(Notice::Lobby);
    }

    pub fn notify_recheck(&mut self)
        ensures
            final(self)@ == old(self)@.post(Notice::Recheck),
    {
        self.post(Notice::Recheck);
    }

    /// Hands over what is to be delivered.
    pub fn take_outbox(&mut self) -> (r: Vec<Notice>)
        ensures
            r@ == old(self)@.outbox,
            final(self)@ == (SessionView { outbox: seq![], ..old(self)@ }),
    {
        let mut r: Vec<Notice> = Vec::new();
        std::mem::swap(&mut r, &mut self.outbox);
        assert(self@ =~= (SessionView { outbox: seq![], ..old(self)@ }));
        r
    }

    pub fn table_count(&self) -> (r: usize)
        ensures
            r == self@.rooms.len(),
    {
        self.rooms.len()
    }

    /// The table with the given id; the number of tables if there is none.
    pub fn room_by_id(&self, table_id: &str) -> (r: usize)
        ensures
            r == room_from(self@.rooms, table_id@, 0),
            r <= self@.rooms.len(),
            r < self@.rooms.len() ==> self@.rooms[r as int].id == table_id@,
    {
        let mut i: usize = 0;
        while i < self.rooms.len()
            invariant
                i <= self.rooms.len(),
                room_from(self@.rooms, table_id@, 0) == room_from(
                    self@.rooms,
                    table_id@,
                    i as int,
                ),
            decreases self.rooms.len() - i,
        {
            if same(self.rooms[i].id.as_str(), table_id) {
                return i;
            }
            i = i + 1;
        }
        i
    }

    /// Add a table (student-fill auto-create / add_tables). Starts on the
    /// current board (placeholder while idle) and kicks its bots.
    pub fn add_room(&mut self) -> (r: usize)
        requires
            old(self).wf(),
            old(self)@.rooms.len() < usize::MAX,
        ensures
            final(self).wf(),
            r == old(self)@.rooms.len(),
            final(self)@ == old(self)@.added(),
    {
        proof {
            lemma_wf_added(self@);
        }
        let table: usize = self.rooms.len();
        let n: usize = self.next_table_no + 1;
        let idle = self.deck.boards.len() == 0;
        let board = if idle {
            placeholder_board()
        } else {
            self.deck.boards[self.deck.index].copy()
        };
        let mut room = Room::new(
            make_table_id(self.id.as_str(), n),
            board,
            self.kind.takeover(),
        );
        // New tables inherit the session's bot backend + board mode.
        room.set_bot_mode(self.bot_mode);
        room.state.board_mode = self.board_mode;
        room.state.board_index = if idle {
            0
        } else {
            self.deck.index
        };
        assert(room@ =~= self@.new_room());
        self.rooms.push(room);
        self.next_table_no = n;
        assert(self@.rooms =~= old(self)@.rooms.push(old(self)@.new_room()));
        self.post(Notice::Keepalive { table });
        if !self.bots_paused {
            self.post(Notice::Kick { table });
        }
        self.notify_lobby();
        assert(self@ =~= old(self)@.added());
        table
    }
}

/// Adding tables one by one keeps the session in order.
pub proof fn lemma_wf_added_many(s: SessionView, n: nat)
    requires
        s.wf(),
        s.rooms.len() + n <= usize::MAX,
    ensures
        s.added_many(n).wf(),
        s.added_many(n).rooms.len() == s.rooms.len() + n,
    decreases n,
{
    if n > 0 {
        lemma_wf_added_many(s, (n - 1) as nat);
        lemma_wf_added(s.added_many((n - 1) as nat));
    }
}

/// The notices that start the drivers of the first `n` tables.
pub open spec fn kicks(n: int) -> Seq<Notice> {
    Seq::new(n as nat, |i: int| Notice::Kick { table: i as usize })
}

impl SessionView {
    /// The drivers of all tables are started.
    pub open spec fn all_kicked(self) -> SessionView {
        SessionView { outbox: self.outbox + kicks(self.rooms.len() as int), ..self }
    }

    /// The drivers of all tables are started, unless bots are paused.
    pub open spec fn bots_started(self) -> SessionView {
        if self.bots_paused {
            self
        } else {
            self.all_kicked()
        }
    }

    /// Every table uses the given bot backend, and so will new ones.
    pub open spec fn bot_mode_set(self, mode: BotMode) -> SessionView {
        SessionView {
            bot_mode: mode,
            rooms: Seq::new(
                self.rooms.len(),
                |i: int| RoomView { bot_mode: mode, ..self.rooms[i] },
            ),
            ..self
        }.bots_started().post(Notice::Lobby)
    }

    /// Every table runs its boards in the given mode, and so will new ones.
    pub open spec fn board_mode_set(self, mode: BoardMode) -> SessionView {
        SessionView {
            board_mode: mode,
            rooms: Seq::new(
                self.rooms.len(),
                |i: int|
                    RoomView {
                        state: RoomInnerView { board_mode: mode, ..self.rooms[i].state },
                        ..self.rooms[i]
                    },
            ),
            ..self
        }.bots_started().post(Notice::Lobby)
    }

    /// At every table the bots of the given sides always pass.
    pub open spec fn pass_sides_set(self, sides: SideSet) -> SessionView {
        SessionView {
            rooms: Seq::new(
                self.rooms.len(),
                |i: int|
                    RoomView {
                        state: RoomInnerView { pass_sides: sides, ..self.rooms[i].state },
                        ..self.rooms[i]
                    },
            ),
            ..self
        }
    }
}

/// The session stays in order when the people of all its tables change.
pub proof fn lemma_wf_all_people(s: SessionView, t: SessionView)
    requires
        t.id == s.id,
        t.kind == s.kind,
        t.boards == s.boards,
        t.index == s.index,
        t.open_boards == s.open_boards,
        t.next_table_no == s.next_table_no,
        t.policy == s.policy,
        t.kibitzers == s.kibitzers,
        t.connections == s.connections,
        t.rooms.len() == s.rooms.len(),
        forall|i: int| 0 <= i < s.rooms.len() ==> (#[trigger] t.rooms[i]).same_game(s.rooms[i]),
    ensures
        s.wf() ==> t.wf(),
{
    if s.wf() {
        assert forall|j: int| 0 <= j < t.rooms.len() implies t.room_ok(j, #[trigger] t.rooms[j]) by {
            assert(s.room_ok(j, s.rooms[j]));
        }
    }
}

impl Session {
    /// Add `count` tables at once (testing path: fill with bots). Returns the
    /// new table total.
    pub fn add_tables(&mut self, count: usize) -> (r: usize)
        requires
            old(self).wf(),
            old(self)@.rooms.len() + count <= usize::MAX,
        ensures
            final(self).wf(),
            final(self)@ == old(self)@.added_many(count as nat),
            r == old(self)@.rooms.len() + count,
    {
        let mut i: usize = 0;
        while i < count
            invariant
                i <= count,
                self.wf(),
                old(self).wf(),
                old(self)@.rooms.len() + count <= usize::MAX,
                self@ == old(self)@.added_many(i as nat),
            decreases count - i,
        {
            proof {
                lemma_wf_added_many(old(self)@, i as nat);
            }
            self.add_room();
            i = i + 1;
        }
        proof {
            lemma_wf_added_many(old(self)@, count as nat);
        }
        self.rooms.len()
    }

    /// Waiting room toggle.
    pub fn set_wait_to_seat(&mut self, on: bool)
        ensures
            final(self)@ == (SessionView { wait_to_seat: on, ..old(self)@ }).post(Notice::Lobby),
            old(self).wf() ==> final(self).wf(),
    {
        self.wait_to_seat = on;
        self.notify_lobby();
        proof {
            lemma_wf_same_rooms(old(self)@, self@);
        }
    }

    pub fn seat_policy(&self) -> (r: SeatPolicy)
        ensures
            r@ == self@.policy,
    {
        self.seat_policy.copy()
    }

    pub fn set_seat_policy(&mut self, p: SeatPolicy)
        requires
            p@.wf(),
        ensures
            final(self)@ == (SessionView { policy: p@, ..old(self)@ }).post(Notice::Lobby),
            old(self).wf() ==> final(self).wf(),
    {
        self.seat_policy = p;
        self.notify_lobby();
        proof {
            lemma_wf_same_rooms(old(self)@, self@);
        }
    }

    pub fn bot_mode(&self) -> (r: BotMode)
        ensures
            r == self@.bot_mode,
    {
        self.bot_mode
    }

    /// Starts the drivers of all tables.
    fn kick_all(&mut self)
        ensures
            final(self)@ == old(self)@.all_kicked(),
    {
        let mut i: usize = 0;
        while i < self.rooms.len()
            invariant
                i <= self.rooms.len(),
                self@ == (SessionView {
                    outbox: old(self)@.outbox + kicks(i as int),
                    ..old(self)@
                }),
            decreases self.rooms.len() - i,
        {
            let ghost before = self@;
            assert(before.rooms.len() == self.rooms@.len());
            self.post(Notice::Kick { table: i });
            assert(self@.rooms.len() == self.rooms@.len());
            i = i + 1;
            assert(self@.outbox =~= old(self)@.outbox + kicks(i as int));
        }
    }

    /// Change the bot backend for every table (and future ones).
    pub fn set_bot_mode(&mut self, mode: BotMode)
        ensures
            final(self)@ == old(self)@.bot_mode_set(mode),
            old(self).wf() ==> final(self).wf(),
    {
        self.bot_mode = mode;
        let mut i: usize = 0;
        while i < self.rooms.len()
            invariant
                i <= self.rooms.len(),
                self@.rooms.len() == old(self)@.rooms.len(),
                self@ == (SessionView {
                    bot_mode: mode,
                    rooms: self@.rooms,
                    ..old(self)@
                }),
                forall|j: int|
                    0 <= j < self@.rooms.len() ==> #[trigger] self@.rooms[j] == (if j < i {
                        RoomView { bot_mode: mode, ..old(self)@.rooms[j] }
                    } else {
                        old(self)@.rooms[j]
                    }),
            decreases self.rooms.len() - i,
        {
            let ghost before = self@;
            self.rooms[i].set_bot_mode(mode);
            proof {
                assert(before.rooms[i as int] == old(self)@.rooms[i as int]);
                assert(self@.rooms =~= before.rooms.update(i as int, self.rooms@[i as int]@));
                assert(forall|j: int|
                    0 <= j < self@.rooms.len() && j != i ==> #[trigger] self@.rooms[j]
                        == before.rooms[j]);
            }
            i = i + 1;
        }
        if !self.bots_paused {
            self.kick_all();
        }
        self.notify_lobby();
        proof {
            assert(self@.rooms =~= old(self)@.bot_mode_set(mode).rooms);
            assert(self@ =~= old(self)@.bot_mode_set(mode));
            lemma_wf_all_people(old(self)@, self@);
        }
    }

    pub fn board_mode(&self) -> (r: BoardMode)
        ensures
            r == self@.board_mode,
    {
        self.board_mode
    }

    /// Change how boards run (bid-and-play / bid-only / play-only) for every
    /// table — and future ones. Bots are re-kicked so a switch to play-only /
    /// back to bid-and-play resumes bot action immediately.
    pub fn set_board_mode(&mut self, mode: BoardMode)
        ensures
            final(self)@ == old(self)@.board_mode_set(mode),
            old(self).wf() ==> final(self).wf(),
    {
        self.board_mode = mode;
        let mut i: usize = 0;
        while i < self.rooms.len()
            invariant
                i <= self.rooms.len(),
                self@.rooms.len() == old(self)@.rooms.len(),
                self@ == (SessionView {
                    board_mode: mode,
                    rooms: self@.rooms,
                    ..old(self)@
                }),
                forall|j: int|
                    0 <= j < self@.rooms.len() ==> #[trigger] self@.rooms[j] == (if j < i {
                        RoomView {
                            state: RoomInnerView {
                                board_mode: mode,
                                ..old(self)@.rooms[j].state
                            },
                            ..old(self)@.rooms[j]
                        }
                    } else {
                        old(self)@.rooms[j]
                    }),
            decreases self.rooms.len() - i,
        {
            let ghost before = self@;
            self.rooms[i].state.board_mode = mode;
            proof {
                assert(before.rooms[i as int] == old(self)@.rooms[i as int]);
                assert(self@.rooms =~= before.rooms.update(i as int, self.rooms@[i as int]@));
                assert(forall|j: int|
                    0 <= j < self@.rooms.len() && j != i ==> #[trigger] self@.rooms[j]
                        == before.rooms[j]);
            }
            i = i + 1;
        }
        if !self.bots_paused {
            self.kick_all();
        }
        self.notify_lobby();
        proof {
            assert(self@.rooms =~= old(self)@.board_mode_set(mode).rooms);
            assert(self@ =~= old(self)@.board_mode_set(mode));
            lemma_wf_all_people(old(self)@, self@);
        }
    }

    pub fn bots_paused(&self) -> (r: bool)
        ensures
            r == self@.bots_paused,
    {
        self.bots_paused
    }

    /// Pause/resume bot play across all tables. Resume re-kicks every table so
    /// play continues.
    pub fn set_bots_paused(&mut self, on: bool)
        ensures
            final(self)@ == (SessionView { bots_paused: on, ..old(self)@ }).bots_started().post(
                Notice::Lobby,
            ),
            old(self).wf() ==> final(self).wf(),
    {
        self.bots_paused = on;
        if !on {
            self.kick_all();
        }
        self.notify_lobby();
        proof {
            lemma_wf_same_rooms(old(self)@, self@);
        }
    }

    /// PassBot: set which sides' BOT seats always pass in the auction (empty =
    /// none). Applies to every table in the session. Cardplay is unaffected.
    pub fn set_pass_sides(&mut self, sides: SideSet)
        ensures
            final(self)@ == old(self)@.pass_sides_set(sides),
            old(self).wf() ==> final(self).wf(),
    {
        let mut i: usize = 0;
        while i < self.rooms.len()
            invariant
                i <= self.rooms.len(),
                self@.rooms.len() == old(self)@.rooms.len(),
                self@ == (SessionView { rooms: self@.rooms, ..old(self)@ }),
                forall|j: int|
                    0 <= j < self@.rooms.len() ==> #[trigger] self@.rooms[j] == (if j < i {
                        RoomView {
                            state: RoomInnerView {
                                pass_sides: sides,
                                ..old(self)@.rooms[j].state
                            },
                            ..old(self)@.rooms[j]
                        }
                    } else {
                        old(self)@.rooms[j]
                    }),
            decreases self.rooms.len() - i,
        {
            let ghost before = self@;
            self.rooms[i].state.pass_sides = sides;
            proof {
                assert(before.rooms[i as int] == old(self)@.rooms[i as int]);
                assert(self@.rooms =~= before.rooms.update(i as int, self.rooms@[i as int]@));
                assert(forall|j: int|
                    0 <= j < self@.rooms.len() && j != i ==> #[trigger] self@.rooms[j]
                        == before.rooms[j]);
            }
            i = i + 1;
        }
        proof {
            assert(self@.rooms =~= old(self)@.pass_sides_set(sides).rooms);
            assert(self@ =~= old(self)@.pass_sides_set(sides));
            lemma_wf_all_people(old(self)@, self@);
        }
    }
}

/// Being in order is a matter of the tables, the boards, the policy and the
/// registries.
pub proof fn lemma_wf_same_rooms(s: SessionView, t: SessionView)
    requires
        t.id == s.id,
        t.kind == s.kind,
        t.boards == s.boards,
        t.rooms == s.rooms,
        t.index == s.index,
        t.open_boards == s.open_boards,
        t.next_table_no == s.next_table_no,
        t.policy == s.policy || t.policy.wf(),
        t.kibitzers == s.kibitzers || unique_keys(t.kibitzers),
        t.connections == s.connections || unique_keys(t.connections),
    ensures
        s.wf() ==> t.wf(),
{
    if s.wf() {
        assert forall|j: int| 0 <= j < t.rooms.len() implies t.room_ok(j, #[trigger] t.rooms[j]) by {
            assert(s.room_ok(j, s.rooms[j]));
        }
    }
}

impl SessionView {
    /// A session that has just been created.
    pub open spec fn fresh(
        id: Seq<char>,
        kind: SessionKind,
        owner_sub: Seq<char>,
        policy: PolicyView,
        boards: Seq<BoardView>,
        tables: nat,
    ) -> SessionView {
        let seed = if boards.len() == 0 {
            demo_board_view()
        } else {
            boards[0]
        };
        SessionView {
            id,
            kind,
            owner_sub,
            policy,
            bot_mode: BotMode::Real,
            board_mode: BoardMode::BidAndPlay,
            bots_paused: false,
            boards,
            label: None,
            index: 0,
            rooms: Seq::new(
                tables,
                |i: int| RoomView::fresh(table_id(id, i + 1), seed, kind.grace()),
            ),
            next_table_no: tables as usize,
            wait_to_seat: false,
            open_boards: (if kind == SessionKind::TeacherSet && boards.len() > 1 {
                1
            } else {
                boards.len()
            }) as usize,
            next_arrival: 0,
            kibitzers: seq![],
            connections: seq![],
            outbox: seq![],
        }
    }
}

/// The seats of one table that somebody holds.
pub open spec fn held_list(seats: SeatsView, sub: Seq<char>) -> Seq<Direction> {
    (if seats.held_by(Direction::North, sub) {
        seq![Direction::North]
    } else {
        seq![]
    }) + (if seats.held_by(Direction::East, sub) {
        seq![Direction::East]
    } else {
        seq![]
    }) + (if seats.held_by(Direction::South, sub) {
        seq![Direction::South]
    } else {
        seq![]
    }) + (if seats.held_by(Direction::West, sub) {
        seq![Direction::West]
    } else {
        seq![]
    })
}

/// The seats of the first `n` tables that somebody holds, with their tables.
pub open spec fn all_held(rooms: Seq<RoomView>, sub: Seq<char>, n: int) -> Seq<(usize, Direction)>
    decreases n,
{
    if n <= 0 {
        seq![]
    } else {
        let here = held_list(rooms[n - 1].state.seats, sub);
        all_held(rooms, sub, n - 1) + Seq::new(
            here.len(),
            |k: int| ((n - 1) as usize, here[k]),
        )
    }
}

/// Whether somebody holds a seat at any table.
pub open spec fn sits_anywhere(rooms: Seq<RoomView>, sub: Seq<char>) -> bool {
    seat_from(rooms, sub, 0) is Some
}

/// Whether a connection is kept when the others of its owner are dropped.
pub open spec fn keeps(
    entry: (Seq<char>, ConnView),
    token: Option<Seq<char>>,
    sub: Seq<char>,
) -> bool {
    token == Some(entry.0) || entry.1.sub != sub
}

/// The connections without those of somebody, but for the given one.
pub open spec fn kept(
    conns: Seq<(Seq<char>, ConnView)>,
    token: Option<Seq<char>>,
    sub: Seq<char>,
) -> Seq<(Seq<char>, ConnView)>
    decreases conns.len(),
{
    if conns.len() == 0 {
        seq![]
    } else {
        let rest = kept(conns.drop_first(), token, sub);
        if keeps(conns[0], token, sub) {
            seq![conns[0]] + rest
        } else {
            rest
        }
    }
}

/// What is kept was there and is to be kept, and keys stay unique.
pub proof fn lemma_kept(
    conns: Seq<(Seq<char>, ConnView)>,
    token: Option<Seq<char>>,
    sub: Seq<char>,
)
    ensures
        forall|i: int|
            0 <= i < kept(conns, token, sub).len() ==> keeps(
                #[trigger] kept(conns, token, sub)[i],
                token,
                sub,
            ) && conns.contains(kept(conns, token, sub)[i]),
        unique_keys(conns) ==> unique_keys(kept(conns, token, sub)),
    decreases conns.len(),
{
    if conns.len() > 0 {
        let tail = conns.drop_first();
        lemma_kept(tail, token, sub);
        let rest = kept(tail, token, sub);
        let all = kept(conns, token, sub);
        let first = if keeps(conns[0], token, sub) {
            1int
        } else {
            0int
        };
        assert forall|i: int| 0 <= i < all.len() implies keeps(#[trigger] all[i], token, sub)
            && conns.contains(all[i]) by {
            if i < first {
                assert(all[i] == conns[0]);
            } else {
                assert(all[i] == rest[i - first]);
                let j = tail.index_of(rest[i - first]);
                assert(conns[j + 1] == all[i]);
            }
        }
        if unique_keys(conns) {
            assert(unique_keys(tail)) by {
                assert forall|i: int, j: int| 0 <= i < j < tail.len() implies #[trigger] tail[i].0
                    != #[trigger] tail[j].0 by {
                    assert(tail[i] == conns[i + 1] && tail[j] == conns[j + 1]);
                }
            }
            assert forall|i: int, j: int| 0 <= i < j < all.len() implies #[trigger] all[i].0
                != #[trigger] all[j].0 by {
                if i < first {
                    assert(all[j] == rest[j - first]);
                    let k = tail.index_of(rest[j - first]);
                    assert(conns[k + 1] == all[j]);
                    assert(all[i] == conns[0]);
                } else {
                    assert(all[i] == rest[i - first] && all[j] == rest[j - first]);
                }
            }
        }
    }
}

/// The token of somebody's connection, from position `from` on.
pub open spec fn token_from(conns: Seq<(Seq<char>, ConnView)>, sub: Seq<char>, from: int) -> Option<
    Seq<char>,
>
    decreases conns.len() - from,
{
    if from < 0 || from >= conns.len() {
        None
    } else if conns[from].1.sub == sub {
        Some(conns[from].0)
    } else {
        token_from(conns, sub, from + 1)
    }
}

impl Session {
    pub fn new(
        id: String,
        kind: SessionKind,
        owner_sub: String,
        seat_policy: SeatPolicy,
        boards: Vec<BoardSetup>,
        table_count: usize,
    ) -> (r: Session)
        requires
            seat_policy@.wf(),
        ensures
            r@ == SessionView::fresh(
                id@,
                kind,
                owner_sub@,
                seat_policy@,
                views(boards@),
                table_count as nat,
            ),
            r.wf(),
    {
        let total: usize = boards.len();
        let open: usize = match kind {
            SessionKind::TeacherSet => if total > 1 {
                1
            } else {
                total
            },
            SessionKind::Adhoc => total,
        };
        // Idle sessions (no boards yet) seed rooms with a throwaway placeholder
        // so `TableState` stays valid; bots stay off until a set is loaded.
        let seed = if total == 0 {
            placeholder_board()
        } else {
            boards[0].copy()
        };
        let ghost seed_view = seed@;
        let mut rooms: Vec<Room> = Vec::new();
        let mut i: usize = 0;
        while i < table_count
            invariant
                i <= table_count,
                rooms@.len() == i,
                seed@ == seed_view,
                forall|j: int|
                    0 <= j < i ==> (#[trigger] rooms@[j])@ == RoomView::fresh(
                        table_id(id@, j + 1),
                        seed_view,
                        kind.grace(),
                    ),
            decreases table_count - i,
        {
            rooms.push(Room::new(make_table_id(id.as_str(), i + 1), seed.copy(), kind.takeover()));
            i = i + 1;
        }
        let r = Session {
            id,
            kind,
            owner_sub,
            seat_policy,
            bot_mode: BotMode::Real,
            board_mode: BoardMode::BidAndPlay,
            bots_paused: false,
            deck: Deck { boards, label: None, index: 0 },
            rooms,
            next_table_no: table_count,
            wait_to_seat: false,
            open_boards: open,
            next_arrival: 0,
            kibitzers: Directory::new(),
            connections: Directory::new(),
            outbox: Vec::new(),
        };
        proof {
            let fresh = SessionView::fresh(
                id@,
                kind,
                owner_sub@,
                seat_policy@,
                views(boards@),
                table_count as nat,
            );
            assert(r@.boards.len() == total);
            assert(total > 0 ==> r@.boards[0] == seed_view);
            assert(r@.rooms =~= fresh.rooms);
            assert(r@ =~= fresh);
            assert forall|j: int| 0 <= j < r@.rooms.len() implies r@.room_ok(
                j,
                #[trigger] r@.rooms[j],
            ) by {
                assert(r@.rooms[j] == r.rooms@[j]@);
            }
        }
        r
    }

    /// Find the room+seat currently bound to `sub`, if any.
    pub fn find_seated(&self, sub: &str) -> (r: Option<(usize, Direction)>)
        ensures
            match r {
                Some((i, seat)) => seat_from(self@.rooms, sub@, 0) == Some((i as int, seat)) && i
                    < self@.rooms.len(),
                None => seat_from(self@.rooms, sub@, 0) is None,
            },
    {
        let mut i: usize = 0;
        while i < self.rooms.len()
            invariant
                i <= self.rooms.len(),
                seat_from(self@.rooms, sub@, 0) == seat_from(self@.rooms, sub@, i as int),
            decreases self.rooms.len() - i,
        {
            assert(self@.rooms[i as int] == self.rooms@[i as int]@);
            if let Some(seat) = self.rooms[i].state.seats.find_sub(sub) {
                return Some((i, seat));
            }
            i = i + 1;
        }
        None
    }

    /// Every room+seat currently bound to `sub` (a connection may hold
    /// MULTIPLE seats — friends-table multi-seat).
    pub fn find_all_seated(&self, sub: &str) -> (r: Vec<(usize, Direction)>)
        ensures
            r@ == all_held(self@.rooms, sub@, self@.rooms.len() as int),
    {
        let mut out: Vec<(usize, Direction)> = Vec::new();
        let mut i: usize = 0;
        while i < self.rooms.len()
            invariant
                i <= self.rooms.len(),
                out@ == all_held(self@.rooms, sub@, i as int),
            decreases self.rooms.len() - i,
        {
            let ghost before = out@;
            let seats = &self.rooms[i].state.seats;
            assert(self@.rooms[i as int] == self.rooms@[i as int]@);
            if seats.is_held_by(Direction::North, sub) {
                out.push((i, Direction::North));
            }
            if seats.is_held_by(Direction::East, sub) {
                out.push((i, Direction::East));
            }
            if seats.is_held_by(Direction::South, sub) {
                out.push((i, Direction::South));
            }
            if seats.is_held_by(Direction::West, sub) {
                out.push((i, Direction::West));
            }
            proof {
                let here = held_list(self@.rooms[i as int].state.seats, sub@);
                assert(out@ =~= before + Seq::new(here.len(), |k: int| (i, here[k])));
                assert(out@ =~= all_held(self@.rooms, sub@, i + 1));
            }
            i = i + 1;
        }
        out
    }

    /// The seats (directions only) `sub` occupies across the whole session.
    pub fn seats_of(&self, sub: &str) -> (r: Vec<Direction>)
        ensures
            r@.len() == all_held(self@.rooms, sub@, self@.rooms.len() as int).len(),
            forall|i: int|
                0 <= i < r@.len() ==> #[trigger] r@[i] == all_held(
                    self@.rooms,
                    sub@,
                    self@.rooms.len() as int,
                )[i].1,
    {
        let held = self.find_all_seated(sub);
        let mut out: Vec<Direction> = Vec::new();
        let mut i: usize = 0;
        while i < held.len()
            invariant
                i <= held.len(),
                out@.len() == i,
                forall|j: int| 0 <= j < i ==> #[trigger] out@[j] == held@[j].1,
            decreases held.len() - i,
        {
            out.push(held[i].1);
            i = i + 1;
        }
        out
    }

    /// Drops somebody's connections, but for the given one.
    pub(crate) fn retain_conns(&mut self, token: Option<&str>, sub: &str)
        ensures
            final(self)@ == (SessionView {
                connections: kept(
                    old(self)@.connections,
                    match token {
                        Some(t) => Some(t@),
                        None => None,
                    },
                    sub@,
                ),
                ..old(self)@
            }),
    {
        let ghost keep = match token {
            Some(t) => Some(t@),
            None => None,
        };
        let ghost all = old(self)@.connections;
        let mut i: usize = 0;
        proof {
            assert(self@.connections.subrange(0, 0) + kept(
                self@.connections.subrange(0, self@.connections.len() as int),
                keep,
                sub@,
            ) =~= kept(all, keep, sub@)) by {
                assert(all.subrange(0, all.len() as int) =~= all);
            }
        }
        while i < self.connections.entries.len()
            invariant
                i <= self.connections.entries.len(),
                keep == (match token {
                    Some(t) => Some(t@),
                    None => None::<Seq<char>>,
                }),
                self@ == (SessionView { connections: self@.connections, ..old(self)@ }),
                self@.connections.subrange(0, i as int) + kept(
                    self@.connections.subrange(i as int, self@.connections.len() as int),
                    keep,
                    sub@,
                ) == kept(all, keep, sub@),
            decreases self.connections.entries.len() - i,
        {
            let ghost conns = self@.connections;
            let ghost tail = conns.subrange(i as int, conns.len() as int);
            proof {
                assert(tail[0] == conns[i as int]);
                assert(tail.drop_first() =~= conns.subrange(i + 1, conns.len() as int));
            }
            let entry = &self.connections.entries[i];
            let is_token = match token {
                Some(t) => same(entry.0.as_str(), t),
                None => false,
            };
            if is_token || !same(entry.1.sub.as_str(), sub) {
                proof {
                    assert(keeps(conns[i as int], keep, sub@));
                    assert(conns.subrange(0, i + 1) + kept(tail.drop_first(), keep, sub@)
                        =~= conns.subrange(0, i as int) + kept(tail, keep, sub@));
                }
                i = i + 1;
            } else {
                self.connections.entries.remove(i);
                proof {
                    let now = self@.connections;
                    assert(now =~= conns.remove(i as int));
                    assert(now.subrange(0, i as int) =~= conns.subrange(0, i as int));
                    assert(now.subrange(i as int, now.len() as int) =~= tail.drop_first());
                }
            }
        }
        assert(self@.connections.subrange(0, i as int) + kept(
            self@.connections.subrange(i as int, self@.connections.len() as int),
            keep,
            sub@,
        ) =~= self@.connections);
    }

    /// Register (or re-register on reconnect) a live connection under its
    /// opaque `token`. Any prior entry for the same `sub` is dropped first so
    /// a participant is one roster entry — a reconnect mints a fresh token and
    /// supersedes the stale (disconnected) one.
    pub fn register_conn(&mut self, token: &str, sub: &str, name: &str)
        ensures
            final(self)@ == (SessionView {
                connections: with_entry(
                    kept(old(self)@.connections, Some(token@), sub@),
                    token@,
                    ConnView { sub: sub@, name: name@, connected: true },
                ),
                ..old(self)@
            }),
            old(self).wf() ==> final(self).wf(),
    {
        self.retain_conns(Some(token), sub);
        proof {
            lemma_kept(old(self)@.connections, Some(token@), sub@);
            if old(self).wf() {
                crate::directory::law_directory(
                    self@.connections,
                    token@,
                    (ConnView { sub: sub@, name: name@, connected: true }),
                    token@,
                );
            }
        }
        self.connections.insert(
            token,
            ConnMeta { sub: sub.to_owned(), name: name.to_owned(), connected: true },
        );
        proof {
            assert(self@ =~= (SessionView {
                connections: with_entry(
                    kept(old(self)@.connections, Some(token@), sub@),
                    token@,
                    ConnView { sub: sub@, name: name@, connected: true },
                ),
                ..old(self)@
            }));
            if old(self).wf() {
                lemma_wf_same_rooms(old(self)@, self@);
            }
        }
    }

    /// Mark a connection's socket dropped (kept in the registry so a zombie
    /// seat still shows the greyed occupant in the roster).
    pub fn mark_conn_disconnected(&mut self, token: &str)
        ensures
            final(self)@ == (SessionView {
                connections: match lookup(old(self)@.connections, token@) {
                    Some(m) => with_entry(
                        old(self)@.connections,
                        token@,
                        ConnView { connected: false, ..m },
                    ),
                    None => old(self)@.connections,
                },
                ..old(self)@
            }),
            old(self).wf() ==> final(self).wf(),
    {
        let changed = match self.connections.get(token) {
            Some(m) => Some(
                ConnMeta { sub: m.sub.clone(), name: m.name.clone(), connected: false },
            ),
            None => None,
        };
        if let Some(m) = changed {
            proof {
                if old(self).wf() {
                    crate::directory::law_directory(self@.connections, token@, m@, token@);
                }
            }
            self.connections.insert(token, m);
        }
        proof {
            if old(self).wf() {
                lemma_wf_same_rooms(old(self)@, self@);
            }
        }
    }

    /// Forget a connection entirely (a waiter/kibitzer who left).
    pub fn remove_conn(&mut self, token: &str)
        ensures
            final(self)@ == (SessionView {
                connections: without_key(old(self)@.connections, token@),
                ..old(self)@
            }),
            old(self).wf() ==> final(self).wf(),
    {
        proof {
            if old(self).wf() {
                crate::directory::law_directory(
                    self@.connections,
                    token@,
                    (ConnView { sub: token@, name: token@, connected: true }),
                    token@,
                );
            }
        }
        self.connections.remove(token);
        proof {
            if old(self).wf() {
                lemma_wf_same_rooms(old(self)@, self@);
            }
        }
    }

    /// Resolve an opaque token to its (sub, name), for `assign_seat`
    /// place/Sit-by-token.
    pub fn conn_meta(&self, token: &str) -> (r: Option<(String, String)>)
        ensures
            match r {
                Some((sub, name)) => lookup(self@.connections, token@) matches Some(m) && m.sub
                    == sub@ && m.name == name@,
                None => lookup(self@.connections, token@) is None,
            },
    {
        match self.connections.get(token) {
            Some(m) => Some((m.sub.clone(), m.name.clone())),
            None => None,
        }
    }

    /// The token of somebody's connection.
    pub fn token_of(&self, sub: &str) -> (r: Option<String>)
        ensures
            id_view(r) == token_from(self@.connections, sub@, 0),
    {
        let mut i: usize = 0;
        while i < self.connections.entries.len()
            invariant
                i <= self.connections.entries.len(),
                token_from(self@.connections, sub@, 0) == token_from(
                    self@.connections,
                    sub@,
                    i as int,
                ),
            decreases self.connections.entries.len() - i,
        {
            assert(self@.connections[i as int].1 == self.connections.entries@[i as int].1@);
            if same(self.connections.entries[i].1.sub.as_str(), sub) {
                return Some(self.connections.entries[i].0.clone());
            }
            i = i + 1;
        }
        None
    }

    /// A lobby member disconnected: forget them (a rejoin re-places them).
    pub fn remove_kibitzer(&mut self, sub: &str)
        ensures
            final(self)@ == (SessionView {
                kibitzers: without_key(old(self)@.kibitzers, sub@),
                ..old(self)@
            }),
            old(self).wf() ==> final(self).wf(),
    {
        proof {
            if old(self).wf() {
                crate::directory::law_directory(
                    self@.kibitzers,
                    sub@,
                    (KibitzerView { name: sub@, room_id: None, parked: false }),
                    sub@,
                );
            }
        }
        self.kibitzers.remove(sub);
        proof {
            if old(self).wf() {
                lemma_wf_same_rooms(old(self)@, self@);
            }
        }
    }

    /// Register `sub` in the lobby. `parked` = benched (boot / drag-to-lobby →
    /// never auto-seated); not parked = waiting (auto-fill eligible).
    pub fn add_lobby(&mut self, sub: &str, name: &str, room_id: Option<String>, parked: bool)
        ensures
            final(self)@ == old(self)@.in_lobby(sub@, name@, id_view(room_id), parked),
            old(self).wf() ==> final(self).wf(),
    {
        let kibitzer = Kibitzer { name: name.to_owned(), room_id, parked };
        proof {
            if old(self).wf() {
                crate::directory::law_directory(self@.kibitzers, sub@, kibitzer@, sub@);
            }
        }
        self.kibitzers.insert(sub, kibitzer);
        proof {
            if old(self).wf() {
                lemma_wf_same_rooms(old(self)@, self@);
            }
        }
    }
}

impl SessionView {
    /// Somebody is in the lobby.
    pub open spec fn in_lobby(
        self,
        sub: Seq<char>,
        name: Seq<char>,
        room_id: Option<Seq<char>>,
        parked: bool,
    ) -> SessionView {
        SessionView {
            kibitzers: with_entry(
                self.kibitzers,
                sub,
                KibitzerView { name, room_id, parked },
            ),
            ..self
        }
    }
}

/// Once somebody has registered a connection, it is their only one.
pub proof fn law_one_connection_each(
    conns: Seq<(Seq<char>, ConnView)>,
    token: Seq<char>,
    sub: Seq<char>,
    name: Seq<char>,
    i: int,
)
    requires
        unique_keys(conns),
    ensures
        ({
            let after = with_entry(
                kept(conns, Some(token), sub),
                token,
                ConnView { sub, name, connected: true },
            );
            &&& lookup(after, token) == Some(ConnView { sub, name, connected: true })
            &&& 0 <= i < after.len() && after[i].1.sub == sub ==> after[i].0 == token
        }),
{
    let left = kept(conns, Some(token), sub);
    lemma_kept(conns, Some(token), sub);
    crate::directory::lemma_position(left, token);
    crate::directory::law_directory(left, token, ConnView { sub, name, connected: true }, token);
    let after = with_entry(left, token, ConnView { sub, name, connected: true });
    if 0 <= i < after.len() && i < left.len() {
        assert(keeps(left[i], Some(token), sub));
        assert(after[i] == left[i] || after[i].0 == token);
    }
}

/// Friends' tables hand off to bots sooner than classroom sets, on turn and off.
pub proof fn law_kinds_differ_in_grace()
    ensures
        SessionKind::Adhoc.grace().on_turn < SessionKind::TeacherSet.grace().on_turn,
        SessionKind::Adhoc.grace().off_turn < SessionKind::TeacherSet.grace().off_turn,
        SessionKind::Adhoc.grace().on_turn == 3_000 && SessionKind::TeacherSet.grace().off_turn
            == 60_000,
{
}

/// A subject is a guest's exactly if "guest-" comes before the rest of it.
pub proof fn law_guests(sub: Seq<char>)
    ensures
        is_guest("guest-"@ + sub),
        is_guest(sub) ==> sub.len() >= 6 && sub == "guest-"@ + sub.subrange(6, sub.len() as int),
        sub.len() > 0 && sub[0] != 'g' ==> !is_guest(sub),
{
    reveal_strlit("guest-");
    assert("guest-"@.len() == 6 && "guest-"@[0] == 'g');
    assert(("guest-"@ + sub).subrange(0, 6) =~= "guest-"@);
    if is_guest(sub) {
        assert(sub =~= sub.subrange(0, 6) + sub.subrange(6, sub.len() as int));
        assert(sub.subrange(0, 6)[0] == sub[0]);
    }
}

/// The first vacant seat of a list: every seat before it is taken.
pub proof fn law_vacant_is_first(seats: SeatsView, order: Seq<Direction>, from: int, k: int)
    requires
        0 <= from <= k < order.len(),
        seats.get(order[k]) is None,
        forall|j: int| from <= j < k ==> seats.get(#[trigger] order[j]) is Some,
    ensures
        vacant_from(seats, order, from) == Some(order[k]),
    decreases k - from,
{
    if from < k {
        assert(seats.get(order[from]) is Some);
        law_vacant_is_first(seats, order, from + 1, k);
    }
}

/// A table has no seat for an arrival: all those that the policy fills are taken.
pub open spec fn full_for(room: RoomView, order: Seq<Direction>) -> bool {
    forall|j: int| 0 <= j < order.len() ==> room.state.seats.get(#[trigger] order[j]) is Some
}

/// The tables are tried in turn, from the given one round to the one before it:
/// the slot is at the first that is not full, and there is none only if all are
/// full.
pub proof fn law_tables_in_turn(
    rooms: Seq<RoomView>,
    start: int,
    order: Seq<Direction>,
    offset: int,
    k: int,
)
    requires
        0 <= start,
        0 <= offset <= k <= rooms.len(),
        forall|j: int|
            offset <= j < k ==> full_for(
                #[trigger] rooms[(start + j) % (rooms.len() as int)],
                order,
            ),
        k < rooms.len() ==> !full_for(rooms[(start + k) % (rooms.len() as int)], order),
    ensures
        k == rooms.len() ==> slot_from(rooms, start, order, offset) is None,
        k < rooms.len() ==> (slot_from(rooms, start, order, offset) matches Some((i, seat)) && i == (
        start + k) % (rooms.len() as int) && vacant_from(rooms[i].state.seats, order, 0) == Some(
            seat,
        )),
    decreases k - offset,
{
    if offset < rooms.len() {
        let i = (start + offset) % (rooms.len() as int);
        lemma_vacant_from(rooms[i].state.seats, order, 0);
        if offset < k {
            assert(full_for(rooms[i], order));
            if let Some(seat) = vacant_from(rooms[i].state.seats, order, 0) {
                let j = order.index_of(seat);
                assert(order[j] == seat);
            }
            law_tables_in_turn(rooms, start, order, offset + 1, k);
        } else if vacant_from(rooms[i].state.seats, order, 0) is None {
            assert(full_for(rooms[i], order));
        }
    }
}

/// Pairs fill the first table that has room; the other policies go round the
/// tables from the cursor on; manual seating has no place for anybody.
pub proof fn law_slots(s: SessionView, shape: PolicyView)
    ensures
        shape is Manual ==> s.slot(shape) is None,
        shape is Pairs ==> s.slot(shape) == slot_from(s.rooms, 0, shape.seats(), 0),
        shape is OnePerSeat || shape is FirstFree ==> s.slot(shape) == slot_from(
            s.rooms,
            s.next_arrival as int,
            shape.seats(),
            0,
        ),
        ({
            let next = s.moved_on(shape).next_arrival;
            if shape is OnePerSeat || shape is FirstFree {
                next == (if s.next_arrival == usize::MAX {
                    0int
                } else {
                    s.next_arrival + 1
                })
            } else {
                next == s.next_arrival
            }
        }),
{
}

/// Whoever is seated sits where it is said, at a seat that was vacant, or at the
/// policy's first seat of a new table if no table had room; nobody else's seat
/// changes.
pub proof fn law_one_is_seated(
    s: SessionView,
    shape: PolicyView,
    sub: Seq<char>,
    name: Seq<char>,
    j: int,
    e: Direction,
)
    requires
        s.rooms.len() < usize::MAX,
        0 <= j < s.rooms.len(),
    ensures
        ({
            let (after, i, seat) = s.seat_one(shape, sub, name);
            &&& 0 <= i < after.rooms.len()
            &&& after.rooms[i].state.seats.get(seat) == Some(fresh_occupant(sub, name))
            &&& s.slot(shape) is Some ==> i < s.rooms.len() && after.rooms.len() == s.rooms.len()
                && s.rooms[i].state.seats.get(seat) is None && shape.seats().contains(seat)
            &&& s.slot(shape) is None ==> i == s.rooms.len() && after.rooms.len() == s.rooms.len()
                + 1 && seat == shape.first()
            &&& !(j == i && e == seat) ==> after.rooms[j].state.seats.get(e)
                == s.rooms[j].state.seats.get(e)
            &&& after.kibitzers == s.kibitzers && after.boards == s.boards
        }),
{
    match shape {
        PolicyView::Manual => {},
        PolicyView::Pairs(_) => lemma_slot_from(s.rooms, 0, shape.seats(), 0),
        _ => lemma_slot_from(s.rooms, s.next_arrival as int, shape.seats(), 0),
    }
}

/// A new table goes by its number, plays the session's current board with the
/// session's bots in the session's mode, and is empty. Its watchdog is started,
/// its bots are unless they are paused, and the lobby is told.
pub proof fn law_new_table(s: SessionView, seat: Direction)
    requires
        s.rooms.len() < usize::MAX,
        s.next_table_no == s.rooms.len(),
    ensures
        ({
            let after = s.added();
            let n = s.rooms.len() as int;
            let room = after.rooms[n];
            &&& after.rooms.len() == n + 1 && after.rooms.subrange(0, n) == s.rooms
            &&& after.next_table_no == n + 1
            &&& room.id == s.id + "-t"@ + decimal((n + 1) as nat)
            &&& room.state.table.log.len() == 0 && room.state.table.board == s.current_board()
            &&& s.boards.len() > 0 ==> room.state.board_index == s.index
            &&& s.boards.len() > 0 ==> room.state.table.board == s.boards[s.index as int]
            &&& room.state.seats.get(seat) is None && room.state.bot_controlled(seat, true, 0)
            &&& room.bot_mode == s.bot_mode && room.state.board_mode == s.board_mode
            &&& room.bba_cache is None && room.state.takeover == s.kind.grace()
            &&& after.outbox.contains(Notice::Keepalive { table: n as usize })
            &&& !s.bots_paused ==> after.outbox.contains(Notice::Kick { table: n as usize })
            &&& s.bots_paused ==> after.outbox.len() == s.outbox.len() + 2
            &&& after.outbox.last() == Notice::Lobby
        }),
{
    let after = s.added();
    let n = s.rooms.len() as int;
    let k = s.outbox.len() as int;
    assert(after.rooms.subrange(0, n) =~= s.rooms);
    assert(after.outbox[k] == Notice::Keepalive { table: n as usize });
    if !s.bots_paused {
        assert(after.outbox[k + 1] == Notice::Kick { table: n as usize });
    }
}

/// A change of the bots' backend, of the board mode or of the passing sides
/// reaches every table, changes nothing else there, and (but for the passing
/// sides) holds of new tables too. A change of backend or board mode starts the
/// bots of every table, unless they are paused, and tells the lobby.
pub proof fn law_settings_reach_every_table(
    s: SessionView,
    bots: BotMode,
    boards: BoardMode,
    sides: SideSet,
    i: int,
)
    requires
        0 <= i < s.rooms.len() <= usize::MAX,
    ensures
        ({
            let a = s.bot_mode_set(bots);
            let b = s.board_mode_set(boards);
            let c = s.pass_sides_set(sides);
            &&& a.rooms.len() == s.rooms.len() && a.rooms[i].bot_mode == bots && a.rooms[i].state
                == s.rooms[i].state && a.bot_mode == bots && a.new_room().bot_mode == bots
            &&& b.rooms.len() == s.rooms.len() && b.rooms[i].state.board_mode == boards
                && b.rooms[i].state.table == s.rooms[i].state.table && b.rooms[i].state.seats
                == s.rooms[i].state.seats && b.board_mode == boards
                && b.new_room().state.board_mode == boards
            &&& c.rooms.len() == s.rooms.len() && c.rooms[i].state.pass_sides == sides
                && c.rooms[i].state.table == s.rooms[i].state.table && c.rooms[i].state.seats
                == s.rooms[i].state.seats && c.outbox == s.outbox
            &&& !s.bots_paused ==> a.outbox.contains(Notice::Kick { table: i as usize })
                && b.outbox.contains(Notice::Kick { table: i as usize })
            &&& s.bots_paused ==> a.outbox == s.outbox.push(Notice::Lobby) && b.outbox
                == s.outbox.push(Notice::Lobby)
            &&& a.outbox.last() == Notice::Lobby && b.outbox.last() == Notice::Lobby
        }),
{
    let a = s.bot_mode_set(bots);
    let b = s.board_mode_set(boards);
    if !s.bots_paused {
        let k = s.outbox.len() + i;
        assert(kicks(s.rooms.len() as int)[i] == Notice::Kick { table: i as usize });
        assert(a.outbox[k] == Notice::Kick { table: i as usize });
        assert(b.outbox[k] == Notice::Kick { table: i as usize });
    }
}

/// Resuming bots starts them at every table; pausing them starts none.
pub proof fn law_resume_starts_bots(s: SessionView, i: int)
    requires
        0 <= i < s.rooms.len() <= usize::MAX,
    ensures
        (SessionView { bots_paused: false, ..s }).bots_started().outbox.contains(
            (Notice::Kick { table: i as usize }),
        ),
        (SessionView { bots_paused: true, ..s }).bots_started().outbox == s.outbox,
{
    let resumed = (SessionView { bots_paused: false, ..s }).bots_started();
    assert(kicks(s.rooms.len() as int)[i] == Notice::Kick { table: i as usize });
    assert(resumed.outbox[s.outbox.len() + i] == Notice::Kick { table: i as usize });
}

/// A new session: all its tables are empty and on the first board; friends have
/// every board open, a class at most the first; nobody is there, and bots are
/// not paused.
pub proof fn law_new_session(
    id: Seq<char>,
    kind: SessionKind,
    owner: Seq<char>,
    policy: PolicyView,
    boards: Seq<BoardView>,
    tables: nat,
    i: int,
    seat: Direction,
)
    requires
        0 <= i < tables <= usize::MAX,
        boards.len() <= usize::MAX,
    ensures
        ({
            let s = SessionView::fresh(id, kind, owner, policy, boards, tables);
            &&& s.id == id && s.kind == kind && s.owner_sub == owner && s.policy == policy
            &&& s.rooms.len() == tables && s.boards == boards && s.index == 0
            &&& s.rooms[i].id == id + "-t"@ + decimal((i + 1) as nat)
            &&& s.rooms[i].state.seats.get(seat) is None
            &&& s.rooms[i].state.table.log.len() == 0
            &&& boards.len() > 0 ==> s.rooms[i].state.table.board == boards[0]
            &&& s.rooms[i].state.board_mode == BoardMode::BidAndPlay && s.board_mode
                == BoardMode::BidAndPlay
            &&& s.rooms[i].bot_mode == BotMode::Real && s.bot_mode == BotMode::Real
            &&& s.rooms[i].state.takeover == kind.grace()
            &&& kind == SessionKind::Adhoc ==> s.open_boards == boards.len()
            &&& kind == SessionKind::TeacherSet ==> s.open_boards <= 1 && (boards.len() > 0
                ==> s.open_boards == 1)
            &&& !s.bots_paused && !s.wait_to_seat
            &&& s.kibitzers.len() == 0 && s.connections.len() == 0 && s.outbox.len() == 0
        }),
{
}

/// The list of somebody's seats holds exactly the seats that they hold, each
/// with its table.
pub proof fn law_all_seats_are_listed(
    rooms: Seq<RoomView>,
    sub: Seq<char>,
    n: int,
    i: int,
    seat: Direction,
)
    requires
        0 <= n <= rooms.len() <= usize::MAX,
        0 <= i < rooms.len(),
    ensures
        all_held(rooms, sub, n).contains((i as usize, seat)) <==> i < n
            && rooms[i].state.seats.held_by(seat, sub),
    decreases n,
{
    let pair = (i as usize, seat);
    if n > 0 {
        law_all_seats_are_listed(rooms, sub, n - 1, i, seat);
        let before = all_held(rooms, sub, n - 1);
        let here = held_list(rooms[n - 1].state.seats, sub);
        let added = Seq::new(here.len(), |k: int| ((n - 1) as usize, here[k]));
        let all = all_held(rooms, sub, n);
        lemma_held_list(rooms[n - 1].state.seats, sub, seat);
        if all.contains(pair) {
            let k = all.index_of(pair);
            if k < before.len() {
                assert(before[k] == pair);
            } else {
                assert(added[k - before.len()] == pair);
                assert(here[k - before.len()] == seat);
                assert(here.contains(seat));
            }
        }
        if before.contains(pair) {
            let k = before.index_of(pair);
            assert(all[k] == pair);
        }
        if i == n - 1 && here.contains(seat) {
            let k = here.index_of(seat);
            assert(added[k] == pair);
            assert(all[before.len() + k] == pair);
        }
    }
}

/// A table's list of somebody's seats holds those that they hold.
proof fn lemma_held_list(seats: SeatsView, sub: Seq<char>, seat: Direction)
    ensures
        held_list(seats, sub).contains(seat) <==> seats.held_by(seat, sub),
{
    let n = if seats.held_by(Direction::North, sub) {
        seq![Direction::North]
    } else {
        seq![]
    };
    let e = if seats.held_by(Direction::East, sub) {
        seq![Direction::East]
    } else {
        seq![]
    };
    let s = if seats.held_by(Direction::South, sub) {
        seq![Direction::South]
    } else {
        seq![]
    };
    let w = if seats.held_by(Direction::West, sub) {
        seq![Direction::West]
    } else {
        seq![]
    };
    let list = held_list(seats, sub);
    assert(list =~= n + e + s + w);
    if seats.held_by(seat, sub) {
        match seat {
            Direction::North => {
                assert(list[0] == seat);
            },
            Direction::East => {
                assert(list[n.len() as int] == seat);
            },
            Direction::South => {
                assert(list[(n + e).len() as int] == seat);
            },
            Direction::West => {
                assert(list[(n + e + s).len() as int] == seat);
            },
        }
    }
    if list.contains(seat) {
        let k = list.index_of(seat);
        if k < n.len() {
            assert(n[k] == seat);
        } else if k < (n + e).len() {
            assert(e[k - n.len()] == seat);
        } else if k < (n + e + s).len() {
            assert(s[k - n.len() - e.len()] == seat);
        } else {
            assert(w[k - n.len() - e.len() - s.len()] == seat);
        }
    }
}

/// Dropping somebody's other connections drops exactly those.
pub proof fn law_others_are_kept(
    conns: Seq<(Seq<char>, ConnView)>,
    token: Option<Seq<char>>,
    sub: Seq<char>,
    entry: (Seq<char>, ConnView),
)
    ensures
        kept(conns, token, sub).contains(entry) <==> conns.contains(entry) && (token == Some(entry.0)
            || entry.1.sub != sub),
    decreases conns.len(),
{
    if conns.len() > 0 {
        let tail = conns.drop_first();
        law_others_are_kept(tail, token, sub, entry);
        let rest = kept(tail, token, sub);
        let all = kept(conns, token, sub);
        let shift = if keeps(conns[0], token, sub) {
            1int
        } else {
            0int
        };
        assert(conns.contains(entry) <==> conns[0] == entry || tail.contains(entry)) by {
            if conns.contains(entry) && conns[0] != entry {
                let k = conns.index_of(entry);
                assert(tail[k - 1] == entry);
            }
            if tail.contains(entry) {
                let k = tail.index_of(entry);
                assert(conns[k + 1] == entry);
            }
        }
        if all.contains(entry) {
            let k = all.index_of(entry);
            if k >= shift {
                assert(rest[k - shift] == entry);
            }
        }
        if rest.contains(entry) {
            let k = rest.index_of(entry);
            assert(all[k + shift] == entry);
        }
        if shift == 1 {
            assert(all[0] == conns[0]);
        }
    }
}

/// The token that is found for somebody is that of their first connection.
pub proof fn law_token_found(conns: Seq<(Seq<char>, ConnView)>, sub: Seq<char>, from: int, k: int)
    requires
        0 <= from <= k <= conns.len(),
        forall|j: int| from <= j < k ==> (#[trigger] conns[j]).1.sub != sub,
        k < conns.len() ==> conns[k].1.sub == sub,
    ensures
        token_from(conns, sub, from) == (if k < conns.len() {
            Some(conns[k].0)
        } else {
            None
        }),
    decreases k - from,
{
    if from < k {
        assert(conns[from].1.sub != sub);
        law_token_found(conns, sub, from + 1, k);
    }
}

/// A table is found by its id, the first one that bears it.
pub proof fn law_table_found(rooms: Seq<RoomView>, id: Seq<char>, from: int, k: int)
    requires
        0 <= from <= k <= rooms.len(),
        forall|j: int| from <= j < k ==> (#[trigger] rooms[j]).id != id,
        k < rooms.len() ==> rooms[k].id == id,
    ensures
        room_from(rooms, id, from) == k,
    decreases k - from,
{
    if from < k {
        assert(rooms[from].id != id);
        law_table_found(rooms, id, from + 1, k);
    }
}

/// A namesake's abandoned seat is found at the first table that has one.
pub proof fn law_ghost_found(rooms: Seq<RoomView>, name: Seq<char>, from: int, k: int)
    requires
        0 <= from <= k <= rooms.len(),
        forall|j: int|
            from <= j < k ==> (#[trigger] rooms[j]).state.seats.ghost_named(name) is None,
        k < rooms.len() ==> rooms[k].state.seats.ghost_named(name) is Some,
    ensures
        k == rooms.len() ==> ghost_from(rooms, name, from) is None,
        k < rooms.len() ==> ghost_from(rooms, name, from) == Some(
            (k, rooms[k].state.seats.ghost_named(name)->0),
        ),
    decreases k - from,
{
    if from < k {
        assert(rooms[from].state.seats.ghost_named(name) is None);
        law_ghost_found(rooms, name, from + 1, k);
    }
}

/// Whoever is in the lobby is listed there as they came; the others stay listed
/// as they were.
pub proof fn law_in_lobby(
    s: SessionView,
    sub: Seq<char>,
    name: Seq<char>,
    room_id: Option<Seq<char>>,
    parked: bool,
    other: Seq<char>,
)
    requires
        unique_keys(s.kibitzers),
    ensures
        ({
            let after = s.in_lobby(sub, name, room_id, parked);
            &&& lookup(after.kibitzers, sub) == Some(KibitzerView { name, room_id, parked })
            &&& other != sub ==> lookup(after.kibitzers, other) == lookup(s.kibitzers, other)
            &&& after.rooms == s.rooms && after.connections == s.connections
        }),
{
    crate::directory::law_directory(
        s.kibitzers,
        sub,
        KibitzerView { name, room_id, parked },
        other,
    );
}

/// Tables that are added come after those that are there, which stay as they are;
/// each goes by its own number.
pub proof fn law_tables_added(s: SessionView, n: nat, i: int)
    requires
        s.rooms.len() + n <= usize::MAX,
        s.next_table_no == s.rooms.len(),
        0 <= i < s.rooms.len() + n,
    ensures
        ({
            let after = s.added_many(n);
            &&& after.rooms.len() == s.rooms.len() + n && after.next_table_no == after.rooms.len()
            &&& after.id == s.id && after.boards == s.boards && after.kibitzers == s.kibitzers
            &&& i < s.rooms.len() ==> after.rooms[i] == s.rooms[i]
            &&& i >= s.rooms.len() ==> after.rooms[i].id == s.id + "-t"@ + decimal((i + 1) as nat)
            &&& n > 0 ==> after.outbox.last() == Notice::Lobby
        }),
    decreases n,
{
    if n > 0 {
        let t = s.added_many((n - 1) as nat);
        if s.rooms.len() + n - 1 > 0 {
            let at = if i < s.rooms.len() + n - 1 {
                i
            } else {
                0int
            };
            law_tables_added(s, (n - 1) as nat, at);
        }
        law_new_table(t, Direction::North);
        assert(t.added().rooms.subrange(0, t.rooms.len() as int) == t.rooms);
        if i < t.rooms.len() {
            assert(t.added().rooms[i] == t.added().rooms.subrange(0, t.rooms.len() as int)[i]);
        }
    }
}

} // verus!
