//! How tables get from board to board.

use vstd::prelude::*;
use vstd::string::*;

use crate::cards::{Direction, SeatSet};
use crate::directory::unique_keys;
use crate::events::{Event, Notice};
use crate::rooms::{BoardMode, RoomInnerView, SeatsView};
use crate::sessions::{
    id_view, lemma_wf_same_rooms, views, Session, SessionKind, SessionView,
};
use crate::table::{BoardSetup, BoardView, TableView};

verus! {

/// A connected human sits in the seat.
pub open spec fn live(seats: SeatsView, seat: Direction) -> bool {
    seats.get(seat) matches Some(o) && o.connected
}

/// Every connected seated human is ready, and there is one.
pub open spec fn all_ready(state: RoomInnerView) -> bool {
    &&& exists|d: Direction| #[trigger] live(state.seats, d)
    &&& forall|d: Direction| #[trigger] live(state.seats, d) ==> state.ready.has(d)
}

/// What a table is told when its board changes.
pub open spec fn board_notices(table: int, board_no: u32, index: usize, forced: bool) -> Seq<
    Notice,
> {
    seq![
        Notice::Event {
            table: table as usize,
            event: Event::BoardAdvanced { board_no, board_index: index, forced },
        },
        Notice::Resync { table: table as usize },
    ]
}

/// What the first `n` tables are told when they are dealt a board together.
pub open spec fn deal_notices(n: int, board_no: u32, index: usize) -> Seq<Notice>
    decreases n,
{
    if n <= 0 {
        seq![]
    } else {
        deal_notices(n - 1, board_no, index) + board_notices(n - 1, board_no, index, true).push(
            Notice::Kick { table: (n - 1) as usize },
        )
    }
}

impl SessionView {
    /// Whether a table may go to its next board: there is one, and it is
    /// forced; or at a friends' table, the next board is open and everybody is
    /// ready.
    pub open spec fn may_advance(self, i: int, force: bool) -> bool {
        let state = self.rooms[i].state;
        let next = state.board_index + 1;
        &&& next < self.boards.len()
        &&& force || (self.kind == SessionKind::Adhoc && next < self.open_boards && all_ready(
            state,
        ))
    }

    /// A table is on its next board.
    pub open spec fn advanced(self, i: int, force: bool) -> SessionView {
        let next = (self.rooms[i].state.board_index + 1) as usize;
        let board = self.boards[next as int];
        let s = self.with_room(i, self.rooms[i].on_board(board, next));
        SessionView {
            outbox: s.outbox + board_notices(i, board.number, next, force),
            ..s
        }.post(Notice::Lobby).post(Notice::Kick { table: i as usize })
    }

    /// The board that an index stands for: the last one, if it is beyond.
    pub open spec fn clamped(self, index: int) -> usize {
        if index < self.boards.len() {
            index as usize
        } else {
            (self.boards.len() - 1) as usize
        }
    }

    /// Every table is on the given board.
    pub open spec fn dealt(self, index: int) -> SessionView {
        if self.boards.len() == 0 {
            self
        } else {
            let idx = self.clamped(index);
            let board = self.boards[idx as int];
            SessionView {
                index: idx,
                rooms: Seq::new(
                    self.rooms.len(),
                    |i: int| self.rooms[i].on_board(board, idx),
                ),
                outbox: self.outbox + deal_notices(self.rooms.len() as int, board.number, idx),
                ..self
            }.post(Notice::Lobby)
        }
    }

    /// The 1-based number of the board that all tables are dealt; 0 if there is
    /// none.
    pub open spec fn dealt_number(self, index: int) -> int {
        if self.boards.len() == 0 {
            0
        } else {
            self.clamped(index) + 1
        }
    }

    /// Another set is loaded, and its first board is dealt to every table.
    pub open spec fn loaded_set(
        self,
        boards: Seq<BoardView>,
        label: Option<Seq<char>>,
        mode: Option<BoardMode>,
    ) -> SessionView {
        let s = SessionView { boards, label, index: 0, ..self };
        let t = match mode {
            Some(mode) => s.board_mode_set(mode),
            None => s,
        };
        SessionView { open_boards: boards.len() as usize, ..t }.dealt(0)
    }
}

/// The session is in order when every table is dealt a board.
proof fn lemma_wf_dealt(s: SessionView, index: int)
    requires
        s.boards.len() > 0,
        s.boards.len() <= usize::MAX,
        index >= 0,
        s.policy.wf(),
        unique_keys(s.kibitzers),
        unique_keys(s.connections),
        s.open_boards <= s.boards.len(),
        s.next_table_no == s.rooms.len(),
        forall|i: int| 0 <= i < s.rooms.len() ==> s.room_fits(i, #[trigger] s.rooms[i]),
    ensures
        s.dealt(index).wf(),
{
    let t = s.dealt(index);
    assert forall|j: int| 0 <= j < t.rooms.len() implies t.room_ok(j, #[trigger] t.rooms[j]) by {
        assert(s.room_fits(j, s.rooms[j]));
    }
}

impl Session {
    /// Every connected seated human is ready — and there is at least one (an
    /// all-bot table only force-advances).
    fn humans_ready(&self, i: usize) -> (r: bool)
        requires
            i < self@.rooms.len(),
        ensures
            r == all_ready(self@.rooms[i as int].state),
    {
        assert(self@.rooms[i as int] == self.rooms@[i as int]@);
        let state = &self.rooms[i].state;
        let mut someone = false;
        let mut ready = true;
        let mut k: u8 = 0;
        let ghost first = Direction::North;
        while k < 4
            invariant
                k <= 4,
                state@ == self@.rooms[i as int].state,
                someone <==> exists|d: Direction| d.index() < k && #[trigger] live(state@.seats, d),
                ready <==> forall|d: Direction|
                    d.index() < k && #[trigger] live(state@.seats, d) ==> state@.ready.has(d),
            decreases 4 - k,
        {
            let seat = Direction::North.rotate(k);
            assert(seat.index() == k);
            assert(forall|d: Direction| #![trigger d.index()] d.index() == k ==> d == seat);
            let here = match state.seats.get(seat) {
                Some(o) => o.connected,
                None => false,
            };
            assert(here == live(state@.seats, seat));
            if here {
                someone = true;
                if !state.ready.contains(seat) {
                    ready = false;
                }
            }
            k = k + 1;
        }
        assert(forall|d: Direction| #![trigger d.index()] d.index() < 4);
        assert(ready <==> forall|d: Direction| #[trigger]
            live(state@.seats, d) ==> state@.ready.has(d)) by {
            if ready {
                assert forall|d: Direction| #[trigger] live(state@.seats, d) implies
                    state@.ready.has(d) by {
                    assert(d.index() < 4);
                }
            }
        }
        assert(someone <==> exists|d: Direction| #[trigger] live(state@.seats, d)) by {
            if exists|d: Direction| #[trigger] live(state@.seats, d) {
                let d = choose|d: Direction| #[trigger] live(state@.seats, d);
                assert(d.index() < 4);
            }
        }
        someone && ready
    }

    /// Advance a table to its next board if allowed (see module docs), or
    /// unconditionally when `force`. Returns true if the board changed.
    /// **teacher_set never self-advances** — it's teacher-driven lockstep
    /// (`deal_index_to_all`); the auto path here is the adhoc round flow.
    /// On advance: fresh TableState, cleared ready set + predicted auction,
    /// `board_advanced` event + snapshot resync, lobby refresh, bot kick.
    pub fn try_advance(&mut self, i: usize, force: bool) -> (r: bool)
        requires
            old(self).wf(),
            i < old(self)@.rooms.len(),
        ensures
            final(self).wf(),
            r == old(self)@.may_advance(i as int, force),
            final(self)@ == (if r {
                old(self)@.advanced(i as int, force)
            } else {
                old(self)@
            }),
    {
        let ghost before = self@;
        proof {
            assert(before.rooms[i as int] == self.rooms@[i as int]@);
            assert(before.room_ok(i as int, before.rooms[i as int]));
        }
        let total: usize = self.deck.boards.len();
        assert(total == before.boards.len());
        if total == 0 || self.rooms[i].state.board_index >= total - 1 {
            return false;
        }
        let next: usize = self.rooms[i].state.board_index + 1;
        if !force {
            // Lockstep: teacher_set tables move only on a teacher command.
            if self.kind == SessionKind::TeacherSet {
                return false;
            }
            if next >= self.open_boards {
                return false;
            }
            if !self.humans_ready(i) {
                return false;
            }
        }
        let board = self.deck.boards[next].copy();
        assert(board@ == before.boards[next as int]);
        let board_no: u32 = board.number;
        self.rooms[i].start_board(board, next);
        proof {
            let r = before.rooms[i as int].on_board(before.boards[next as int], next);
            assert(self@.rooms =~= before.rooms.update(i as int, r));
            assert(self@ =~= before.with_room(i as int, r));
            assert forall|j: int| 0 <= j < self@.rooms.len() implies self@.room_ok(
                j,
                #[trigger] self@.rooms[j],
            ) by {
                assert(before.room_ok(j, before.rooms[j]));
            }
        }
        let ghost mid = self@;
        self.post(
            Notice::Event {
                table: i,
                event: Event::BoardAdvanced { board_no, board_index: next, forced: force },
            },
        );
        self.post(Notice::Resync { table: i });
        proof {
            assert(self@.outbox =~= mid.outbox + board_notices(i as int, board_no, next, force));
        }
        self.notify_lobby();
        self.post(Notice::Kick { table: i });
        proof {
            lemma_wf_same_rooms(mid, self@);
        }
        true
    }

    /// True once a real board set is loaded (idle sessions have none).
    pub fn loaded(&self) -> (r: bool)
        ensures
            r == (self@.boards.len() > 0),
    {
        self.deck.boards.len() > 0
    }

    /// Reconnect/status trio: (set label, current 1-based board, total).
    /// Idle → (None, 0, 0). This is what a reconnecting teacher renders as
    /// "‹label› — board 3 of 8".
    pub fn deck_status(&self) -> (r: (Option<String>, usize, usize))
        requires
            self.wf(),
        ensures
            id_view(r.0) == self@.label,
            r.1 == (if self@.boards.len() == 0 {
                0
            } else {
                self@.index + 1
            }),
            r.1 == self@.board_shown(),
            r.2 == self@.boards.len(),
    {
        let total: usize = self.deck.boards.len();
        assert(total == self@.boards.len());
        let current: usize = if total == 0 {
            0
        } else {
            self.deck.index + 1
        };
        let label = match &self.deck.label {
            Some(label) => Some(label.clone()),
            None => None,
        };
        (label, current, total)
    }

    /// Widen the open-board window to `count` (absolute, clamped to the
    /// board list, never narrowing). Returns the new count. Adhoc only —
    /// teacher_set is lockstep.
    pub fn open_boards_to(&mut self, count: usize) -> (r: usize)
        requires
            old(self).wf(),
        ensures
            final(self).wf(),
            ({
                let clamped = if count < old(self)@.boards.len() {
                    count as int
                } else {
                    old(self)@.boards.len() as int
                };
                r == (if old(self)@.open_boards > clamped {
                    old(self)@.open_boards as int
                } else {
                    clamped
                })
            }),
            final(self)@ == (SessionView { open_boards: r, ..old(self)@ }),
    {
        let total: usize = self.deck.boards.len();
        assert(total == self@.boards.len());
        let clamped: usize = if count < total {
            count
        } else {
            total
        };
        if clamped > self.open_boards {
            self.open_boards = clamped;
        }
        proof {
            assert forall|j: int| 0 <= j < self@.rooms.len() implies self@.room_ok(
                j,
                #[trigger] self@.rooms[j],
            ) by {
                assert(old(self)@.room_ok(j, old(self)@.rooms[j]));
            }
        }
        self.open_boards
    }

    /// Force every table to board `index` (0-based, clamped to the set).
    /// Lockstep — both directions, teacher-driven. Fresh TableState, cleared
    /// ready + predicted auction, `board_advanced` (forced) + resync + bot
    /// kick per room, and a lobby refresh. Returns the new 1-based board number
    /// (0 if idle).
    fn deal_index_to_all(&mut self, index: usize) -> (r: usize)
        requires
            old(self)@.policy.wf(),
            unique_keys(old(self)@.kibitzers),
            unique_keys(old(self)@.connections),
            old(self)@.open_boards <= old(self)@.boards.len(),
            old(self)@.next_table_no == old(self)@.rooms.len(),
            old(self)@.boards.len() == 0 ==> old(self).wf(),
            forall|i: int|
                0 <= i < old(self)@.rooms.len() ==> old(self)@.room_fits(
                    i,
                    #[trigger] old(self)@.rooms[i],
                ),
        ensures
            final(self).wf(),
            final(self)@ == old(self)@.dealt(index as int),
            r == old(self)@.dealt_number(index as int),
    {
        let total: usize = self.deck.boards.len();
        assert(total == self@.boards.len());
        if total == 0 {
            return 0;
        }
        let idx: usize = if index < total {
            index
        } else {
            total - 1
        };
        self.deck.index = idx;
        let board_no: u32 = self.deck.boards[idx].number;
        let ghost board = old(self)@.boards[idx as int];
        let mut i: usize = 0;
        proof {
            assert(board == self.deck.boards@[idx as int]@);
            assert(self@.outbox =~= old(self)@.outbox + deal_notices(0, board_no, idx));
        }
        while i < self.rooms.len()
            invariant
                i <= self.rooms.len(),
                idx < self.deck.boards@.len(),
                self.deck.boards@[idx as int]@ == board,
                board.number == board_no,
                self@.rooms.len() == old(self)@.rooms.len(),
                self@.boards == old(self)@.boards,
                self@ == (SessionView {
                    index: idx,
                    rooms: self@.rooms,
                    outbox: old(self)@.outbox + deal_notices(i as int, board_no, idx),
                    ..old(self)@
                }),
                forall|j: int|
                    0 <= j < self@.rooms.len() ==> #[trigger] self@.rooms[j] == (if j < i {
                        old(self)@.rooms[j].on_board(board, idx)
                    } else {
                        old(self)@.rooms[j]
                    }),
            decreases self.rooms.len() - i,
        {
            let ghost before = self@;
            let fresh = self.deck.boards[idx].copy();
            assert(before.rooms[i as int] == self.rooms@[i as int]@);
            self.rooms[i].start_board(fresh, idx);
            proof {
                assert(before.rooms[i as int] == old(self)@.rooms[i as int]);
                assert(self@.rooms =~= before.rooms.update(i as int, self.rooms@[i as int]@));
                assert(forall|j: int|
                    0 <= j < self@.rooms.len() && j != i ==> #[trigger] self@.rooms[j]
                        == before.rooms[j]);
            }
            let ghost mid = self@;
            let event = Event::BoardAdvanced { board_no, board_index: idx, forced: true };
            self.outbox.push(Notice::Event { table: i, event });
            self.outbox.push(Notice::Resync { table: i });
            self.outbox.push(Notice::Kick { table: i });
            proof {
                assert(self@.outbox =~= old(self)@.outbox + deal_notices(i + 1, board_no, idx));
                assert(self@.rooms == mid.rooms);
            }
            i = i + 1;
        }
        self.notify_lobby();
        proof {
            let t = old(self)@.dealt(index as int);
            assert(self@.rooms =~= t.rooms);
            assert(self@ =~= t);
            lemma_wf_dealt(old(self)@, index as int);
        }
        idx + 1
    }

    /// Replace the loaded set ("change deal source"): store boards + label,
    /// reset the pointer to board 1, and deal it to every table (lockstep).
    /// Errors on an empty set. Returns the board total. An optional board mode
    /// carried in with the set is applied; absent → the current mode stays, so
    /// reloading a set never silently flips a mode the teacher already chose.
    pub fn load_boards(
        &mut self,
        boards: Vec<BoardSetup>,
        label: Option<String>,
        mode: Option<BoardMode>,
    ) -> (r: Result<usize, String>)
        requires
            old(self).wf(),
        ensures
            final(self).wf(),
            match r {
                Ok(total) => boards@.len() > 0 && total == boards@.len() && final(self)@
                    == old(self)@.loaded_set(views(boards@), id_view(label), mode),
                Err(e) => boards@.len() == 0 && e@ == "no boards to load"@ && final(self)@ == old(
                    self,
                )@,
            },
    {
        if boards.len() == 0 {
            return Err("no boards to load".to_owned());
        }
        let total: usize = boards.len();
        let ghost set = views(boards@);
        let ghost name = id_view(label);
        self.deck.boards = boards;
        self.deck.label = label;
        self.deck.index = 0;
        let ghost s = SessionView { boards: set, label: name, index: 0, ..old(self)@ };
        assert(self@ =~= s);
        if let Some(mode) = mode {
            self.set_board_mode(mode);
        }
        // Adhoc opens the whole set; teacher_set ignores this (lockstep).
        self.open_boards = total;
        proof {
            assert forall|i: int| 0 <= i < self@.rooms.len() implies self@.room_fits(
                i,
                #[trigger] self@.rooms[i],
            ) by {
                assert(old(self)@.room_ok(i, old(self)@.rooms[i]));
            }
        }
        self.deal_index_to_all(0);
        Ok(total)
    }

    /// Jump all tables to a 1-based board number ("go to"). Clamped.
    pub fn goto_board(&mut self, one_based: usize) -> (r: usize)
        requires
            old(self).wf(),
        ensures
            final(self).wf(),
            ({
                let index = if one_based == 0 {
                    0
                } else {
                    one_based - 1
                };
                r == old(self)@.dealt_number(index) && final(self)@ == old(self)@.dealt(index)
            }),
    {
        proof {
            lemma_rooms_fit(self@);
        }
        let index: usize = if one_based == 0 {
            0
        } else {
            one_based - 1
        };
        self.deal_index_to_all(index)
    }

    /// Advance all tables one board ("Next Deal"). Clamped at the end.
    pub fn next_board(&mut self) -> (r: usize)
        requires
            old(self).wf(),
        ensures
            final(self).wf(),
            r == old(self)@.dealt_number(old(self)@.index + 1),
            final(self)@ == old(self)@.dealt(old(self)@.index + 1),
    {
        proof {
            lemma_rooms_fit(self@);
        }
        let total: usize = self.deck.boards.len();
        assert(total == self@.boards.len());
        let cur: usize = self.deck.index;
        self.deal_index_to_all(cur + 1)
    }

    /// Back all tables up one board ("redo" at the set level).
    pub fn prev_board(&mut self) -> (r: usize)
        requires
            old(self).wf(),
        ensures
            final(self).wf(),
            ({
                let index = if old(self)@.index == 0 {
                    0
                } else {
                    old(self)@.index - 1
                };
                r == old(self)@.dealt_number(index) && final(self)@ == old(self)@.dealt(index)
            }),
    {
        proof {
            lemma_rooms_fit(self@);
        }
        let cur: usize = self.deck.index;
        let index: usize = if cur == 0 {
            0
        } else {
            cur - 1
        };
        self.deal_index_to_all(index)
    }
}

/// The tables of a session that is in order belong to it.
proof fn lemma_rooms_fit(s: SessionView)
    requires
        s.wf(),
    ensures
        forall|i: int| 0 <= i < s.rooms.len() ==> s.room_fits(i, #[trigger] s.rooms[i]),
{
    assert forall|i: int| 0 <= i < s.rooms.len() implies s.room_fits(i, #[trigger] s.rooms[i]) by {
        assert(s.room_ok(i, s.rooms[i]));
    }
}

/// Boards are dealt in lockstep: every table is then on the same board, with
/// nothing called or played and nobody ready; the people stay where they are.
pub proof fn law_lockstep(s: SessionView, index: int, i: int)
    requires
        s.boards.len() > 0,
        s.boards.len() <= usize::MAX,
        0 <= index,
        0 <= i < s.rooms.len(),
    ensures
        ({
            let after = s.dealt(index);
            let state = after.rooms[i].state;
            &&& state.board_index == after.index
            &&& after.index == (if index < s.boards.len() {
                index
            } else {
                s.boards.len() - 1
            })
            &&& state.table == TableView::fresh(s.boards[after.index as int])
            &&& state.ready == SeatSet::none()
            &&& state.seats == s.rooms[i].state.seats
            &&& after.rooms[i].bba_cache is None
        }),
{
}

/// A teacher's table never goes to the next board by itself, however many are
/// ready; forced, any table does while there is a next board.
pub proof fn law_teacher_set_waits(s: SessionView, i: int)
    requires
        0 <= i < s.rooms.len(),
    ensures
        s.kind == SessionKind::TeacherSet ==> !s.may_advance(i, false),
        s.may_advance(i, true) <==> s.rooms[i].state.board_index + 1 < s.boards.len(),
        s.may_advance(i, false) ==> s.may_advance(i, true),
        s.boards.len() == 0 ==> !s.may_advance(i, true),
{
}

/// An all-bot table does not advance by itself, and humans who have dropped
/// hold nobody up.
pub proof fn law_ready_counts_the_connected(state: RoomInnerView)
    ensures
        (forall|d: Direction| !#[trigger] live(state.seats, d)) ==> !all_ready(state),
        (exists|d: Direction| #[trigger] live(state.seats, d)) && (forall|d: Direction| #[trigger]
            live(state.seats, d) ==> state.ready.has(d)) ==> all_ready(state),
{
}

/// Loading a set puts its first board on every table.
pub proof fn law_load_deals_first_board(
    s: SessionView,
    boards: Seq<BoardView>,
    label: Option<Seq<char>>,
    mode: Option<BoardMode>,
    i: int,
)
    requires
        0 < boards.len() <= usize::MAX,
        0 <= i < s.rooms.len(),
    ensures
        ({
            let after = s.loaded_set(boards, label, mode);
            &&& after.boards == boards && after.label == label && after.index == 0
            &&& after.open_boards == boards.len()
            &&& after.rooms.len() == s.rooms.len()
            &&& after.rooms[i].state.table == TableView::fresh(boards[0])
            &&& after.rooms[i].state.board_mode == (match mode {
                Some(m) => m,
                None => s.rooms[i].state.board_mode,
            })
            &&& after.board_mode == (match mode {
                Some(m) => m,
                None => s.board_mode,
            })
        }),
{
}

/// A friends' table goes on by itself exactly if there is a next board, it is
/// open, somebody at the table is connected, and everybody there who is connected
/// is ready.
pub proof fn law_friends_go_on_when_ready(s: SessionView, i: int, seat: Direction)
    requires
        0 <= i < s.rooms.len(),
        s.kind == SessionKind::Adhoc,
        s.open_boards <= s.boards.len(),
    ensures
        ({
            let state = s.rooms[i].state;
            &&& s.may_advance(i, false) ==> state.board_index + 1 < s.open_boards
            &&& s.may_advance(i, false) && (state.seats.get(seat) matches Some(o) && o.connected)
                ==> state.ready.has(seat)
            &&& s.may_advance(i, false) ==> exists|d: Direction|
                (#[trigger] state.seats.get(d)) matches Some(o) && o.connected
            &&& state.board_index + 1 < s.open_boards && (state.seats.get(seat) matches Some(o)
                && o.connected) && (forall|d: Direction|
                ((#[trigger] state.seats.get(d)) matches Some(o) && o.connected) ==> state.ready.has(
                    d,
                )) ==> s.may_advance(i, false)
        }),
{
    let state = s.rooms[i].state;
    if s.may_advance(i, false) {
        let d = choose|d: Direction| #[trigger] live(state.seats, d);
        assert(state.seats.get(d) matches Some(o) && o.connected);
        if live(state.seats, seat) {
            assert(state.ready.has(seat));
        }
    }
    if state.board_index + 1 < s.open_boards && live(state.seats, seat) && (forall|d: Direction|
        ((#[trigger] state.seats.get(d)) matches Some(o) && o.connected) ==> state.ready.has(d)) {
        assert forall|d: Direction| #[trigger] live(state.seats, d) implies state.ready.has(d) by {
            assert(state.seats.get(d) matches Some(o) && o.connected);
        }
    }
}

/// A table that goes on has the next board in front of it, with nothing called
/// or played and nobody ready; its people stay, and the other tables are
/// untouched. The table is told which board it is on and whether it was forced,
/// everybody there looks again, the lobby is told, and the bots are started.
pub proof fn law_advance(s: SessionView, i: int, force: bool, j: int, seat: Direction)
    requires
        0 <= i < s.rooms.len() <= usize::MAX,
        0 <= j < s.rooms.len(),
        s.may_advance(i, force),
        s.boards.len() <= usize::MAX,
    ensures
        ({
            let after = s.advanced(i, force);
            let next = s.rooms[i].state.board_index + 1;
            let told = Event::BoardAdvanced {
                board_no: s.boards[next].number,
                board_index: next as usize,
                forced: force,
            };
            let n = s.outbox.len() as int;
            &&& after.rooms.len() == s.rooms.len()
            &&& after.rooms[i].state.board_index == next
            &&& after.rooms[i].state.table.board == s.boards[next]
            &&& after.rooms[i].state.table.log.len() == 0
            &&& !after.rooms[i].state.ready.has(seat)
            &&& after.rooms[i].state.seats == s.rooms[i].state.seats
            &&& after.rooms[i].bba_cache is None
            &&& j != i ==> after.rooms[j] == s.rooms[j]
            &&& after.index == s.index
            &&& after.outbox.len() == n + 4
            &&& after.outbox[n] == (Notice::Event { table: i as usize, event: told })
            &&& after.outbox[n + 1] == (Notice::Resync { table: i as usize })
            &&& after.outbox[n + 2] == Notice::Lobby
            &&& after.outbox[n + 3] == (Notice::Kick { table: i as usize })
        }),
{
}

/// What the tables are told of a board that is dealt to all: each is told the
/// board, looks again, and has its bots started; and the lobby is told last.
pub proof fn law_everyone_is_told(s: SessionView, index: int, i: int)
    requires
        0 < s.boards.len() <= usize::MAX,
        0 <= index,
        0 <= i < s.rooms.len() <= usize::MAX,
    ensures
        ({
            let after = s.dealt(index);
            let told = Event::BoardAdvanced {
                board_no: s.boards[after.index as int].number,
                board_index: after.index,
                forced: true,
            };
            let n = s.outbox.len() + 3 * i;
            &&& after.outbox.len() == s.outbox.len() + 3 * s.rooms.len() + 1
            &&& after.outbox[n] == (Notice::Event { table: i as usize, event: told })
            &&& after.outbox[n + 1] == (Notice::Resync { table: i as usize })
            &&& after.outbox[n + 2] == (Notice::Kick { table: i as usize })
            &&& after.outbox.last() == Notice::Lobby
        }),
{
    let idx = s.clamped(index);
    lemma_deal_notices(s.rooms.len() as int, s.boards[idx as int].number, idx, i);
}

proof fn lemma_deal_notices(n: int, board_no: u32, index: usize, i: int)
    requires
        0 <= i < n,
    ensures
        ({
            let all = deal_notices(n, board_no, index);
            &&& all.len() == 3 * n
            &&& all[3 * i] == (Notice::Event {
                table: i as usize,
                event: Event::BoardAdvanced { board_no, board_index: index, forced: true },
            })
            &&& all[3 * i + 1] == (Notice::Resync { table: i as usize })
            &&& all[3 * i + 2] == (Notice::Kick { table: i as usize })
        }),
    decreases n,
{
    if n > 1 {
        let at = if i < n - 1 {
            i
        } else {
            0int
        };
        lemma_deal_notices(n - 1, board_no, index, at);
    } else {
        assert(deal_notices(0, board_no, index).len() == 0);
    }
}

/// Boards are counted from one: the number that is given back is that of the
/// board that all tables are then on, and zero only if there is none.
pub proof fn law_boards_count_from_one(s: SessionView, index: int)
    requires
        0 <= index,
        s.boards.len() <= usize::MAX,
    ensures
        s.boards.len() == 0 ==> s.dealt_number(index) == 0 && s.dealt(index) == s,
        s.boards.len() > 0 ==> s.dealt_number(index) == s.dealt(index).index + 1 && 1
            <= s.dealt_number(index) <= s.boards.len(),
        index < s.boards.len() ==> s.dealt_number(index) == index + 1,
{
}

impl SessionView {
    /// The number under which the current board is shown, from one; zero if there
    /// is none.
    pub open spec fn board_shown(self) -> int {
        if self.boards.len() == 0 {
            0
        } else {
            self.index + 1
        }
    }
}

/// What is shown is what was last gone to: after a board is dealt to all tables it
/// is shown under the number that is given back, and after a set is loaded its
/// first board is. With no boards nothing is shown.
pub proof fn law_board_shown(
    s: SessionView,
    index: int,
    boards: Seq<BoardView>,
    label: Option<Seq<char>>,
    mode: Option<BoardMode>,
)
    requires
        0 <= index,
        s.boards.len() <= usize::MAX,
        0 < boards.len() <= usize::MAX,
    ensures
        s.dealt(index).board_shown() == s.dealt_number(index),
        s.loaded_set(boards, label, mode).board_shown() == 1,
        s.boards.len() == 0 ==> s.board_shown() == 0,
        index < s.boards.len() ==> s.dealt(index).board_shown() == index + 1,
{
    law_boards_count_from_one(s, index);
}

} // verus!
