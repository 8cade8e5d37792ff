//! What a teacher's frames do to a session.

use vstd::prelude::*;

use crate::boards::{read_set, set_of};
use crate::cards::{law_seat_set, Direction};
use crate::directory::unique_keys;
use crate::events::{Event, Notice};
use crate::rooms::{law_board_mode_names, law_seats, BoardMode, BotMode, RoomView};
use crate::routes::ws::client::{
    law_play_keeps_the_room, law_undo, lemma_wf_after_frame, undo, undo_outcome,
};
use crate::routes::ws::{err_msg, error, said, seats_event, seats_told, ErrorFrame, ErrorView, Frame};
use crate::seating::{joined, seat_in, seat_of_text, text_view, PolicyView, SeatPolicy};
use crate::sessions::control::{law_assigned_sits_there, sits_only, waiting};
use crate::sessions::rounds::{
    law_advance, law_load_deals_first_board, law_lockstep, law_teacher_set_waits,
};
use crate::sessions::{
    id_view, law_table_found, lemma_seat_from, lemma_wf_added_many, lemma_wf_same_rooms, room_from, seat_from, token_from, views,
    Session, SessionView,
};

verus! {

/// What the first `n` tables are told when boards are opened.
pub open spec fn opening(n: int, open: usize, total: usize) -> Seq<Notice>
    decreases n,
{
    if n <= 0 {
        seq![]
    } else {
        opening(n - 1, open, total).push(
            Notice::Event { table: (n - 1) as usize, event: Event::BoardsOpen { open, total } },
        )
    }
}

impl SessionView {
    /// Of the first `n` tables, those whose people are all ready have gone on.
    pub open spec fn ready_advanced(self, n: int) -> SessionView
        decreases n,
    {
        if n <= 0 {
            self
        } else {
            let s = self.ready_advanced(n - 1);
            if s.may_advance(n - 1, false) {
                s.advanced(n - 1, false)
            } else {
                s
            }
        }
    }

    /// How many boards are open when the teacher asks for `count`: never fewer
    /// than there were, never more than there are.
    pub open spec fn opened(self, count: usize) -> usize {
        let clamped = if count < self.boards.len() {
            count as int
        } else {
            self.boards.len() as int
        };
        if self.open_boards > clamped {
            self.open_boards
        } else {
            clamped as usize
        }
    }

    /// The teacher has opened boards: every table is told (players see "next
    /// board available"), then any table whose humans are already all ready
    /// goes on.
    pub open spec fn boards_opened(self, count: usize) -> SessionView {
        let open = self.opened(count);
        SessionView {
            open_boards: open,
            outbox: self.outbox + opening(
                self.rooms.len() as int,
                open,
                self.boards.len() as usize,
            ),
            ..self
        }.ready_advanced(self.rooms.len() as int).post(Notice::Lobby)
    }

    /// The tables whose seats have changed are told, and their bots look
    /// whether it is their turn (a vacated seat may be a bot now; a filled one
    /// may unblock the table).
    pub open spec fn seats_changed(self, changed: Seq<usize>) -> SessionView
        decreases changed.len(),
    {
        if changed.len() == 0 {
            self
        } else {
            let i = changed.last();
            self.seats_changed(changed.drop_last()).post(
                Notice::Event { table: i, event: seats_told(self.rooms[i as int].state) },
            ).post(Notice::Kick { table: i })
        }
    }

    /// Seats have changed: the tables are told, everybody gets the roster, every
    /// player looks up again where they sit, and the lobby is refreshed.
    pub open spec fn reseated(self, changed: Seq<usize>) -> SessionView {
        self.seats_changed(changed).post(Notice::Everyone { event: Event::RosterUpdate }).post(
            Notice::Recheck,
        ).post(Notice::Lobby)
    }

    /// A load_boards frame: another set for every table, from its first board.
    pub open spec fn load_frame(self, frame: Frame) -> (SessionView, Option<ErrorView>) {
        match text_view(frame.boards_pbn) {
            None => (self, error("bad_pbn"@, "load_boards.boards_pbn missing"@)),
            Some(_) => match set_of(frame.boards) {
                Err(e) => (self, error("bad_pbn"@, e)),
                Ok(boards) => (
                    self.loaded_set(
                        boards,
                        id_view(frame.label),
                        match text_view(frame.mode) {
                            Some(m) => BoardMode::named(m),
                            None => None,
                        },
                    ),
                    None,
                ),
            },
        }
    }

    /// A frame that takes every table to a board.
    pub open spec fn board_frame(self, index: int) -> (SessionView, Option<ErrorView>) {
        if self.boards.len() == 0 {
            (self, error("no_set"@, "no deal set loaded"@))
        } else {
            (self.dealt(index), None)
        }
    }

    /// A force_advance frame.
    pub open spec fn force_frame(self, frame: Frame) -> (SessionView, Option<ErrorView>) {
        let i = match text_view(frame.table) {
            Some(id) => room_from(self.rooms, id, 0),
            None => self.rooms.len() as int,
        };
        if i >= self.rooms.len() {
            (self, error("bad_table"@, "force_advance.table unknown"@))
        } else if self.may_advance(i, true) {
            (self.advanced(i, true), None)
        } else {
            (self, error("rejected"@, "no more boards"@))
        }
    }

    /// A seat_students frame.
    pub open spec fn students_frame(self) -> SessionView {
        let people = waiting(self.kibitzers);
        let (after, changed) = self.seat_all(self.policy.bulk(), people, people.len() as int);
        after.reseated(changed)
    }

    /// A seat of a table is vacated, and a bot put there.
    pub open spec fn booted(self, id: Seq<char>, seat: Direction) -> (
        SessionView,
        Option<ErrorView>,
    ) {
        match self.assign_table(Some(id)) {
            Err(e) => (self, error("rejected"@, e)),
            Ok(i) => (
                self.seat_vacated(i, seat, true).reseated(
                    if self.vacating_changes(i, seat, true) {
                        seq![i as usize]
                    } else {
                        seq![]
                    },
                ),
                None,
            ),
        }
    }

    /// Somebody is to sit in a seat of a table.
    pub open spec fn sat_down(self, id: Seq<char>, seat: Direction, sub: Seq<char>) -> (
        SessionView,
        Option<ErrorView>,
    ) {
        match self.assign_table(Some(id)) {
            Err(e) => (self, error("rejected"@, e)),
            Ok(i) => match self.reassigned(sub, i, seat) {
                Err(e) => (self, error("rejected"@, e)),
                Ok((after, changed)) => (after.reseated(changed), None),
            },
        }
    }

    /// An assign_seat or boot frame. Booting, or assigning nobody, vacates the
    /// seat and puts a bot there. Somebody who sits already is moved.
    #[verifier::opaque]
    pub open spec fn assign_frame(self, frame: Frame) -> (SessionView, Option<ErrorView>) {
        match text_view(frame.table) {
            None => (self, error("bad_table"@, "table missing"@)),
            Some(id) => match seat_in(text_view(frame.seat)) {
                None => (self, error("bad_seat"@, "seat missing or unrecognized"@)),
                Some(seat) => if frame.is_a("boot"@) || frame.sub is None {
                    self.booted(id, seat)
                } else {
                    self.sat_down(id, seat, frame.sub->0@)
                },
            },
        }
    }

    /// How many tables an add_tables frame asks for.
    pub open spec fn tables_asked(frame: Frame) -> nat {
        match frame.count {
            None => 1,
            Some(n) => if n < 1 {
                1
            } else if n > 20 {
                20
            } else {
                n as nat
            },
        }
    }

    /// What a teacher's frame does to the session. `kibitz` is the table that
    /// the teacher watches.
    pub open spec fn teacher_frame(self, kibitz: Option<usize>, frame: Frame) -> (
        SessionView,
        Option<ErrorView>,
    ) {
        if frame.is_a("pong"@) {
            (self, None)
        } else if frame.is_a("open_boards"@) {
            match frame.count {
                None => (self, error("bad_count"@, "open_boards.count missing"@)),
                Some(count) => (self.boards_opened(count as usize), None),
            }
        } else if frame.is_a("load_boards"@) {
            self.load_frame(frame)
        } else if frame.is_a("goto_board"@) {
            match frame.index {
                None => (self, error("bad_index"@, "goto_board.index missing"@)),
                Some(n) => self.board_frame(
                    if n as usize == 0 {
                        0
                    } else {
                        n as usize - 1
                    },
                ),
            }
        } else if frame.is_a("next_board"@) {
            self.board_frame(self.index + 1)
        } else if frame.is_a("prev_board"@) {
            self.board_frame(
                if self.index == 0 {
                    0
                } else {
                    self.index - 1
                },
            )
        } else if frame.is_a("force_advance"@) {
            self.force_frame(frame)
        } else if frame.is_a("seat_students"@) {
            (self.students_frame(), None)
        } else if frame.is_a("wait_to_seat"@) {
            (
                SessionView { wait_to_seat: frame.on == Some(true), ..self }.post(Notice::Lobby),
                None,
            )
        } else if frame.is_a("add_tables"@) {
            (self.added_many(SessionView::tables_asked(frame)), None)
        } else if frame.is_a("set_seat_policy"@) {
            match text_view(frame.policy) {
                Some(key) => match PolicyView::named(key) {
                    Some(policy) => (SessionView { policy, ..self }.post(Notice::Lobby), None),
                    None => (self, error("bad_policy"@, "unknown seat policy"@)),
                },
                None => (self, error("bad_policy"@, "unknown seat policy"@)),
            }
        } else if frame.is_a("set_bot_mode"@) {
            match text_view(frame.mode) {
                Some(name) => match BotMode::named(name) {
                    Some(mode) => (self.bot_mode_set(mode), None),
                    None => (self, error("bad_mode"@, "unknown bot mode"@)),
                },
                None => (self, error("bad_mode"@, "unknown bot mode"@)),
            }
        } else if frame.is_a("pause_bots"@) {
            (
                SessionView { bots_paused: frame.on != Some(false), ..self }.bots_started().post(
                    Notice::Lobby,
                ),
                None,
            )
        } else if frame.is_a("assign_seat"@) || frame.is_a("boot"@) {
            self.assign_frame(frame)
        } else if frame.is_a("undo"@) {
            match kibitz {
                None => (self, error("no_table"@, "kibitz a table before undoing"@)),
                Some(i) => {
                    let o = undo_outcome(self.rooms[i as int], i, true, frame);
                    (self.after_frame(i as int, o), o.error)
                },
            }
        } else {
            (self, error("unknown"@, "unknown message type"@))
        }
    }
}

/// `ready_advanced` changes no number of tables, and no boards.
proof fn lemma_ready_advanced(s: SessionView, n: int)
    requires
        n <= s.rooms.len(),
    ensures
        s.ready_advanced(n).rooms.len() == s.rooms.len(),
        s.ready_advanced(n).boards == s.boards,
    decreases n,
{
    if n > 0 {
        lemma_ready_advanced(s, n - 1);
    }
}

impl Session {
    /// The teacher opens boards.
    fn open_boards_now(&mut self, count: usize)
        requires
            old(self).wf(),
        ensures
            final(self).wf(),
            final(self)@ == old(self)@.boards_opened(count),
    {
        let open: usize = self.open_boards_to(count);
        let (_, _, total) = self.deck_status();
        let ghost opened = self@;
        assert(open == old(self)@.opened(count));
        let n: usize = self.rooms.len();
        assert(n == self@.rooms.len());
        let mut i: usize = 0;
        proof {
            assert(self@ =~= (SessionView {
                outbox: opened.outbox + opening(0, open, total),
                ..opened
            }));
        }
        // Tell every table (players see "next board available"), then
        // move any table whose humans are already all ready.
        while i < n
            invariant
                i <= n,
                n == opened.rooms.len(),
                self@ == (SessionView {
                    outbox: opened.outbox + opening(i as int, open, total),
                    ..opened
                }),
            decreases n - i,
        {
            let ghost before = self@;
            self.post(Notice::Event { table: i, event: Event::BoardsOpen { open, total } });
            proof {
                assert(opening(i + 1, open, total) == opening(i as int, open, total).push(
                    Notice::Event { table: i, event: Event::BoardsOpen { open, total } },
                ));
                assert(self@ =~= (SessionView {
                    outbox: opened.outbox + opening(i + 1, open, total),
                    ..opened
                }));
            }
            i = i + 1;
        }
        let ghost told = self@;
        proof {
            lemma_wf_same_rooms(opened, told);
            assert(told == (SessionView {
                open_boards: open,
                outbox: old(self)@.outbox + opening(n as int, open, total),
                ..old(self)@
            }));
        }
        i = 0;
        while i < n
            invariant
                i <= n,
                n == told.rooms.len(),
                self.wf(),
                self@ == told.ready_advanced(i as int),
            decreases n - i,
        {
            proof {
                lemma_ready_advanced(told, i as int);
            }
            self.try_advance(i, false);
            i = i + 1;
        }
        let ghost moved = self@;
        self.notify_lobby();
        proof {
            lemma_wf_same_rooms(moved, self@);
        }
    }

    /// Tells the tables whose seats have changed, the players and the lobby.
    fn announce_seats(&mut self, changed: Vec<usize>)
        requires
            old(self).wf(),
            forall|j: int|
                0 <= j < changed@.len() ==> (#[trigger] changed@[j]) < old(self)@.rooms.len(),
        ensures
            final(self).wf(),
            final(self)@ == old(self)@.reseated(changed@),
    {
        let mut k: usize = 0;
        assert(changed@.subrange(0, 0) =~= seq![]);
        while k < changed.len()
            invariant
                k <= changed.len(),
                self.wf(),
                self@.rooms == old(self)@.rooms,
                forall|j: int|
                    0 <= j < changed@.len() ==> (#[trigger] changed@[j]) < old(self)@.rooms.len(),
                self@ == old(self)@.seats_changed(changed@.subrange(0, k as int)),
            decreases changed.len() - k,
        {
            let i: usize = changed[k];
            let ghost before = self@;
            assert(before.rooms[i as int] == self.rooms@[i as int]@);
            let event = seats_event(&self.rooms[i].state);
            self.post(Notice::Event { table: i, event });
            self.post(Notice::Kick { table: i });
            proof {
                lemma_wf_same_rooms(before, self@);
                let longer = changed@.subrange(0, k + 1);
                assert(longer.drop_last() =~= changed@.subrange(0, k as int));
                assert(longer.last() == i);
            }
            k = k + 1;
        }
        assert(changed@.subrange(0, k as int) =~= changed@);
        let ghost before = self@;
        self.post(Notice::Everyone { event: Event::RosterUpdate });
        self.notify_recheck();
        self.notify_lobby();
        proof {
            lemma_wf_same_rooms(before, self@);
        }
    }
}

impl Session {
    /// Another set for every table.
    fn load_now(&mut self, frame: &Frame) -> (r: Option<ErrorFrame>)
        requires
            old(self).wf(),
            frame.countable(),
        ensures
            final(self).wf(),
            final(self)@ == old(self)@.load_frame(*frame).0,
            said(r) == old(self)@.load_frame(*frame).1,
    {
        if frame.boards_pbn.is_none() {
            return Some(err_msg("bad_pbn", "load_boards.boards_pbn missing"));
        }
        let boards = match read_set(&frame.boards) {
            Ok(boards) => boards,
            Err(e) => {
                return Some(err_msg("bad_pbn", e.as_str()));
            },
        };
        let label = match &frame.label {
            Some(label) => Some(label.clone()),
            None => None,
        };
        let mode = match &frame.mode {
            Some(mode) => BoardMode::parse(mode.as_str()),
            None => None,
        };
        assert(views(boards@) =~= set_of(frame.boards)->Ok_0);
        assert(set_of(frame.boards)->Ok_0.len() > 0);
        match self.load_boards(boards, label, mode) {
            Ok(_) => None,
            Err(e) => Some(err_msg("rejected", e.as_str())),
        }
    }

    /// A table goes to its next board, whether its people are ready or not.
    fn force_now(&mut self, frame: &Frame) -> (r: Option<ErrorFrame>)
        requires
            old(self).wf(),
        ensures
            final(self).wf(),
            final(self)@ == old(self)@.force_frame(*frame).0,
            said(r) == old(self)@.force_frame(*frame).1,
    {
        let i: usize = match &frame.table {
            Some(id) => self.room_by_id(id.as_str()),
            None => self.rooms.len(),
        };
        if i >= self.rooms.len() {
            return Some(err_msg("bad_table", "force_advance.table unknown"));
        }
        if self.try_advance(i, true) {
            None
        } else {
            Some(err_msg("rejected", "no more boards"))
        }
    }

    /// Vacates a seat of a table, and puts a bot there.
    fn boot_now(&mut self, table: &str, seat: Direction) -> (r: Option<ErrorFrame>)
        requires
            old(self).wf(),
        ensures
            final(self).wf(),
            final(self)@ == old(self)@.booted(table@, seat).0,
            said(r) == old(self)@.booted(table@, seat).1,
    {
        proof {
            crate::sessions::placing::lemma_room_from(self@.rooms, table@, 0);
        }
        match self.assign_seat(Some(table), None, Some(seat), None, true) {
            Ok(changed) => {
                assert(self@.rooms.len() == old(self)@.rooms.len());
                self.announce_seats(changed);
                None
            },
            Err(e) => Some(err_msg("rejected", e.as_str())),
        }
    }

    /// Seats somebody at a table.
    fn seat_now(&mut self, table: &str, seat: Direction, sub: &str) -> (r: Option<ErrorFrame>)
        requires
            old(self).wf(),
        ensures
            final(self).wf(),
            final(self)@ == old(self)@.sat_down(table@, seat, sub@).0,
            said(r) == old(self)@.sat_down(table@, seat, sub@).1,
    {
        proof {
            crate::sessions::placing::lemma_room_from(self@.rooms, table@, 0);
            lemma_seat_from(self@.rooms, sub@, 0);
        }
        let i: usize = self.room_by_id(table);
        if i >= self.rooms.len() {
            return Some(err_msg("rejected", joined("unknown table ", table).as_str()));
        }
        match self.reassign(sub, i, seat) {
            Ok(changed) => {
                assert(self@.rooms.len() == old(self)@.rooms.len());
                self.announce_seats(changed);
                None
            },
            Err(e) => Some(err_msg("rejected", e.as_str())),
        }
    }

    /// Somebody is seated, or a seat is vacated.
    fn assign_now(&mut self, frame: &Frame) -> (r: Option<ErrorFrame>)
        requires
            old(self).wf(),
        ensures
            final(self).wf(),
            final(self)@ == old(self)@.assign_frame(*frame).0,
            said(r) == old(self)@.assign_frame(*frame).1,
    {
        proof {
            reveal(SessionView::assign_frame);
        }
        let table = match &frame.table {
            Some(table) => table,
            None => {
                return Some(err_msg("bad_table", "table missing"));
            },
        };
        let seat = match seat_of_text(&frame.seat) {
            Some(seat) => seat,
            None => {
                return Some(err_msg("bad_seat", "seat missing or unrecognized"));
            },
        };
        // boot ≡ assign_seat with sub:null.
        match &frame.sub {
            Some(sub) => if frame.kind_is("boot") {
                self.boot_now(table.as_str(), seat)
            } else {
                self.seat_now(table.as_str(), seat, sub.as_str())
            },
            None => self.boot_now(table.as_str(), seat),
        }
    }

    /// Undoes at the table that the teacher watches.
    fn undo_now(&mut self, kibitz: Option<usize>, frame: &Frame) -> (r: Option<ErrorFrame>)
        requires
            old(self).wf(),
            kibitz matches Some(i) ==> i < old(self)@.rooms.len(),
        ensures
            final(self).wf(),
            match kibitz {
                None => final(self)@ == old(self)@ && said(r) == error(
                    "no_table"@,
                    "kibitz a table before undoing"@,
                ),
                Some(i) => {
                    let o = undo_outcome(old(self)@.rooms[i as int], i, true, *frame);
                    final(self)@ == old(self)@.after_frame(i as int, o) && said(r) == o.error
                },
            },
    {
        let i: usize = match kibitz {
            Some(i) => i,
            None => {
                return Some(err_msg("no_table", "kibitz a table before undoing"));
            },
        };
        let ghost before = self@;
        proof {
            assert(before.rooms[i as int] == self.rooms@[i as int]@);
            assert(before.room_ok(i as int, before.rooms[i as int]));
        }
        let r = undo(&mut self.rooms[i], i, true, frame, &mut self.outbox);
        proof {
            let o = undo_outcome(before.rooms[i as int], i, true, *frame);
            assert(self@.rooms =~= before.rooms.update(i as int, o.room));
            assert(self@ =~= before.after_frame(i as int, o));
            lemma_wf_after_frame(before, i as int, o);
        }
        r
    }

    /// Teacher control messages. Returns an error frame for this client only;
    /// state changes announce themselves via notices / lobby refreshes.
    /// `kibitz` is the table that the teacher watches.
    pub fn handle_teacher_msg(&mut self, kibitz: Option<usize>, frame: &Frame) -> (r: Option<
        ErrorFrame,
    >)
        requires
            old(self).wf(),
            kibitz matches Some(i) ==> i < old(self)@.rooms.len(),
            frame.countable(),
            old(self)@.rooms.len() + old(self)@.kibitzers.len() + 20 <= usize::MAX,
        ensures
            final(self).wf(),
            final(self)@ == old(self)@.teacher_frame(kibitz, *frame).0,
            said(r) == old(self)@.teacher_frame(kibitz, *frame).1,
    {
        if frame.kind_is("pong") {
            None
        } else if frame.kind_is("open_boards") {
            match frame.count {
                Some(count) => {
                    self.open_boards_now(count as usize);
                    None
                },
                None => Some(err_msg("bad_count", "open_boards.count missing")),
            }
        } else if frame.kind_is("load_boards") {
            self.load_now(frame)
        } else if frame.kind_is("goto_board") {
            match frame.index {
                Some(n) => {
                    if !self.loaded() {
                        return Some(err_msg("no_set", "no deal set loaded"));
                    }
                    self.goto_board(n as usize);
                    None
                },
                None => Some(err_msg("bad_index", "goto_board.index missing")),
            }
        } else if frame.kind_is("next_board") {
            if !self.loaded() {
                return Some(err_msg("no_set", "no deal set loaded"));
            }
            self.next_board();
            None
        } else if frame.kind_is("prev_board") {
            if !self.loaded() {
                return Some(err_msg("no_set", "no deal set loaded"));
            }
            self.prev_board();
            None
        } else if frame.kind_is("force_advance") {
            self.force_now(frame)
        } else if frame.kind_is("seat_students") {
            let changed = self.seat_students();
            self.announce_seats(changed);
            None
        } else if frame.kind_is("wait_to_seat") {
            let on = match frame.on {
                Some(on) => on,
                None => false,
            };
            self.set_wait_to_seat(on);
            None
        } else if frame.kind_is("add_tables") {
            let count: usize = match frame.count {
                Some(n) => if n < 1 {
                    1
                } else if n > 20 {
                    20
                } else {
                    n as usize
                },
                None => 1,
            };
            assert(count == SessionView::tables_asked(*frame));
            self.add_tables(count);
            None
        } else if frame.kind_is("set_seat_policy") {
            let policy = match &frame.policy {
                Some(key) => SeatPolicy::from_key(key.as_str()),
                None => None,
            };
            match policy {
                Some(policy) => {
                    self.set_seat_policy(policy);
                    None
                },
                None => Some(err_msg("bad_policy", "unknown seat policy")),
            }
        } else if frame.kind_is("set_bot_mode") {
            let mode = match &frame.mode {
                Some(name) => BotMode::from_name(name.as_str()),
                None => None,
            };
            match mode {
                Some(mode) => {
                    self.set_bot_mode(mode);
                    None
                },
                None => Some(err_msg("bad_mode", "unknown bot mode")),
            }
        } else if frame.kind_is("pause_bots") {
            let on = match frame.on {
                Some(on) => on,
                None => true,
            };
            self.set_bots_paused(on);
            None
        } else if frame.kind_is("assign_seat") || frame.kind_is("boot") {
            self.assign_now(frame)
        } else if frame.kind_is("undo") {
            self.undo_now(kibitz, frame)
        } else {
            Some(err_msg("unknown", "unknown message type"))
        }
    }

    /// The table that a kibitz frame asks for.
    pub fn kibitz_table(&self, frame: &Frame) -> (r: Result<usize, ErrorFrame>)
        ensures
            match r {
                Ok(i) => text_view(frame.table) is Some && i == room_from(
                    self@.rooms,
                    text_view(frame.table)->0,
                    0,
                ) && i < self@.rooms.len(),
                Err(e) => match text_view(frame.table) {
                    None => Some(e@) == error("bad_table"@, "kibitz.table missing"@),
                    Some(id) => room_from(self@.rooms, id, 0) >= self@.rooms.len() && Some(e@)
                        == error("bad_table"@, "unknown table"@),
                },
            },
            r matches Ok(i) ==> self@.kibitz_choice(*frame) == Ok::<int, ErrorView>(i as int),
            r matches Err(e) ==> self@.kibitz_choice(*frame) == Err::<int, ErrorView>(e@),
    {
        let id = match &frame.table {
            Some(id) => id,
            None => {
                return Err(err_msg("bad_table", "kibitz.table missing"));
            },
        };
        let i: usize = self.room_by_id(id.as_str());
        if i >= self.rooms.len() {
            return Err(err_msg("bad_table", "unknown table"));
        }
        Ok(i)
    }
}

/// An assign_seat or boot frame that is refused leaves the session as it is.
proof fn lemma_assign_refused(s: SessionView, frame: Frame)
    requires
        s.assign_frame(frame).1 is Some,
    ensures
        s.assign_frame(frame).0 == s,
{
    reveal(SessionView::assign_frame);
}

/// A teacher's frame that is refused leaves the session as it is.
pub proof fn law_teacher_refusals_change_nothing(
    s: SessionView,
    kibitz: Option<usize>,
    frame: Frame,
)
    requires
        kibitz matches Some(i) ==> i < s.rooms.len(),
        s.teacher_frame(kibitz, frame).1 is Some,
    ensures
        s.teacher_frame(kibitz, frame).0 == s,
{
    if s.assign_frame(frame).1 is Some {
        lemma_assign_refused(s, frame);
    }
    if kibitz is Some {
        let i = kibitz->0 as int;
        assert(s.rooms.update(i, s.rooms[i]) =~= s.rooms);
        assert(s.outbox + Seq::<Notice>::empty() =~= s.outbox);
        let o = undo_outcome(s.rooms[i], i as usize, true, frame);
        if o.error is Some {
            assert(s.after_frame(i, o) =~= s);
        }
    }
}

/// Telling that seats have changed posts notices and does nothing else.
proof fn lemma_reseated(s: SessionView, changed: Seq<usize>)
    ensures
        s.seats_changed(changed).rooms == s.rooms,
        s.reseated(changed).rooms == s.rooms,
    decreases changed.len(),
{
    if changed.len() > 0 {
        lemma_reseated(s, changed.drop_last());
    }
}

/// After an accepted assign_seat frame that names somebody, their connection is
/// bound to the seat of the frame, wherever it was before. (Left out is whoever
/// holds several seats, and a name under which nobody sits or is connected.)
pub proof fn law_assigned_is_bound(s: SessionView, frame: Frame, table: usize)
    requires
        unique_keys(s.connections),
        frame.is_a("assign_seat"@),
        frame.sub is Some,
        s.assign_frame(frame).1 is None,
        match seat_from(s.rooms, frame.sub->0@, 0) {
            Some((j, f)) => sits_only(s, frame.sub->0@, j, f),
            None => token_from(s.connections, frame.sub->0@, 0) is Some,
        },
    ensures
        frame.table is Some,
        s.assign_frame(frame).0.binding(frame.sub->0@, table) == (
            room_from(s.rooms, frame.table->0@, 0) as usize,
            seat_in(text_view(frame.seat)),
        ),
{
    reveal(SessionView::assign_frame);
    reveal_strlit("assign_seat");
    reveal_strlit("boot");
    assert("assign_seat"@.len() == 11 && "boot"@.len() == 4);
    let sub = frame.sub->0@;
    let id = frame.table->0@;
    let seat = seat_in(text_view(frame.seat))->0;
    let i = room_from(s.rooms, id, 0);
    crate::sessions::placing::lemma_room_from(s.rooms, id, 0);
    let (after, changed) = s.reassigned(sub, i, seat)->Ok_0;
    law_assigned_sits_there(s, sub, i, seat);
    lemma_reseated(after, changed);
}

/// Opening boards never closes one, and opens no more than there are.
pub proof fn law_boards_stay_open(s: SessionView, count: usize)
    requires
        s.wf(),
        s.boards.len() <= usize::MAX,
    ensures
        s.open_boards <= s.opened(count) <= s.boards.len(),
        count <= s.boards.len() ==> s.opened(count) >= count,
{
}

/// How the kinds of a teacher's frames differ.
proof fn lemma_kinds_differ()
    ensures
        "pong"@.len() == 4 && "pong"@[0] == 'p',
        "boot"@.len() == 4 && "boot"@[0] == 'b',
        "undo"@.len() == 4 && "undo"@[0] == 'u',
        "goto_board"@.len() == 10 && "goto_board"@[0] == 'g',
        "next_board"@.len() == 10 && "next_board"@[0] == 'n',
        "prev_board"@.len() == 10 && "prev_board"@[0] == 'p' && "prev_board"@[1] == 'r',
        "add_tables"@.len() == 10 && "add_tables"@[0] == 'a',
        "pause_bots"@.len() == 10 && "pause_bots"@[0] == 'p' && "pause_bots"@[1] == 'a',
        "open_boards"@.len() == 11 && "open_boards"@[0] == 'o',
        "load_boards"@.len() == 11 && "load_boards"@[0] == 'l',
        "assign_seat"@.len() == 11 && "assign_seat"@[0] == 'a',
        "wait_to_seat"@.len() == 12 && "wait_to_seat"@[0] == 'w',
        "set_bot_mode"@.len() == 12 && "set_bot_mode"@[0] == 's',
        "force_advance"@.len() == 13 && "force_advance"@[0] == 'f',
        "seat_students"@.len() == 13 && "seat_students"@[0] == 's',
        "set_seat_policy"@.len() == 15,
{
    reveal_strlit("pong");
    reveal_strlit("boot");
    reveal_strlit("undo");
    reveal_strlit("goto_board");
    reveal_strlit("next_board");
    reveal_strlit("prev_board");
    reveal_strlit("add_tables");
    reveal_strlit("pause_bots");
    reveal_strlit("open_boards");
    reveal_strlit("load_boards");
    reveal_strlit("assign_seat");
    reveal_strlit("wait_to_seat");
    reveal_strlit("set_bot_mode");
    reveal_strlit("force_advance");
    reveal_strlit("seat_students");
    reveal_strlit("set_seat_policy");
}

/// A teacher's frames go by their kinds. An answer to a ping does nothing, and a
/// frame of another kind is refused.
pub proof fn law_teacher_frames(s: SessionView, kibitz: Option<usize>, frame: Frame)
    ensures
        ({
            let r = s.teacher_frame(kibitz, frame);
            &&& frame.is_a("pong"@) ==> r == (s, None::<ErrorView>)
            &&& frame.is_a("load_boards"@) ==> r == s.load_frame(frame)
            &&& frame.is_a("force_advance"@) ==> r == s.force_frame(frame)
            &&& frame.is_a("seat_students"@) ==> r == (s.students_frame(), None::<ErrorView>)
            &&& frame.is_a("assign_seat"@) || frame.is_a("boot"@) ==> r == s.assign_frame(frame)
            &&& !frame.is_a("pong"@) && !frame.is_a("load_boards"@) && !frame.is_a(
                "force_advance"@,
            ) && !frame.is_a("seat_students"@) && !frame.is_a("assign_seat"@) && !frame.is_a(
                "boot"@,
            ) && !frame.is_a("open_boards"@) && !frame.is_a("goto_board"@) && !frame.is_a(
                "next_board"@,
            ) && !frame.is_a("prev_board"@) && !frame.is_a("wait_to_seat"@) && !frame.is_a(
                "add_tables"@,
            ) && !frame.is_a("set_seat_policy"@) && !frame.is_a("set_bot_mode"@) && !frame.is_a(
                "pause_bots"@,
            ) && !frame.is_a("undo"@) ==> r.0 == s && (r.1 matches Some(e) && e.code == "unknown"@)
        }),
{
    lemma_kinds_differ();
}

/// Where a teacher's frame takes the tables: to the board that it counts from
/// one, or to the next or the one before, never past the first or the last. All
/// tables are then on that board. Without boards there is nowhere to go.
pub proof fn law_teacher_turns_boards(s: SessionView, kibitz: Option<usize>, frame: Frame, i: int)
    requires
        s.boards.len() <= usize::MAX,
        s.index < s.boards.len() || s.boards.len() == 0,
        frame.index matches Some(n) ==> n <= usize::MAX,
        0 <= i < s.rooms.len(),
    ensures
        ({
            let (after, error) = s.teacher_frame(kibitz, frame);
            let goto = frame.is_a("goto_board"@) && frame.index is Some;
            let turns = goto || frame.is_a("next_board"@) || frame.is_a("prev_board"@);
            &&& turns ==> (error is None <==> s.boards.len() > 0)
            &&& turns && error is Some ==> error->0.code == "no_set"@
            &&& frame.is_a("goto_board"@) && frame.index is None ==> (error matches Some(e)
                && e.code == "bad_index"@)
            &&& turns && error is None ==> after.rooms[i].state.board_index == after.index
                && after.rooms[i].state.table.board == s.boards[after.index as int]
                && after.rooms[i].state.table.log.len() == 0
            &&& goto && error is None && 1 <= frame.index->0 <= s.boards.len() ==> after.index + 1
                == frame.index->0
            &&& goto && error is None && frame.index->0 == 0 ==> after.index == 0
            &&& goto && error is None && frame.index->0 > s.boards.len() ==> after.index + 1
                == s.boards.len()
            &&& frame.is_a("next_board"@) && error is None ==> after.index == (if s.index + 1
                < s.boards.len() {
                s.index + 1
            } else {
                s.index as int
            })
            &&& frame.is_a("prev_board"@) && error is None ==> after.index == (if s.index > 0 {
                s.index - 1
            } else {
                0
            })
        }),
{
    lemma_kinds_differ();
    if s.boards.len() > 0 {
        law_lockstep(s, s.index + 1, i);
        law_lockstep(
            s,
            if s.index == 0 {
                0
            } else {
                s.index - 1
            },
            i,
        );
        if let Some(n) = frame.index {
            law_lockstep(
                s,
                if n == 0 {
                    0
                } else {
                    n - 1
                },
                i,
            );
        }
    }
}

/// A set that is loaded takes every table to its first board, under its label and
/// in the mode that the frame names, if it does. A set that cannot be read, or is
/// not there, is refused.
pub proof fn law_teacher_loads(s: SessionView, frame: Frame, i: int)
    requires
        frame.countable(),
        set_of(frame.boards) is Ok ==> 0 < set_of(frame.boards)->Ok_0.len() <= usize::MAX,
        0 <= i < s.rooms.len(),
    ensures
        ({
            let (after, error) = s.load_frame(frame);
            &&& error is None <==> frame.boards_pbn is Some && set_of(frame.boards) is Ok
            &&& error matches Some(e) ==> e.code == "bad_pbn"@ && after == s
            &&& error is None ==> {
                &&& after.boards == set_of(frame.boards)->Ok_0 && after.label == id_view(frame.label)
                &&& after.rooms[i].state.table.board == after.boards[0]
                &&& after.rooms[i].state.table.log.len() == 0
                &&& after.index == 0 && after.open_boards == after.boards.len()
                &&& frame.mode is None ==> after.board_mode == s.board_mode
                &&& text_view(frame.mode) == Some("bid_only"@) ==> after.board_mode
                    == BoardMode::BidOnly && after.rooms[i].state.board_mode == BoardMode::BidOnly
                &&& text_view(frame.mode) == Some("play_only"@) ==> after.board_mode
                    == BoardMode::PlayOnly && after.rooms[i].state.board_mode == BoardMode::PlayOnly
                &&& text_view(frame.mode) == Some("bid_and_play"@) ==> after.board_mode
                    == BoardMode::BidAndPlay
            }
        }),
{
    let mode = match text_view(frame.mode) {
        Some(m) => BoardMode::named(m),
        None => None,
    };
    law_board_mode_names(BoardMode::BidOnly, BoardMode::BidOnly);
    law_board_mode_names(BoardMode::PlayOnly, BoardMode::PlayOnly);
    law_board_mode_names(BoardMode::BidAndPlay, BoardMode::BidAndPlay);
    if let Ok(boards) = set_of(frame.boards) {
        law_load_deals_first_board(s, boards, id_view(frame.label), mode, i);
    }
}

/// A table that the teacher forces on goes to its next board, if it has one, and
/// no other table moves. A table that is not there is said to be unknown.
pub proof fn law_teacher_forces(s: SessionView, frame: Frame, i: int, j: int)
    requires
        s.boards.len() <= usize::MAX,
        0 <= i < s.rooms.len() <= usize::MAX,
        0 <= j < s.rooms.len(),
        frame.table is Some,
        s.rooms[i].id == frame.table->0@,
        forall|k: int| 0 <= k < i ==> (#[trigger] s.rooms[k]).id != frame.table->0@,
    ensures
        ({
            let (after, error) = s.force_frame(frame);
            let index = s.rooms[i].state.board_index;
            &&& error is None <==> index + 1 < s.boards.len()
            &&& error is None ==> after.rooms[i].state.board_index == index + 1
                && after.rooms[i].state.table.board == s.boards[index + 1]
            &&& error is None && j != i ==> after.rooms[j] == s.rooms[j]
            &&& error matches Some(e) ==> e.code == "rejected"@
        }),
        ({
            let lost = s.force_frame(Frame { table: None, ..frame });
            lost.0 == s && (lost.1 matches Some(e) && e.code == "bad_table"@)
        }),
{
    law_table_found(s.rooms, frame.table->0@, 0, i);
    law_teacher_set_waits(s, i);
    if s.may_advance(i, true) {
        law_advance(s, i, true, j, Direction::North);
    }
}

/// The switches of a session: newcomers wait only while that is on, and bots are
/// paused unless the frame says that they are not. A policy and the bots go by
/// their names; tables are added one at least and twenty at most. Each is told in
/// the lobby.
pub proof fn law_teacher_switches(s: SessionView, kibitz: Option<usize>, frame: Frame)
    requires
        s.wf(),
        s.rooms.len() + 20 <= usize::MAX,
    ensures
        ({
            let (after, error) = s.teacher_frame(kibitz, frame);
            &&& frame.is_a("wait_to_seat"@) ==> error is None && after.outbox == s.outbox.push(
                Notice::Lobby,
            ) && (after.wait_to_seat <==> frame.on == Some(true)) && after.rooms == s.rooms
            &&& frame.is_a("pause_bots"@) ==> error is None && after.outbox.last() == Notice::Lobby
                && (after.bots_paused <==> frame.on != Some(false)) && after.rooms == s.rooms
            &&& frame.is_a("set_seat_policy"@) ==> (error is None <==> (text_view(
                frame.policy,
            ) matches Some(key) && PolicyView::named(key) is Some))
            &&& frame.is_a("set_seat_policy"@) && error is None ==> Some(after.policy)
                == PolicyView::named(frame.policy->0@) && after.rooms == s.rooms && after.outbox
                == s.outbox.push(Notice::Lobby)
            &&& frame.is_a("set_seat_policy"@) && error is Some ==> error->0.code == "bad_policy"@
            &&& frame.is_a("set_bot_mode"@) ==> (error is None <==> (text_view(
                frame.mode,
            ) matches Some(name) && BotMode::named(name) is Some))
            &&& frame.is_a("set_bot_mode"@) && error is None ==> after.bot_mode.name()
                == frame.mode->0@
            &&& frame.is_a("set_bot_mode"@) && error is Some ==> error->0.code == "bad_mode"@
            &&& frame.is_a("add_tables"@) ==> error is None && after.rooms.len() > s.rooms.len()
                && after.rooms.len() <= s.rooms.len() + 20
            &&& frame.is_a("add_tables"@) && (frame.count matches Some(n) && 1 <= n <= 20)
                ==> after.rooms.len() == s.rooms.len() + frame.count->0
            &&& frame.is_a("add_tables"@) && frame.count is None ==> after.rooms.len()
                == s.rooms.len() + 1
        }),
{
    lemma_kinds_differ();
    lemma_wf_added_many(s, SessionView::tables_asked(frame));
}

/// A teacher undoes at the table that they watch, and at no other; who watches
/// none is told so.
#[verifier::spinoff_prover]
pub proof fn law_teacher_undoes(s: SessionView, i: usize, frame: Frame, j: int)
    requires
        frame.is_a("undo"@),
        i < s.rooms.len() <= usize::MAX,
        0 <= j < s.rooms.len(),
        s.rooms[i as int].state.table.log.len() <= usize::MAX,
    ensures
        ({
            let (after, error) = s.teacher_frame(Some(i), frame);
            let log = s.rooms[i as int].state.table.log;
            &&& error is None <==> frame.to_seq is Some && frame.to_seq->0 <= log.len()
            &&& error is None ==> after.rooms[i as int].state.table.log == log.subrange(
                0,
                frame.to_seq->0 as int,
            )
            &&& j != i ==> after.rooms[j] == s.rooms[j]
        }),
        s.teacher_frame(None, frame).0 == s,
        s.teacher_frame(None, frame).1 matches Some(e) && e.code == "no_table"@,
{
    lemma_kinds_differ();
    law_undo(s.rooms[i as int], i, true, frame);
    law_play_keeps_the_room(s.rooms[i as int], i, true, None, frame, 0);
}

proof fn lemma_opening(n: int, open: usize, total: usize, i: int)
    requires
        0 <= i < n,
    ensures
        opening(n, open, total).len() == n,
        opening(n, open, total)[i] == (Notice::Event {
            table: i as usize,
            event: Event::BoardsOpen { open, total },
        }),
    decreases n,
{
    if i < n - 1 {
        lemma_opening(n - 1, open, total, i);
    } else if n > 1 {
        lemma_opening(n - 1, open, total, 0);
    } else {
        assert(opening(0, open, total).len() == 0);
    }
}

/// Of the first `n` tables those that may go on have gone on, and no other table
/// has moved.
proof fn lemma_ready_went_on(s: SessionView, n: int, i: int)
    requires
        0 <= n <= s.rooms.len() <= usize::MAX,
        0 <= i < s.rooms.len(),
        s.boards.len() <= usize::MAX,
    ensures
        ({
            let after = s.ready_advanced(n);
            &&& after.rooms.len() == s.rooms.len() && after.boards == s.boards
            &&& after.open_boards == s.open_boards && after.kind == s.kind
            &&& i >= n || !s.may_advance(i, false) ==> after.rooms[i] == s.rooms[i]
            &&& i < n && s.may_advance(i, false) ==> after.rooms[i].state.board_index
                == s.rooms[i].state.board_index + 1
            &&& after.outbox.len() >= s.outbox.len()
            &&& after.outbox.subrange(0, s.outbox.len() as int) == s.outbox
        }),
    decreases n,
{
    if n > 0 {
        lemma_ready_went_on(s, n - 1, i);
        lemma_ready_went_on(s, n - 1, n - 1);
        let t = s.ready_advanced(n - 1);
        let after = s.ready_advanced(n);
        assert(t.may_advance(n - 1, false) == s.may_advance(n - 1, false));
        if t.may_advance(n - 1, false) {
            law_advance(t, n - 1, false, i, Direction::North);
            assert(after.outbox.subrange(0, t.outbox.len() as int) =~= t.outbox);
            assert(after.outbox.subrange(0, s.outbox.len() as int) =~= t.outbox.subrange(
                0,
                s.outbox.len() as int,
            ));
        }
    } else {
        assert(s.outbox.subrange(0, s.outbox.len() as int) =~= s.outbox);
    }
}

/// When boards are opened every table is told how many are open, and of how many;
/// then those tables whose people are ready go on, and no others; and the lobby is
/// told last. As many boards are open as were asked for, none is closed, and there
/// are never more than there are.
pub proof fn law_boards_opened(s: SessionView, count: usize, i: int)
    requires
        s.boards.len() <= usize::MAX,
        s.open_boards <= s.boards.len(),
        0 <= i < s.rooms.len() <= usize::MAX,
    ensures
        ({
            let after = s.boards_opened(count);
            let open = after.open_boards;
            let n = s.outbox.len() as int;
            let told = SessionView { open_boards: open, ..s };
            &&& open >= s.open_boards && open <= s.boards.len()
            &&& s.open_boards <= count <= s.boards.len() ==> open == count
            &&& count > s.boards.len() ==> open == s.boards.len()
            &&& count < s.open_boards ==> open == s.open_boards
            &&& after.outbox[n + i] == (Notice::Event {
                table: i as usize,
                event: Event::BoardsOpen { open, total: s.boards.len() as usize },
            })
            &&& after.outbox.last() == Notice::Lobby
            &&& told.may_advance(i, false) ==> after.rooms[i].state.board_index
                == s.rooms[i].state.board_index + 1
            &&& !told.may_advance(i, false) ==> after.rooms[i] == s.rooms[i]
        }),
{
    let open = s.opened(count);
    let total = s.boards.len() as usize;
    let rooms = s.rooms.len() as int;
    let told = SessionView {
        open_boards: open,
        outbox: s.outbox + opening(rooms, open, total),
        ..s
    };
    lemma_opening(rooms, open, total, i);
    lemma_ready_went_on(told, rooms, i);
    let bare = SessionView { open_boards: open, ..s };
    assert(told.may_advance(i, false) == bare.may_advance(i, false));
    let moved = told.ready_advanced(rooms);
    let n = s.outbox.len() as int;
    assert(moved.outbox[n + i] == moved.outbox.subrange(0, told.outbox.len() as int)[n + i]);
}

/// An open_boards frame opens as many boards as it says, and must say how many.
pub proof fn law_teacher_opens(s: SessionView, kibitz: Option<usize>, frame: Frame)
    requires
        frame.is_a("open_boards"@),
        frame.count matches Some(n) ==> n <= usize::MAX,
    ensures
        ({
            let (after, error) = s.teacher_frame(kibitz, frame);
            &&& frame.count matches Some(n) ==> error is None && after == s.boards_opened(
                n as usize,
            )
            &&& frame.count is None ==> after == s && (error matches Some(e) && e.code
                == "bad_count"@)
        }),
{
    lemma_kinds_differ();
}

/// When seats have changed each changed table is told of its seats and has its
/// bots started, in order; then everybody gets the roster, every player looks up
/// their seat, and the lobby is told. Nothing but the notices changes.
pub proof fn law_seat_changes_are_told(s: SessionView, changed: Seq<usize>, k: int)
    requires
        0 <= k < changed.len(),
    ensures
        ({
            let after = s.reseated(changed);
            let n = s.outbox.len() as int;
            let m = after.outbox.len() as int;
            let i = changed[k];
            &&& m == n + 2 * changed.len() + 3
            &&& after.outbox[n + 2 * k] == (Notice::Event {
                table: i,
                event: Event::SeatUpdate { seq: s.rooms[i as int].state.table.log.len() as usize },
            })
            &&& after.outbox[n + 2 * k + 1] == (Notice::Kick { table: i })
            &&& after.outbox[m - 3] == (Notice::Everyone { event: Event::RosterUpdate })
            &&& after.outbox[m - 2] == Notice::Recheck
            &&& after.outbox[m - 1] == Notice::Lobby
            &&& after.rooms == s.rooms
        }),
{
    lemma_seats_changed(s, changed, k);
    lemma_reseated(s, changed);
}

proof fn lemma_seats_changed(s: SessionView, changed: Seq<usize>, k: int)
    requires
        0 <= k < changed.len(),
    ensures
        ({
            let after = s.seats_changed(changed);
            let n = s.outbox.len() as int;
            let i = changed[k];
            &&& after.outbox.len() == n + 2 * changed.len()
            &&& after.outbox[n + 2 * k] == (Notice::Event {
                table: i,
                event: seats_told(s.rooms[i as int].state),
            })
            &&& after.outbox[n + 2 * k + 1] == (Notice::Kick { table: i })
        }),
    decreases changed.len(),
{
    let head = changed.drop_last();
    if head.len() > 0 {
        let at = if k < head.len() {
            k
        } else {
            0int
        };
        lemma_seats_changed(s, head, at);
        assert(k < head.len() ==> head[k] == changed[k]);
    } else {
        assert(s.seats_changed(head) == s);
    }
}

/// A seat that is vacated for a bot is empty, and a bot is there; the other seats
/// are as they were.
proof fn lemma_bot_put(s: SessionView, i: int, seat: Direction, e: Direction)
    requires
        0 <= i < s.rooms.len(),
    ensures
        ({
            let after = s.seat_vacated(i, seat, true);
            let state = after.rooms[i].state;
            &&& after.rooms.len() == s.rooms.len()
            &&& state.seats.get(seat) is None
            &&& state.bots.has(seat) && !state.no_bot.has(seat)
            &&& e != seat ==> state.seats.get(e) == s.rooms[i].state.seats.get(e)
        }),
{
    let state = s.rooms[i].state;
    law_seat_set(state.bots, seat, seat, true);
    law_seat_set(state.no_bot, seat, seat, false);
    law_seats(state.seats, seat, e, None);
}

/// A boot frame, or an assign_seat frame that names nobody, empties its seat and
/// puts a bot there; whoever else sits at the table stays. The seat goes by its
/// letter, the table by its id.
pub proof fn law_teacher_boots(s: SessionView, frame: Frame, i: int, seat: Direction, e: Direction)
    requires
        frame.is_a("boot"@) || frame.sub is None,
        0 <= i < s.rooms.len() <= usize::MAX,
        frame.table is Some,
        s.rooms[i].id == frame.table->0@,
        forall|k: int| 0 <= k < i ==> (#[trigger] s.rooms[k]).id != frame.table->0@,
        seat_in(text_view(frame.seat)) == Some(seat),
    ensures
        ({
            let (after, error) = s.assign_frame(frame);
            &&& error is None
            &&& after.rooms[i].state.seats.get(seat) is None
            &&& after.rooms[i].state.bots.has(seat) && !after.rooms[i].state.no_bot.has(seat)
            &&& e != seat ==> after.rooms[i].state.seats.get(e) == s.rooms[i].state.seats.get(e)
            &&& after.outbox.last() == Notice::Lobby
        }),
{
    let id = frame.table->0@;
    law_table_found(s.rooms, id, 0, i);
    lemma_bot_put(s, i, seat, e);
    assert(s.assign_frame(frame) == s.booted(id, seat)) by {
        reveal(SessionView::assign_frame);
    }
    let t = s.seat_vacated(i, seat, true);
    let changed: Seq<usize> = if s.vacating_changes(i, seat, true) {
        seq![i as usize]
    } else {
        seq![]
    };
    lemma_reseated(t, changed);
    assert(s.booted(id, seat) == (t.reseated(changed), None::<ErrorView>));
}

/// An assign_seat or boot frame must name a table and a seat.
pub proof fn law_assigning_needs_a_place(s: SessionView, frame: Frame)
    ensures
        frame.table is None ==> (s.assign_frame(frame).1 matches Some(x) && x.code
            == "bad_table"@),
        frame.table is Some && seat_in(text_view(frame.seat)) is None ==> (s.assign_frame(
            frame,
        ).1 matches Some(x) && x.code == "bad_seat"@),
{
    reveal(SessionView::assign_frame);
}

impl SessionView {
    /// The table that a kibitz frame asks for, or what is wrong with it.
    pub open spec fn kibitz_choice(self, frame: Frame) -> Result<int, ErrorView> {
        match text_view(frame.table) {
            None => Err(ErrorView { code: "bad_table"@, msg: "kibitz.table missing"@ }),
            Some(id) => if room_from(self.rooms, id, 0) < self.rooms.len() {
                Ok(room_from(self.rooms, id, 0))
            } else {
                Err(ErrorView { code: "bad_table"@, msg: "unknown table"@ })
            },
        }
    }
}

/// A teacher watches the table whose id the frame gives; no other table, and none
/// if there is no such table or the frame gives no id.
pub proof fn law_kibitz(s: SessionView, frame: Frame, i: int)
    ensures
        s.kibitz_choice(frame) matches Ok(k) ==> 0 <= k < s.rooms.len() && Some(s.rooms[k].id)
            == text_view(frame.table),
        0 <= i < s.rooms.len() && text_view(frame.table) == Some(s.rooms[i].id)
            ==> s.kibitz_choice(frame) is Ok,
        frame.table is None ==> s.kibitz_choice(frame) is Err,
        s.kibitz_choice(frame) matches Err(e) ==> e.code == "bad_table"@,
{
    if let Some(id) = text_view(frame.table) {
        crate::sessions::placing::lemma_room_from(s.rooms, id, 0);
        if 0 <= i < s.rooms.len() && s.rooms[i].id == id {
            lemma_room_is_found(s.rooms, id, 0, i);
        }
    }
}

proof fn lemma_room_is_found(rooms: Seq<RoomView>, id: Seq<char>, from: int, i: int)
    requires
        0 <= from <= i < rooms.len(),
        rooms[i].id == id,
    ensures
        room_from(rooms, id, from) <= i,
    decreases i - from,
{
    if from < i {
        lemma_room_is_found(rooms, id, from + 1, i);
    }
}

} // verus!
