//! A connection's life at a session: it joins, is moved, and leaves.
//!
//! A player's `welcome` can arrive again mid-connection: when the teacher
//! reseats them (assign_seat/boot) their connection re-resolves its table
//! and seat and announces the new binding with a fresh welcome + snapshot.

use vstd::prelude::*;

use crate::cards::Direction;
use crate::directory::{law_directory, lookup, unique_keys, with_entry, without_key};
use crate::events::{Event, Notice};
use crate::rooms::{
    fresh_occupant, law_come_back, law_drop_shows, law_seat_of, BotMode, RoomView,
};
use crate::routes::ws::{seats_event, seats_told};
use crate::sessions::lobby::{entry_of, law_connected_are_listed, roster_of};
use crate::sessions::placing::{law_placed, Placement};
use crate::sessions::{
    ghost_from, kept, law_one_connection_each, lemma_seat_from, lemma_wf_people,
    lemma_wf_same_rooms, seat_from, ConnView, Session, SessionKind, SessionView,
};

verus! {

impl SessionView {
    /// Somebody's connection is known under a token, in place of any other of
    /// theirs.
    pub open spec fn connected(self, token: Seq<char>, sub: Seq<char>, name: Seq<char>) -> SessionView {
        SessionView {
            connections: with_entry(
                kept(self.connections, Some(token), sub),
                token,
                ConnView { sub, name, connected: true },
            ),
            ..self
        }
    }

    /// A token's connection has dropped.
    pub open spec fn conn_dropped(self, token: Seq<char>) -> SessionView {
        SessionView {
            connections: match lookup(self.connections, token) {
                Some(m) => with_entry(
                    self.connections,
                    token,
                    ConnView { connected: false, ..m },
                ),
                None => self.connections,
            },
            ..self
        }
    }

    /// A table's bots are switched, if asked.
    pub open spec fn bots_switched(self, i: int, mode: Option<BotMode>) -> SessionView {
        match mode {
            Some(mode) => self.with_room(i, RoomView { bot_mode: mode, ..self.rooms[i] }),
            None => self,
        }
    }

    /// Everybody gets the roster, and the lobby is refreshed.
    pub open spec fn roster_told(self) -> SessionView {
        self.post(Notice::Everyone { event: Event::RosterUpdate }).post(Notice::Lobby)
    }

    /// The table is told how its seats are, everybody gets the roster, and the
    /// table's bots are set going.
    pub open spec fn arrival_told(self, i: int) -> SessionView {
        self.post(
            Notice::Event { table: i as usize, event: seats_told(self.rooms[i].state) },
        ).roster_told().post(Notice::Keepalive { table: i as usize }).post(
            Notice::Kick { table: i as usize },
        )
    }

    /// A player joins: they are placed, in the seat that they ask for if they may
    /// have it, and their connection is known.
    pub open spec fn joined(
        self,
        token: Seq<char>,
        sub: Seq<char>,
        name: Seq<char>,
        requested: Option<Direction>,
        mode: Option<BotMode>,
    ) -> (SessionView, int, Option<Direction>) {
        let (s, i, seat) = self.connected(token, sub, name).placed(sub, name, requested);
        (s.bots_switched(i, mode).arrival_told(i), i, seat)
    }

    /// A player's socket is gone. A seated player keeps their seat (a reconnect
    /// rebinds it; bots take over after the grace period); a kibitzer is simply
    /// forgotten.
    pub open spec fn left(self, i: int, token: Seq<char>, sub: Seq<char>, now: u64) -> SessionView {
        (if seat_from(self.rooms, sub, 0) is Some {
            let room = RoomView {
                state: self.rooms[i].state.disconnected(sub, now),
                ..self.rooms[i]
            };
            self.conn_dropped(token).with_room(i, room).post(
                Notice::Event { table: i as usize, event: seats_told(room.state) },
            )
        } else {
            SessionView {
                kibitzers: without_key(self.kibitzers, sub),
                connections: without_key(self.connections, token),
                ..self
            }
        }).roster_told()
    }

    /// Somebody who holds a seat is back in it, and its table is told.
    pub open spec fn back_in_seat(self, sub: Seq<char>, name: Seq<char>) -> SessionView {
        match seat_from(self.rooms, sub, 0) {
            Some((i, seat)) => {
                let s = self.rebound(i, seat, name);
                s.post(Notice::Event { table: i as usize, event: seats_told(s.rooms[i].state) })
            },
            None => self,
        }
    }

    /// A teacher joins: their connection is known, and if they hold a seat they
    /// are back in it, but no policy seats them. Their choice of bots goes to
    /// every table (and future ones), and every table's watchdog is set going.
    pub open spec fn teacher_joined(
        self,
        token: Seq<char>,
        sub: Seq<char>,
        name: Seq<char>,
        mode: Option<BotMode>,
    ) -> SessionView {
        let s = self.connected(token, sub, name).back_in_seat(sub, name);
        (match mode {
            Some(mode) => s.bot_mode_set(mode),
            None => s,
        }).watched(self.rooms.len() as int).roster_told()
    }

    /// A teacher's socket is gone: as a player's, at the table where they sit, if
    /// they do.
    pub open spec fn teacher_left(self, token: Seq<char>, sub: Seq<char>, now: u64) -> SessionView {
        self.left(
            match seat_from(self.rooms, sub, 0) {
                Some((i, _)) => i,
                None => 0,
            },
            token,
            sub,
            now,
        )
    }

    /// Where a connection belongs after seats have changed: its seat, if it has
    /// one, else the table where it was.
    pub open spec fn binding(self, sub: Seq<char>, table: usize) -> (usize, Option<Direction>) {
        match seat_from(self.rooms, sub, 0) {
            Some((i, seat)) => (i as usize, Some(seat)),
            None => (table, None),
        }
    }
}

impl SessionView {
    /// The session once a connection has looked up where it belongs: whoever has
    /// come to a seat waits no longer.
    pub open spec fn looked_up(self, sub: Seq<char>, table: usize, seat: Option<Direction>) -> SessionView {
        let (at, bound) = self.binding(sub, table);
        if bound is Some && (at, bound) != (table, seat) {
            SessionView { kibitzers: without_key(self.kibitzers, sub), ..self }
        } else {
            self
        }
    }
}

/// Looking up where a connection belongs moves nobody. Whoever is found in another
/// seat than before is out of the lobby; whoever has lost their seat is not.
pub proof fn law_looked_up(
    s: SessionView,
    sub: Seq<char>,
    table: usize,
    seat: Option<Direction>,
    other: Seq<char>,
)
    requires
        unique_keys(s.kibitzers),
    ensures
        ({
            let after = s.looked_up(sub, table, seat);
            let (at, bound) = s.binding(sub, table);
            &&& after.rooms == s.rooms && after.connections == s.connections && after.outbox
                == s.outbox
            &&& bound is Some && (at != table || bound != seat) ==> lookup(after.kibitzers, sub) is None
            &&& bound is None ==> after == s
            &&& other != sub ==> lookup(after.kibitzers, other) == lookup(s.kibitzers, other)
        }),
{
    law_directory(s.kibitzers, sub, s.kibitzers[0].1, sub);
    law_directory(s.kibitzers, sub, s.kibitzers[0].1, other);
}

/// Whether a connection was moved.
#[derive(Clone, Copy, Debug, PartialEq, Eq, Structural)]
pub enum Rebind {
    Unchanged,
    Changed,
}

impl Session {
    /// Switches a table's bots, if asked.
    fn switch_bots(&mut self, i: usize, mode: Option<BotMode>)
        requires
            old(self).wf(),
            i < old(self)@.rooms.len(),
        ensures
            final(self).wf(),
            final(self)@ == old(self)@.bots_switched(i as int, mode),
    {
        if let Some(mode) = mode {
            let ghost before = self@;
            assert(before.rooms[i as int] == self.rooms@[i as int]@);
            self.rooms[i].set_bot_mode(mode);
            proof {
                let room = RoomView { bot_mode: mode, ..before.rooms[i as int] };
                assert(self@.rooms =~= before.rooms.update(i as int, room));
                assert(self@ =~= before.with_room(i as int, room));
                lemma_wf_people(before, i as int, room);
            }
        }
    }

    /// Gives everybody the roster, and refreshes the lobby.
    fn tell_roster(&mut self)
        requires
            old(self).wf(),
        ensures
            final(self).wf(),
            final(self)@ == old(self)@.roster_told(),
    {
        let ghost before = self@;
        self.post(Notice::Everyone { event: Event::RosterUpdate });
        self.notify_lobby();
        proof {
            lemma_wf_same_rooms(before, self@);
        }
    }

    /// A player joins under a connection token. `requested` is the seat that
    /// their hello asks for. Returns their table and, unless they watch, their
    /// seat.
    pub fn join(
        &mut self,
        token: &str,
        sub: &str,
        name: &str,
        requested: Option<Direction>,
        mode: Option<BotMode>,
    ) -> (r: Placement)
        requires
            old(self).wf(),
            old(self)@.rooms.len() < usize::MAX,
        ensures
            final(self).wf(),
            ({
                let (after, i, seat) = old(self)@.joined(token@, sub@, name@, requested, mode);
                final(self)@ == after && r.table == i && r.seat == seat && i < after.rooms.len()
            }),
    {
        self.register_conn(token, sub, name);
        let r = self.place_seat(sub, name, requested);
        let i: usize = r.table;
        self.switch_bots(i, mode);
        let ghost before = self@;
        assert(before.rooms[i as int] == self.rooms@[i as int]@);
        let event = seats_event(&self.rooms[i].state);
        self.post(Notice::Event { table: i, event });
        self.post(Notice::Everyone { event: Event::RosterUpdate });
        self.notify_lobby();
        self.post(Notice::Keepalive { table: i });
        self.post(Notice::Kick { table: i });
        proof {
            lemma_wf_same_rooms(before, self@);
        }
        r
    }

    /// A player's socket at table `i` is gone.
    pub fn leave(&mut self, i: usize, token: &str, sub: &str, now: u64)
        requires
            old(self).wf(),
            i < old(self)@.rooms.len(),
        ensures
            final(self).wf(),
            final(self)@ == old(self)@.left(i as int, token@, sub@, now),
    {
        if self.find_seated(sub).is_some() {
            self.mark_conn_disconnected(token);
            let ghost before = self@;
            assert(before.rooms[i as int] == self.rooms@[i as int]@);
            self.rooms[i].state.mark_disconnected(sub, now);
            let event = seats_event(&self.rooms[i].state);
            proof {
                let room = RoomView {
                    state: before.rooms[i as int].state.disconnected(sub@, now),
                    ..before.rooms[i as int]
                };
                assert(self@.rooms =~= before.rooms.update(i as int, room));
                assert(self@ =~= before.with_room(i as int, room));
                lemma_wf_people(before, i as int, room);
            }
            let ghost marked = self@;
            self.post(Notice::Event { table: i, event });
            proof {
                lemma_wf_same_rooms(marked, self@);
            }
        } else {
            self.remove_kibitzer(sub);
            self.remove_conn(token);
        }
        self.tell_roster();
    }

    /// A teacher's socket is gone.
    pub fn leave_teacher(&mut self, token: &str, sub: &str, now: u64)
        requires
            old(self).wf(),
        ensures
            final(self).wf(),
            final(self)@ == old(self)@.teacher_left(token@, sub@, now),
    {
        match self.find_seated(sub) {
            Some((i, _)) => {
                self.leave(i, token, sub, now);
            },
            None => {
                self.remove_kibitzer(sub);
                self.remove_conn(token);
                self.tell_roster();
            },
        }
    }

    /// Somebody who holds a seat is back in it.
    fn take_back_seat(&mut self, sub: &str, name: &str)
        requires
            old(self).wf(),
        ensures
            final(self).wf(),
            final(self)@ == old(self)@.back_in_seat(sub@, name@),
    {
        if let Some((i, seat)) = self.find_seated(sub) {
            proof {
                lemma_seat_from(self@.rooms, sub@, 0);
            }
            self.rebind_at(i, seat, name);
            let ghost bound = self@;
            assert(bound.rooms[i as int] == self.rooms@[i as int]@);
            let event = seats_event(&self.rooms[i].state);
            self.post(Notice::Event { table: i, event });
            proof {
                lemma_wf_same_rooms(bound, self@);
            }
        }
    }

    /// Re-resolve a connection's table/seat after seats have changed. Booted
    /// players become kibitzers of the table they were removed from.
    pub fn resolve_binding(
        &mut self,
        sub: &str,
        table: &mut usize,
        seat: &mut Option<Direction>,
    ) -> (r: Rebind)
        requires
            old(self).wf(),
            *old(table) < old(self)@.rooms.len(),
        ensures
            final(self).wf(),
            (*final(table), *final(seat)) == old(self)@.binding(sub@, *old(table)),
            *final(table) < final(self)@.rooms.len(),
            r == (if (*final(table), *final(seat)) == (*old(table), *old(seat)) {
                Rebind::Unchanged
            } else {
                Rebind::Changed
            }),
            final(self)@ == (if r == Rebind::Changed && *final(seat) is Some {
                SessionView {
                    kibitzers: without_key(old(self)@.kibitzers, sub@),
                    ..old(self)@
                }
            } else {
                old(self)@
            }),
            final(self)@ == old(self)@.looked_up(sub@, *old(table), *old(seat)),
    {
        match self.find_seated(sub) {
            Some((i, s)) => {
                if i == *table && *seat == Some(s) {
                    return Rebind::Unchanged;
                }
                *table = i;
                *seat = Some(s);
                self.remove_kibitzer(sub);
                Rebind::Changed
            },
            None => {
                if seat.is_none() {
                    return Rebind::Unchanged;  // still the same lobby member
                }
                // Booted: already parked in the lobby watching this table; the
                // seat view is dropped, the table stays.
                *seat = None;
                Rebind::Changed
            },
        }
    }

    /// A teacher joins under a connection token, so that the roster lists them
    /// and they can be seated by it. No policy seats them. Their choice of bots
    /// goes to every table (and future ones), and every table's watchdog is set
    /// going.
    pub fn join_teacher(&mut self, token: &str, sub: &str, name: &str, mode: Option<BotMode>)
        requires
            old(self).wf(),
        ensures
            final(self).wf(),
            final(self)@ == old(self)@.teacher_joined(token@, sub@, name@, mode),
    {
        self.register_conn(token, sub, name);
        self.take_back_seat(sub, name);
        if let Some(mode) = mode {
            self.set_bot_mode(mode);
        }
        let ghost before = self@;
        let n: usize = self.rooms.len();
        assert(n == before.rooms.len());
        let mut i: usize = 0;
        while i < n
            invariant
                i <= n,
                self@ == before.watched(i as int),
            decreases n - i,
        {
            self.post(Notice::Keepalive { table: i });
            i = i + 1;
        }
        proof {
            lemma_watched(before, n as int);
            lemma_wf_same_rooms(before, self@);
        }
        self.tell_roster();
    }
}

impl SessionView {
    /// The watchdogs of the first `n` tables are set going.
    pub open spec fn watched(self, n: int) -> SessionView
        decreases n,
    {
        if n <= 0 {
            self
        } else {
            self.watched(n - 1).post(Notice::Keepalive { table: (n - 1) as usize })
        }
    }
}

/// Setting watchdogs going posts notices and does nothing else.
proof fn lemma_watched(s: SessionView, n: int)
    ensures
        s.watched(n) == (SessionView { outbox: s.watched(n).outbox, ..s }),
    decreases n,
{
    if n > 0 {
        lemma_watched(s, n - 1);
    }
}

/// A player who joins a table whose host seats people by hand, and whom the
/// session does not know, gets the seat that they ask for if it is free.
pub proof fn law_invited_to_a_seat(
    s: SessionView,
    token: Seq<char>,
    sub: Seq<char>,
    name: Seq<char>,
    seat: Direction,
    mode: Option<BotMode>,
)
    requires
        s.policy is Manual,
        !(s.kind == SessionKind::Adhoc && sub == s.owner_sub),
        seat_from(s.rooms, sub, 0) is None,
        lookup(s.kibitzers, sub) is None,
        ghost_from(s.rooms, name, 0) is None,
        s.sitter(0, seat) is None,
    ensures
        ({
            let (after, i, given) = s.joined(token, sub, name, Some(seat), mode);
            &&& i == 0 && given == Some(seat)
            &&& after.sitter(0, seat) == Some(fresh_occupant(sub, name))
        }),
{
    let c = s.connected(token, sub, name);
    let w = c.watching();
    if s.rooms.len() == 0 {
        assert(w.rooms[0] == c.new_room());
    }
    assert(w.rooms[0].state.seats.get(seat) is None);
    assert(c.placed(sub, name, Some(seat)).0 == w.seated(0, seat, sub, name));
}

/// A teacher who has joined is on the roster, whether they sit or not, and can be
/// seated anywhere by their own token.
pub proof fn law_host_can_sit(
    s: SessionView,
    token: Seq<char>,
    sub: Seq<char>,
    name: Seq<char>,
    mode: Option<BotMode>,
    i: int,
    seat: Direction,
)
    requires
        unique_keys(s.connections),
        0 <= i < s.rooms.len(),
    ensures
        ({
            let after = s.teacher_joined(token, sub, name, mode);
            let me = ConnView { sub, name, connected: true };
            let sat = after.assigned_at(i, Some(seat), None, Some(token), false);
            &&& lookup(after.connections, token) == Some(me)
            &&& roster_of(after).contains(entry_of(after.rooms, token, me))
            &&& sat matches Ok((t, _)) && t.rooms[i].state.seats.held_by(seat, sub)
        }),
{
    let me = ConnView { sub, name, connected: true };
    let c = s.connected(token, sub, name);
    let b = c.back_in_seat(sub, name);
    let m = match mode {
        Some(mode) => b.bot_mode_set(mode),
        None => b,
    };
    let after = s.teacher_joined(token, sub, name, mode);
    law_one_connection_each(s.connections, token, sub, name, 0);
    lemma_seat_from(c.rooms, sub, 0);
    lemma_watched(m, s.rooms.len() as int);
    assert(after.connections == c.connections);
    law_connected_are_listed(after, token, me);
    assert(after.rooms.len() == s.rooms.len());
}

/// A player who drops and returns is where they were: their seat is theirs all
/// along, and they are bound to it again.
pub proof fn law_dropping_keeps_the_seat(
    s: SessionView,
    i: int,
    token: Seq<char>,
    sub: Seq<char>,
    now: u64,
)
    requires
        0 <= i < s.rooms.len(),
        seat_from(s.rooms, sub, 0) is Some,
    ensures
        seat_from(s.left(i, token, sub, now).rooms, sub, 0) == seat_from(s.rooms, sub, 0),
        s.left(i, token, sub, now).binding(sub, i as usize) == s.binding(sub, i as usize),
{
    lemma_left_from(s, i, token, sub, now, 0);
}

/// Somebody who drops is found in the same seat, at or after any table.
proof fn lemma_left_from(
    s: SessionView,
    i: int,
    token: Seq<char>,
    sub: Seq<char>,
    now: u64,
    from: int,
)
    requires
        0 <= i < s.rooms.len(),
        0 <= from <= s.rooms.len(),
        seat_from(s.rooms, sub, 0) is Some,
    ensures
        seat_from(s.left(i, token, sub, now).rooms, sub, from) == seat_from(s.rooms, sub, from),
    decreases s.rooms.len() - from,
{
    if from < s.rooms.len() {
        lemma_left_from(s, i, token, sub, now, from + 1);
        let d = s.rooms[from].state.disconnected(sub, now);
        assert(forall|seat: Direction|
            #![trigger d.seats.held_by(seat, sub)]
            d.seats.held_by(seat, sub) == s.rooms[from].state.seats.held_by(seat, sub));
        assert(d.seats.seat_of(sub) == s.rooms[from].state.seats.seat_of(sub));
    }
}

/// A connection that joins is known under its token as connected, whoever held
/// the token before. One that drops stays known, as disconnected, and no other
/// token is touched.
pub proof fn law_connections(
    s: SessionView,
    token: Seq<char>,
    sub: Seq<char>,
    name: Seq<char>,
    other: Seq<char>,
)
    requires
        unique_keys(s.connections),
    ensures
        lookup(s.connected(token, sub, name).connections, token) == Some(
            ConnView { sub, name, connected: true },
        ),
        lookup(s.connections, token) matches Some(m) ==> lookup(
            s.conn_dropped(token).connections,
            token,
        ) == Some(ConnView { sub: m.sub, name: m.name, connected: false }),
        lookup(s.connections, token) is None ==> s.conn_dropped(token).connections == s.connections,
        other != token ==> lookup(s.conn_dropped(token).connections, other) == lookup(
            s.connections,
            other,
        ),
{
    law_one_connection_each(s.connections, token, sub, name, 0);
    if let Some(m) = lookup(s.connections, token) {
        law_directory(s.connections, token, ConnView { connected: false, ..m }, token);
        law_directory(s.connections, token, ConnView { connected: false, ..m }, other);
    }
}

/// Whoever joins is placed, the table's bots are what they ask for, if they ask,
/// and else what they were. The table is then told of its seats, everybody of the
/// roster, the lobby is refreshed, and the table's watchdog and bots are started,
/// in this order.
pub proof fn law_joining(
    s: SessionView,
    token: Seq<char>,
    sub: Seq<char>,
    name: Seq<char>,
    requested: Option<Direction>,
    mode: Option<BotMode>,
)
    ensures
        ({
            let (after, i, given) = s.joined(token, sub, name, requested, mode);
            let (put, at, there) = s.connected(token, sub, name).placed(sub, name, requested);
            let n = put.outbox.len() as int;
            &&& i == at && given == there && 0 <= i < after.rooms.len()
            &&& given matches Some(d) ==> after.rooms[i].state.seats.get(d) == Some(
                fresh_occupant(sub, name),
            )
            &&& after.rooms[i].state == put.rooms[i].state
            &&& mode matches Some(m) ==> after.rooms[i].bot_mode == m
            &&& mode is None ==> after.rooms[i].bot_mode == put.rooms[i].bot_mode
            &&& after.connections == put.connections && after.kibitzers == put.kibitzers
            &&& after.outbox.len() == n + 5
            &&& after.outbox[n] == (Notice::Event {
                table: i as usize,
                event: Event::SeatUpdate { seq: put.rooms[i].state.table.log.len() as usize },
            })
            &&& after.outbox[n + 1] == (Notice::Everyone { event: Event::RosterUpdate })
            &&& after.outbox[n + 2] == Notice::Lobby
            &&& after.outbox[n + 3] == (Notice::Keepalive { table: i as usize })
            &&& after.outbox[n + 4] == (Notice::Kick { table: i as usize })
        }),
{
    let c = s.connected(token, sub, name);
    law_placed(c, sub, name, requested);
    let (put, i, given) = c.placed(sub, name, requested);
    if let Some(d) = given {
        assert(put.sitter(i, d) == put.rooms[i].state.seats.get(d));
    }
}

/// Somebody in a seat who leaves keeps the seat and is seen to be away; nobody
/// else's seat is touched. Somebody without a seat is forgotten: neither the lobby
/// nor any connection knows them. Everybody gets the roster and the lobby is
/// refreshed.
pub proof fn law_leaving(
    s: SessionView,
    i: int,
    token: Seq<char>,
    sub: Seq<char>,
    now: u64,
    seat: Direction,
    j: int,
)
    requires
        unique_keys(s.connections),
        unique_keys(s.kibitzers),
        0 <= i < s.rooms.len() <= usize::MAX,
        0 <= j < s.rooms.len(),
    ensures
        ({
            let after = s.left(i, token, sub, now);
            let seated = seat_from(s.rooms, sub, 0) is Some;
            let n = s.outbox.len() as int;
            let k = if seated {
                n + 1
            } else {
                n
            };
            &&& after.outbox.len() == k + 2
            &&& after.outbox[k] == (Notice::Everyone { event: Event::RosterUpdate })
            &&& after.outbox[k + 1] == Notice::Lobby
            &&& seated ==> {
                &&& after.outbox[n] == (Notice::Event {
                    table: i as usize,
                    event: Event::SeatUpdate { seq: s.rooms[i].state.table.log.len() as usize },
                })
                &&& s.rooms[i].state.seats.held_by(seat, sub) ==> (
                after.rooms[i].state.seats.get(seat) matches Some(o) && o.sub == sub
                    && !o.connected)
                &&& !s.rooms[i].state.seats.held_by(seat, sub) ==> after.rooms[i].state.seats.get(
                    seat,
                ) == s.rooms[i].state.seats.get(seat)
                &&& j != i ==> after.rooms[j] == s.rooms[j]
                &&& after.kibitzers == s.kibitzers
                &&& lookup(s.connections, token) matches Some(m) ==> (lookup(
                    after.connections,
                    token,
                ) matches Some(c) && c.sub == m.sub && !c.connected)
            }
            &&& !seated ==> {
                &&& after.rooms == s.rooms
                &&& lookup(after.kibitzers, sub) is None
                &&& lookup(after.connections, token) is None
            }
        }),
{
    law_connections(s, token, sub, sub, token);
    law_drop_shows(s.rooms[i].state, sub, now, seat);
    law_directory(s.kibitzers, sub, s.kibitzers[0].1, sub);
    law_directory(s.connections, token, s.connections[0].1, token);
}

/// A connection is bound to a seat exactly if its person holds one, and then to
/// one that they hold; else it stays at the table where it was, without a seat.
pub proof fn law_binding(s: SessionView, sub: Seq<char>, table: usize, i: int, seat: Direction)
    requires
        s.rooms.len() <= usize::MAX,
        0 <= i < s.rooms.len(),
    ensures
        ({
            let (at, bound) = s.binding(sub, table);
            &&& bound matches Some(d) ==> at < s.rooms.len() && s.rooms[at as int].state.seats.held_by(
                d,
                sub,
            )
            &&& bound is None ==> at == table && !s.rooms[i].state.seats.held_by(seat, sub)
        }),
{
    lemma_seat_from(s.rooms, sub, 0);
    law_seat_of(s.rooms[i].state.seats, sub);
    assert(s.rooms[i].state.seats.seat_of(sub) is Some || seat_from(s.rooms, sub, 0) is Some
        || !s.rooms[i].state.seats.held_by(seat, sub));
}

/// A teacher who joins without holding a seat is put in none, and nobody else is
/// moved. Every table's watchdog is started; the bots that they ask for are those
/// of every table; everybody gets the roster and the lobby is refreshed.
pub proof fn law_teacher_joining(
    s: SessionView,
    token: Seq<char>,
    sub: Seq<char>,
    name: Seq<char>,
    mode: Option<BotMode>,
    i: int,
    seat: Direction,
)
    requires
        0 <= i < s.rooms.len() <= usize::MAX,
    ensures
        ({
            let after = s.teacher_joined(token, sub, name, mode);
            let n = after.outbox.len() as int;
            &&& after.rooms.len() == s.rooms.len()
            &&& mode matches Some(m) ==> after.rooms[i].bot_mode == m && after.bot_mode == m
            &&& mode is None ==> after.rooms[i].bot_mode == s.rooms[i].bot_mode && after.bot_mode
                == s.bot_mode
            &&& !s.rooms[i].state.seats.held_by(seat, sub) ==> after.rooms[i].state.seats.get(seat)
                == s.rooms[i].state.seats.get(seat)
            &&& seat_from(s.rooms, sub, 0) == Some((i, seat)) ==> (after.rooms[i].state.seats.get(
                seat,
            ) matches Some(o) && o.sub == sub && o.connected)
            &&& after.kibitzers == s.kibitzers
            &&& after.outbox.contains(Notice::Keepalive { table: i as usize })
            &&& after.outbox[n - 2] == (Notice::Everyone { event: Event::RosterUpdate })
            &&& after.outbox[n - 1] == Notice::Lobby
        }),
{
    let c = s.connected(token, sub, name);
    let b = c.back_in_seat(sub, name);
    let m = match mode {
        Some(mode) => b.bot_mode_set(mode),
        None => b,
    };
    lemma_seat_from(c.rooms, sub, 0);
    let after = s.teacher_joined(token, sub, name, mode);
    lemma_watched(m, s.rooms.len() as int);
    lemma_watched_outbox(m, s.rooms.len() as int, i);
    let at = m.outbox.len() + i;
    assert(after.outbox[at] == (Notice::Keepalive { table: i as usize }));
    if let Some((k, d)) = seat_from(c.rooms, sub, 0) {
        law_come_back(c.rooms[k].state, d, name, sub);
    }
}

proof fn lemma_watched_outbox(s: SessionView, n: int, i: int)
    requires
        0 <= i < n,
    ensures
        s.watched(n).outbox.len() == s.outbox.len() + n,
        s.watched(n).outbox[s.outbox.len() + i] == (Notice::Keepalive { table: i as usize }),
    decreases n,
{
    if i < n - 1 {
        lemma_watched_outbox(s, n - 1, i);
    } else if n > 1 {
        lemma_watched_outbox(s, n - 1, 0);
    } else {
        assert(s.watched(0) == s);
    }
}

/// A teacher leaves the table where they sit as a player does; who sits nowhere
/// leaves no table.
pub proof fn law_teacher_leaving(s: SessionView, token: Seq<char>, sub: Seq<char>, now: u64)
    ensures
        seat_from(s.rooms, sub, 0) matches Some((at, _)) ==> s.teacher_left(token, sub, now)
            == s.left(at, token, sub, now),
        seat_from(s.rooms, sub, 0) is None ==> s.teacher_left(token, sub, now).rooms == s.rooms,
{
}

} // verus!
