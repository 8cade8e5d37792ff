//! Where arrivals end up.

use vstd::prelude::*;

use crate::cards::Direction;
use crate::directory::{has_key, lookup, unique_keys, with_entry};
use crate::rooms::{fresh_occupant, OccupantView, RoomView, SeatsView};
use crate::seating::{PolicyView, SeatPolicy};
use crate::sessions::{
    ghost_from, id_view, law_table_found, lemma_ghost_from, lemma_seat_from, lemma_slot_from,
    lemma_wf_all_people, lemma_wf_people, lemma_wf_same_rooms, room_from, seat_from, slot_from, vacant_from,
    KibitzerView, Session, SessionKind, SessionView,
};
use crate::text::same;

verus! {

/// Where an arriving connection ends up. Always bound to a table (a lobby
/// member watches a table; one is auto-created if none exist yet).
#[derive(Clone, Copy, Debug, PartialEq, Eq, Structural)]
pub struct Placement {
    pub table: usize,
    /// None → in the lobby (waiting / parked / manual).
    pub seat: Option<Direction>,
}

impl SessionView {
    /// Every seat whose occupant is disconnected becomes vacant, at all tables.
    pub open spec fn swept(self) -> SessionView {
        SessionView {
            rooms: Seq::new(
                self.rooms.len(),
                |i: int| RoomView { state: self.rooms[i].state.swept(), ..self.rooms[i] },
            ),
            ..self
        }
    }

    /// Somebody's seat is theirs again.
    pub open spec fn rebound(self, i: int, seat: Direction, name: Seq<char>) -> SessionView {
        self.with_room(
            i,
            RoomView { state: self.rooms[i].state.rebound(seat, name), ..self.rooms[i] },
        )
    }

    /// Somebody takes over the seat that they left under another subject.
    pub open spec fn reclaimed(self, i: int, seat: Direction, sub: Seq<char>) -> SessionView {
        self.with_room(
            i,
            RoomView { state: self.rooms[i].state.reclaimed(seat, sub), ..self.rooms[i] },
        )
    }

    /// Somebody waits in the lobby, watching the first table.
    pub open spec fn made_wait(self, sub: Seq<char>, name: Seq<char>) -> SessionView {
        let s = self.watching();
        s.in_lobby(sub, name, Some(s.rooms[0].id), false)
    }

    /// Whether arrivals are seated at once.
    pub open spec fn seats_arrivals(self) -> bool {
        !self.wait_to_seat && !(self.policy is Manual)
    }

    /// Where somebody ends up of whom the session knows nothing.
    pub open spec fn newcomer(
        self,
        sub: Seq<char>,
        name: Seq<char>,
        requested: Option<Direction>,
    ) -> (SessionView, int, Option<Direction>) {
        let s = self.watching();
        if requested is Some && self.policy is Manual && s.rooms[0].state.seats.get(
            requested->0,
        ) is None {
            (s.seated(0, requested->0, sub, name), 0, requested)
        } else if self.seats_arrivals() {
            let (after, i, seat) = self.seat_one(self.policy, sub, name);
            (after, i, Some(seat))
        } else {
            (self.made_wait(sub, name), 0, None)
        }
    }

    /// The table that a returning lobby member watches.
    pub open spec fn watched_table(self, room_id: Option<Seq<char>>) -> int {
        match room_id {
            Some(id) => room_from(self.rooms, id, 0),
            None => self.rooms.len() as int,
        }
    }

    /// Where somebody ends up: in the seat that they hold, else in the lobby if
    /// they are there, else in the seat that they left under another subject,
    /// else where a newcomer does.
    pub open spec fn arrival(
        self,
        sub: Seq<char>,
        name: Seq<char>,
        requested: Option<Direction>,
    ) -> (SessionView, int, Option<Direction>) {
        match seat_from(self.rooms, sub, 0) {
            Some((i, seat)) => (self.rebound(i, seat, name), i, Some(seat)),
            None => match lookup(self.kibitzers, sub) {
                Some(k) => {
                    let s = SessionView {
                        kibitzers: with_entry(
                            self.kibitzers,
                            sub,
                            KibitzerView { name, ..k },
                        ),
                        ..self
                    };
                    let i = self.watched_table(k.room_id);
                    if i < self.rooms.len() {
                        (s, i, None)
                    } else {
                        (s.watching(), 0, None)
                    }
                },
                None => match ghost_from(self.rooms, name, 0) {
                    Some((i, seat)) => (self.reclaimed(i, seat, sub), i, Some(seat)),
                    None => self.newcomer(sub, name, requested),
                },
            },
        }
    }

    /// Where somebody ends up. When the owner of a friends' table (re)opens it,
    /// the seats of everybody who is disconnected are freed and the owner sits
    /// South, unless somebody who is connected sits there.
    pub open spec fn placed(
        self,
        sub: Seq<char>,
        name: Seq<char>,
        requested: Option<Direction>,
    ) -> (SessionView, int, Option<Direction>) {
        if self.kind == SessionKind::Adhoc && sub == self.owner_sub {
            let s = self.swept().watching();
            if s.rooms[0].state.seats.south is None {
                (s.seated(0, Direction::South, sub, name), 0, Some(Direction::South))
            } else {
                s.arrival(sub, name, requested)
            }
        } else {
            self.arrival(sub, name, requested)
        }
    }
}

impl Session {
    /// Seats somebody in a vacant seat.
    pub(crate) fn seat_at(&mut self, i: usize, seat: Direction, sub: &str, name: &str)
        requires
            old(self).wf(),
            i < old(self)@.rooms.len(),
            old(self)@.rooms[i as int].state.seats.get(seat) is None,
        ensures
            final(self).wf(),
            final(self)@ == old(self)@.seated(i as int, seat, sub@, name@),
    {
        let ghost before = self@;
        assert(before.rooms[i as int] == self.rooms@[i as int]@);
        self.rooms[i].state.try_seat(seat, sub, name);
        proof {
            let r = before.rooms[i as int].seating(seat, fresh_occupant(sub@, name@));
            assert(self.rooms@[i as int]@ =~= r);
            assert(self@.rooms =~= before.rooms.update(i as int, r));
            assert(self@ =~= before.seated(i as int, seat, sub@, name@));
            lemma_wf_people(before, i as int, r);
        }
    }

    /// A table for a lobby member to watch: the first existing table, or a
    /// freshly created one (so a waiter always has something to see).
    pub(crate) fn watch_table(&mut self)
        requires
            old(self).wf(),
            old(self)@.rooms.len() < usize::MAX,
        ensures
            final(self).wf(),
            final(self)@ == old(self)@.watching(),
            final(self)@.rooms.len() > 0,
    {
        if self.rooms.len() == 0 {
            self.add_room();
        }
    }

    /// The first vacant seat of a table among those listed.
    fn vacant_seat(&self, i: usize, order: &Vec<Direction>) -> (r: Option<Direction>)
        requires
            i < self@.rooms.len(),
        ensures
            r == vacant_from(self@.rooms[i as int].state.seats, order@, 0),
    {
        assert(self@.rooms[i as int] == self.rooms@[i as int]@);
        let mut k: usize = 0;
        while k < order.len()
            invariant
                k <= order.len(),
                i < self.rooms.len(),
                vacant_from(self.rooms@[i as int]@.state.seats, order@, 0) == vacant_from(
                    self.rooms@[i as int]@.state.seats,
                    order@,
                    k as int,
                ),
            decreases order.len() - k,
        {
            if !self.rooms[i].state.seats.contains_key(order[k]) {
                return Some(order[k]);
            }
            k = k + 1;
        }
        None
    }

    /// Try the tables from `start % n`, taking the first free seat from `seats`.
    fn seat_round_robin(&self, start: usize, seats: &Vec<Direction>) -> (r: Option<
        (usize, Direction),
    >)
        ensures
            match r {
                Some((i, seat)) => slot_from(self@.rooms, start as int, seats@, 0) == Some(
                    (i as int, seat),
                ) && i < self@.rooms.len(),
                None => slot_from(self@.rooms, start as int, seats@, 0) is None,
            },
    {
        let n: usize = self.rooms.len();
        if n == 0 {
            return None;
        }
        let mut i: usize = start % n;
        let mut offset: usize = 0;
        proof {
            assert(self@.rooms.len() == n);
        }
        while offset < n
            invariant
                offset <= n,
                n == self@.rooms.len(),
                n > 0,
                i < n,
                i == (start + offset) % (n as int),
                slot_from(self@.rooms, start as int, seats@, 0) == slot_from(
                    self@.rooms,
                    start as int,
                    seats@,
                    offset as int,
                ),
            decreases n - offset,
        {
            if let Some(seat) = self.vacant_seat(i, seats) {
                return Some((i, seat));
            }
            proof {
                lemma_next_mod(start + offset, n as int);
            }
            i = if i == n - 1 {
                0
            } else {
                i + 1
            };
            offset = offset + 1;
        }
        None
    }

    /// Where `shape` seats the next arrival among the tables there are; the
    /// round-robin cursor moves on.
    fn try_seat_existing(&mut self, shape: &SeatPolicy) -> (r: Option<(usize, Direction)>)
        requires
            old(self).wf(),
        ensures
            final(self).wf(),
            final(self)@ == old(self)@.moved_on(shape@),
            match r {
                Some((i, seat)) => old(self)@.slot(shape@) == Some((i as int, seat)) && i
                    < old(self)@.rooms.len() && old(self)@.rooms[i as int].state.seats.get(
                    seat,
                ) is None,
                None => old(self)@.slot(shape@) is None,
            },
    {
        let seats = shape.seats();
        let start: usize = match shape {
            SeatPolicy::Manual => {
                return None;
            },
            SeatPolicy::Pairs(_) => 0,
            _ => {
                let start: usize = self.next_arrival;
                self.next_arrival = if start == usize::MAX {
                    0
                } else {
                    start + 1
                };
                proof {
                    lemma_wf_same_rooms(old(self)@, self@);
                }
                start
            },
        };
        proof {
            lemma_slot_from(self@.rooms, start as int, seats@, 0);
        }
        self.seat_round_robin(start, &seats)
    }

    /// Seat `sub` at the first free `shape` seat in an existing table; if all
    /// are full, create a table and seat there. `shape` is a concrete auto
    /// policy (never Manual), so this always seats.
    pub(crate) fn seat_one(&mut self, shape: &SeatPolicy, sub: &str, name: &str) -> (r: (
        usize,
        Direction,
    ))
        requires
            old(self).wf(),
            shape@.wf(),
            old(self)@.rooms.len() < usize::MAX,
        ensures
            final(self).wf(),
            ({
                let (after, i, seat) = old(self)@.seat_one(shape@, sub@, name@);
                final(self)@ == after && r.0 == i && r.1 == seat && i < after.rooms.len()
            }),
    {
        match self.try_seat_existing(shape) {
            Some((i, seat)) => {
                self.seat_at(i, seat, sub, name);
                (i, seat)
            },
            None => {
                let i: usize = self.add_room();
                let seat = shape.first_seat_of();
                proof {
                    assert(self@.rooms[i as int].state.seats.get(seat) is None);
                }
                self.seat_at(i, seat, sub, name);
                (i, seat)
            },
        }
    }
}

impl Session {
    /// Frees every seat whose occupant is disconnected, at all tables.
    fn sweep(&mut self)
        requires
            old(self).wf(),
        ensures
            final(self).wf(),
            final(self)@ == old(self)@.swept(),
    {
        let mut i: usize = 0;
        while i < self.rooms.len()
            invariant
                i <= self.rooms.len(),
                self@.rooms.len() == old(self)@.rooms.len(),
                self@ == (SessionView { rooms: self@.rooms, ..old(self)@ }),
                forall|j: int|
                    0 <= j < self@.rooms.len() ==> #[trigger] self@.rooms[j] == (if j < i {
                        RoomView {
                            state: old(self)@.rooms[j].state.swept(),
                            ..old(self)@.rooms[j]
                        }
                    } else {
                        old(self)@.rooms[j]
                    }),
            decreases self.rooms.len() - i,
        {
            let ghost before = self@;
            self.rooms[i].state.sweep();
            proof {
                assert(before.rooms[i as int] == old(self)@.rooms[i as int]);
                assert(self@.rooms =~= before.rooms.update(i as int, self.rooms@[i as int]@));
                assert(forall|j: int|
                    0 <= j < self@.rooms.len() && j != i ==> #[trigger] self@.rooms[j]
                        == before.rooms[j]);
            }
            i = i + 1;
        }
        proof {
            assert(self@.rooms =~= old(self)@.swept().rooms);
            assert(self@ =~= old(self)@.swept());
            lemma_wf_all_people(old(self)@, self@);
        }
    }

    /// A seat is its occupant's again.
    pub(crate) fn rebind_at(&mut self, i: usize, seat: Direction, name: &str)
        requires
            old(self).wf(),
            i < old(self)@.rooms.len(),
            old(self)@.rooms[i as int].state.seats.get(seat) is Some,
        ensures
            final(self).wf(),
            final(self)@ == old(self)@.rebound(i as int, seat, name@),
    {
        let ghost before = self@;
        assert(before.rooms[i as int] == self.rooms@[i as int]@);
        self.rooms[i].state.rebind(seat, name);
        proof {
            let r = before.rebound(i as int, seat, name@).rooms[i as int];
            assert(self@.rooms =~= before.rooms.update(i as int, r));
            assert(self@ =~= before.rebound(i as int, seat, name@));
            lemma_wf_people(before, i as int, r);
        }
    }

    /// A disconnected occupant's seat is taken over.
    fn reclaim_at(&mut self, i: usize, seat: Direction, sub: &str)
        requires
            old(self).wf(),
            i < old(self)@.rooms.len(),
            old(self)@.rooms[i as int].state.seats.get(seat) is Some,
        ensures
            final(self).wf(),
            final(self)@ == old(self)@.reclaimed(i as int, seat, sub@),
    {
        let ghost before = self@;
        assert(before.rooms[i as int] == self.rooms@[i as int]@);
        self.rooms[i].state.reclaim(seat, sub);
        proof {
            let r = before.reclaimed(i as int, seat, sub@).rooms[i as int];
            assert(self@.rooms =~= before.rooms.update(i as int, r));
            assert(self@ =~= before.reclaimed(i as int, seat, sub@));
            lemma_wf_people(before, i as int, r);
        }
    }

    /// A seat whose disconnected occupant goes by the given name.
    fn find_ghost(&self, name: &str) -> (r: Option<(usize, Direction)>)
        ensures
            match r {
                Some((i, seat)) => ghost_from(self@.rooms, name@, 0) == Some((i as int, seat)) && i
                    < self@.rooms.len(),
                None => ghost_from(self@.rooms, name@, 0) is None,
            },
    {
        let mut i: usize = 0;
        while i < self.rooms.len()
            invariant
                i <= self.rooms.len(),
                ghost_from(self@.rooms, name@, 0) == ghost_from(self@.rooms, name@, i as int),
            decreases self.rooms.len() - i,
        {
            assert(self@.rooms[i as int] == self.rooms@[i as int]@);
            if let Some(seat) = self.rooms[i].state.seats.find_ghost_named(name) {
                return Some((i, seat));
            }
            i = i + 1;
        }
        None
    }

    /// Seat `sub` at a specific `seat` in the first table (creating one if
    /// none exist). False if that seat is already taken. Backs the seat invite
    /// under Manual policy.
    fn try_seat_specific(&mut self, seat: Direction, sub: &str, name: &str) -> (r: bool)
        requires
            old(self).wf(),
            old(self)@.rooms.len() < usize::MAX,
        ensures
            final(self).wf(),
            ({
                let s = old(self)@.watching();
                &&& r == (s.rooms[0].state.seats.get(seat) is None)
                &&& final(self)@ == (if r {
                    s.seated(0, seat, sub@, name@)
                } else {
                    s
                })
            }),
    {
        self.watch_table();
        assert(self@.rooms[0] == self.rooms@[0]@);
        if self.rooms[0].state.seats.contains_key(seat) {
            false
        } else {
            self.seat_at(0, seat, sub, name);
            true
        }
    }

    /// Somebody waits in the lobby, watching the first table. Not parked →
    /// eligible for auto-fill / seat_students.
    fn make_wait(&mut self, sub: &str, name: &str)
        requires
            old(self).wf(),
            old(self)@.rooms.len() < usize::MAX,
        ensures
            final(self).wf(),
            final(self)@ == old(self)@.made_wait(sub@, name@),
            final(self)@.rooms.len() > 0,
    {
        self.watch_table();
        assert(self@.rooms[0] == self.rooms@[0]@);
        let id = self.rooms[0].id.clone();
        self.add_lobby(sub, name, Some(id), false);
    }

    /// Places somebody of whom the session knows nothing.
    fn place_newcomer(&mut self, sub: &str, name: &str, requested: Option<Direction>) -> (r:
        Placement)
        requires
            old(self).wf(),
            old(self)@.rooms.len() < usize::MAX,
        ensures
            final(self).wf(),
            ({
                let (after, i, seat) = old(self)@.newcomer(sub@, name@, requested);
                final(self)@ == after && r.table == i && r.seat == seat && i < after.rooms.len()
            }),
    {
        let policy = self.seat_policy();
        let manual = match &policy {
            SeatPolicy::Manual => true,
            _ => false,
        };
        // A seat invite: under Manual policy, a free requested seat is taken
        // directly. If it's occupied, fall through to the waiting lobby.
        if manual {
            if let Some(seat) = requested {
                if self.try_seat_specific(seat, sub, name) {
                    return Placement { table: 0, seat: Some(seat) };
                }
                proof {
                    lemma_taken_seat_has_table(old(self)@, seat);
                }
            }
        }
        // New arrival: auto-seat unless waiting-room / manual.
        if !self.wait_to_seat && !manual {
            let (table, seat) = self.seat_one(&policy, sub, name);
            return Placement { table, seat: Some(seat) };
        }
        self.make_wait(sub, name);
        Placement { table: 0, seat: None }
    }

    /// Places a returning lobby member: they keep their table and their
    /// `parked` flag (never re-grab a seat — sticky lobby).
    fn place_returning(&mut self, sub: &str, name: &str, Ghost(requested): Ghost<Option<Direction>>) -> (r: Placement)
        requires
            old(self).wf(),
            old(self)@.rooms.len() < usize::MAX,
            seat_from(old(self)@.rooms, sub@, 0) is None,
            has_key(old(self)@.kibitzers, sub@),
        ensures
            final(self).wf(),
            ({
                let (after, i, seat) = old(self)@.arrival(sub@, name@, requested);
                final(self)@ == after && r.table == i && r.seat == seat && seat is None && i
                    < after.rooms.len()
            }),
    {
        let ghost k = lookup(self@.kibitzers, sub@)->0;
        let (room_id, parked) = match self.kibitzers.get(sub) {
            Some(k) => (
                match &k.room_id {
                    Some(id) => Some(id.clone()),
                    None => None,
                },
                k.parked,
            ),
            None => (None, false),
        };
        let table: usize = match &room_id {
            Some(id) => self.room_by_id(id.as_str()),
            None => self.rooms.len(),
        };
        self.add_lobby(sub, name, room_id, parked);
        proof {
            assert(id_view(room_id) == k.room_id);
            assert(self@ =~= (SessionView {
                kibitzers: with_entry(
                    old(self)@.kibitzers,
                    sub@,
                    KibitzerView { name: name@, ..k },
                ),
                ..old(self)@
            }));
        }
        if table < self.rooms.len() {
            Placement { table, seat: None }
        } else {
            self.watch_table();
            Placement { table: 0, seat: None }
        }
    }

    /// Places somebody: in their seat, in the lobby, in the seat they left
    /// under another subject, or as a newcomer.
    fn place_arrival(&mut self, sub: &str, name: &str, requested: Option<Direction>) -> (r:
        Placement)
        requires
            old(self).wf(),
            old(self)@.rooms.len() < usize::MAX,
        ensures
            final(self).wf(),
            ({
                let (after, i, seat) = old(self)@.arrival(sub@, name@, requested);
                final(self)@ == after && r.table == i && r.seat == seat && i < after.rooms.len()
            }),
    {
        proof {
            lemma_seat_from(self@.rooms, sub@, 0);
            lemma_ghost_from(self@.rooms, name@, 0);
        }
        // Reconnect: an existing seat always wins.
        if let Some((i, seat)) = self.find_seated(sub) {
            self.rebind_at(i, seat, name);
            return Placement { table: i, seat: Some(seat) };
        }
        if self.kibitzers.contains_key(sub) {
            return self.place_returning(sub, name, Ghost(requested));
        }
        // Name reclaim: a guest who lost their tab reconnects under a fresh
        // sub (guest subs are random per mint). If a DISCONNECTED seat holds
        // their display name, take it over instead of creating a duplicate.
        if let Some((i, seat)) = self.find_ghost(name) {
            self.reclaim_at(i, seat, sub);
            return Placement { table: i, seat: Some(seat) };
        }
        self.place_newcomer(sub, name, requested)
    }

    /// Place an arriving participant. Reconnects rebind their existing seat; a
    /// returning lobby member keeps their table + `parked` flag (a reconnect
    /// never re-grabs a seat — sticky lobby). New arrivals auto-seat per policy
    /// (creating a table if needed) unless `wait_to_seat` / Manual holds them
    /// in the waiting lobby.
    pub fn place(&mut self, sub: &str, name: &str) -> (r: Placement)
        requires
            old(self).wf(),
            old(self)@.rooms.len() < usize::MAX,
        ensures
            final(self).wf(),
            ({
                let (after, i, seat) = old(self)@.placed(sub@, name@, None);
                final(self)@ == after && r.table == i && r.seat == seat && i < after.rooms.len()
            }),
    {
        self.place_seat(sub, name, None)
    }

    /// `place` with an optional requested seat (backs the seat invite link).
    /// Under Manual policy a free requested seat is taken directly instead of
    /// waiting; otherwise the request is ignored and normal placement applies.
    pub fn place_seat(&mut self, sub: &str, name: &str, requested: Option<Direction>) -> (r:
        Placement)
        requires
            old(self).wf(),
            old(self)@.rooms.len() < usize::MAX,
        ensures
            final(self).wf(),
            ({
                let (after, i, seat) = old(self)@.placed(sub@, name@, requested);
                final(self)@ == after && r.table == i && r.seat == seat && i < after.rooms.len()
            }),
            evicts_nobody(old(self)@, final(self)@, sub@),
            r.seat matches Some(d) ==> final(self)@.sitter(r.table as int, d) == Some(
                fresh_occupant(sub@, name@),
            ),
    {
        proof {
            law_placed(self@, sub@, name@, requested);
            law_arrival_evicts_nobody(self@, sub@, name@, requested);
        }
        // Friends-table resume: when the OWNER (re)opens an adhoc table, any
        // seat still held by a DISCONNECTED occupant is a ghost. Left alone it
        // keeps blocking fresh arrivals — and, if it's the owner's own old
        // seat, would rebind the owner away from South. Free every
        // disconnected seat (→ empty → bot) and sit the owner at South.
        // Classroom reconnects are untouched, since students there
        // legitimately drop and return to their own seat.
        if self.kind == SessionKind::Adhoc && same(sub, self.owner_sub.as_str()) {
            self.sweep();
            if self.try_seat_specific(Direction::South, sub, name) {
                return Placement { table: 0, seat: Some(Direction::South) };
            }
            // South is held by a live player — fall through to normal placement
            // (don't evict a connected human to seat the owner).
            proof {
                lemma_taken_seat_has_table(old(self)@.swept(), Direction::South);
            }
        }
        self.place_arrival(sub, name, requested)
    }
}

/// A seat that is taken at the first table is taken at a table that was there.
proof fn lemma_taken_seat_has_table(s: SessionView, seat: Direction)
    requires
        s.watching().rooms[0].state.seats.get(seat) is Some,
    ensures
        s.rooms.len() > 0,
        s.watching() == s,
{
    if s.rooms.len() == 0 {
        assert(s.watching().rooms[0] == s.new_room());
    }
}

/// The next number leaves the next remainder, or none after the largest.
proof fn lemma_next_mod(a: int, n: int)
    requires
        0 <= a,
        n > 0,
    ensures
        (a + 1) % n == (if a % n == n - 1 {
            0
        } else {
            a % n + 1
        }),
{
    vstd::arithmetic::div_mod::lemma_fundamental_div_mod(a, n);
    let q = a / n;
    let r = a % n;
    if r == n - 1 {
        assert(a + 1 == n * (q + 1)) by (nonlinear_arith)
            requires
                a == n * q + r,
                r == n - 1,
        ;
        vstd::arithmetic::div_mod::lemma_fundamental_div_mod_converse(a + 1, n, q + 1, 0);
    } else {
        assert(a + 1 == q * n + (r + 1)) by (nonlinear_arith)
            requires
                a == n * q + r,
        ;
        vstd::arithmetic::div_mod::lemma_fundamental_div_mod_converse(a + 1, n, q, r + 1);
    }
}

/// Whoever sits in a seat and is connected still does.
pub open spec fn keeps_seat(before: Option<OccupantView>, after: Option<OccupantView>) -> bool {
    match before {
        Some(o) => o.connected ==> match after {
            Some(p) => p.sub == o.sub && p.connected,
            None => false,
        },
        None => true,
    }
}

/// Whoever sits and is connected still does, in the same seat.
pub open spec fn keeps_seats(before: SeatsView, after: SeatsView) -> bool {
    forall|d: Direction| keeps_seat(before.get(d), #[trigger] after.get(d))
}

/// Nobody who is connected has lost their seat.
pub open spec fn keeps_people(s: SessionView, t: SessionView) -> bool {
    &&& s.rooms.len() <= t.rooms.len()
    &&& forall|i: int|
        #![trigger t.rooms[i]]
        0 <= i < s.rooms.len() ==> keeps_seats(s.rooms[i].state.seats, t.rooms[i].state.seats)
}

impl SessionView {
    /// Who sits in a seat of a table, if the table is there and anybody does.
    pub open spec fn sitter(self, k: int, d: Direction) -> Option<OccupantView> {
        if 0 <= k < self.rooms.len() {
            self.rooms[k].state.seats.get(d)
        } else {
            None
        }
    }

    /// Who keeps a seat when `sub` arrives: whoever sits there, unless the owner
    /// of a friends' table reopens it and they are disconnected.
    pub open spec fn keeps_sitting(self, sub: Seq<char>, k: int, d: Direction) -> Option<
        OccupantView,
    > {
        let o = self.sitter(k, d);
        if self.kind == SessionKind::Adhoc && sub == self.owner_sub && o is Some
            && !o->0.connected {
            None
        } else {
            o
        }
    }
}

/// Everybody sits where they sat, but for one seat at most.
pub open spec fn only_seat_changed(
    s: SessionView,
    t: SessionView,
    i: int,
    seat: Option<Direction>,
) -> bool {
    &&& s.rooms.len() <= t.rooms.len()
    &&& forall|k: int, d: Direction|
        !(k == i && seat == Some(d)) ==> #[trigger] t.sitter(k, d) == s.sitter(k, d)
}

proof fn lemma_only_trans(
    s: SessionView,
    t: SessionView,
    u: SessionView,
    i: int,
    seat: Option<Direction>,
)
    requires
        only_seat_changed(s, t, i, None),
        only_seat_changed(t, u, i, seat),
    ensures
        only_seat_changed(s, u, i, seat),
{
    assert forall|k: int, d: Direction| !(k == i && seat == Some(d)) implies #[trigger] u.sitter(
        k,
        d,
    ) == s.sitter(k, d) by {
        assert(t.sitter(k, d) == s.sitter(k, d));
    }
}

proof fn lemma_only_added(s: SessionView, i: int)
    ensures
        only_seat_changed(s, s, i, None),
        only_seat_changed(s, s.added(), i, None),
        only_seat_changed(s, s.watching(), i, None),
{
    let t = s.added();
    assert forall|k: int, d: Direction| #[trigger] t.sitter(k, d) == s.sitter(k, d) by {
        if 0 <= k < s.rooms.len() {
            assert(t.rooms[k] == s.rooms[k]);
        } else if k == s.rooms.len() {
            assert(t.rooms[k] == s.new_room());
        }
    }
}

proof fn lemma_only_room(s: SessionView, i: int, r: RoomView, seat: Direction)
    requires
        0 <= i < s.rooms.len(),
        forall|d: Direction|
            d != seat ==> #[trigger] r.state.seats.get(d) == s.rooms[i].state.seats.get(d),
    ensures
        only_seat_changed(s, s.with_room(i, r), i, Some(seat)),
{
    let t = s.with_room(i, r);
    assert forall|k: int, d: Direction| !(k == i && seat == d) implies #[trigger] t.sitter(k, d)
        == s.sitter(k, d) by {
        if k == i {
            assert(t.rooms[k] == r);
        } else if 0 <= k < s.rooms.len() {
            assert(t.rooms[k] == s.rooms[k]);
        }
    }
}

proof fn lemma_keeps_people_trans(s: SessionView, t: SessionView, u: SessionView)
    requires
        keeps_people(s, t),
        keeps_people(t, u),
    ensures
        keeps_people(s, u),
{
    assert forall|i: int| #![trigger u.rooms[i]] 0 <= i < s.rooms.len() implies keeps_seats(
        s.rooms[i].state.seats,
        u.rooms[i].state.seats,
    ) by {
        let a = s.rooms[i].state.seats;
        let b = t.rooms[i].state.seats;
        let c = u.rooms[i].state.seats;
        assert(keeps_seats(a, b) && keeps_seats(b, c));
        assert forall|d: Direction| keeps_seat(a.get(d), #[trigger] c.get(d)) by {
            assert(keeps_seat(a.get(d), b.get(d)));
        }
    }
}

proof fn lemma_keeps_people_added(s: SessionView)
    ensures
        keeps_people(s, s),
        keeps_people(s, s.added()),
        keeps_people(s, s.watching()),
{
    let t = s.added();
    assert forall|i: int| #![trigger t.rooms[i]] 0 <= i < s.rooms.len() implies keeps_seats(
        s.rooms[i].state.seats,
        t.rooms[i].state.seats,
    ) by {
        assert(t.rooms[i] == s.rooms[i]);
    }
}

proof fn lemma_keeps_people_room(s: SessionView, i: int, r: RoomView)
    requires
        0 <= i < s.rooms.len(),
        keeps_seats(s.rooms[i].state.seats, r.state.seats),
    ensures
        keeps_people(s, s.with_room(i, r)),
{
}

proof fn lemma_keeps_people_swept(s: SessionView)
    ensures
        keeps_people(s, s.swept()),
{
    let t = s.swept();
    assert forall|i: int| #![trigger t.rooms[i]] 0 <= i < s.rooms.len() implies keeps_seats(
        s.rooms[i].state.seats,
        t.rooms[i].state.seats,
    ) by {
        lemma_swept_keeps(s.rooms[i].state);
    }
}

proof fn lemma_swept_keeps(r: crate::rooms::RoomInnerView)
    ensures
        keeps_seats(r.seats, r.swept().seats),
        forall|d: Direction|
            #![trigger r.swept().seats.get(d)]
            r.swept().seats.get(d) == (if r.seats.is_ghost(d) {
                None
            } else {
                r.seats.get(d)
            }),
{
    assert forall|d: Direction|
        #![trigger r.swept().seats.get(d)]
        r.swept().seats.get(d) == (if r.seats.is_ghost(d) {
            None
        } else {
            r.seats.get(d)
        }) by {
        match d {
            Direction::North => {},
            Direction::East => {},
            Direction::South => {},
            Direction::West => {},
        }
    }
}

/// A slot is a vacant seat of a table.
pub proof fn lemma_slot(s: SessionView, shape: PolicyView)
    ensures
        s.slot(shape) matches Some((i, seat)) ==> 0 <= i < s.rooms.len()
            && s.rooms[i].state.seats.get(seat) is None && shape.seats().contains(seat),
{
    match shape {
        PolicyView::Manual => {},
        PolicyView::Pairs(_) => {
            lemma_slot_from(s.rooms, 0, shape.seats(), 0);
        },
        _ => {
            lemma_slot_from(s.rooms, s.next_arrival as int, shape.seats(), 0);
        },
    }
}

/// Seating somebody by the policy puts them where it says, in a seat that was
/// vacant; everybody else sits where they sat.
pub proof fn law_seat_one(s: SessionView, shape: PolicyView, sub: Seq<char>, name: Seq<char>)
    ensures
        ({
            let (after, i, seat) = s.seat_one(shape, sub, name);
            &&& 0 <= i < after.rooms.len()
            &&& after.rooms[i].state.seats.get(seat) == Some(fresh_occupant(sub, name))
            &&& s.sitter(i, seat) is None
            &&& only_seat_changed(s, after, i, Some(seat))
            &&& keeps_people(s, after)
        }),
{
    lemma_slot(s, shape);
    let next = s.moved_on(shape);
    assert(forall|k: int, d: Direction| #[trigger] next.sitter(k, d) == s.sitter(k, d));
    match s.slot(shape) {
        Some((i, seat)) => {
            lemma_only_room(
                next,
                i,
                next.rooms[i].seating(seat, fresh_occupant(sub, name)),
                seat,
            );
            lemma_keeps_people_room(
                next,
                i,
                next.rooms[i].seating(seat, fresh_occupant(sub, name)),
            );
        },
        None => {
            let t = next.added();
            let n = s.rooms.len() as int;
            lemma_keeps_people_added(next);
            assert(t.rooms[n] == next.new_room());
            let r = t.rooms[n].seating(shape.first(), fresh_occupant(sub, name));
            lemma_keeps_people_room(t, n, r);
            lemma_keeps_people_trans(next, t, t.with_room(n, r));
            lemma_only_added(next, n);
            lemma_only_room(t, n, r, shape.first());
            lemma_only_trans(next, t, t.with_room(n, r), n, Some(shape.first()));
        },
    }
}

proof fn lemma_newcomer(
    s: SessionView,
    sub: Seq<char>,
    name: Seq<char>,
    requested: Option<Direction>,
)
    ensures
        ({
            let (after, i, seat) = s.newcomer(sub, name, requested);
            &&& 0 <= i < after.rooms.len()
            &&& seat matches Some(d) ==> after.sitter(i, d) == Some(fresh_occupant(sub, name))
            &&& seat is None ==> has_key(after.kibitzers, sub)
            &&& only_seat_changed(s, after, i, seat)
            &&& keeps_people(s, after)
        }),
{
    let w = s.watching();
    lemma_keeps_people_added(s);
    law_seat_one(s, s.policy, sub, name);
    crate::directory::lemma_position(w.kibitzers, sub);
    if requested is Some && s.policy is Manual && w.rooms[0].state.seats.get(
        requested->0,
    ) is None {
        let r = w.rooms[0].seating(requested->0, fresh_occupant(sub, name));
        lemma_keeps_people_room(w, 0, r);
        lemma_keeps_people_trans(s, w, w.with_room(0, r));
        lemma_only_added(s, 0);
        lemma_only_room(w, 0, r, requested->0);
        lemma_only_trans(s, w, w.with_room(0, r), 0, requested);
    } else if !s.seats_arrivals() {
        let after = s.made_wait(sub, name);
        let k = KibitzerView { name, room_id: Some(w.rooms[0].id), parked: false };
        lemma_with_entry_has(w.kibitzers, sub, k);
        assert(after.kibitzers == with_entry(w.kibitzers, sub, k));
        assert(keeps_people(w, after));
        lemma_keeps_people_trans(s, w, after);
        lemma_only_added(s, 0);
        assert(forall|k: int, d: Direction| #[trigger] after.sitter(k, d) == w.sitter(k, d));
        lemma_only_trans(s, w, after, 0, None);
    }
}

/// An entry that is put in a directory is there.
proof fn lemma_with_entry_has<T>(d: Seq<(Seq<char>, T)>, key: Seq<char>, value: T)
    ensures
        has_key(with_entry(d, key, value), key),
{
    crate::directory::lemma_position(d, key);
    let after = with_entry(d, key, value);
    let p = crate::directory::position(d, key);
    assert(after[p].0 == key);
    assert forall|j: int| 0 <= j < p implies #[trigger] after[j].0 != key by {
        assert(d[j].0 != key);
    }
    crate::directory::lemma_position_is(after, key, p);
}

proof fn lemma_arrival(
    s: SessionView,
    sub: Seq<char>,
    name: Seq<char>,
    requested: Option<Direction>,
)
    ensures
        ({
            let (after, i, seat) = s.arrival(sub, name, requested);
            &&& 0 <= i < after.rooms.len()
            &&& seat matches Some(d) ==> after.sitter(i, d) == Some(fresh_occupant(sub, name))
            &&& seat is None ==> has_key(after.kibitzers, sub)
            &&& only_seat_changed(s, after, i, seat)
            &&& keeps_people(s, after)
        }),
{
    lemma_seat_from(s.rooms, sub, 0);
    lemma_ghost_from(s.rooms, name, 0);
    lemma_keeps_people_added(s);
    match seat_from(s.rooms, sub, 0) {
        Some((i, seat)) => {
            lemma_keeps_people_room(s, i, s.rebound(i, seat, name).rooms[i]);
            lemma_only_room(s, i, s.rebound(i, seat, name).rooms[i], seat);
        },
        None => match lookup(s.kibitzers, sub) {
            Some(k) => {
                let t = SessionView {
                    kibitzers: with_entry(s.kibitzers, sub, KibitzerView { name, ..k }),
                    ..s
                };
                lemma_with_entry_has(s.kibitzers, sub, KibitzerView { name, ..k });
                lemma_keeps_people_added(t);
                assert(keeps_people(s, t));
                lemma_keeps_people_trans(s, t, t.watching());
                lemma_room_from(s.rooms, k.room_id->0, 0);
                assert(forall|k: int, d: Direction| #[trigger] t.sitter(k, d) == s.sitter(k, d));
                lemma_only_added(t, 0);
            },
            None => match ghost_from(s.rooms, name, 0) {
                Some((i, seat)) => {
                    lemma_keeps_people_room(s, i, s.reclaimed(i, seat, sub).rooms[i]);
                    lemma_only_room(s, i, s.reclaimed(i, seat, sub).rooms[i], seat);
                },
                None => {
                    lemma_newcomer(s, sub, name, requested);
                },
            },
        },
    }
}

/// A table found by its id is there.
pub proof fn lemma_room_from(rooms: Seq<RoomView>, id: Seq<char>, from: int)
    requires
        0 <= from <= rooms.len(),
    ensures
        from <= room_from(rooms, id, from) <= rooms.len(),
        room_from(rooms, id, from) < rooms.len() ==> rooms[room_from(rooms, id, from)].id == id,
    decreases rooms.len() - from,
{
    if from < rooms.len() && rooms[from].id != id {
        lemma_room_from(rooms, id, from + 1);
    }
}

/// Freeing the seats of the disconnected leaves everybody else where they sat.
proof fn lemma_swept_sitters(s: SessionView)
    ensures
        s.swept().rooms.len() == s.rooms.len(),
        forall|k: int, d: Direction| #[trigger]
            s.swept().sitter(k, d) == (if s.sitter(k, d) is Some && !s.sitter(k, d)->0.connected {
                None
            } else {
                s.sitter(k, d)
            }),
{
    assert forall|k: int, d: Direction| #[trigger]
        s.swept().sitter(k, d) == (if s.sitter(k, d) is Some && !s.sitter(k, d)->0.connected {
            None
        } else {
            s.sitter(k, d)
        }) by {
        if 0 <= k < s.rooms.len() {
            lemma_swept_keeps(s.rooms[k].state);
            assert(s.swept().rooms[k].state == s.rooms[k].state.swept());
            assert(s.rooms[k].state.swept().seats.get(d) == s.swept().sitter(k, d));
        }
    }
}

/// Whoever arrives ends up at a table of the session: in the seat that they
/// are told, connected, or in the lobby. Everybody else sits where they sat, and
/// nobody who is connected loses their seat; only when the owner of a friends'
/// table reopens it are the seats of the disconnected freed.
pub proof fn law_placed(
    s: SessionView,
    sub: Seq<char>,
    name: Seq<char>,
    requested: Option<Direction>,
)
    ensures
        ({
            let (after, i, seat) = s.placed(sub, name, requested);
            &&& 0 <= i < after.rooms.len()
            &&& s.rooms.len() <= after.rooms.len()
            &&& seat matches Some(d) ==> after.sitter(i, d) == Some(fresh_occupant(sub, name))
            &&& seat is None ==> has_key(after.kibitzers, sub)
            &&& forall|k: int, d: Direction|
                !(k == i && seat == Some(d)) ==> #[trigger] after.sitter(k, d) == s.keeps_sitting(
                    sub,
                    k,
                    d,
                )
            &&& keeps_people(s, after)
        }),
{
    if s.kind == SessionKind::Adhoc && sub == s.owner_sub {
        let t = s.swept();
        let w = t.watching();
        lemma_swept_sitters(s);
        lemma_keeps_people_swept(s);
        lemma_keeps_people_added(t);
        lemma_keeps_people_trans(s, t, w);
        if w.rooms[0].state.seats.south is None {
            let r = w.rooms[0].seating(Direction::South, fresh_occupant(sub, name));
            assert(keeps_seats(w.rooms[0].state.seats, r.state.seats)) by {
                assert(w.rooms[0].state.seats.get(Direction::South) is None);
            }
            lemma_keeps_people_room(w, 0, r);
            lemma_keeps_people_trans(s, w, w.with_room(0, r));
            lemma_only_added(t, 0);
            lemma_only_room(w, 0, r, Direction::South);
            lemma_only_trans(t, w, w.with_room(0, r), 0, Some(Direction::South));
        } else {
            let (after, i, seat) = w.arrival(sub, name, requested);
            lemma_arrival(w, sub, name, requested);
            lemma_keeps_people_trans(s, w, after);
            lemma_only_added(t, i);
            lemma_only_trans(t, w, after, i, seat);
        }
    } else {
        lemma_arrival(s, sub, name, requested);
    }
}

/// No table is gone, and everybody who is connected sits where they sat, unchanged,
/// but for `sub`.
pub open spec fn evicts_nobody(s: SessionView, t: SessionView, sub: Seq<char>) -> bool {
    &&& s.rooms.len() <= t.rooms.len()
    &&& forall|k: int, d: Direction| #[trigger]
        s.sitter(k, d) is Some && s.sitter(k, d)->0.connected && s.sitter(k, d)->0.sub != sub
            ==> t.sitter(k, d) == s.sitter(k, d)
}

/// An arrival never evicts or moves anybody else who is connected.
pub proof fn law_arrival_evicts_nobody(
    s: SessionView,
    sub: Seq<char>,
    name: Seq<char>,
    requested: Option<Direction>,
)
    ensures
        evicts_nobody(s, s.placed(sub, name, requested).0, sub),
{
    law_placed(s, sub, name, requested);
    let (after, i, seat) = s.placed(sub, name, requested);
    assert forall|k: int, d: Direction| #[trigger]
        s.sitter(k, d) is Some && s.sitter(k, d)->0.connected && s.sitter(k, d)->0.sub
            != sub implies after.sitter(k, d) == s.sitter(k, d) by {
        assert(after.rooms[k] == after.rooms[k]);
        assert(keeps_seats(s.rooms[k].state.seats, after.rooms[k].state.seats));
        assert(keeps_seat(s.sitter(k, d), after.rooms[k].state.seats.get(d)));
        assert(after.sitter(k, d) == after.rooms[k].state.seats.get(d));
    }
}

/// Whoever holds a seat gets it back, connected, whatever the policy says, and
/// nothing else changes. (When the owner of a friends' table reopens it, the
/// seats of the disconnected are freed first.)
pub proof fn law_reconnect_keeps_seat(
    s: SessionView,
    sub: Seq<char>,
    name: Seq<char>,
    requested: Option<Direction>,
)
    requires
        !(s.kind == SessionKind::Adhoc && sub == s.owner_sub),
        seat_from(s.rooms, sub, 0) is Some,
    ensures
        ({
            let (i, seat) = seat_from(s.rooms, sub, 0)->0;
            let (after, j, given) = s.placed(sub, name, requested);
            &&& j == i && given == Some(seat)
            &&& after == s.rebound(i, seat, name)
            &&& after.rooms[i].state.seats.get(seat) matches Some(o) && o.sub == sub && o.connected
            &&& forall|k: int|
                0 <= k < s.rooms.len() && k != i ==> after.rooms[k] == #[trigger] s.rooms[k]
            &&& after.rooms[i].state.table == s.rooms[i].state.table
        }),
{
    lemma_seat_from(s.rooms, sub, 0);
}

/// A lobby member who comes back stays in the lobby, as waiting or as parked as
/// before: no seat is taken.
pub proof fn law_lobby_is_sticky(
    s: SessionView,
    sub: Seq<char>,
    name: Seq<char>,
    requested: Option<Direction>,
)
    requires
        !(s.kind == SessionKind::Adhoc && sub == s.owner_sub),
        seat_from(s.rooms, sub, 0) is None,
        has_key(s.kibitzers, sub),
        unique_keys(s.kibitzers),
    ensures
        ({
            let (after, i, seat) = s.placed(sub, name, requested);
            &&& seat is None
            &&& s.rooms.len() > 0 ==> after.rooms == s.rooms
            &&& lookup(after.kibitzers, sub) == Some(
                KibitzerView { name, ..lookup(s.kibitzers, sub)->0 },
            )
        }),
{
    let k = lookup(s.kibitzers, sub)->0;
    crate::directory::law_directory(s.kibitzers, sub, KibitzerView { name, ..k }, sub);
}

/// When the owner of a friends' table reopens it and South is free or held by
/// somebody disconnected, the owner sits South, and of all who were seated
/// those who were connected remain, and nobody else.
#[verifier::spinoff_prover]
pub proof fn law_owner_resumes(
    s: SessionView,
    name: Seq<char>,
    requested: Option<Direction>,
    i: int,
    seat: Direction,
)
    requires
        s.kind == SessionKind::Adhoc,
        s.rooms.len() > 0,
        !(s.rooms[0].state.seats.south matches Some(o) && o.connected),
        0 <= i < s.rooms.len(),
        !(i == 0 && seat == Direction::South),
    ensures
        ({
            let (after, j, given) = s.placed(s.owner_sub, name, requested);
            &&& j == 0 && given == Some(Direction::South)
            &&& after.rooms[0].state.seats.south == Some(fresh_occupant(s.owner_sub, name))
            &&& after.rooms[i].state.seats.get(seat) == (if s.rooms[i].state.seats.is_ghost(seat) {
                None
            } else {
                s.rooms[i].state.seats.get(seat)
            })
        }),
{
    let t = s.swept();
    lemma_swept_sitters(s);
    assert(t.watching() == t);
    assert(s.sitter(0, Direction::South) == s.rooms[0].state.seats.south);
    assert(t.sitter(0, Direction::South) == t.rooms[0].state.seats.south);
    law_placed(s, s.owner_sub, name, requested);
    let after = s.placed(s.owner_sub, name, requested).0;
    assert(after == t.seated(0, Direction::South, s.owner_sub, name));
    assert(after.sitter(0, Direction::South) == after.rooms[0].state.seats.south);
    assert(after.sitter(i, seat) == s.keeps_sitting(s.owner_sub, i, seat));
}

/// A newcomer is seated at once unless arrivals wait or are seated by hand. One
/// who waits is listed in the lobby as waiting, watching the first table. Under
/// manual seating alone a seat can be asked for: a vacant one of the first table
/// is given.
pub proof fn law_newcomers(
    s: SessionView,
    sub: Seq<char>,
    name: Seq<char>,
    requested: Option<Direction>,
)
    requires
        !(s.kind == SessionKind::Adhoc && sub == s.owner_sub),
        seat_from(s.rooms, sub, 0) is None,
        !has_key(s.kibitzers, sub),
        ghost_from(s.rooms, name, 0) is None,
        unique_keys(s.kibitzers),
        s.rooms.len() > 0,
    ensures
        ({
            let (after, i, seat) = s.placed(sub, name, requested);
            let asked = requested is Some && s.policy is Manual && s.sitter(0, requested->0) is None;
            &&& seat is None <==> (s.policy is Manual || s.wait_to_seat) && !asked
            &&& asked ==> i == 0 && seat == requested
            &&& seat is None ==> lookup(after.kibitzers, sub) == Some(
                KibitzerView { name, room_id: Some(s.rooms[0].id), parked: false },
            ) && after.rooms == s.rooms
            &&& seat is Some ==> after.kibitzers == s.kibitzers
            &&& !(s.policy is Manual) && !s.wait_to_seat && s.slot(s.policy) is Some
                ==> s.slot(s.policy) == Some((i, seat->0))
            &&& !(s.policy is Manual) && !s.wait_to_seat && s.slot(s.policy) is None ==> i
                == s.rooms.len() && seat == Some(s.policy.first())
        }),
{
    crate::directory::law_directory(
        s.kibitzers,
        sub,
        KibitzerView { name, room_id: Some(s.rooms[0].id), parked: false },
        sub,
    );
}

/// Whoever is unknown but comes under the name of somebody disconnected gets
/// that seat under their own subject, and nothing else changes.
pub proof fn law_names_reclaim_seats(
    s: SessionView,
    sub: Seq<char>,
    name: Seq<char>,
    requested: Option<Direction>,
    k: int,
    d: Direction,
)
    requires
        !(s.kind == SessionKind::Adhoc && sub == s.owner_sub),
        seat_from(s.rooms, sub, 0) is None,
        !has_key(s.kibitzers, sub),
        ghost_from(s.rooms, name, 0) is Some,
    ensures
        ({
            let (after, i, seat) = s.placed(sub, name, requested);
            &&& Some((i, seat->0)) == ghost_from(s.rooms, name, 0) && seat is Some
            &&& s.sitter(i, seat->0) matches Some(o) && !o.connected && o.name == name
            &&& after.sitter(i, seat->0) == Some(fresh_occupant(sub, name))
            &&& !(k == i && Some(d) == seat) ==> after.sitter(k, d) == s.sitter(k, d)
            &&& after.rooms.len() == s.rooms.len() && after.kibitzers == s.kibitzers
        }),
{
    lemma_ghost_from(s.rooms, name, 0);
    law_placed(s, sub, name, requested);
}

/// A lobby member who comes back watches the table that they watched, if it is
/// still there, and the first one otherwise.
pub proof fn law_returning_to_watch(
    s: SessionView,
    sub: Seq<char>,
    name: Seq<char>,
    requested: Option<Direction>,
    k: int,
)
    requires
        !(s.kind == SessionKind::Adhoc && sub == s.owner_sub),
        seat_from(s.rooms, sub, 0) is None,
        has_key(s.kibitzers, sub),
        0 <= k <= s.rooms.len(),
        lookup(s.kibitzers, sub)->0.room_id matches Some(id) ==> (forall|j: int|
            0 <= j < k ==> (#[trigger] s.rooms[j]).id != id) && (k < s.rooms.len() ==> s.rooms[k].id
            == id),
    ensures
        ({
            let (after, i, seat) = s.placed(sub, name, requested);
            let watched = lookup(s.kibitzers, sub)->0.room_id;
            &&& seat is None
            &&& watched is Some && k < s.rooms.len() ==> i == k
            &&& watched is Some && k == s.rooms.len() ==> i == 0
            &&& watched is None ==> i == 0
        }),
{
    if let Some(id) = lookup(s.kibitzers, sub)->0.room_id {
        law_table_found(s.rooms, id, 0, k);
    }
}

} // verus!
