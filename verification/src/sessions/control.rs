//! What the host and the teacher do: seat people, and move the boards.

use vstd::prelude::*;
use vstd::string::*;

use crate::cards::Direction;
use crate::directory::{has_key, lookup, unique_keys, without_key, law_directory};
use crate::rooms::{fresh_occupant, Occupant, OccupantView, RoomInnerView, RoomView};
use crate::seating::{joined, PolicyView};
use crate::sessions::placing::{keeps_people, keeps_seat, keeps_seats, law_seat_one, lemma_slot};
use crate::sessions::{
    kept, law_token_found, lemma_kept, lemma_seat_from, lemma_wf_all_people, lemma_wf_people, lemma_wf_same_rooms,
    room_from, seat_from, sits_anywhere, token_from, ConnView, KibitzerView, Session,
    SessionView,
};

verus! {

/// The waiting lobby members, in the order in which they came.
pub open spec fn waiting(kibitzers: Seq<(Seq<char>, KibitzerView)>) -> Seq<(Seq<char>, Seq<char>)>
    decreases kibitzers.len(),
{
    if kibitzers.len() == 0 {
        seq![]
    } else {
        let before = waiting(kibitzers.drop_last());
        let (sub, k) = kibitzers.last();
        if k.parked {
            before
        } else {
            before.push((sub, k.name))
        }
    }
}

impl SessionView {
    /// The first `n` of some people are seated by the policy and leave the
    /// lobby; the tables at which they sit, in the order in which they came to
    /// be taken.
    pub open spec fn seat_all(
        self,
        shape: PolicyView,
        people: Seq<(Seq<char>, Seq<char>)>,
        n: int,
    ) -> (SessionView, Seq<usize>)
        decreases n,
    {
        if n <= 0 {
            (self, seq![])
        } else {
            let (s, changed) = self.seat_all(shape, people, n - 1);
            let (sub, name) = people[n - 1];
            let (t, i, seat) = s.seat_one(shape, sub, name);
            (
                SessionView { kibitzers: without_key(t.kibitzers, sub), ..t },
                if changed.contains(i as usize) {
                    changed
                } else {
                    changed.push(i as usize)
                },
            )
        }
    }

    /// The seats that the first `n` of some people get, in order.
    pub open spec fn seat_places(
        self,
        shape: PolicyView,
        people: Seq<(Seq<char>, Seq<char>)>,
        n: int,
    ) -> Seq<(int, Direction)>
        decreases n,
    {
        if n <= 0 {
            seq![]
        } else {
            let s = self.seat_all(shape, people, n - 1).0;
            let (_, i, seat) = s.seat_one(shape, people[n - 1].0, people[n - 1].1);
            self.seat_places(shape, people, n - 1).push((i, seat))
        }
    }

    /// Somebody who lost a seat and sits nowhere else is parked in the lobby,
    /// if they are connected.
    pub open spec fn benched(self, removed: Option<OccupantView>, room_id: Seq<char>) -> SessionView {
        match removed {
            Some(occ) => if occ.connected && !sits_anywhere(self.rooms, occ.sub) {
                self.in_lobby(occ.sub, occ.name, Some(room_id), true)
            } else {
                self
            },
            None => self,
        }
    }

    /// A seat is vacated, and left to a bot or open.
    pub open spec fn seat_vacated(self, i: int, seat: Direction, seat_bot: bool) -> SessionView {
        let r = self.rooms[i];
        let state = if seat_bot {
            r.state.vacated(seat).with_bot(seat)
        } else {
            r.state.vacated(seat).without_bot(seat)
        };
        self.with_room(i, RoomView { state, ..r }).benched(r.state.seats.get(seat), r.id)
    }

    /// Whether vacating a seat changes anything that can be seen.
    pub open spec fn vacating_changes(self, i: int, seat: Direction, seat_bot: bool) -> bool {
        let state = self.rooms[i].state;
        state.seats.get(seat) is Some || state.no_bot.has(seat) == seat_bot
    }

    /// An occupant moves to another seat; whoever sits there takes theirs.
    pub open spec fn seat_moved(self, i: int, from: Direction, to: Direction) -> SessionView {
        let r = self.rooms[i];
        self.with_room(i, RoomView { state: r.state.moved(from, to), ..r })
    }

    /// An occupant takes a seat, in place of whoever sits there, and waits no
    /// longer.
    pub open spec fn seat_taken(self, i: int, seat: Direction, occ: OccupantView) -> SessionView {
        let s = SessionView { kibitzers: without_key(self.kibitzers, occ.sub), ..self };
        let r = s.rooms[i];
        let cleared = if r.state.seats.get(seat) is Some {
            r.state.vacated(seat)
        } else {
            r.state
        };
        s.with_room(i, RoomView { state: cleared.placed(seat, occ), ..r }).benched(
            r.state.seats.get(seat),
            r.id,
        )
    }

    /// Somebody is seated, in place of whoever sits there.
    pub open spec fn seat_given(
        self,
        i: int,
        seat: Direction,
        sub: Seq<char>,
        name: Seq<char>,
    ) -> SessionView {
        self.seat_taken(i, seat, fresh_occupant(sub, name))
    }

    /// An occupant moves to a seat of another table, as connected as they are, in
    /// place of whoever sits there; a bot gets the seat that they leave.
    pub open spec fn moved_over(self, j: int, from: Direction, i: int, to: Direction) -> SessionView {
        let r = self.rooms[j];
        self.with_room(
            j,
            RoomView { state: r.state.vacated(from).with_bot(from), ..r },
        ).seat_taken(i, to, r.state.seats.get(from)->0)
    }

    /// The token that addresses somebody's connection.
    pub open spec fn token_for(self, sub: Seq<char>) -> Seq<char> {
        match token_from(self.connections, sub, 0) {
            Some(token) => token,
            None => sub,
        }
    }

    /// Somebody is to sit in a seat. Whoever sits already moves there, within the
    /// table or from another one; anybody else is placed by their connection.
    /// The session after it and the tables whose seats changed, or why not.
    pub open spec fn reassigned(self, sub: Seq<char>, i: int, seat: Direction) -> Result<
        (SessionView, Seq<usize>),
        Seq<char>,
    > {
        match seat_from(self.rooms, sub, 0) {
            Some((j, f)) => if self.rooms[i].state.seats.held_by(seat, sub) {
                Ok((self, seq![]))
            } else if j == i {
                Ok((self.seat_moved(i, f, seat), seq![i as usize]))
            } else {
                Ok((self.moved_over(j, f, i, seat), seq![j as usize, i as usize]))
            },
            None => match self.assigned_at(
                i,
                Some(seat),
                None,
                Some(self.token_for(sub)),
                false,
            ) {
                Ok((after, changed)) => Ok(
                    (
                        after,
                        if changed {
                            seq![i as usize]
                        } else {
                            seq![]
                        },
                    ),
                ),
                Err(e) => Err(e),
            },
        }
    }

    /// What a seat assignment at a table does: the session after it and whether
    /// the table's seats changed; or why it is refused.
    pub open spec fn assigned_at(
        self,
        i: int,
        target: Option<Direction>,
        from: Option<Direction>,
        token: Option<Seq<char>>,
        seat_bot: bool,
    ) -> Result<(SessionView, bool), Seq<char>> {
        match (from, target) {
            (Some(f), None) => Ok(
                (self.seat_vacated(i, f, seat_bot), self.vacating_changes(i, f, seat_bot)),
            ),
            (Some(f), Some(t)) => if f == t {
                Ok((self, false))
            } else if self.rooms[i].state.seats.get(f) is None {
                Err("seat "@ + f.spec_name() + " is empty"@)
            } else {
                Ok((self.seat_moved(i, f, t), true))
            },
            (None, Some(t)) => match token {
                Some(tok) => match lookup(self.connections, tok) {
                    Some(m) => if self.rooms[i].state.seats.held_by(t, m.sub) {
                        Ok((self, false))
                    } else {
                        Ok((self.seat_given(i, t, m.sub, m.name), true))
                    },
                    None => Err("unknown connection token "@ + tok),
                },
                None => Err("assign_seat needs `from`, or `token`+`seat`"@),
            },
            (None, None) => Err("assign_seat needs `from`, or `token`+`seat`"@),
        }
    }

    /// The table that an assignment is about, or why it is about none.
    pub open spec fn assign_table(self, id: Option<Seq<char>>) -> Result<int, Seq<char>> {
        match id {
            Some(id) => if room_from(self.rooms, id, 0) < self.rooms.len() {
                Ok(room_from(self.rooms, id, 0))
            } else {
                Err("unknown table "@ + id)
            },
            None => if self.rooms.len() == 0 {
                Err("no tables in session"@)
            } else {
                Ok(0)
            },
        }
    }

    /// Somebody is off the tables, out of the lobby and disconnected; their
    /// seats go to bots.
    pub open spec fn kicked(self, sub: Seq<char>) -> SessionView {
        SessionView {
            rooms: Seq::new(
                self.rooms.len(),
                |i: int| RoomView { state: self.rooms[i].state.kicked(sub), ..self.rooms[i] },
            ),
            kibitzers: without_key(self.kibitzers, sub),
            connections: kept(self.connections, None, sub),
            ..self
        }
    }
}

/// The first `n` tables at which somebody sits.
pub open spec fn tables_of(rooms: Seq<RoomView>, sub: Seq<char>, n: int) -> Seq<usize>
    decreases n,
{
    if n <= 0 {
        seq![]
    } else if rooms[n - 1].state.seats.seat_of(sub) is Some {
        tables_of(rooms, sub, n - 1).push((n - 1) as usize)
    } else {
        tables_of(rooms, sub, n - 1)
    }
}

/// Who was removed from a session, and the tables whose seats changed.
#[derive(Debug)]
pub struct Kicked {
    pub sub: String,
    pub changed: Vec<usize>,
}

/// Whether a list holds a number.
fn holds_number(list: &Vec<usize>, n: usize) -> (r: bool)
    ensures
        r == list@.contains(n),
{
    let mut i: usize = 0;
    while i < list.len()
        invariant
            i <= list.len(),
            forall|j: int| 0 <= j < i ==> list@[j] != n,
        decreases list.len() - i,
    {
        if list[i] == n {
            return true;
        }
        i = i + 1;
    }
    false
}

/// There are no more waiting members than lobby members.
proof fn lemma_waiting_len(kibitzers: Seq<(Seq<char>, KibitzerView)>)
    ensures
        waiting(kibitzers).len() <= kibitzers.len(),
    decreases kibitzers.len(),
{
    if kibitzers.len() > 0 {
        lemma_waiting_len(kibitzers.drop_last());
    }
}

/// Seating one person adds at most one table and leaves the lobby alone.
proof fn lemma_seat_one_frame(
    s: SessionView,
    shape: PolicyView,
    sub: Seq<char>,
    name: Seq<char>,
)
    ensures
        ({
            let (t, i, seat) = s.seat_one(shape, sub, name);
            &&& s.rooms.len() <= t.rooms.len() <= s.rooms.len() + 1
            &&& t.kibitzers == s.kibitzers
            &&& t.connections == s.connections
        }),
{
    lemma_slot(s, shape);
}

impl Session {
    /// The waiting lobby members.
    fn waiting_members(&self) -> (r: Vec<(String, String)>)
        ensures
            r@.len() == waiting(self@.kibitzers).len(),
            forall|i: int|
                0 <= i < r@.len() ==> (#[trigger] r@[i]).0@ == waiting(self@.kibitzers)[i].0
                    && r@[i].1@ == waiting(self@.kibitzers)[i].1,
    {
        let mut r: Vec<(String, String)> = Vec::new();
        let mut i: usize = 0;
        while i < self.kibitzers.entries.len()
            invariant
                i <= self.kibitzers.entries.len(),
                r@.len() == waiting(self@.kibitzers.subrange(0, i as int)).len(),
                forall|j: int|
                    0 <= j < r@.len() ==> (#[trigger] r@[j]).0@ == waiting(
                        self@.kibitzers.subrange(0, i as int),
                    )[j].0 && r@[j].1@ == waiting(self@.kibitzers.subrange(0, i as int))[j].1,
            decreases self.kibitzers.entries.len() - i,
        {
            proof {
                let longer = self@.kibitzers.subrange(0, i + 1);
                assert(longer.drop_last() =~= self@.kibitzers.subrange(0, i as int));
                assert(longer.last() == self@.kibitzers[i as int]);
                assert(self@.kibitzers[i as int].1 == self.kibitzers.entries@[i as int].1@);
            }
            let entry = &self.kibitzers.entries[i];
            if !entry.1.parked {
                r.push((entry.0.clone(), entry.1.name.clone()));
            }
            i = i + 1;
        }
        assert(self@.kibitzers.subrange(0, i as int) =~= self@.kibitzers);
        r
    }

    /// Seat every WAITING (non-parked) lobby member per the bulk shape,
    /// creating tables as needed. Returns the tables whose seats changed.
    pub fn seat_students(&mut self) -> (r: Vec<usize>)
        requires
            old(self).wf(),
            old(self)@.rooms.len() + old(self)@.kibitzers.len() <= usize::MAX,
        ensures
            final(self).wf(),
            ({
                let people = waiting(old(self)@.kibitzers);
                let (after, changed) = old(self)@.seat_all(
                    old(self)@.policy.bulk(),
                    people,
                    people.len() as int,
                );
                final(self)@ == after && r@ == changed
            }),
            forall|j: int|
                0 <= j < r@.len() ==> (#[trigger] r@[j]) < final(self)@.rooms.len(),
    {
        let people = self.waiting_members();
        let shape = self.seat_policy.bulk_shape();
        let ghost all = waiting(old(self)@.kibitzers);
        let ghost policy = shape@;
        let mut changed: Vec<usize> = Vec::new();
        let mut i: usize = 0;
        proof {
            lemma_waiting_len(old(self)@.kibitzers);
        }
        while i < people.len()
            invariant
                i <= people.len(),
                self.wf(),
                shape@ == policy,
                policy == old(self)@.policy.bulk(),
                policy.wf(),
                all == waiting(old(self)@.kibitzers),
                people@.len() == all.len(),
                forall|j: int|
                    0 <= j < people@.len() ==> (#[trigger] people@[j]).0@ == all[j].0
                        && people@[j].1@ == all[j].1,
                self@ == old(self)@.seat_all(policy, all, i as int).0,
                changed@ == old(self)@.seat_all(policy, all, i as int).1,
                forall|j: int|
                    0 <= j < changed@.len() ==> (#[trigger] changed@[j]) < self@.rooms.len(),
                self@.rooms.len() <= old(self)@.rooms.len() + i,
                old(self)@.rooms.len() + all.len() <= usize::MAX,
            decreases people.len() - i,
        {
            let sub = people[i].0.as_str();
            let name = people[i].1.as_str();
            proof {
                assert(people@[i as int].0@ == all[i as int].0);
                lemma_seat_one_frame(self@, policy, sub@, name@);
                law_seat_one(self@, policy, sub@, name@);
            }
            let (table, _) = self.seat_one(&shape, sub, name);
            self.remove_kibitzer(sub);
            if !holds_number(&changed, table) {
                changed.push(table);
            }
            i = i + 1;
        }
        changed
    }

    /// Somebody who lost a seat and sits nowhere else is parked in the lobby.
    fn bench(&mut self, removed: Option<Occupant>, table: usize)
        requires
            old(self).wf(),
            table < old(self)@.rooms.len(),
        ensures
            final(self).wf(),
            final(self)@ == old(self)@.benched(
                crate::rooms::occupant_view(removed),
                old(self)@.rooms[table as int].id,
            ),
    {
        if let Some(occ) = removed {
            // Still seated elsewhere (multi-seat)? Then not a waiter.
            if occ.connected && self.find_seated(occ.sub.as_str()).is_none() {
                assert(self@.rooms[table as int] == self.rooms@[table as int]@);
                let id = self.rooms[table].id.clone();
                self.add_lobby(occ.sub.as_str(), occ.name.as_str(), Some(id), true);
            }
        }
    }

    /// Vacates a seat, and leaves it to a bot or open.
    fn vacate_seat(&mut self, i: usize, seat: Direction, seat_bot: bool) -> (r: bool)
        requires
            old(self).wf(),
            i < old(self)@.rooms.len(),
        ensures
            final(self).wf(),
            final(self)@ == old(self)@.seat_vacated(i as int, seat, seat_bot),
            r == old(self)@.vacating_changes(i as int, seat, seat_bot),
    {
        let ghost before = self@;
        assert(before.rooms[i as int] == self.rooms@[i as int]@);
        let was_empty = self.rooms[i].state.no_bot.contains(seat);
        let removed = self.rooms[i].state.vacate(seat);
        if seat_bot {
            self.rooms[i].state.set_bot(seat);
        } else {
            self.rooms[i].state.set_empty(seat);
        }
        // A change if we removed a human OR toggled bot↔empty.
        let changed = removed.is_some() || was_empty == seat_bot;
        proof {
            let old_room = before.rooms[i as int];
            let r = self.rooms@[i as int]@;
            assert(r.same_game(old_room));
            assert(self@.rooms =~= before.rooms.update(i as int, r));
            assert(self@ =~= before.with_room(i as int, r));
            lemma_wf_people(before, i as int, r);
        }
        self.bench(removed, i);
        changed
    }

    /// Moves an occupant to another seat; whoever sits there takes theirs.
    fn move_seat(&mut self, i: usize, from: Direction, to: Direction)
        requires
            old(self).wf(),
            i < old(self)@.rooms.len(),
            from != to,
            old(self)@.rooms[i as int].state.seats.get(from) is Some,
        ensures
            final(self).wf(),
            final(self)@ == old(self)@.seat_moved(i as int, from, to),
    {
        let ghost before = self@;
        assert(before.rooms[i as int] == self.rooms@[i as int]@);
        self.rooms[i].state.move_occupant(from, to);
        proof {
            let r = before.seat_moved(i as int, from, to).rooms[i as int];
            assert(self.rooms@[i as int]@ =~= r);
            assert(self@.rooms =~= before.rooms.update(i as int, r));
            assert(self@ =~= before.with_room(i as int, r));
            lemma_wf_people(before, i as int, r);
        }
    }

    /// Puts an occupant into a seat, in place of whoever sits there.
    fn take_seat(&mut self, i: usize, seat: Direction, occ: Occupant)
        requires
            old(self).wf(),
            i < old(self)@.rooms.len(),
        ensures
            final(self).wf(),
            final(self)@ == old(self)@.seat_taken(i as int, seat, occ@),
    {
        // Being seated → no longer a waiter.
        self.remove_kibitzer(occ.sub.as_str());
        let ghost before = self@;
        assert(before.rooms[i as int] == self.rooms@[i as int]@);
        // Displace any different occupant of the target to waiting.
        let displaced = if self.rooms[i].state.seats.contains_key(seat) {
            self.rooms[i].state.vacate(seat)
        } else {
            None
        };
        self.rooms[i].state.try_place(seat, occ);
        proof {
            let r = self.rooms@[i as int]@;
            assert(r.same_game(before.rooms[i as int]));
            assert(self@.rooms =~= before.rooms.update(i as int, r));
            assert(self@ =~= before.with_room(i as int, r));
            lemma_wf_people(before, i as int, r);
        }
        self.bench(displaced, i);
    }

    /// Seats somebody, in place of whoever sits there.
    fn give_seat(&mut self, i: usize, seat: Direction, sub: &str, name: &str)
        requires
            old(self).wf(),
            i < old(self)@.rooms.len(),
        ensures
            final(self).wf(),
            final(self)@ == old(self)@.seat_given(i as int, seat, sub@, name@),
    {
        self.take_seat(i, seat, Occupant::fresh(sub, name));
    }

    /// Moves an occupant to a seat of another table.
    fn move_over(&mut self, j: usize, from: Direction, i: usize, to: Direction)
        requires
            old(self).wf(),
            i < old(self)@.rooms.len(),
            j < old(self)@.rooms.len(),
            old(self)@.rooms[j as int].state.seats.get(from) is Some,
        ensures
            final(self).wf(),
            final(self)@ == old(self)@.moved_over(j as int, from, i as int, to),
    {
        let ghost before = self@;
        assert(before.rooms[j as int] == self.rooms@[j as int]@);
        let mover = self.rooms[j].state.vacate(from);
        self.rooms[j].state.set_bot(from);
        proof {
            let r = self.rooms@[j as int]@;
            assert(r.same_game(before.rooms[j as int]));
            assert(self@.rooms =~= before.rooms.update(j as int, r));
            assert(self@ =~= before.with_room(j as int, r));
            lemma_wf_people(before, j as int, r);
        }
        if let Some(occ) = mover {
            self.take_seat(i, to, occ);
        }
    }

    /// Reseats somebody, addressed by their subject: whoever sits already moves to
    /// the seat of table `i`, anybody else is placed there by their connection.
    /// Returns the tables whose seats changed.
    pub fn reassign(&mut self, sub: &str, i: usize, seat: Direction) -> (r: Result<
        Vec<usize>,
        String,
    >)
        requires
            old(self).wf(),
            i < old(self)@.rooms.len(),
        ensures
            final(self).wf(),
            match old(self)@.reassigned(sub@, i as int, seat) {
                Ok((after, changed)) => r is Ok && final(self)@ == after && r->Ok_0@ == changed,
                Err(e) => r is Err && final(self)@ == old(self)@ && r->Err_0@ == e,
            },
    {
        let mut changed: Vec<usize> = Vec::new();
        match self.find_seated(sub) {
            Some((j, f)) => {
                proof {
                    lemma_seat_from(self@.rooms, sub@, 0);
                }
                assert(self@.rooms[i as int] == self.rooms@[i as int]@);
                if self.rooms[i].state.seats.is_held_by(seat, sub) {
                    return Ok(changed);
                }
                if j == i {
                    self.move_seat(i, f, seat);
                } else {
                    self.move_over(j, f, i, seat);
                    changed.push(j);
                }
                changed.push(i);
            },
            None => {
                let token = match self.token_of(sub) {
                    Some(token) => token,
                    None => sub.to_owned(),
                };
                match self.assign_at(i, Some(seat), None, Some(token.as_str()), false) {
                    Ok(true) => {
                        changed.push(i);
                    },
                    Ok(false) => {},
                    Err(e) => {
                        return Err(e);
                    },
                }
            },
        }
        Ok(changed)
    }

    /// A seat assignment at a table. Returns whether the table's seats changed.
    fn assign_at(
        &mut self,
        i: usize,
        target: Option<Direction>,
        from: Option<Direction>,
        token: Option<&str>,
        seat_bot: bool,
    ) -> (r: Result<bool, String>)
        requires
            old(self).wf(),
            i < old(self)@.rooms.len(),
        ensures
            final(self).wf(),
            ({
                let tok = match token {
                    Some(tok) => Some(tok@),
                    None => None,
                };
                match old(self)@.assigned_at(i as int, target, from, tok, seat_bot) {
                    Ok((after, changed)) => r is Ok && final(self)@ == after && r->Ok_0 == changed,
                    Err(e) => r is Err && final(self)@ == old(self)@ && r->Err_0@ == e,
                }
            }),
    {
        match (from, target) {
            (Some(f), None) => Ok(self.vacate_seat(i, f, seat_bot)),
            (Some(f), Some(t)) => {
                if f == t {
                    return Ok(false);
                }
                assert(self@.rooms[i as int] == self.rooms@[i as int]@);
                if !self.rooms[i].state.seats.contains_key(f) {
                    let mut e = joined("seat ", f.name());
                    e.append(" is empty");
                    return Err(e);
                }
                self.move_seat(i, f, t);
                Ok(true)
            },
            (None, Some(t)) => match token {
                Some(tok) => match self.conn_meta(tok) {
                    Some((sub, name)) => {
                        assert(self@.rooms[i as int] == self.rooms@[i as int]@);
                        // Already this connection at the target? No-op.
                        if self.rooms[i].state.seats.is_held_by(t, sub.as_str()) {
                            return Ok(false);
                        }
                        self.give_seat(i, t, sub.as_str(), name.as_str());
                        Ok(true)
                    },
                    None => Err(joined("unknown connection token ", tok)),
                },
                None => Err("assign_seat needs `from`, or `token`+`seat`".to_owned()),
            },
            (None, None) => Err("assign_seat needs `from`, or `token`+`seat`".to_owned()),
        }
    }

    /// Host seat control (seat/token-addressed — the friends-table model).
    /// `table_id` selects the table (defaults to the first table when None,
    /// for the common single-table case). Dispatch by which fields are set:
    ///
    /// - **vacate**: `from = Some(seat)`, `target = None` — the occupant of
    ///   `from` becomes waiting (parked kibitzer, kept CONNECTED, not
    ///   disconnected), unless they still hold other seats. `seat_bot=false`
    ///   leaves the seat EMPTY — the table pauses on its turn until someone
    ///   sits; `seat_bot=true` drops a bot in.
    /// - **move / swap**: `from = Some(seat)`, `target = Some(seat)` — move
    ///   `from`'s occupant into `target`; if `target` is held by a different
    ///   connection the two SWAP.
    /// - **place / Sit / seat-a-waiter**: `token = Some(..)`,
    ///   `target = Some(seat)` — seat that token's connection at `target`
    ///   (how the host seats a waiter, or Sits itself with its own token).
    ///   A different occupant already at `target` is displaced to waiting.
    ///   The connection MAY thereby hold multiple seats.
    ///
    /// Returns the tables whose seats changed; the caller broadcasts the
    /// roster + RECHECK + lobby refresh. A displaced live human is **parked**
    /// (never auto-reseated).
    pub fn assign_seat(
        &mut self,
        table_id: Option<&str>,
        target: Option<Direction>,
        from: Option<Direction>,
        token: Option<&str>,
        seat_bot: bool,
    ) -> (r: Result<Vec<usize>, String>)
        requires
            old(self).wf(),
        ensures
            final(self).wf(),
            ({
                let id = match table_id {
                    Some(id) => Some(id@),
                    None => None,
                };
                let tok = match token {
                    Some(tok) => Some(tok@),
                    None => None,
                };
                match old(self)@.assign_table(id) {
                    Ok(i) => match old(self)@.assigned_at(i, target, from, tok, seat_bot) {
                        Ok((after, changed)) => r is Ok && final(self)@ == after && r->Ok_0@ == (
                        if changed {
                            seq![i as usize]
                        } else {
                            seq![]
                        }),
                        Err(e) => r is Err && final(self)@ == old(self)@ && r->Err_0@ == e,
                    },
                    Err(e) => r is Err && final(self)@ == old(self)@ && r->Err_0@ == e,
                }
            }),
    {
        let i: usize = match table_id {
            Some(id) => {
                let i: usize = self.room_by_id(id);
                if i >= self.rooms.len() {
                    return Err(joined("unknown table ", id));
                }
                i
            },
            None => {
                if self.rooms.len() == 0 {
                    return Err("no tables in session".to_owned());
                }
                0
            },
        };
        let mut changed_rooms: Vec<usize> = Vec::new();
        match self.assign_at(i, target, from, token, seat_bot) {
            Ok(true) => {
                changed_rooms.push(i);
                assert(changed_rooms@ =~= seq![i]);
                Ok(changed_rooms)
            },
            Ok(false) => Ok(changed_rooms),
            Err(e) => Err(e),
        }
    }

    /// Uninvite/kick: remove a person from the table ENTIRELY (distinct from
    /// Remove, which only benches them to the kibitz list). Vacate every seat
    /// they hold (→ bot, so the game continues), drop them from the kibitzers
    /// and connection registries. Returns who it was (their sockets are to be
    /// closed) and the tables whose seats changed. Addressed by connection
    /// `token`.
    pub fn kick(&mut self, token: &str) -> (r: Result<Kicked, String>)
        requires
            old(self).wf(),
        ensures
            final(self).wf(),
            match lookup(old(self)@.connections, token@) {
                Some(m) => r is Ok && r->Ok_0.sub@ == m.sub && r->Ok_0.changed@ == tables_of(
                    old(self)@.rooms,
                    m.sub,
                    old(self)@.rooms.len() as int,
                ) && final(self)@ == old(self)@.kicked(m.sub),
                None => r is Err && r->Err_0@ == "unknown connection token "@ + token@
                    && final(self)@ == old(self)@,
            },
    {
        let (sub, _) = match self.conn_meta(token) {
            Some(meta) => meta,
            None => {
                return Err(joined("unknown connection token ", token));
            },
        };
        let mut changed: Vec<usize> = Vec::new();
        let mut i: usize = 0;
        while i < self.rooms.len()
            invariant
                i <= self.rooms.len(),
                self@.rooms.len() == old(self)@.rooms.len(),
                self@ == (SessionView { rooms: self@.rooms, ..old(self)@ }),
                changed@ == tables_of(old(self)@.rooms, sub@, i as int),
                forall|j: int|
                    0 <= j < self@.rooms.len() ==> #[trigger] self@.rooms[j] == (if j < i {
                        RoomView {
                            state: old(self)@.rooms[j].state.kicked(sub@),
                            ..old(self)@.rooms[j]
                        }
                    } else {
                        old(self)@.rooms[j]
                    }),
            decreases self.rooms.len() - i,
        {
            let ghost before = self@;
            assert(before.rooms[i as int] == old(self)@.rooms[i as int]);
            assert(before.rooms[i as int] == self.rooms@[i as int]@);
            if self.rooms[i].state.seats.find_sub(sub.as_str()).is_some() {
                changed.push(i);
            }
            self.rooms[i].state.kick_sub(sub.as_str());
            proof {
                assert(self@.rooms =~= before.rooms.update(i as int, self.rooms@[i as int]@));
                assert(forall|j: int|
                    0 <= j < self@.rooms.len() && j != i ==> #[trigger] self@.rooms[j]
                        == before.rooms[j]);
            }
            i = i + 1;
        }
        let ghost mid = self@;
        // Off the table entirely: not a waiter, not a live connection.
        proof {
            lemma_wf_all_people(old(self)@, mid);
        }
        self.remove_kibitzer(sub.as_str());
        let ghost quiet = self@;
        self.retain_conns(None, sub.as_str());
        proof {
            lemma_kept(quiet.connections, None, sub@);
            lemma_wf_same_rooms(quiet, self@);
            assert(self@.rooms =~= old(self)@.kicked(sub@).rooms);
            assert(self@ =~= old(self)@.kicked(sub@));
        }
        Ok(Kicked { sub, changed })
    }
}

/// Somebody sits in no seat but the given one.
pub open spec fn sits_only(s: SessionView, sub: Seq<char>, i: int, seat: Direction) -> bool {
    forall|k: int, d: Direction| #[trigger]
        s.sitter(k, d) is Some && s.sitter(k, d)->0.sub == sub ==> k == i && d == seat
}

/// Somebody who sits in one seat only is found there.
proof fn lemma_found_there(s: SessionView, sub: Seq<char>, i: int, seat: Direction, from: int)
    requires
        0 <= from <= i < s.rooms.len(),
        s.rooms[i].state.seats.held_by(seat, sub),
        sits_only(s, sub, i, seat),
    ensures
        seat_from(s.rooms, sub, from) == Some((i, seat)),
    decreases i - from,
{
    let seats = s.rooms[from].state.seats;
    crate::rooms::law_seat_of(seats, sub);
    assert(forall|d: Direction| #[trigger] s.sitter(from, d) == seats.get(d));
    if from < i {
        if let Some(d) = seats.seat_of(sub) {
            assert(s.sitter(from, d)->0.sub == sub);
        }
        lemma_found_there(s, sub, i, seat, from + 1);
    } else if let Some(d) = seats.seat_of(sub) {
        assert(s.sitter(i, d)->0.sub == sub);
    }
}

/// A connection found by its person is that person's.
proof fn lemma_token_from(conns: Seq<(Seq<char>, ConnView)>, sub: Seq<char>, from: int)
    requires
        unique_keys(conns),
        0 <= from <= conns.len(),
    ensures
        token_from(conns, sub, from) matches Some(token) ==> lookup(conns, token) is Some
            && lookup(conns, token)->0.sub == sub,
    decreases conns.len() - from,
{
    if from < conns.len() {
        if conns[from].1.sub == sub {
            crate::directory::lemma_position_is(conns, conns[from].0, from);
        } else {
            lemma_token_from(conns, sub, from + 1);
        }
    }
}

/// Somebody who is assigned a seat sits there, and is found there. If they sat
/// already, they are as connected as they were, and have left the seat where they
/// sat; nobody else moves but whoever sat in the seat. (Somebody who holds several
/// seats keeps the others, and is found in the first.)
pub proof fn law_assigned_sits_there(s: SessionView, sub: Seq<char>, i: int, seat: Direction)
    requires
        0 <= i < s.rooms.len(),
        unique_keys(s.connections),
        s.reassigned(sub, i, seat) is Ok,
        match seat_from(s.rooms, sub, 0) {
            Some((j, f)) => sits_only(s, sub, j, f),
            None => token_from(s.connections, sub, 0) is Some,
        },
    ensures
        ({
            let after = s.reassigned(sub, i, seat)->Ok_0.0;
            &&& after.rooms.len() == s.rooms.len()
            &&& sits_only(after, sub, i, seat)
            &&& seat_from(after.rooms, sub, 0) == Some((i, seat))
            &&& seat_from(s.rooms, sub, 0) matches Some((j, f)) ==> {
                &&& after.sitter(i, seat) == s.sitter(j, f)
                &&& forall|k: int, d: Direction|
                    !(k == j && d == f) && !(k == i && d == seat) ==> #[trigger] after.sitter(k, d)
                        == s.sitter(k, d)
            }
        }),
{
    let after = s.reassigned(sub, i, seat)->Ok_0.0;
    lemma_seat_from(s.rooms, sub, 0);
    match seat_from(s.rooms, sub, 0) {
        Some((j, f)) => {
            assert(s.sitter(j, f)->0.sub == sub);
            if s.rooms[i].state.seats.held_by(seat, sub) {
                assert(s.sitter(i, seat)->0.sub == sub);
            } else if j == i {
                lemma_moved_sitters(s, i, f, seat);
            } else {
                lemma_moved_over_sitters(s, j, f, i, seat);
            }
        },
        None => {
            lemma_token_from(s.connections, sub, 0);
            let name = lookup(s.connections, s.token_for(sub))->0.name;
            assert forall|k: int, d: Direction| !(#[trigger] s.sitter(k, d) is Some && s.sitter(
                k,
                d,
            )->0.sub == sub) by {
                if 0 <= k < s.rooms.len() {
                    crate::rooms::law_seat_of(s.rooms[k].state.seats, sub);
                    assert(s.rooms[k].state.seats.seat_of(sub) is None);
                    assert(!s.rooms[k].state.seats.held_by(d, sub));
                }
            }
            assert(!(s.sitter(i, seat) is Some && s.sitter(i, seat)->0.sub == sub));
            assert(after == s.seat_given(i, seat, sub, name));
            lemma_taken_sitters(s, i, seat, fresh_occupant(sub, name));
        },
    }
    assert(sits_only(after, sub, i, seat));
    assert(after.sitter(i, seat)->0.sub == sub);
    lemma_found_there(after, sub, i, seat, 0);
}

/// Who sits where after an occupant took a seat.
proof fn lemma_taken_sitters(s: SessionView, i: int, seat: Direction, occ: OccupantView)
    requires
        0 <= i < s.rooms.len(),
    ensures
        s.seat_taken(i, seat, occ).rooms.len() == s.rooms.len(),
        forall|k: int, d: Direction| #[trigger]
            s.seat_taken(i, seat, occ).sitter(k, d) == (if k == i && d == seat {
                Some(occ)
            } else {
                s.sitter(k, d)
            }),
{
    let t = s.seat_taken(i, seat, occ);
    assert forall|k: int, d: Direction| #[trigger]
        t.sitter(k, d) == (if k == i && d == seat {
            Some(occ)
        } else {
            s.sitter(k, d)
        }) by {
        if 0 <= k < s.rooms.len() && k != i {
            assert(t.rooms[k] == s.rooms[k]);
        }
    }
}

/// Who sits where after an occupant moved within a table.
proof fn lemma_moved_sitters(s: SessionView, i: int, from: Direction, to: Direction)
    requires
        0 <= i < s.rooms.len(),
        from != to,
        s.sitter(i, from) is Some,
    ensures
        s.seat_moved(i, from, to).rooms.len() == s.rooms.len(),
        forall|k: int, d: Direction| #[trigger]
            s.seat_moved(i, from, to).sitter(k, d) == (if k == i && d == to {
                s.sitter(i, from)
            } else if k == i && d == from {
                s.sitter(i, to)
            } else {
                s.sitter(k, d)
            }),
{
    let t = s.seat_moved(i, from, to);
    assert forall|k: int, d: Direction| #[trigger]
        t.sitter(k, d) == (if k == i && d == to {
            s.sitter(i, from)
        } else if k == i && d == from {
            s.sitter(i, to)
        } else {
            s.sitter(k, d)
        }) by {
        if k == i {
            law_move_exchanges(s.rooms[i].state, from, to, d);
        } else if 0 <= k < s.rooms.len() {
            assert(t.rooms[k] == s.rooms[k]);
        }
    }
}

/// Who sits where after an occupant moved to another table.
proof fn lemma_moved_over_sitters(
    s: SessionView,
    j: int,
    from: Direction,
    i: int,
    to: Direction,
)
    requires
        0 <= i < s.rooms.len(),
        0 <= j < s.rooms.len(),
        i != j,
        s.sitter(j, from) is Some,
    ensures
        s.moved_over(j, from, i, to).rooms.len() == s.rooms.len(),
        forall|k: int, d: Direction| #[trigger]
            s.moved_over(j, from, i, to).sitter(k, d) == (if k == i && d == to {
                s.sitter(j, from)
            } else if k == j && d == from {
                None
            } else {
                s.sitter(k, d)
            }),
{
    let r = s.rooms[j];
    let t = s.with_room(j, RoomView { state: r.state.vacated(from).with_bot(from), ..r });
    assert forall|k: int, d: Direction| #[trigger]
        t.sitter(k, d) == (if k == j && d == from {
            None
        } else {
            s.sitter(k, d)
        }) by {
        if 0 <= k < s.rooms.len() && k != j {
            assert(t.rooms[k] == s.rooms[k]);
        }
    }
    lemma_taken_sitters(t, i, to, s.sitter(j, from)->0);
}

/// Moving an occupant exchanges what two seats hold and touches no other;
/// moving two occupants twice puts them back.
pub proof fn law_move_exchanges(
    r: RoomInnerView,
    from: Direction,
    to: Direction,
    seat: Direction,
)
    requires
        from != to,
        r.seats.get(from) is Some,
    ensures
        ({
            let after = r.moved(from, to);
            &&& after.seats.get(to) == r.seats.get(from)
            &&& after.seats.get(from) == r.seats.get(to)
            &&& seat != from && seat != to ==> after.seats.get(seat) == r.seats.get(seat)
            &&& !after.ready.has(from) && !after.ready.has(to)
            &&& after.table == r.table
            &&& r.seats.get(to) is Some ==> after.moved(from, to).seats == r.seats
        }),
{
}

/// Whoever is removed from a seat is gone from it. If they are connected and
/// sit nowhere else they wait in the lobby, parked: no bulk seating takes them.
/// The seat goes to a bot exactly if one was asked for.
pub proof fn law_vacate_parks(
    s: SessionView,
    i: int,
    seat: Direction,
    seat_bot: bool,
    on_turn: bool,
    now: u64,
)
    requires
        0 <= i < s.rooms.len(),
        unique_keys(s.kibitzers),
    ensures
        ({
            let after = s.seat_vacated(i, seat, seat_bot);
            let state = after.rooms[i].state;
            &&& state.seats.get(seat) is None
            &&& !state.ready.has(seat)
            &&& state.bot_controlled(seat, on_turn, now) == seat_bot
            &&& match s.rooms[i].state.seats.get(seat) {
                Some(o) => o.connected && !sits_anywhere(after.rooms, o.sub) ==> lookup(
                    after.kibitzers,
                    o.sub,
                ) == Some(
                    KibitzerView {
                        name: o.name,
                        room_id: Some(s.rooms[i].id),
                        parked: true,
                    },
                ),
                None => after.kibitzers == s.kibitzers,
            }
        }),
{
    if let Some(o) = s.rooms[i].state.seats.get(seat) {
        law_directory(
            s.kibitzers,
            o.sub,
            KibitzerView { name: o.name, room_id: Some(s.rooms[i].id), parked: true },
            o.sub,
        );
    }
}

/// Somebody who is kicked holds no seat, is not in the lobby and has no
/// connection; their seats are bots', and everybody else's seats are as before.
pub proof fn law_kick_removes_entirely(
    s: SessionView,
    sub: Seq<char>,
    i: int,
    seat: Direction,
    j: int,
)
    requires
        unique_keys(s.kibitzers),
        0 <= i < s.rooms.len(),
    ensures
        ({
            let after = s.kicked(sub);
            let before_seats = s.rooms[i].state.seats;
            let state = after.rooms[i].state;
            &&& !state.seats.held_by(seat, sub)
            &&& !has_key(after.kibitzers, sub)
            &&& 0 <= j < after.connections.len() ==> after.connections[j].1.sub != sub
            &&& if before_seats.held_by(seat, sub) {
                state.seats.get(seat) is None && state.bots.has(seat) && !state.no_bot.has(seat)
            } else {
                state.seats.get(seat) == before_seats.get(seat)
            }
            &&& state.table == s.rooms[i].state.table
        }),
{
    law_directory(
        s.kibitzers,
        sub,
        KibitzerView { name: sub, room_id: None, parked: false },
        sub,
    );
    lemma_kept(s.connections, None, sub);
    match seat {
        Direction::North => {},
        Direction::East => {},
        Direction::South => {},
        Direction::West => {},
    }
}

/// Whoever waits is listed as waiting; whoever is parked is not.
proof fn lemma_waiting_lists(kibitzers: Seq<(Seq<char>, KibitzerView)>, i: int)
    requires
        unique_keys(kibitzers),
        0 <= i < kibitzers.len(),
    ensures
        !kibitzers[i].1.parked ==> exists|j: int|
            0 <= j < waiting(kibitzers).len() && #[trigger] waiting(kibitzers)[j].0
                == kibitzers[i].0,
        kibitzers[i].1.parked ==> forall|j: int|
            0 <= j < waiting(kibitzers).len() ==> #[trigger] waiting(kibitzers)[j].0
                != kibitzers[i].0,
    decreases kibitzers.len(),
{
    let head = kibitzers.drop_last();
    let last = kibitzers.last();
    let n = kibitzers.len() - 1;
    assert(unique_keys(head)) by {
        assert forall|a: int, b: int| 0 <= a < b < head.len() implies #[trigger] head[a].0
            != #[trigger] head[b].0 by {
            assert(head[a] == kibitzers[a] && head[b] == kibitzers[b]);
        }
    }
    let all = waiting(kibitzers);
    let before = waiting(head);
    if i < n {
        lemma_waiting_lists(head, i);
        assert(head[i] == kibitzers[i]);
        if !kibitzers[i].1.parked {
            let j = choose|j: int| 0 <= j < before.len() && #[trigger] before[j].0 == head[i].0;
            assert(all[j] == before[j]);
        } else {
            assert forall|j: int| 0 <= j < all.len() implies #[trigger] all[j].0
                != kibitzers[i].0 by {
                if j < before.len() {
                    assert(all[j] == before[j]);
                } else {
                    assert(kibitzers[i].0 != kibitzers[n].0);
                }
            }
        }
    } else if !last.1.parked {
        assert(all[before.len() as int].0 == last.0);
    } else {
        assert forall|j: int| 0 <= j < all.len() implies #[trigger] all[j].0 != kibitzers[i].0 by {
            lemma_waiting_from(head, j);
            let k = choose|k: int| 0 <= k < head.len() && #[trigger] head[k].0 == before[j].0;
            assert(kibitzers[k].0 != kibitzers[n].0);
        }
    }
}

/// Whoever is listed as waiting is in the lobby.
proof fn lemma_waiting_from(kibitzers: Seq<(Seq<char>, KibitzerView)>, j: int)
    requires
        0 <= j < waiting(kibitzers).len(),
    ensures
        exists|k: int|
            0 <= k < kibitzers.len() && #[trigger] kibitzers[k].0 == waiting(kibitzers)[j].0,
    decreases kibitzers.len(),
{
    let head = kibitzers.drop_last();
    let before = waiting(head);
    if j < before.len() {
        lemma_waiting_from(head, j);
        let k = choose|k: int| 0 <= k < head.len() && #[trigger] head[k].0 == before[j].0;
        assert(kibitzers[k] == head[k]);
    } else {
        assert(kibitzers[kibitzers.len() - 1].0 == waiting(kibitzers)[j].0);
    }
}

/// Somebody sits at some table, and is connected.
pub open spec fn sits_connected(s: SessionView, sub: Seq<char>) -> bool {
    exists|i: int, d: Direction|
        #![trigger s.rooms[i].state.seats.get(d)]
        0 <= i < s.rooms.len() && (s.rooms[i].state.seats.get(d) matches Some(o) && o.sub == sub
            && o.connected)
}

proof fn lemma_sits_on(s: SessionView, t: SessionView, sub: Seq<char>)
    requires
        keeps_people(s, t),
        sits_connected(s, sub),
    ensures
        sits_connected(t, sub),
{
    let (i, d) = choose|i: int, d: Direction|
        #![trigger s.rooms[i].state.seats.get(d)]
        0 <= i < s.rooms.len() && (s.rooms[i].state.seats.get(d) matches Some(o) && o.sub == sub
            && o.connected);
    assert(keeps_seats(s.rooms[i].state.seats, t.rooms[i].state.seats));
    assert(keeps_seat(s.rooms[i].state.seats.get(d), t.rooms[i].state.seats.get(d)));
}

proof fn lemma_seat_all(
    s: SessionView,
    shape: PolicyView,
    people: Seq<(Seq<char>, Seq<char>)>,
    n: int,
)
    requires
        0 <= n <= people.len(),
        unique_keys(s.kibitzers),
    ensures
        ({
            let t = s.seat_all(shape, people, n).0;
            &&& keeps_people(s, t)
            &&& unique_keys(t.kibitzers)
            &&& forall|j: int| 0 <= j < n ==> sits_connected(t, (#[trigger] people[j]).0)
            &&& forall|key: Seq<char>|
                #![trigger lookup(t.kibitzers, key)]
                lookup(t.kibitzers, key) == (if exists|j: int|
                    0 <= j < n && (#[trigger] people[j]).0 == key {
                    None
                } else {
                    lookup(s.kibitzers, key)
                })
        }),
    decreases n,
{
    if n > 0 {
        lemma_seat_all(s, shape, people, n - 1);
        let t = s.seat_all(shape, people, n - 1).0;
        let (sub, name) = people[n - 1];
        let (u, i, seat) = t.seat_one(shape, sub, name);
        let v = s.seat_all(shape, people, n).0;
        law_seat_one(t, shape, sub, name);
        lemma_seat_one_frame(t, shape, sub, name);
        assert(v.rooms == u.rooms);
        assert(keeps_people(t, v));
        assert(keeps_people(s, v)) by {
            assert forall|k: int|
                #![trigger v.rooms[k]]
                0 <= k < s.rooms.len() implies keeps_seats(
                s.rooms[k].state.seats,
                v.rooms[k].state.seats,
            ) by {
                let a = s.rooms[k].state.seats;
                let b = t.rooms[k].state.seats;
                let c = v.rooms[k].state.seats;
                assert(keeps_seats(a, b) && keeps_seats(b, c));
                assert forall|d: Direction| keeps_seat(a.get(d), #[trigger] c.get(d)) by {
                    assert(keeps_seat(a.get(d), b.get(d)));
                }
            }
        }
        law_directory(
            t.kibitzers,
            sub,
            KibitzerView { name, room_id: None, parked: false },
            sub,
        );
        assert forall|j: int| 0 <= j < n implies sits_connected(v, (#[trigger] people[j]).0) by {
            if j < n - 1 {
                lemma_sits_on(t, v, people[j].0);
            } else {
                assert(v.rooms[i].state.seats.get(seat) == Some(fresh_occupant(sub, name)));
            }
        }
        assert forall|key: Seq<char>|
            #![trigger lookup(v.kibitzers, key)]
            lookup(v.kibitzers, key) == (if exists|j: int|
                0 <= j < n && (#[trigger] people[j]).0 == key {
                None
            } else {
                lookup(s.kibitzers, key)
            }) by {
            law_directory(
                t.kibitzers,
                sub,
                KibitzerView { name, room_id: None, parked: false },
                key,
            );
            if key == sub {
                assert(people[n - 1].0 == key);
            } else {
                assert(lookup(v.kibitzers, key) == lookup(t.kibitzers, key));
                if exists|j: int| 0 <= j < n && (#[trigger] people[j]).0 == key {
                    let j = choose|j: int| 0 <= j < n && (#[trigger] people[j]).0 == key;
                    assert(j < n - 1);
                }
            }
        }
    } else {
        assert(keeps_people(s, s));
    }
}

/// The first `n` of some people have each got a seat of their own, which was
/// vacant, and everybody else sits where they sat.
pub open spec fn seated_at(
    s: SessionView,
    t: SessionView,
    people: Seq<(Seq<char>, Seq<char>)>,
    places: Seq<(int, Direction)>,
    n: int,
) -> bool {
    &&& s.rooms.len() <= t.rooms.len()
    &&& places.len() == n
    &&& places.no_duplicates()
    &&& forall|j: int|
        #![trigger places[j]]
        0 <= j < n ==> {
            let (i, d) = places[j];
            &&& 0 <= i < t.rooms.len()
            &&& s.sitter(i, d) is None
            &&& t.sitter(i, d) == Some(fresh_occupant(people[j].0, people[j].1))
        }
    &&& forall|i: int, d: Direction|
        !places.contains((i, d)) ==> #[trigger] t.sitter(i, d) == s.sitter(i, d)
}

/// Seating people one after the other gives each a seat of their own, and lists
/// the tables at which they sit, each once.
proof fn lemma_seat_places(
    s: SessionView,
    shape: PolicyView,
    people: Seq<(Seq<char>, Seq<char>)>,
    n: int,
)
    requires
        0 <= n <= people.len(),
        s.rooms.len() + n <= usize::MAX,
    ensures
        ({
            let (t, changed) = s.seat_all(shape, people, n);
            let places = s.seat_places(shape, people, n);
            &&& seated_at(s, t, people, places, n)
            &&& t.rooms.len() <= s.rooms.len() + n
            &&& changed.no_duplicates()
            &&& forall|i: int|
                0 <= i < t.rooms.len() ==> (#[trigger] changed.contains(i as usize) <==> exists|
                    j: int,
                |
                    0 <= j < n && (#[trigger] places[j]).0 == i)
        }),
    decreases n,
{
    let (v, changed) = s.seat_all(shape, people, n);
    let places = s.seat_places(shape, people, n);
    if n > 0 {
        let (t, before) = s.seat_all(shape, people, n - 1);
        let earlier = s.seat_places(shape, people, n - 1);
        let (sub, name) = people[n - 1];
        let (u, i, seat) = t.seat_one(shape, sub, name);
        lemma_seat_places(s, shape, people, n - 1);
        law_seat_one(t, shape, sub, name);
        lemma_seat_one_frame(t, shape, sub, name);
        assert(v.rooms == u.rooms);
        assert(forall|k: int, d: Direction| #[trigger] v.sitter(k, d) == u.sitter(k, d));
        // The new seat is vacant, so it is none of the earlier ones.
        assert forall|j: int| 0 <= j < n - 1 implies #[trigger] earlier[j] != (i, seat) by {
            let (k, d) = earlier[j];
            assert(t.sitter(k, d) is Some);
        }
        assert(!earlier.contains((i, seat)));
        assert(places.no_duplicates()) by {
            assert forall|a: int, b: int|
                0 <= a < places.len() && 0 <= b < places.len() && a != b implies places[a]
                != places[b] by {
                if a < n - 1 {
                    assert(places[a] == earlier[a]);
                }
                if b < n - 1 {
                    assert(places[b] == earlier[b]);
                }
            }
        }
        assert forall|j: int| #![trigger places[j]] 0 <= j < n implies ({
            let (k, d) = places[j];
            &&& 0 <= k < v.rooms.len()
            &&& s.sitter(k, d) is None
            &&& v.sitter(k, d) == Some(fresh_occupant(people[j].0, people[j].1))
        }) by {
            let (k, d) = places[j];
            if j < n - 1 {
                assert(places[j] == earlier[j]);
                assert(u.sitter(k, d) == t.sitter(k, d));
            } else {
                assert(t.sitter(i, seat) == s.sitter(i, seat));
            }
        }
        assert forall|k: int, d: Direction| !places.contains((k, d)) implies #[trigger] v.sitter(
            k,
            d,
        ) == s.sitter(k, d) by {
            assert(places[n - 1] == (i, seat));
            if earlier.contains((k, d)) {
                let j = earlier.index_of((k, d));
                assert(places[j] == (k, d));
            }
            assert(u.sitter(k, d) == t.sitter(k, d));
        }
        assert forall|k: int| 0 <= k < v.rooms.len() implies (#[trigger] changed.contains(
            k as usize,
        ) <==> exists|j: int| 0 <= j < n && (#[trigger] places[j]).0 == k) by {
            lemma_listed(before, i as usize, k as usize);
            assert(places[n - 1].0 == i);
            assert(forall|j: int| 0 <= j < n - 1 ==> places[j] == earlier[j]);
            if k < t.rooms.len() {
                if before.contains(k as usize) {
                    let j = choose|j: int| 0 <= j < n - 1 && (#[trigger] earlier[j]).0 == k;
                    assert(places[j].0 == k);
                }
            } else if before.contains(k as usize) {
                lemma_changed_bound(s, shape, people, n - 1, k as usize);
            }
            if exists|j: int| 0 <= j < n && (#[trigger] places[j]).0 == k {
                let j = choose|j: int| 0 <= j < n && (#[trigger] places[j]).0 == k;
                if j < n - 1 {
                    assert(earlier[j].0 == k);
                }
            }
        }
    }
}

/// A list with one number more, unless it is there, holds that number and what it
/// held.
proof fn lemma_listed(list: Seq<usize>, n: usize, m: usize)
    ensures
        list.push(n).contains(m) <==> list.contains(m) || m == n,
{
    let longer = list.push(n);
    assert(longer[list.len() as int] == n);
    if list.contains(m) {
        let j = list.index_of(m);
        assert(longer[j] == m);
    }
    if longer.contains(m) {
        let j = longer.index_of(m);
        if j < list.len() {
            assert(list[j] == m);
        }
    }
}

/// The tables that are listed as changed are there.
proof fn lemma_changed_bound(
    s: SessionView,
    shape: PolicyView,
    people: Seq<(Seq<char>, Seq<char>)>,
    n: int,
    m: usize,
)
    requires
        0 <= n <= people.len(),
        s.rooms.len() + n <= usize::MAX,
        s.seat_all(shape, people, n).1.contains(m),
    ensures
        m < s.seat_all(shape, people, n).0.rooms.len() <= s.rooms.len() + n,
    decreases n,
{
    if n > 0 {
        let (t, before) = s.seat_all(shape, people, n - 1);
        let (sub, name) = people[n - 1];
        let i = t.seat_one(shape, sub, name).1;
        law_seat_one(t, shape, sub, name);
        lemma_seat_one_frame(t, shape, sub, name);
        lemma_listed(before, i as usize, m);
        lemma_rooms_bound(s, shape, people, n - 1);
        if before.contains(m) {
            lemma_changed_bound(s, shape, people, n - 1, m);
        }
    }
}

/// Seating people adds at most as many tables.
proof fn lemma_rooms_bound(
    s: SessionView,
    shape: PolicyView,
    people: Seq<(Seq<char>, Seq<char>)>,
    n: int,
)
    requires
        0 <= n,
    ensures
        s.seat_all(shape, people, n).0.rooms.len() <= s.rooms.len() + n,
    decreases n,
{
    if n > 0 {
        let t = s.seat_all(shape, people, n - 1).0;
        lemma_rooms_bound(s, shape, people, n - 1);
        lemma_seat_one_frame(t, shape, people[n - 1].0, people[n - 1].1);
    }
}

/// Bulk seating seats everybody who waits, each in a vacant seat of their own,
/// and empties the lobby of them; whoever is parked stays parked; everybody else
/// sits where they sat. The tables at which somebody was seated are listed, each
/// once.
pub proof fn law_seat_students(s: SessionView, key: Seq<char>)
    requires
        unique_keys(s.kibitzers),
        s.rooms.len() + s.kibitzers.len() <= usize::MAX,
    ensures
        ({
            let people = waiting(s.kibitzers);
            let n = people.len() as int;
            let (after, changed) = s.seat_all(s.policy.bulk(), people, n);
            let places = s.seat_places(s.policy.bulk(), people, n);
            &&& seated_at(s, after, people, places, n)
            &&& changed.no_duplicates()
            &&& forall|i: int|
                0 <= i < after.rooms.len() ==> (#[trigger] changed.contains(i as usize)
                    <==> exists|j: int| 0 <= j < n && (#[trigger] places[j]).0 == i)
            &&& keeps_people(s, after)
            &&& match lookup(s.kibitzers, key) {
                Some(k) => if k.parked {
                    lookup(after.kibitzers, key) == Some(k)
                } else {
                    lookup(after.kibitzers, key) is None && sits_connected(after, key)
                },
                None => lookup(after.kibitzers, key) is None,
            }
        }),
{
    let people = waiting(s.kibitzers);
    let shape = s.policy.bulk();
    let after = s.seat_all(shape, people, people.len() as int).0;
    lemma_seat_all(s, shape, people, people.len() as int);
    lemma_waiting_len(s.kibitzers);
    lemma_seat_places(s, shape, people, people.len() as int);
    if has_key(s.kibitzers, key) {
        let p = crate::directory::position(s.kibitzers, key);
        crate::directory::lemma_position(s.kibitzers, key);
        lemma_waiting_lists(s.kibitzers, p);
        let k = s.kibitzers[p].1;
        if k.parked {
            assert(!exists|j: int|
                0 <= j < people.len() && (#[trigger] people[j]).0 == key);
        } else {
            let j = choose|j: int|
                0 <= j < people.len() && #[trigger] people[j].0 == s.kibitzers[p].0;
            assert(people[j].0 == key);
            assert(lookup(after.kibitzers, key) is None);
        }
    } else {
        assert(lookup(s.kibitzers, key) is None);
        assert(lookup(after.kibitzers, key) is None);
    }
}

/// The waiting list grows at its end with whoever comes to wait, and not with
/// whoever is parked.
pub proof fn law_waiting_in_order(
    kibitzers: Seq<(Seq<char>, KibitzerView)>,
    sub: Seq<char>,
    k: KibitzerView,
)
    ensures
        waiting(kibitzers.push((sub, k))) == (if k.parked {
            waiting(kibitzers)
        } else {
            waiting(kibitzers).push((sub, k.name))
        }),
        waiting(Seq::<(Seq<char>, KibitzerView)>::empty()).len() == 0,
{
    assert(kibitzers.push((sub, k)).drop_last() =~= kibitzers);
}

/// Whoever loses a seat without being connected, or while sitting elsewhere, does
/// not come to the lobby; and vacating a vacant seat counts as a change exactly
/// if it changes whether a bot drives the seat.
pub proof fn law_vacate_is_seen(s: SessionView, i: int, seat: Direction, seat_bot: bool, now: u64)
    requires
        0 <= i < s.rooms.len(),
    ensures
        ({
            let after = s.seat_vacated(i, seat, seat_bot);
            let before = s.rooms[i].state;
            &&& before.seats.get(seat) matches Some(o) ==> (!o.connected || sits_anywhere(
                after.rooms,
                o.sub,
            ) ==> after.kibitzers == s.kibitzers)
            &&& before.seats.get(seat) is Some ==> s.vacating_changes(i, seat, seat_bot)
            &&& before.seats.get(seat) is None ==> s.vacating_changes(i, seat, seat_bot) == (
            before.bot_controlled(seat, true, now) != after.rooms[i].state.bot_controlled(
                seat,
                true,
                now,
            ))
        }),
{
}

/// Which seat assignments are refused: a move from an empty seat, a seating of
/// nobody or of an unknown connection, and one that names neither.
pub proof fn law_refused_assignments(
    s: SessionView,
    i: int,
    target: Option<Direction>,
    from: Option<Direction>,
    token: Option<Seq<char>>,
    seat_bot: bool,
)
    ensures
        s.assigned_at(i, target, from, token, seat_bot) is Err <==> match from {
            Some(f) => target matches Some(t) && t != f && s.rooms[i].state.seats.get(f) is None,
            None => target is None || !(token matches Some(tok) && lookup(
                s.connections,
                tok,
            ) is Some),
        },
        from is Some && target == from ==> s.assigned_at(i, target, from, token, seat_bot) == Ok::<
            (SessionView, bool),
            Seq<char>,
        >((s, false)),
{
}

/// A connection that is assigned a seat sits there and waits no longer. Whoever
/// sat there and is connected is parked in the lobby, if they sit nowhere else.
/// All other seats are as before.
pub proof fn law_seated_by_token(
    s: SessionView,
    i: int,
    seat: Direction,
    token: Seq<char>,
    k: int,
    d: Direction,
)
    requires
        0 <= i < s.rooms.len(),
        unique_keys(s.kibitzers),
        lookup(s.connections, token) is Some,
        !s.rooms[i].state.seats.held_by(seat, lookup(s.connections, token)->0.sub),
    ensures
        ({
            let m = lookup(s.connections, token)->0;
            s.assigned_at(i, Some(seat), None, Some(token), false) matches Ok((after, changed)) && {
                &&& changed
                &&& after.rooms.len() == s.rooms.len()
                &&& after.sitter(i, seat) == Some(fresh_occupant(m.sub, m.name))
                &&& !(k == i && d == seat) ==> after.sitter(k, d) == s.sitter(k, d)
                &&& lookup(after.kibitzers, m.sub) is None
                &&& match s.sitter(i, seat) {
                    Some(o) => if o.connected && !sits_anywhere(after.rooms, o.sub) {
                        lookup(after.kibitzers, o.sub) == Some(
                            KibitzerView {
                                name: o.name,
                                room_id: Some(s.rooms[i].id),
                                parked: true,
                            },
                        )
                    } else {
                        after.kibitzers == without_key(s.kibitzers, m.sub)
                    },
                    None => after.kibitzers == without_key(s.kibitzers, m.sub),
                }
            }
        }),
{
    let m = lookup(s.connections, token)->0;
    let filler = KibitzerView { name: m.name, room_id: None, parked: false };
    lemma_taken_sitters(s, i, seat, fresh_occupant(m.sub, m.name));
    law_directory(s.kibitzers, m.sub, filler, m.sub);
    if let Some(o) = s.rooms[i].state.seats.get(seat) {
        let without = without_key(s.kibitzers, m.sub);
        let parked = KibitzerView { name: o.name, room_id: Some(s.rooms[i].id), parked: true };
        law_directory(without, o.sub, parked, o.sub);
        law_directory(without, o.sub, parked, m.sub);
    }
}

/// An assignment that names a table is about the table with that id; one that
/// names none is about the first.
pub proof fn law_assign_table(s: SessionView, id: Seq<char>)
    ensures
        s.assign_table(Some(id)) matches Ok(i) ==> 0 <= i < s.rooms.len() && s.rooms[i].id == id,
        (forall|j: int| 0 <= j < s.rooms.len() ==> (#[trigger] s.rooms[j]).id != id)
            ==> s.assign_table(Some(id)) is Err,
        s.assign_table(None) is Ok <==> s.rooms.len() > 0,
        s.assign_table(None) matches Ok(i) ==> i == 0,
{
    crate::sessions::placing::lemma_room_from(s.rooms, id, 0);
}

/// The tables that a kick changes are those at which the person sits.
pub proof fn law_tables_of(rooms: Seq<RoomView>, sub: Seq<char>, n: int, i: int)
    requires
        0 <= n <= rooms.len() <= usize::MAX,
        0 <= i < rooms.len(),
    ensures
        tables_of(rooms, sub, n).contains(i as usize) <==> i < n && exists|d: Direction|
            #[trigger] rooms[i].state.seats.held_by(d, sub),
    decreases n,
{
    if n > 0 {
        law_tables_of(rooms, sub, n - 1, i);
        crate::rooms::law_seat_of(rooms[n - 1].state.seats, sub);
        lemma_listed(tables_of(rooms, sub, n - 1), (n - 1) as usize, i as usize);
        if rooms[n - 1].state.seats.seat_of(sub) is Some {
            assert(rooms[n - 1].state.seats.held_by(
                rooms[n - 1].state.seats.seat_of(sub)->0,
                sub,
            ));
        }
    }
}

/// Whoever takes a seat sits there, and no other table changes.
proof fn lemma_seat_taken(s: SessionView, i: int, seat: Direction, occ: OccupantView, j: int)
    requires
        0 <= i < s.rooms.len(),
        0 <= j < s.rooms.len(),
        i != j,
    ensures
        ({
            let after = s.seat_taken(i, seat, occ);
            &&& after.rooms[i].state.seats.get(seat) == Some(occ)
            &&& after.rooms[j] == s.rooms[j]
        }),
{
    let state = s.rooms[i].state;
    crate::rooms::law_seats(state.seats, seat, seat, Some(occ));
    crate::rooms::law_seats(state.vacated(seat).seats, seat, seat, Some(occ));
}

/// Whoever is moved to another table takes their place there as connected as they
/// are, and a bot gets the seat that they leave.
pub proof fn law_moving_over(s: SessionView, j: int, f: Direction, i: int, seat: Direction)
    requires
        0 <= i < s.rooms.len(),
        0 <= j < s.rooms.len(),
        i != j,
        s.rooms[j].state.seats.get(f) is Some,
    ensures
        ({
            let after = s.moved_over(j, f, i, seat);
            &&& after.rooms[i].state.seats.get(seat) == s.rooms[j].state.seats.get(f)
            &&& after.rooms[j].state.seats.get(f) is None
            &&& after.rooms[j].state.bots.has(f) && !after.rooms[j].state.no_bot.has(f)
        }),
{
    let r = s.rooms[j];
    let occ = r.state.seats.get(f)->0;
    let emptied = r.state.vacated(f).with_bot(f);
    let t = s.with_room(j, RoomView { state: emptied, ..r });
    crate::cards::law_seat_set(r.state.bots, f, f, true);
    crate::cards::law_seat_set(r.state.no_bot, f, f, false);
    crate::rooms::law_seats(r.state.seats, f, f, None);
    lemma_seat_taken(t, i, seat, occ, j);
    assert(t.rooms[j].state == emptied);
    assert(s.moved_over(j, f, i, seat) == t.seat_taken(i, seat, occ));
}

/// The tables that a reassignment changes: none for whoever sits there already,
/// the one table for a move within it, and for a move between tables the one that
/// was left and then the other.
pub proof fn law_tables_changed(
    s: SessionView,
    sub: Seq<char>,
    j: int,
    f: Direction,
    i: int,
    seat: Direction,
)
    requires
        seat_from(s.rooms, sub, 0) == Some((j, f)),
    ensures
        s.reassigned(sub, i, seat) is Ok,
        s.rooms[i].state.seats.held_by(seat, sub) ==> s.reassigned(sub, i, seat)->Ok_0.1
            == Seq::<usize>::empty(),
        !s.rooms[i].state.seats.held_by(seat, sub) && j == i ==> s.reassigned(sub, i, seat)->Ok_0
            == (s.seat_moved(i, f, seat), seq![i as usize]),
        !s.rooms[i].state.seats.held_by(seat, sub) && j != i ==> s.reassigned(sub, i, seat)->Ok_0
            == (s.moved_over(j, f, i, seat), seq![j as usize, i as usize]),
{
}

/// A connection is addressed by its own token; somebody without one, by
/// themselves.
pub proof fn law_token_for(s: SessionView, sub: Seq<char>, k: int)
    requires
        0 <= k <= s.connections.len(),
        forall|j: int| 0 <= j < k ==> (#[trigger] s.connections[j]).1.sub != sub,
        k < s.connections.len() ==> s.connections[k].1.sub == sub,
    ensures
        k < s.connections.len() ==> s.token_for(sub) == s.connections[k].0,
        k == s.connections.len() ==> s.token_for(sub) == sub,
{
    law_token_found(s.connections, sub, 0, k);
}

} // verus!
