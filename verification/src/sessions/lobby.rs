//! What the host sees: the roster and the lobby frame.

use vstd::prelude::*;
use vstd::string::*;

use crate::cards::{Direction, SeatSet};
use crate::directory::{lemma_position, lookup, position};
use crate::rooms::{BoardMode, BotMode, RoomView, SeatLabels, SeatLabelsView};
use crate::sessions::{account_id_of, id_view, is_guest, views, ConnView, Session, SessionView};
use crate::table::{snapshot_of, BoardResult, Snapshot, SnapshotView};
use crate::text::{at_most, law_text_order, same, text_le};

verus! {

/// One human connection, as the host sees it.
#[derive(Debug)]
pub struct RosterEntry {
    pub token: String,
    pub name: String,
    pub connected: bool,
    /// The seats held, in the order of their letters. Empty = a waiter.
    pub seats: Vec<Direction>,
    /// The account behind the connection; `None` for a guest.
    pub account_id: Option<String>,
}

/// What a roster entry says.
#[verifier::ext_equal]
pub ghost struct RosterEntryView {
    pub token: Seq<char>,
    pub name: Seq<char>,
    pub connected: bool,
    pub seats: Seq<Direction>,
    pub account_id: Option<Seq<char>>,
}

impl View for RosterEntry {
    type V = RosterEntryView;

    open spec fn view(&self) -> RosterEntryView {
        RosterEntryView {
            token: self.token@,
            name: self.name@,
            connected: self.connected,
            seats: self.seats@,
            account_id: id_view(self.account_id),
        }
    }
}

/// At how many of the first `n` tables somebody holds the given seat.
pub open spec fn held_count(rooms: Seq<RoomView>, sub: Seq<char>, seat: Direction, n: int) -> nat
    decreases n,
{
    if n <= 0 {
        0
    } else {
        held_count(rooms, sub, seat, n - 1) + (if rooms[n - 1].state.seats.held_by(seat, sub) {
            1nat
        } else {
            0nat
        })
    }
}

/// A seat, some times over.
pub open spec fn times(seat: Direction, n: nat) -> Seq<Direction> {
    Seq::new(n, |i: int| seat)
}

/// The seats that somebody holds, in the order of their letters: E, N, S, W.
pub open spec fn lettered_seats(rooms: Seq<RoomView>, sub: Seq<char>) -> Seq<Direction> {
    let n = rooms.len() as int;
    times(Direction::East, held_count(rooms, sub, Direction::East, n)) + times(
        Direction::North,
        held_count(rooms, sub, Direction::North, n),
    ) + times(Direction::South, held_count(rooms, sub, Direction::South, n)) + times(
        Direction::West,
        held_count(rooms, sub, Direction::West, n),
    )
}

/// How a connection is listed.
pub open spec fn entry_of(rooms: Seq<RoomView>, token: Seq<char>, m: ConnView) -> RosterEntryView {
    RosterEntryView {
        token,
        name: m.name,
        connected: m.connected,
        seats: lettered_seats(rooms, m.sub),
        account_id: if is_guest(m.sub) {
            None
        } else {
            Some(m.sub)
        },
    }
}

/// The entries of the first `n` connections. A disconnected connection that
/// holds no seat has genuinely left, and is not listed; one that still holds a
/// seat stays.
pub open spec fn entries_of(s: SessionView, n: int) -> Seq<RosterEntryView>
    decreases n,
{
    if n <= 0 {
        seq![]
    } else {
        let e = entry_of(s.rooms, s.connections[n - 1].0, s.connections[n - 1].1);
        if !e.connected && e.seats.len() == 0 {
            entries_of(s, n - 1)
        } else {
            entries_of(s, n - 1).push(e)
        }
    }
}

/// The order of the roster: by name, and then by token.
pub open spec fn entry_le(a: RosterEntryView, b: RosterEntryView) -> bool {
    if a.name == b.name {
        text_le(a.token, b.token)
    } else {
        text_le(a.name, b.name)
    }
}

/// An entry is put into an ordered list, before the first that it does not
/// come after.
pub open spec fn put_in_order(list: Seq<RosterEntryView>, e: RosterEntryView) -> Seq<
    RosterEntryView,
>
    decreases list.len(),
{
    if list.len() == 0 {
        seq![e]
    } else if entry_le(e, list[0]) {
        seq![e] + list
    } else {
        seq![list[0]] + put_in_order(list.drop_first(), e)
    }
}

/// The first `n` entries of a list, in order.
pub open spec fn in_order(list: Seq<RosterEntryView>, n: int) -> Seq<RosterEntryView>
    decreases n,
{
    if n <= 0 {
        seq![]
    } else {
        put_in_order(in_order(list, n - 1), list[n - 1])
    }
}

/// The roster: one entry per human connection, in order.
pub open spec fn roster_of(s: SessionView) -> Seq<RosterEntryView> {
    let entries = entries_of(s, s.connections.len() as int);
    in_order(entries, entries.len() as int)
}

/// The order of the roster is total and transitive.
proof fn lemma_entry_order(a: RosterEntryView, b: RosterEntryView, c: RosterEntryView)
    ensures
        entry_le(a, b) || entry_le(b, a),
        entry_le(a, b) && entry_le(b, c) ==> entry_le(a, c),
{
    law_text_order(a.name, b.name, c.name);
    law_text_order(b.name, c.name, a.name);
    law_text_order(c.name, a.name, b.name);
    law_text_order(a.token, b.token, c.token);
}

/// A list in which nobody comes before an earlier one.
pub open spec fn ordered(list: Seq<RosterEntryView>) -> bool {
    forall|i: int, j: int|
        0 <= i <= j < list.len() ==> entry_le(#[trigger] list[i], #[trigger] list[j])
}

/// Where an entry goes in an ordered list.
proof fn lemma_put_in_order(list: Seq<RosterEntryView>, e: RosterEntryView, p: int)
    requires
        0 <= p <= list.len(),
        forall|i: int| 0 <= i < p ==> !entry_le(e, #[trigger] list[i]),
        p < list.len() ==> entry_le(e, list[p]),
    ensures
        put_in_order(list, e) == list.insert(p, e),
    decreases list.len(),
{
    if list.len() == 0 {
        assert(put_in_order(list, e) =~= list.insert(p, e));
    } else if p == 0 {
        assert(put_in_order(list, e) =~= list.insert(p, e));
    } else {
        let rest = list.drop_first();
        assert(!entry_le(e, list[0]));
        assert forall|i: int| 0 <= i < p - 1 implies !entry_le(e, #[trigger] rest[i]) by {
            assert(rest[i] == list[i + 1]);
        }
        lemma_put_in_order(rest, e, p - 1);
        assert(put_in_order(list, e) =~= list.insert(p, e));
    }
}

/// An entry that is put into an ordered list leaves it ordered, and adds
/// itself and nothing else.
proof fn lemma_put_keeps_order(list: Seq<RosterEntryView>, e: RosterEntryView)
    requires
        ordered(list),
    ensures
        ordered(put_in_order(list, e)),
        put_in_order(list, e).to_multiset() == list.to_multiset().insert(e),
{
    let p = find_place(list, e, 0);
    lemma_put_in_order(list, e, p);
    let after = list.insert(p, e);
    assert forall|i: int, j: int| 0 <= i <= j < after.len() implies entry_le(
        #[trigger] after[i],
        #[trigger] after[j],
    ) by {
        let a = if i < p { i } else { i - 1 };
        let b = if j < p { j } else { j - 1 };
        lemma_entry_order(e, e, e);
        if i != p && j != p {
            assert(after[i] == list[a] && after[j] == list[b]);
        } else if i == p && j > p {
            assert(after[j] == list[b]);
            lemma_entry_order(e, list[p], list[b]);
        } else if j == p && i < p {
            assert(after[i] == list[a]);
            assert(!entry_le(e, list[a]));
            lemma_entry_order(e, list[a], e);
        }
    }
    after.to_multiset_ensures();
    assert(after.remove(p) =~= list);
    assert(after[p] == e);
    assert(after.contains(e));
    assert(after.to_multiset() =~= list.to_multiset().insert(e));
}

/// The first place, at or after `from`, that an entry can take in a list.
proof fn find_place(list: Seq<RosterEntryView>, e: RosterEntryView, from: int) -> (p: int)
    requires
        0 <= from <= list.len(),
        forall|i: int| 0 <= i < from ==> !entry_le(e, #[trigger] list[i]),
    ensures
        0 <= p <= list.len(),
        forall|i: int| 0 <= i < p ==> !entry_le(e, #[trigger] list[i]),
        p < list.len() ==> entry_le(e, list[p]),
    decreases list.len() - from,
{
    if from == list.len() || entry_le(e, list[from]) {
        from
    } else {
        find_place(list, e, from + 1)
    }
}

proof fn lemma_in_order(list: Seq<RosterEntryView>, n: int)
    requires
        0 <= n <= list.len(),
    ensures
        ordered(in_order(list, n)),
        in_order(list, n).to_multiset() == list.subrange(0, n).to_multiset(),
    decreases n,
{
    if n > 0 {
        lemma_in_order(list, n - 1);
        lemma_put_keeps_order(in_order(list, n - 1), list[n - 1]);
        list.subrange(0, n - 1).to_multiset_ensures();
        assert(list.subrange(0, n) =~= list.subrange(0, n - 1).push(list[n - 1]));
    } else {
        assert(list.subrange(0, n) =~= Seq::<RosterEntryView>::empty());
    }
}

/// The roster is in order, and lists the connections that are to be listed,
/// each once.
pub proof fn law_roster(s: SessionView)
    ensures
        ordered(roster_of(s)),
        roster_of(s).to_multiset() == entries_of(s, s.connections.len() as int).to_multiset(),
{
    let entries = entries_of(s, s.connections.len() as int);
    lemma_in_order(entries, entries.len() as int);
    assert(entries.subrange(0, entries.len() as int) =~= entries);
}

/// The entries of the connections hold everybody who is connected.
proof fn lemma_entry_listed(s: SessionView, n: int, p: int)
    requires
        0 <= p < n <= s.connections.len(),
        s.connections[p].1.connected,
    ensures
        entries_of(s, n).contains(entry_of(s.rooms, s.connections[p].0, s.connections[p].1)),
    decreases n,
{
    let e = entry_of(s.rooms, s.connections[p].0, s.connections[p].1);
    let list = entries_of(s, n);
    let before = entries_of(s, n - 1);
    if p == n - 1 {
        assert(list[before.len() as int] == e);
    } else {
        lemma_entry_listed(s, n - 1, p);
        let j = before.index_of(e);
        assert(list[j] == e);
    }
}

/// Whoever is connected is on the roster: seated, waiting, or the host, who may
/// be neither.
pub proof fn law_connected_are_listed(s: SessionView, token: Seq<char>, m: ConnView)
    requires
        lookup(s.connections, token) == Some(m),
        m.connected,
    ensures
        roster_of(s).contains(entry_of(s.rooms, token, m)),
{
    broadcast use vstd::seq_lib::group_to_multiset_ensures;

    let n = s.connections.len() as int;
    let e = entry_of(s.rooms, token, m);
    let p = position(s.connections, token);
    lemma_position(s.connections, token);
    lemma_entry_listed(s, n, p);
    law_roster(s);
    assert(entries_of(s, n).to_multiset().count(e) > 0);
    assert(roster_of(s).to_multiset().count(e) > 0);
}

/// A guest's entry names no account; anybody else's names theirs.
pub proof fn law_roster_account(s: SessionView, token: Seq<char>, m: ConnView)
    ensures
        entry_of(s.rooms, token, m).account_id is None <==> is_guest(m.sub),
        entry_of(s.rooms, token, m).account_id matches Some(id) ==> id == m.sub,
{
}

/// A table, as the teacher's grid shows it.
#[derive(Debug)]
pub struct TableSummary {
    pub table_id: String,
    pub board_index: usize,
    pub snapshot: Snapshot,
    pub seats: SeatLabels,
    pub ready: SeatSet,
    pub result: Option<BoardResult>,
}

/// What a table summary says.
pub ghost struct TableSummaryView {
    pub table_id: Seq<char>,
    pub board_index: usize,
    pub snapshot: SnapshotView,
    pub seats: SeatLabelsView,
    pub ready: SeatSet,
    pub result: Option<BoardResult>,
}

impl View for TableSummary {
    type V = TableSummaryView;

    open spec fn view(&self) -> TableSummaryView {
        TableSummaryView {
            table_id: self.table_id@,
            board_index: self.board_index,
            snapshot: self.snapshot@,
            seats: self.seats@,
            ready: self.ready,
            result: self.result,
        }
    }
}

/// How the teacher's grid shows a table.
pub open spec fn summary_of(r: RoomView) -> TableSummaryView {
    TableSummaryView {
        table_id: r.id,
        board_index: r.state.board_index,
        snapshot: snapshot_of(r.state.table.board, r.state.table.log, false),
        seats: r.state.labels(),
        ready: r.state.ready,
        result: r.state.table.result(),
    }
}

/// A lobby member, as the teacher sees them.
#[derive(Debug)]
pub struct LobbyMember {
    pub sub: String,
    pub name: String,
    pub table_id: Option<String>,
    pub parked: bool,
}

/// What a lobby member's line says.
pub ghost struct LobbyMemberView {
    pub sub: Seq<char>,
    pub name: Seq<char>,
    pub table_id: Option<Seq<char>>,
    pub parked: bool,
}

impl View for LobbyMember {
    type V = LobbyMemberView;

    open spec fn view(&self) -> LobbyMemberView {
        LobbyMemberView {
            sub: self.sub@,
            name: self.name@,
            table_id: id_view(self.table_id),
            parked: self.parked,
        }
    }
}

/// The teacher's lobby frame: every table's seats/board/phase/tricks plus the
/// kibitzers and the roster.
#[derive(Debug)]
pub struct Lobby {
    pub session_id: String,
    pub set_label: Option<String>,
    pub loaded: bool,
    pub wait_to_seat: bool,
    pub seat_policy: String,
    pub bot_mode: BotMode,
    pub board_mode: BoardMode,
    pub bots_paused: bool,
    pub boards_total: usize,
    pub boards_open: usize,
    pub boards_index: usize,
    pub tables: Vec<TableSummary>,
    pub kibitzers: Vec<LobbyMember>,
    pub roster: Vec<RosterEntry>,
}

impl Session {
    /// Adds a seat for each table at which somebody holds it.
    fn add_held(&self, out: &mut Vec<Direction>, sub: &str, seat: Direction)
        ensures
            final(out)@ == old(out)@ + times(
                seat,
                held_count(self@.rooms, sub@, seat, self@.rooms.len() as int),
            ),
    {
        let mut i: usize = 0;
        assert(out@ =~= old(out)@ + times(seat, 0));
        while i < self.rooms.len()
            invariant
                i <= self.rooms.len(),
                out@ == old(out)@ + times(seat, held_count(self@.rooms, sub@, seat, i as int)),
            decreases self.rooms.len() - i,
        {
            assert(self@.rooms[i as int] == self.rooms@[i as int]@);
            if self.rooms[i].state.seats.is_held_by(seat, sub) {
                out.push(seat);
            }
            i = i + 1;
            assert(out@ =~= old(out)@ + times(
                seat,
                held_count(self@.rooms, sub@, seat, i as int),
            ));
        }
        assert(self@.rooms.len() == self.rooms@.len());
    }

    /// How a connection is listed.
    fn roster_entry(&self, i: usize) -> (r: RosterEntry)
        requires
            i < self@.connections.len(),
        ensures
            r@ == entry_of(
                self@.rooms,
                self@.connections[i as int].0,
                self@.connections[i as int].1,
            ),
    {
        assert(self@.connections[i as int].1 == self.connections.entries@[i as int].1@);
        let entry = &self.connections.entries[i];
        let sub = entry.1.sub.as_str();
        let mut seats: Vec<Direction> = Vec::new();
        self.add_held(&mut seats, sub, Direction::East);
        self.add_held(&mut seats, sub, Direction::North);
        self.add_held(&mut seats, sub, Direction::South);
        self.add_held(&mut seats, sub, Direction::West);
        assert(seats@ =~= lettered_seats(self@.rooms, sub@));
        let account_id = match account_id_of(sub) {
            Some(id) => Some(id.to_owned()),
            None => None,
        };
        RosterEntry {
            token: entry.0.clone(),
            name: entry.1.name.clone(),
            connected: entry.1.connected,
            seats,
            account_id,
        }
    }

    /// The shared roster: one entry per live human connection — seated,
    /// waiting, or the unseated host — keyed by opaque token. Empty `seats`
    /// = a waiter/kibitzer. This is the arrangement the host UI drags and that
    /// rides in every welcome/snapshot plus the `roster_update` event. A
    /// disconnected connection that holds NO seat has genuinely left and is
    /// dropped; one that still HOLDS a seat stays (greyed). In a stable order:
    /// name, then token as tiebreak.
    ///
    /// Entries carry `account_id` (none for guests) so the client can offer
    /// "Add friend" — see [`account_id_of`].
    pub fn roster_json(&self) -> (r: Vec<RosterEntry>)
        ensures
            views(r@) == roster_of(self@),
    {
        let mut entries: Vec<RosterEntry> = Vec::new();
        let mut i: usize = 0;
        assert(views(entries@) =~= entries_of(self@, 0));
        while i < self.connections.entries.len()
            invariant
                i <= self.connections.entries.len(),
                views(entries@) == entries_of(self@, i as int),
            decreases self.connections.entries.len() - i,
        {
            let e = self.roster_entry(i);
            let ghost before = entries@;
            let ghost shown = e@;
            if e.connected || e.seats.len() > 0 {
                entries.push(e);
                assert(views(entries@) =~= views(before).push(shown));
            }
            i = i + 1;
        }
        sort_entries(entries)
    }
}

/// Whether an entry comes no later than another.
fn comes_first(a: &RosterEntry, b: &RosterEntry) -> (r: bool)
    ensures
        r == entry_le(a@, b@),
{
    if same(a.name.as_str(), b.name.as_str()) {
        at_most(a.token.as_str(), b.token.as_str())
    } else {
        at_most(a.name.as_str(), b.name.as_str())
    }
}

/// Puts entries in order.
fn sort_entries(entries: Vec<RosterEntry>) -> (r: Vec<RosterEntry>)
    ensures
        views(r@) == in_order(views(entries@), entries@.len() as int),
{
    let mut left = entries;
    let ghost all = views(entries@);
    let mut sorted: Vec<RosterEntry> = Vec::new();
    assert(views(sorted@) =~= in_order(all, 0));
    let mut i: usize = 0;
    let n: usize = left.len();
    assert(views(left@) =~= all.subrange(0, n as int));
    while i < n
        invariant
            i <= n,
            all.len() == n,
            left@.len() == n - i,
            views(left@) == all.subrange(i as int, n as int),
            views(sorted@) == in_order(all, i as int),
        decreases n - i,
    {
        let ghost rest = left@;
        let e = left.remove(0);
        let ghost shown = e@;
        proof {
            assert(views(rest)[0] == all[i as int]);
            assert(shown == all[i as int]);
            assert(views(left@) =~= all.subrange(i + 1, n as int)) by {
                assert forall|k: int| 0 <= k < left@.len() implies views(left@)[k] == all[i + 1
                    + k] by {
                    assert(left@[k] == rest[k + 1]);
                    assert(views(rest)[k + 1] == all[i + 1 + k]);
                }
            }
        }
        let ghost before = views(sorted@);
        let mut p: usize = 0;
        while p < sorted.len() && !comes_first(&e, &sorted[p])
            invariant
                p <= sorted@.len(),
                before == views(sorted@),
                e@ == shown,
                forall|k: int| 0 <= k < p ==> !entry_le(shown, #[trigger] before[k]),
            decreases sorted.len() - p,
        {
            p = p + 1;
        }
        proof {
            lemma_put_in_order(before, shown, p as int);
        }
        sorted.insert(p, e);
        assert(views(sorted@) =~= before.insert(p as int, shown));
        i = i + 1;
    }
    sorted
}

impl Session {
    /// The teacher's lobby frame. Sent on teacher join and on any change.
    pub fn lobby_json(&self) -> (r: Lobby)
        requires
            self.wf(),
        ensures
            r.session_id@ == self@.id,
            id_view(r.set_label) == self@.label,
            r.loaded == (self@.boards.len() > 0),
            r.wait_to_seat == self@.wait_to_seat,
            r.seat_policy@ == self@.policy.name(),
            r.bot_mode == self@.bot_mode,
            r.board_mode == self@.board_mode,
            r.bots_paused == self@.bots_paused,
            r.boards_total == self@.boards.len(),
            r.boards_open == self@.open_boards,
            r.boards_index == (if self@.boards.len() == 0 {
                0
            } else {
                self@.index + 1
            }),
            r.boards_index == self@.board_shown(),
            r.tables@.len() == self@.rooms.len(),
            forall|i: int|
                0 <= i < r.tables@.len() ==> (#[trigger] r.tables@[i])@ == summary_of(
                    self@.rooms[i],
                ),
            r.kibitzers@.len() == self@.kibitzers.len(),
            forall|i: int|
                0 <= i < r.kibitzers@.len() ==> (#[trigger] r.kibitzers@[i])@ == (LobbyMemberView {
                    sub: self@.kibitzers[i].0,
                    name: self@.kibitzers[i].1.name,
                    table_id: self@.kibitzers[i].1.room_id,
                    parked: self@.kibitzers[i].1.parked,
                }),
            views(r.roster@) == roster_of(self@),
    {
        let (set_label, cur_board, total) = self.deck_status();
        let mut tables: Vec<TableSummary> = Vec::new();
        let mut i: usize = 0;
        while i < self.rooms.len()
            invariant
                self.wf(),
                i <= self.rooms.len(),
                tables@.len() == i,
                forall|j: int|
                    0 <= j < i ==> (#[trigger] tables@[j])@ == summary_of(self@.rooms[j]),
            decreases self.rooms.len() - i,
        {
            let room = &self.rooms[i];
            proof {
                assert(self@.rooms[i as int] == self.rooms@[i as int]@);
                assert(self@.room_ok(i as int, self@.rooms[i as int]));
                crate::table::lemma_wf_foldable(room.state.table);
            }
            tables.push(
                TableSummary {
                    table_id: room.id.clone(),
                    board_index: room.state.board_index,
                    snapshot: room.state.table.snapshot(false),
                    seats: room.state.seats_json(),
                    ready: room.state.ready,
                    result: room.state.table.board_result_json(),
                },
            );
            i = i + 1;
        }
        let mut kibitzers: Vec<LobbyMember> = Vec::new();
        let mut k: usize = 0;
        while k < self.kibitzers.entries.len()
            invariant
                k <= self.kibitzers.entries.len(),
                kibitzers@.len() == k,
                forall|j: int|
                    0 <= j < k ==> (#[trigger] kibitzers@[j])@ == (LobbyMemberView {
                        sub: self@.kibitzers[j].0,
                        name: self@.kibitzers[j].1.name,
                        table_id: self@.kibitzers[j].1.room_id,
                        parked: self@.kibitzers[j].1.parked,
                    }),
            decreases self.kibitzers.entries.len() - k,
        {
            let entry = &self.kibitzers.entries[k];
            assert(self@.kibitzers[k as int].1 == self.kibitzers.entries@[k as int].1@);
            kibitzers.push(
                LobbyMember {
                    sub: entry.0.clone(),
                    name: entry.1.name.clone(),
                    table_id: match &entry.1.room_id {
                        Some(id) => Some(id.clone()),
                        None => None,
                    },
                    parked: entry.1.parked,
                },
            );
            k = k + 1;
        }
        Lobby {
            session_id: self.id.clone(),
            set_label,
            loaded: total > 0,
            wait_to_seat: self.wait_to_seat,
            seat_policy: self.seat_policy.key().to_owned(),
            bot_mode: self.bot_mode,
            board_mode: self.board_mode,
            bots_paused: self.bots_paused,
            boards_total: total,
            boards_open: self.open_boards,
            boards_index: cur_board,
            tables,
            kibitzers,
            roster: self.roster_json(),
        }
    }
}

/// A connection's seats are listed by their letters, in the order of the
/// alphabet, and are those that its owner holds at some table.
pub proof fn law_seats_by_letter(rooms: Seq<RoomView>, sub: Seq<char>, seat: Direction, i: int, j: int)
    ensures
        ({
            let list = lettered_seats(rooms, sub);
            &&& list.contains(seat) <==> exists|k: int|
                0 <= k < rooms.len() && #[trigger] rooms[k].state.seats.held_by(seat, sub)
            &&& 0 <= i <= j < list.len() ==> list[i].to_char() <= list[j].to_char()
        }),
{
    let n = rooms.len() as int;
    let a = times(Direction::East, held_count(rooms, sub, Direction::East, n));
    let b = times(Direction::North, held_count(rooms, sub, Direction::North, n));
    let c = times(Direction::South, held_count(rooms, sub, Direction::South, n));
    let d = times(Direction::West, held_count(rooms, sub, Direction::West, n));
    let list = lettered_seats(rooms, sub);
    assert(list =~= a + b + c + d);
    lemma_held_count(rooms, sub, seat, n);
    if held_count(rooms, sub, seat, n) > 0 {
        match seat {
            Direction::East => {
                assert(list[0] == seat);
            },
            Direction::North => {
                assert(list[a.len() as int] == seat);
            },
            Direction::South => {
                assert(list[(a + b).len() as int] == seat);
            },
            Direction::West => {
                assert(list[(a + b + c).len() as int] == seat);
            },
        }
    }
    if list.contains(seat) {
        let k = list.index_of(seat);
        if k < a.len() {
            assert(a[k] == seat);
        } else if k < (a + b).len() {
            assert(b[k - a.len()] == seat);
        } else if k < (a + b + c).len() {
            assert(c[k - a.len() - b.len()] == seat);
        } else {
            assert(d[k - a.len() - b.len() - c.len()] == seat);
        }
    }
}

/// Somebody holds a seat at some table exactly if it is counted.
proof fn lemma_held_count(rooms: Seq<RoomView>, sub: Seq<char>, seat: Direction, n: int)
    requires
        0 <= n <= rooms.len(),
    ensures
        held_count(rooms, sub, seat, n) > 0 <==> exists|k: int|
            0 <= k < n && #[trigger] rooms[k].state.seats.held_by(seat, sub),
    decreases n,
{
    if n > 0 {
        lemma_held_count(rooms, sub, seat, n - 1);
        if rooms[n - 1].state.seats.held_by(seat, sub) {
            assert(rooms[n - 1].state.seats.held_by(seat, sub));
        } else if exists|k: int| 0 <= k < n && #[trigger] rooms[k].state.seats.held_by(seat, sub) {
            let k = choose|k: int|
                0 <= k < n && #[trigger] rooms[k].state.seats.held_by(seat, sub);
            assert(k < n - 1);
        }
    }
}

/// On the roster is every connection that is live or whose owner holds a seat,
/// with its token, its owner's name and seats; and nobody else.
pub proof fn law_who_is_listed(s: SessionView, e: RosterEntryView)
    ensures
        roster_of(s).contains(e) <==> (e.connected || e.seats.len() > 0) && exists|p: int|
            0 <= p < s.connections.len() && {
                let (token, m) = #[trigger] s.connections[p];
                &&& e.token == token && e.name == m.name && e.connected == m.connected
                &&& e.seats == lettered_seats(s.rooms, m.sub)
                &&& e.account_id == (if is_guest(m.sub) {
                    None
                } else {
                    Some(m.sub)
                })
            },
{
    broadcast use vstd::seq_lib::group_to_multiset_ensures;

    let n = s.connections.len() as int;
    law_roster(s);
    lemma_entries(s, n, e);
    let entries = entries_of(s, n);
    assert(roster_of(s).contains(e) <==> entries.contains(e)) by {
        assert(roster_of(s).to_multiset().count(e) > 0 <==> roster_of(s).contains(e));
        assert(entries.to_multiset().count(e) > 0 <==> entries.contains(e));
    }
    if entries.contains(e) {
        let p = choose|p: int|
            0 <= p < n && e == entry_of(
                s.rooms,
                (#[trigger] s.connections[p]).0,
                s.connections[p].1,
            );
        let (token, m) = s.connections[p];
        assert(e.token == token && e.name == m.name);
    }
    if (e.connected || e.seats.len() > 0) && exists|p: int|
        0 <= p < s.connections.len() && {
            let (token, m) = #[trigger] s.connections[p];
            &&& e.token == token && e.name == m.name && e.connected == m.connected
            &&& e.seats == lettered_seats(s.rooms, m.sub)
            &&& e.account_id == (if is_guest(m.sub) {
                None
            } else {
                Some(m.sub)
            })
        } {
        let p = choose|p: int|
            0 <= p < s.connections.len() && {
                let (token, m) = #[trigger] s.connections[p];
                &&& e.token == token && e.name == m.name && e.connected == m.connected
                &&& e.seats == lettered_seats(s.rooms, m.sub)
                &&& e.account_id == (if is_guest(m.sub) {
                    None
                } else {
                    Some(m.sub)
                })
            };
        assert(e =~= entry_of(s.rooms, s.connections[p].0, s.connections[p].1));
    }
}

/// The entries are those of the connections that are to be listed.
proof fn lemma_entries(s: SessionView, n: int, e: RosterEntryView)
    requires
        0 <= n <= s.connections.len(),
    ensures
        entries_of(s, n).contains(e) <==> (e.connected || e.seats.len() > 0) && exists|p: int|
            0 <= p < n && e == entry_of(
                s.rooms,
                (#[trigger] s.connections[p]).0,
                s.connections[p].1,
            ),
    decreases n,
{
    let list = entries_of(s, n);
    if n > 0 {
        lemma_entries(s, n - 1, e);
        let before = entries_of(s, n - 1);
        let last = entry_of(s.rooms, s.connections[n - 1].0, s.connections[n - 1].1);
        if list.contains(e) {
            let k = list.index_of(e);
            if k < before.len() {
                assert(before[k] == e);
                assert(before.contains(e));
            } else {
                assert(e == last);
            }
        }
        if before.contains(e) {
            let k = before.index_of(e);
            assert(list[k] == e);
        }
        if (e.connected || e.seats.len() > 0) && exists|p: int|
            0 <= p < n && e == entry_of(
                s.rooms,
                (#[trigger] s.connections[p]).0,
                s.connections[p].1,
            ) {
            let p = choose|p: int|
                0 <= p < n && e == entry_of(
                    s.rooms,
                    (#[trigger] s.connections[p]).0,
                    s.connections[p].1,
                );
            if p == n - 1 {
                assert(list[before.len() as int] == e);
            } else {
                assert(before.contains(e));
            }
        }
    }
}

/// Of two people on the roster the one whose name comes first in the alphabet is
/// listed first; of two namesakes the one whose token does.
pub proof fn law_roster_by_name(s: SessionView, i: int, j: int)
    requires
        0 <= i <= j < roster_of(s).len(),
    ensures
        ({
            let a = roster_of(s)[i];
            let b = roster_of(s)[j];
            text_le(a.name, b.name) && (a.name == b.name ==> text_le(a.token, b.token))
        }),
{
    law_roster(s);
    let a = roster_of(s)[i];
    let b = roster_of(s)[j];
    assert(entry_le(a, b));
    law_text_order(a.name, b.name, a.name);
}

/// A table's line in the lobby shows the table as its players see it: which
/// board, who sits, who is ready, and how it came out once it is complete.
pub proof fn law_summary(r: RoomView)
    ensures
        ({
            let line = summary_of(r);
            &&& line.table_id == r.id && line.board_index == r.state.board_index
            &&& line.snapshot.number == r.state.table.board.number
            &&& line.snapshot.auction == r.state.table.folded().calls
            &&& line.snapshot.phase == r.state.table.folded().phase
            &&& line.seats.north == r.state.label(Direction::North)
            &&& line.seats.east == r.state.label(Direction::East)
            &&& line.seats.south == r.state.label(Direction::South)
            &&& line.seats.west == r.state.label(Direction::West)
            &&& line.ready == r.state.ready
            &&& line.result is Some <==> line.snapshot.phase == crate::table::Phase::Complete
            &&& line.result == r.state.table.result()
        }),
{
}

} // verus!
