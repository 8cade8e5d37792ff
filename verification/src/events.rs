//! What the tables tell their connections.
//!
//! Rooms and sessions do not send anything themselves: they post notices, and
//! whoever holds the sockets delivers them, in order.

use vstd::prelude::*;

use crate::cards::{Call, Card, Direction, SeatSet};
use crate::table::BoardResult;

verus! {

/// What a bot's action came from.
#[derive(Clone, Copy, Debug, PartialEq, Eq, Structural)]
pub enum Via {
    Bba,
    Ben,
    Rules,
    Random,
    /// A bid that no backend could serve.
    Fallback,
    /// The recorded play.
    Line,
    /// A side that always passes.
    Pass,
}

impl Via {
    pub open spec fn name(self) -> Seq<char> {
        match self {
            Via::Bba => "bba"@,
            Via::Ben => "ben"@,
            Via::Rules => "rules"@,
            Via::Random => "random"@,
            Via::Fallback => "fallback"@,
            Via::Line => "line"@,
            Via::Pass => "pass"@,
        }
    }

    /// Wire name.
    pub fn as_str(&self) -> (r: &'static str)
        ensures
            r@ == self.name(),
    {
        match self {
            Via::Bba => "bba",
            Via::Ben => "ben",
            Via::Rules => "rules",
            Via::Random => "random",
            Via::Fallback => "fallback",
            Via::Line => "line",
            Via::Pass => "pass",
        }
    }
}

/// Every source goes by its own name.
pub proof fn law_via_names(a: Via, b: Via)
    ensures
        a.name() == b.name() <==> a == b,
        Via::Bba.name() == "bba"@ && Via::Ben.name() == "ben"@ && Via::Rules.name() == "rules"@,
        Via::Random.name() == "random"@ && Via::Fallback.name() == "fallback"@,
        Via::Line.name() == "line"@ && Via::Pass.name() == "pass"@,
{
    reveal_strlit("bba");
    reveal_strlit("ben");
    reveal_strlit("rules");
    reveal_strlit("random");
    reveal_strlit("fallback");
    reveal_strlit("line");
    reveal_strlit("pass");
    assert("bba"@.len() == 3 && "ben"@.len() == 3 && "rules"@.len() == 5 && "random"@.len() == 6
        && "fallback"@.len() == 8 && "line"@.len() == 4 && "pass"@.len() == 4);
    assert("bba"@[1] == 'b' && "ben"@[1] == 'e' && "line"@[0] == 'l' && "pass"@[0] == 'p');
}

/// Where the demo table's next board comes from.
#[derive(Clone, Copy, Debug, PartialEq, Eq, Structural)]
pub enum DealSource {
    Replay,
    Random,
    Pbn,
    Script,
}

impl DealSource {
    pub open spec fn name(self) -> Seq<char> {
        match self {
            DealSource::Replay => "replay"@,
            DealSource::Random => "random"@,
            DealSource::Pbn => "pbn"@,
            DealSource::Script => "script"@,
        }
    }

    /// Wire name.
    pub fn as_str(&self) -> (r: &'static str)
        ensures
            r@ == self.name(),
    {
        match self {
            DealSource::Replay => "replay",
            DealSource::Random => "random",
            DealSource::Pbn => "pbn",
            DealSource::Script => "script",
        }
    }

    /// The source that a wire name names.
    pub open spec fn named(s: Seq<char>) -> Option<DealSource> {
        if s == DealSource::Replay.name() {
            Some(DealSource::Replay)
        } else if s == DealSource::Random.name() {
            Some(DealSource::Random)
        } else if s == DealSource::Pbn.name() {
            Some(DealSource::Pbn)
        } else if s == DealSource::Script.name() {
            Some(DealSource::Script)
        } else {
            None
        }
    }

    /// The source that a wire name names.
    pub fn parse(s: &str) -> (r: Option<DealSource>)
        ensures
            r == DealSource::named(s@),
            match r {
                Some(source) => s@ == source.name(),
                None => forall|source: DealSource| s@ != #[trigger] source.name(),
            },
    {
        if crate::text::same(s, "replay") {
            Some(DealSource::Replay)
        } else if crate::text::same(s, "random") {
            Some(DealSource::Random)
        } else if crate::text::same(s, "pbn") {
            Some(DealSource::Pbn)
        } else if crate::text::same(s, "script") {
            Some(DealSource::Script)
        } else {
            None
        }
    }
}

/// Every source of boards goes by its own name, and is named by it.
pub proof fn law_deal_source_names(a: DealSource, b: DealSource)
    ensures
        a.name() == b.name() <==> a == b,
        DealSource::named(a.name()) == Some(a),
        DealSource::Replay.name() == "replay"@ && DealSource::Random.name() == "random"@,
        DealSource::Pbn.name() == "pbn"@ && DealSource::Script.name() == "script"@,
{
    reveal_strlit("replay");
    reveal_strlit("random");
    reveal_strlit("pbn");
    reveal_strlit("script");
    assert("replay"@.len() == 6 && "random"@.len() == 6 && "pbn"@.len() == 3 && "script"@.len()
        == 6);
    assert("replay"@[1] == 'e' && "random"@[1] == 'a' && "script"@[1] == 'c');
}

/// Something that happened at a table, for everybody connected to it.
#[derive(Clone, Copy, Debug, PartialEq, Eq, Structural)]
pub enum Event {
    BidMade {
        seq: usize,
        seat: Direction,
        call: Call,
        /// For a bot's call, what it came from.
        via: Option<Via>,
        next_to_act: Option<Direction>,
    },
    CardPlayed {
        seq: usize,
        seat: Direction,
        card: Card,
        /// For a bot's card, what it came from.
        via: Option<Via>,
        next_to_act: Option<Direction>,
        /// Who won the trick, if this card completed it.
        trick_winner: Option<Direction>,
        tricks_ns: u8,
        tricks_ew: u8,
    },
    BoardComplete { seq: usize, result: BoardResult },
    /// The log was rewound; the frame names who did it.
    Undo { seq: usize },
    ReadyUpdate { seq: usize, ready: SeatSet },
    /// A session's table is on another board.
    BoardAdvanced { board_no: u32, board_index: usize, forced: bool },
    /// The demo table is on another board, or on the same one again; the frame
    /// names who dealt it.
    BoardDealt { board_no: u32, source: DealSource },
    /// Somebody sat down, left or dropped; the frame lists the seats.
    SeatUpdate { seq: usize },
    /// Who is connected, or who sits where, has changed in a session; the frame
    /// carries the roster.
    RosterUpdate,
    BoardsOpen { open: usize, total: usize },
    SessionClosed,
}

impl Event {
    pub open spec fn name(self) -> Seq<char> {
        match self {
            Event::BidMade { .. } => "bid_made"@,
            Event::CardPlayed { .. } => "card_played"@,
            Event::BoardComplete { .. } => "board_complete"@,
            Event::Undo { .. } => "undo"@,
            Event::ReadyUpdate { .. } => "ready_update"@,
            Event::BoardAdvanced { .. } => "board_advanced"@,
            Event::BoardDealt { .. } => "board_advanced"@,
            Event::SeatUpdate { .. } => "seat_update"@,
            Event::RosterUpdate => "roster_update"@,
            Event::BoardsOpen { .. } => "boards_open"@,
            Event::SessionClosed => "session_closed"@,
        }
    }

    /// The event frame's `kind`.
    pub fn kind(&self) -> (r: &'static str)
        ensures
            r@ == self.name(),
    {
        match self {
            Event::BidMade { .. } => "bid_made",
            Event::CardPlayed { .. } => "card_played",
            Event::BoardComplete { .. } => "board_complete",
            Event::Undo { .. } => "undo",
            Event::ReadyUpdate { .. } => "ready_update",
            Event::BoardAdvanced { .. } => "board_advanced",
            Event::BoardDealt { .. } => "board_advanced",
            Event::SeatUpdate { .. } => "seat_update",
            Event::RosterUpdate => "roster_update",
            Event::BoardsOpen { .. } => "boards_open",
            Event::SessionClosed => "session_closed",
        }
    }
}

/// A new board is announced alike at a session's table and at the demo table;
/// any other two kinds of events go by different names.
pub proof fn law_event_names(e: Event)
    ensures
        e.name() == "bid_made"@ <==> e is BidMade,
        e.name() == "card_played"@ <==> e is CardPlayed,
        e.name() == "board_complete"@ <==> e is BoardComplete,
        e.name() == "undo"@ <==> e is Undo,
        e.name() == "ready_update"@ <==> e is ReadyUpdate,
        e.name() == "board_advanced"@ <==> e is BoardAdvanced || e is BoardDealt,
        e.name() == "seat_update"@ <==> e is SeatUpdate,
        e.name() == "roster_update"@ <==> e is RosterUpdate,
        e.name() == "boards_open"@ <==> e is BoardsOpen,
        e.name() == "session_closed"@ <==> e is SessionClosed,
{
    reveal_strlit("bid_made");
    reveal_strlit("card_played");
    reveal_strlit("board_complete");
    reveal_strlit("undo");
    reveal_strlit("ready_update");
    reveal_strlit("board_advanced");
    reveal_strlit("seat_update");
    reveal_strlit("roster_update");
    reveal_strlit("boards_open");
    reveal_strlit("session_closed");
    assert("bid_made"@.len() == 8 && "card_played"@.len() == 11 && "board_complete"@.len() == 14
        && "undo"@.len() == 4 && "ready_update"@.len() == 12 && "board_advanced"@.len() == 14
        && "seat_update"@.len() == 11 && "roster_update"@.len() == 13 && "boards_open"@.len() == 11
        && "session_closed"@.len() == 14);
    assert("card_played"@[0] == 'c' && "seat_update"@[0] == 's' && "boards_open"@[0] == 'b');
    assert("board_complete"@[6] == 'c' && "board_advanced"@[6] == 'a' && "session_closed"@[6]
        == 'n');
}

/// One thing to be delivered. Tables are named by their position in the
/// session.
#[derive(Clone, Copy, Debug, PartialEq, Eq, Structural)]
pub enum Notice {
    /// Send the event to every connection at the table.
    Event { table: usize, event: Event },
    /// Send the event to every connection in the session, at whichever table.
    Everyone { event: Event },
    /// Every connection at the table sends its own fresh snapshot. Used after
    /// undo, after the opening lead (dummy goes face up) and on a new board.
    Resync { table: usize },
    /// Start the table's bot driver, if it is not running.
    Kick { table: usize },
    /// Start the table's keepalive watchdog, if it is not running.
    Keepalive { table: usize },
    /// Lobby-relevant state changed; teachers get a fresh lobby frame.
    Lobby,
    /// Seat assignments changed; every player's connection looks up again which
    /// table and seat it belongs to.
    Recheck,
}

} // verus!
